use jamon::data::Frame;
use jamon::media::encode::{codec_args, encoder_listed, output_args, pgm_bytes, setpts_filter_text, vfr_prefix_millis};
use jamon::media::fixtures::{all_specs, base, fps_tag, Codec, Container, PixFmt, Timing, BASELINE, FRAMES};
use jamon::media::generation::{duration_millis, format_seconds_signed, gcd, mp4_timescale, GenerationError};
use jamon::media::metadata::{MediaTime, Resolution};
use jamon::media::random::{clip_seed, random_specs, spec_from_draws};
use jamon::media::stamp::{recover_index, stamp, StampError};
use jamon::rational::{Rational, URational};

fn uratio(numer: u64, denom: u64) -> URational {
    URational { numer, denom }
}

#[test]
fn matrix_names_are_unique_and_pinned_clips_are_there() {
    let specs = all_specs();
    assert_eq!(specs.len(), 44);
    for (i, a) in specs.iter().enumerate() {
        for b in &specs[i + 1..] {
            assert_ne!(a.name, b.name, "duplicate names");
        }
    }
    for name in [BASELINE, "h264_420p_g250_30", "vfr_h264", "h264_bf2", "h264_bf2_offset", "h264_bf2_ts"] {
        assert!(specs.iter().any(|s| s.name == name), "{name} missing");
    }
    assert!(specs.iter().all(|s| s.frames == FRAMES));
}

#[test]
fn base_clip_is_named_after_its_parameters() {
    let s = base(Codec::Hevc, 12, true, PixFmt::Yuv444p);
    assert_eq!(s.name, "hevc_444p_g12_ntsc");
    assert_eq!(s.container, Container::Mp4);
    assert_eq!(s.file_name(), "hevc_444p_g12_ntsc.mp4");
    assert_eq!(base(Codec::H264, 12, false, PixFmt::Yuv420p).name, BASELINE);
}

#[test]
fn rate_labels() {
    assert_eq!(fps_tag(uratio(30, 1)), "30");
    assert_eq!(fps_tag(uratio(24000, 1001)), "ntsc");
    assert_eq!(fps_tag(uratio(30000, 1001)), "30000-1001");
}

#[test]
fn baseline_timestamps_follow_the_rate() {
    let s = base(Codec::H264, 12, false, PixFmt::Yuv420p);
    let t = s.timestamp_of(3).expect("fits");
    assert!(t.0.same_value(&Rational { numer: 1, denom: 10 }));
    let (start, end) = s.extent().expect("fits");
    assert!(start.0.same_value(&Rational::from_integer(0)));
    assert!(end.0.same_value(&Rational::from_integer(2)));
}

#[test]
fn random_clips_are_named_by_seed_and_index() {
    let specs = random_specs(0x6A5A_9AC0, 3);
    assert_eq!(specs.len(), 3);
    assert_eq!(specs[0].name, "rand_000000006a5a9ac0_00");
    assert_eq!(specs[2].name, "rand_000000006a5a9ac0_02");
}

#[test]
fn stamp_spells_the_index_in_blocks() {
    let f = stamp(Resolution { width: 8, height: 8 }, 0b1000_0000_0000_0001);
    assert_eq!(f.data.len(), 8 * 8 * 4);
    let px = |x: usize, y: usize| f.data[4 * (y * 8 + x)];
    assert_eq!(px(0, 0), 255);
    assert_eq!(px(2, 0), 0);
    assert_eq!(px(7, 7), 255);
    assert_eq!(px(6, 6), 255);
    assert_eq!(px(5, 7), 0);
    assert!(f.data.chunks(4).all(|p| p[3] == 255));
}

#[test]
fn gcd_and_timescale() {
    assert_eq!(gcd(1000, 30), 10);
    assert_eq!(gcd(7, 0), 7);
    assert_eq!(mp4_timescale(30), Some(3000));
    assert_eq!(mp4_timescale(24000), Some(24000));
    assert_eq!(mp4_timescale(0), None);
}

#[test]
fn durations_in_whole_milliseconds() {
    assert_eq!(duration_millis(uratio(1, 30)), Err(GenerationError::NotWholeMillisecond));
    assert_eq!(duration_millis(uratio(33, 1000)), Ok(33));
    assert_eq!(duration_millis(uratio(1, 2)), Ok(500));
}

#[test]
fn seconds_are_written_exactly() {
    assert_eq!(format_seconds_signed(Rational { numer: 7, denom: 5 }), Ok("1.400000".to_string()));
    assert_eq!(format_seconds_signed(Rational { numer: -1, denom: 4 }), Ok("-0.250000".to_string()));
    assert_eq!(format_seconds_signed(Rational { numer: -3, denom: 2 }), Ok("-1.500000".to_string()));
    assert_eq!(format_seconds_signed(Rational { numer: -7, denom: 10 }), Ok("-0.700000".to_string()));
    assert_eq!(format_seconds_signed(Rational { numer: 7, denom: 10 }), Ok("0.700000".to_string()));
    assert_eq!(format_seconds_signed(Rational { numer: 1, denom: 3 }), Err(GenerationError::NotWholeMicrosecond));
}

#[test]
fn encoder_options_of_the_baseline() {
    let s = base(Codec::H264, 12, false, PixFmt::Yuv420p);
    let args = codec_args(&s);
    let expected = [
        "-c:v", "libx264", "-preset", "ultrafast", "-crf", "18", "-g", "12", "-keyint_min", "12", "-bf", "0",
        "-x264-params", "scenecut=0", "-pix_fmt", "yuv420p",
    ];
    assert_eq!(args, expected);
    let h = codec_args(&base(Codec::Hevc, 250, false, PixFmt::Yuv420p));
    assert_eq!(h[7], "keyint=250:min-keyint=250:scenecut=0:bframes=0:log-level=error");
    assert_eq!(codec_args(&base(Codec::Ffv1, 1, false, PixFmt::Yuv444p)), [
        "-c:v", "ffv1", "-level", "3", "-g", "1", "-pix_fmt", "yuv444p",
    ]);
}

#[test]
fn container_options() {
    let mut s = base(Codec::H264, 12, false, PixFmt::Yuv420p);
    assert_eq!(output_args(&s), Ok(vec!["-video_track_timescale".to_string(), "3000".to_string()]));
    s.container = Container::MpegTs;
    s.start_offset = MediaTime(Rational { numer: 7, denom: 5 });
    assert_eq!(
        output_args(&s),
        Ok(vec![
            "-muxdelay".to_string(),
            "0".to_string(),
            "-muxpreload".to_string(),
            "0".to_string(),
            "-output_ts_offset".to_string(),
            "1.400000".to_string(),
        ])
    );
    s.start_offset = MediaTime(Rational { numer: 1, denom: 3 });
    assert_eq!(output_args(&s), Err(GenerationError::NotWholeMicrosecond));
}

#[test]
fn an_offset_too_large_for_microseconds_overflows() {
    let mut s = base(Codec::H264, 12, false, PixFmt::Yuv420p);
    s.start_offset = MediaTime(Rational { numer: i64::MAX, denom: 1 });
    assert_eq!(output_args(&s), Err(GenerationError::Overflow));
    s.start_offset = MediaTime(Rational { numer: 3, denom: 2 });
    assert_eq!(output_args(&s), Ok(vec!["-video_track_timescale".to_string(), "3000".to_string(),
        "-output_ts_offset".to_string(), "1.500000".to_string()]));
}

#[test]
fn variable_rate_timestamps() {
    let durations = vec![uratio(33, 1000), uratio(1, 20), uratio(1, 10)];
    let prefix = vfr_prefix_millis(&durations).expect("whole milliseconds");
    assert_eq!(prefix, vec![0, 33, 83, 183]);
    assert_eq!(
        setpts_filter_text(&prefix),
        "settb=1/1000,setpts=eq(N\\,0)*0+eq(N\\,1)*33+eq(N\\,2)*83+eq(N\\,3)*183"
    );
    assert_eq!(vfr_prefix_millis(&vec![uratio(1, 30)]), Err(GenerationError::NotWholeMillisecond));
    match base(Codec::H264, 12, false, PixFmt::Yuv420p).timing {
        Timing::Cfr { fps } => assert_eq!((fps.numer, fps.denom), (30, 1)),
        Timing::Vfr { .. } => panic!("the baseline has a constant rate"),
    }
}

#[test]
fn grayscale_images_take_the_first_channel() {
    let f = Frame { width: 2, height: 1, data: vec![10, 0, 0, 255, 20, 0, 0, 255] };
    let (header, pixels) = pgm_bytes(&f);
    assert_eq!(header, "P5\n2 1\n255\n");
    assert_eq!(pixels, vec![10, 20]);
}

#[test]
fn encoders_are_found_in_the_listing() {
    let lines = vec![
        "Encoders:".to_string(),
        " V..... = Video".to_string(),
        " ------".to_string(),
        " V....D libx264              libx264 H.264 / AVC".to_string(),
        " V....D\tffv1 FFmpeg video codec #1".to_string(),
    ];
    assert!(encoder_listed(&lines, "libx264"));
    assert!(encoder_listed(&lines, "ffv1"));
    assert!(!encoder_listed(&lines, "libx265"));
    assert!(encoder_listed(&lines, "="));
}

#[test]
fn random_clip_names_never_repeat() {
    let specs = random_specs(7, 12);
    for (i, a) in specs.iter().enumerate() {
        assert!(a.name.starts_with("rand_0000000000000007_"));
        for b in &specs[i + 1..] {
            assert_ne!(a.name, b.name);
        }
    }
    assert!(all_specs().iter().all(|m| specs.iter().all(|r| r.name != m.name)));
}

#[test]
fn smallest_stamps_still_differ() {
    let res = Resolution { width: 4, height: 4 };
    let a = stamp(res, 6);
    let b = stamp(res, 7);
    assert_ne!(a.data, b.data);
    assert_eq!(a.data[4 * 15], 0);
    assert_eq!(b.data[4 * 15], 255);
}

#[test]
fn stamp_roundtrips_in_memory() {
    let res = Resolution { width: 160, height: 120 };
    for index in [0, 1, 42, 0x5555, 0xAAAA, 0xFFFF] {
        let stamped_frame = stamp(res, index);
        assert_eq!(recover_index(&stamped_frame).unwrap(), index);
    }
}

#[test]
fn gray_stamp_is_read_from_one_channel() {
    let f = stamp(Resolution { width: 16, height: 12 }, 0x1234);
    let gray = Frame { width: 16, height: 12, data: f.data.chunks(4).map(|p| p[0]).collect() };
    assert_eq!(recover_index(&gray), Ok(0x1234));
}

#[test]
fn mid_gray_block_is_ambiguous() {
    let gray = Frame { width: 8, height: 8, data: vec![128; 64] };
    assert_eq!(recover_index(&gray), Err(StampError::Ambiguous { row: 0, col: 0 }));
    let dim = Frame { width: 8, height: 8, data: vec![63; 64] };
    assert_eq!(recover_index(&dim), Ok(0));
    let bright = Frame { width: 8, height: 8, data: vec![192; 64] };
    assert_eq!(recover_index(&bright), Ok(0xFFFF));
}

#[test]
fn empty_frame_has_no_block_to_read() {
    let empty = Frame { width: 0, height: 0, data: Vec::new() };
    assert_eq!(recover_index(&empty), Err(StampError::EmptyBlock { row: 0, col: 0 }));
}

#[test]
fn narrow_stamp_samples_the_neighbouring_block() {
    // At 5 pixels wide the centre of block column 1 falls in column 0.
    let f = stamp(Resolution { width: 5, height: 4 }, 0x4000);
    assert_eq!(recover_index(&f), Ok(0x2000));
}

#[test]
fn drawn_values_make_the_clip() {
    let ts = spec_from_draws(7, 3, Codec::H264, Container::MpegTs, PixFmt::Yuv420p, 20, 15, 30, false, 4, &vec![], true, 250, 2, 12);
    assert_eq!(ts.name, "rand_0000000000000007_03");
    assert_eq!((ts.resolution.width, ts.resolution.height), (40, 30));
    match &ts.timing {
        Timing::Cfr { fps } => assert_eq!((fps.numer, fps.denom), (24000, 1001)),
        Timing::Vfr { .. } => panic!("MPEG-TS clips have a constant rate"),
    }
    assert_eq!((ts.start_offset.0.numer, ts.start_offset.0.denom), (1, 4));
    assert_eq!(ts.bframes, 2);
    assert_eq!(ts.gop, 12);

    let vfr = spec_from_draws(7, 4, Codec::Hevc, Container::Mkv, PixFmt::Yuv444p, 16, 12, 2, false, 0, &vec![40, 50], true, 250, 3, 1);
    match &vfr.timing {
        Timing::Vfr { durations } => {
            assert_eq!(durations.len(), 2);
            assert_eq!((durations[0].numer, durations[0].denom), (1, 25));
            assert_eq!((durations[1].numer, durations[1].denom), (1, 20));
        },
        Timing::Cfr { .. } => panic!("no constant rate was drawn"),
    }
    assert_eq!((vfr.start_offset.0.numer, vfr.start_offset.0.denom), (0, 1));
    assert_eq!(vfr.bframes, 0);
}

#[test]
fn more_random_clips_keep_the_earlier_ones() {
    assert_eq!(clip_seed(5, 3), 6);
    let few = random_specs(0x1234, 3);
    let more = random_specs(0x1234, 6);
    for (a, b) in few.iter().zip(more.iter()) {
        assert_eq!(a.name, b.name);
        assert_eq!((a.codec, a.container, a.pix_fmt), (b.codec, b.container, b.pix_fmt));
        assert_eq!((a.frames, a.gop, a.bframes), (b.frames, b.gop, b.bframes));
        assert_eq!(a.resolution, b.resolution);
        assert_eq!((a.start_offset.0.numer, a.start_offset.0.denom), (b.start_offset.0.numer, b.start_offset.0.denom));
    }
}
