use jamon::media::metadata::{invisible_frames_suspected, CodecType, MediaMetadata, StreamInfo, Timing, TimingPacket};
use jamon::media::probe::{
    parse_frame_row, parse_packet_row, parse_stream_row, parse_stream_rows, select_stream_rows, video_timings_by_decode,
    video_timings_by_demux, ProbeError, StreamField,
};

#[test]
fn video_and_audio_rows_are_read() {
    let v = parse_stream_row(0, "stream,0,h264,video,1080,1920,22500/751,1/22500,17.122800,0,-90").expect("valid row");
    let StreamInfo::Video(info) = v.info else { panic!("a video row") };
    assert_eq!((info.width, info.height), (1080, 1920));
    assert_eq!(info.codec_name, "h264");
    let fps = info.r_frame_rate.expect("declared rate");
    assert_eq!((fps.0.numer, fps.0.denom), (22500, 751));
    assert_eq!((info.time_base.numer, info.time_base.denom), (1, 22500));
    assert!(!info.attached_pic);
    assert_eq!(v.side_data, vec!["-90".to_string()]);

    let a = parse_stream_row(1, "stream,1,aac,audio,48000,0/0,1/48000,17.111000,0").expect("valid row");
    let StreamInfo::Audio(audio) = a.info else { panic!("an audio row") };
    assert_eq!(audio.sample_rate, 48000);
    assert_eq!(audio.duration, "17.111000");
    assert_eq!(audio.index, 1);
}

#[test]
fn broken_rows_name_the_column() {
    assert_eq!(parse_stream_row(0, "stream,0").err(), Some(ProbeError::Missing(StreamField::CodecName)));
    assert_eq!(
        parse_stream_row(0, "stream,0,h264,video,wide,1080").err(),
        Some(ProbeError::Invalid(StreamField::Width))
    );
    assert_eq!(
        parse_stream_row(0, "stream,0,h264,video,1920,1080,30/1,x,1.0,0").err(),
        Some(ProbeError::Invalid(StreamField::TimeBase))
    );
    let unknown_rate = parse_stream_row(0, "stream,0,h264,video,16,16,0/0,1/90000,N/A,1").expect("valid row");
    let StreamInfo::Video(info) = unknown_rate.info else { panic!("a video row") };
    assert!(info.r_frame_rate.is_none());
    assert!(info.attached_pic);
    assert_eq!(CodecType::from_str("subtitle"), CodecType::Other);
}

#[test]
fn last_row_per_stream_wins_in_index_order() {
    let lines = vec![
        "program,stream,0".to_string(),
        "stream,1,aac,audio,44100,0/0,1/44100,2.0".to_string(),
        "".to_string(),
        "stream,1,aac,audio,44100,0/0,1/44100,2.0,0".to_string(),
        "stream,0,h264,video,160,120,30/1,1/15360,2.0,0".to_string(),
    ];
    let rows = select_stream_rows(lines);
    assert_eq!(rows.len(), 2);
    assert_eq!(rows[0].0, 0);
    assert_eq!(rows[1], (1, "stream,1,aac,audio,44100,0/0,1/44100,2.0,0".to_string()));
    let streams = parse_stream_rows(&rows).expect("all rows valid");
    assert!(matches!(streams[1].info, StreamInfo::Audio(_)));
}

#[test]
fn packet_and_frame_rows() {
    assert_eq!(
        parse_packet_row(" 0,512,512,K_ "),
        Some((0, TimingPacket { pts: 512, duration: Some(512), key_frame: true }))
    );
    assert_eq!(parse_packet_row("0,-1024,512,KD"), None);
    assert_eq!(parse_packet_row("0,N/A,512,K"), None);
    assert_eq!(
        parse_frame_row("1,0,3000,N/A"),
        Some((1, TimingPacket { pts: 3000, duration: None, key_frame: false }))
    );
    let lines = vec!["0,0,512,K".to_string(), "junk".to_string(), "0,512,512,".to_string()];
    assert_eq!(video_timings_by_demux(&lines).len(), 2);
    let frames = vec!["0,1,0,512".to_string(), "0,0,512,512".to_string()];
    let t = video_timings_by_decode(&frames);
    assert!(t[0].1.key_frame && !t[1].1.key_frame);
}

#[test]
fn assemble_routes_packets_to_their_track() {
    let v = parse_stream_row(0, "stream,0,h264,video,160,120,30/1,1/15360,2.0,0").expect("valid row").info;
    let a = parse_stream_row(1, "stream,1,aac,audio,44100,0/0,1/44100,2.0,0").expect("valid row").info;
    let packets: Vec<(u8, TimingPacket)> = (0..3)
        .map(|i| (0u8, TimingPacket { pts: i * 512, duration: Some(512), key_frame: i == 0 }))
        .collect();
    let meta = MediaMetadata::assemble(vec![v, a], packets).expect("assembles");
    assert_eq!(meta.video.len(), 1);
    assert_eq!(meta.audio.len(), 1);
    assert_eq!(meta.stream_map, vec![(CodecType::Video, 0), (CodecType::Audio, 0)]);
    let video = &meta.video[0];
    assert_eq!(video.frame_count, 3);
    assert_eq!(video.keyframes, vec![0]);
    assert!(matches!(video.timing, Timing::Constant(_)));
    let (start, end) = video.extent();
    assert_eq!((start.0.numer, end.0.numer, end.0.denom), (0, 1, 10));
}

#[test]
fn one_tick_steps_of_vp8_suggest_invisible_frames() {
    let v = parse_stream_row(0, "stream,0,vp8,video,16,16,30/1,1/1000,1.0,0").expect("valid row").info;
    let streams = vec![v];
    let plain = vec![(0u8, TimingPacket { pts: 0, duration: None, key_frame: true }), (0u8, TimingPacket {
        pts: 33,
        duration: None,
        key_frame: false,
    })];
    assert!(!invisible_frames_suspected(&streams, &plain));
    let altref = vec![(0u8, TimingPacket { pts: 0, duration: None, key_frame: true }), (0u8, TimingPacket {
        pts: 1,
        duration: None,
        key_frame: false,
    })];
    assert!(invisible_frames_suspected(&streams, &altref));
}
