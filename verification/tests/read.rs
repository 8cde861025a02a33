use jamon::media::metadata::{Fps, MediaTime, Resolution, Timing, VideoMetadata};
use jamon::media::read::{probed_timestamps, split_frames};
use jamon::rational::{Rational, URational};

fn at(numer: i64, denom: i64) -> MediaTime {
    MediaTime(Rational { numer, denom })
}

fn video(timing: Timing, start: MediaTime, frame_count: u32) -> VideoMetadata {
    VideoMetadata {
        resolution: Resolution { width: 2, height: 2 },
        timing,
        start,
        frame_count,
        end: at(100, 1),
        time_base: URational { numer: 1, denom: 1000 },
        keyframes: vec![0],
        stream_index: 0,
        parent_stream_index: None,
        attached_pic: false,
    }
}

fn same(a: &MediaTime, b: &MediaTime) -> bool {
    a.0.same_value(&b.0)
}

#[test]
fn split_frames_cuts_whole_frames_in_order() {
    let bytes: Vec<u8> = (0u8..16).collect();
    let frames = split_frames(&bytes, Resolution { width: 1, height: 2 }).unwrap();
    assert_eq!(frames.len(), 2);
    assert_eq!(frames[0].data, vec![0, 1, 2, 3, 4, 5, 6, 7]);
    assert_eq!(frames[1].data, vec![8, 9, 10, 11, 12, 13, 14, 15]);
    assert_eq!((frames[1].width, frames[1].height), (1, 2));
}

#[test]
fn split_frames_refuses_a_partial_frame() {
    let bytes: Vec<u8> = vec![0; 15];
    assert!(split_frames(&bytes, Resolution { width: 1, height: 2 }).is_none());
    assert_eq!(split_frames(&Vec::new(), Resolution { width: 3, height: 3 }).map(|f| f.len()), Some(0));
}

#[test]
fn probed_timestamps_steps_by_the_frame_period() {
    let v = video(Timing::Constant(Fps(URational { numer: 2, denom: 1 })), at(1, 2), 3);
    let ts = probed_timestamps(&v, 10).unwrap();
    assert_eq!(ts.len(), 3);
    assert!(same(&ts[0], &at(1, 2)));
    assert!(same(&ts[1], &at(1, 1)));
    assert!(same(&ts[2], &at(3, 2)));
    assert_eq!(probed_timestamps(&v, 2).unwrap().len(), 2);
}

#[test]
fn probed_timestamps_copies_variable_times() {
    let times = vec![at(0, 1), at(1, 10), at(3, 10)];
    let v = video(Timing::Variable(times), at(0, 1), 3);
    let ts = probed_timestamps(&v, 2).unwrap();
    assert_eq!(ts.len(), 2);
    assert!(same(&ts[0], &at(0, 1)));
    assert!(same(&ts[1], &at(1, 10)));
}
