use jamon::media::metadata::{
    classify_timing, keyframe_indices, presentation_packets, time_at, Fps, MediaTime, Timing, TimingPacket,
};
use jamon::rational::{Rational, URational};

fn cfr_packets(pts: Vec<i64>, duration: Option<i64>) -> Vec<TimingPacket> {
    pts.into_iter()
        .map(|pts| TimingPacket { pts, duration, key_frame: false })
        .collect()
}

fn zero() -> MediaTime {
    MediaTime(Rational::from_integer(0))
}

fn ratio(numer: i64, denom: i64) -> Rational {
    Rational { numer, denom }
}

fn uratio(numer: u64, denom: u64) -> URational {
    URational { numer, denom }
}

#[test]
fn ntsc_rounded_to_milliseconds_classifies_as_exact_constant() {
    let fps = Fps(uratio(24000, 1001));
    let n = 60i64;
    let pts: Vec<i64> = (0..n).map(|i| (i * 1_001_000 + 12_000) / 24_000).collect();
    let (timing, end) = classify_timing(&cfr_packets(pts, None), uratio(1, 1000), Some(fps), zero())
        .expect("exact arithmetic fits");

    match timing {
        Timing::Constant(f) => assert!(f.0.same_value(&fps.0)),
        Timing::Variable(_) => panic!("NTSC stream classified as variable"),
    }
    assert!(end.0.same_value(&ratio(n * 1001, 24000)));
}

#[test]
fn exact_integer_rate_classifies_as_constant() {
    let fps = Fps(URational::from_integer(30));
    let (timing, end) = classify_timing(
        &cfr_packets((0..10).map(|i| i * 512).collect(), Some(512)),
        uratio(1, 15360),
        Some(fps),
        zero(),
    )
    .expect("exact arithmetic fits");

    match timing {
        Timing::Constant(f) => assert!(f.0.same_value(&fps.0)),
        Timing::Variable(_) => panic!("integer-rate stream classified as variable"),
    }
    assert!(end.0.same_value(&ratio(10, 30)));
}

#[test]
fn jitter_beyond_half_frame_classifies_as_variable() {
    let pts = [0i64, 100, 200, 370, 400];
    let (timing, end) = classify_timing(
        &cfr_packets(pts.to_vec(), Some(100)),
        uratio(1, 1000),
        Some(Fps(URational::from_integer(10))),
        zero(),
    )
    .expect("exact arithmetic fits");

    let Timing::Variable(timestamps) = timing else {
        panic!("jittered stream classified as constant")
    };
    assert_eq!(timestamps.len(), pts.len());
    for (t, &ms) in timestamps.iter().zip(pts.iter()) {
        assert!(t.0.same_value(&ratio(ms, 1000)));
    }
    assert!(end.0.same_value(&ratio(500, 1000)), "last pts + duration");
}

#[test]
fn missing_r_frame_rate_keeps_exact_variable_timestamps_and_duration_end() {
    let pts = vec![0i64, 33, 67, 100];
    let tb = uratio(1, 1000);

    let (timing, end) = classify_timing(&cfr_packets(pts.clone(), Some(33)), tb, None, zero())
        .expect("exact arithmetic fits");
    assert!(matches!(timing, Timing::Variable(_)));
    assert!(end.0.same_value(&ratio(133, 1000)));

    let (_, end) = classify_timing(&cfr_packets(pts, None), tb, None, zero()).expect("exact arithmetic fits");
    assert!(end.0.same_value(&ratio(100, 1000)), "no-duration fallback");
}

#[test]
fn nonzero_start_offsets_the_constant_grid() {
    let fps = Fps(URational::from_integer(30));
    let start = MediaTime(ratio(7, 5));
    let (timing, end) = classify_timing(
        &cfr_packets((0..30).map(|i| 126_000 + i * 3_000).collect(), None),
        uratio(1, 90000),
        Some(fps),
        start,
    )
    .expect("exact arithmetic fits");

    match timing {
        Timing::Constant(f) => assert!(f.0.same_value(&fps.0)),
        Timing::Variable(_) => panic!("offset stream classified as variable"),
    }
    assert!(end.0.same_value(&ratio(12, 5)));
}

#[test]
fn variable_timestamps_count_from_zero_ticks() {
    let (timing, _) = classify_timing(&cfr_packets(vec![90_000, 93_000], None), uratio(1, 90000), None, zero())
        .expect("exact arithmetic fits");
    let Timing::Variable(ts) = timing else { panic!("no declared rate must give variable timing") };
    assert!(ts[0].0.same_value(&ratio(1, 1)));
    assert!(ts[1].0.same_value(&ratio(31, 30)));
}

#[test]
fn time_at_reduces_ticks() {
    let t = time_at(3000, uratio(1, 90000)).expect("fits");
    assert!(t.0.same_value(&ratio(1, 30)));
    assert_eq!((t.0.numer, t.0.denom), (1, 30));
}

#[test]
fn from_secs_reduces_to_lowest_terms() {
    let t = MediaTime::from_secs((2, 4));
    assert_eq!((t.0.numer, t.0.denom), (1, 2));
    let n = MediaTime::from_secs((3, -6));
    assert_eq!((n.0.numer, n.0.denom), (-1, 2));
}

#[test]
fn advance_secs_adds_exactly() {
    let t = MediaTime(ratio(1, 3)).advance_secs(uratio(1, 6)).expect("fits");
    assert!(t.0.same_value(&ratio(1, 2)));
}

#[test]
fn frame_length_is_the_reciprocal_rate() {
    let l = Fps(uratio(30000, 1001)).frame_length();
    assert_eq!((l.numer, l.denom), (1001, 30000));
}

#[test]
fn presentation_order_sorts_by_pts() {
    let packets = vec![
        TimingPacket { pts: 0, duration: Some(1), key_frame: true },
        TimingPacket { pts: 3, duration: Some(1), key_frame: false },
        TimingPacket { pts: 1, duration: Some(1), key_frame: false },
        TimingPacket { pts: 2, duration: Some(1), key_frame: false },
    ];
    let out = presentation_packets(&packets);
    let pts: Vec<i64> = out.iter().map(|p| p.pts).collect();
    assert_eq!(pts, vec![0, 1, 2, 3]);
    assert!(out[0].key_frame);
}

#[test]
fn keyframes_default_to_the_first_frame() {
    let none = cfr_packets(vec![0, 1, 2], None);
    assert_eq!(keyframe_indices(&none), vec![0]);
    let mut some = cfr_packets(vec![0, 1, 2, 3], None);
    some[1].key_frame = true;
    some[3].key_frame = true;
    assert_eq!(keyframe_indices(&some), vec![1, 3]);
}

#[test]
fn time_at_overflow_is_none() {
    assert!(time_at(i64::MAX, uratio(3, 1)).is_none());
    assert!(time_at(i64::MAX, uratio(1, 1)).is_some());
}

#[test]
fn overflowing_timestamps_give_up() {
    let packets = cfr_packets(vec![0, i64::MAX], None);
    assert!(classify_timing(&packets, uratio(2, 1), None, zero()).is_none());
    let fine = cfr_packets(vec![0, 1], None);
    assert!(classify_timing(&fine, uratio(2, 1), None, zero()).is_some());
}

#[test]
fn advance_secs_overflow_is_none() {
    let t = MediaTime(ratio(i64::MAX, 1));
    assert!(t.advance_secs(uratio(1, 1)).is_none());
}
