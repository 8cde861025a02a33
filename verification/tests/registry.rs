use jamon::media::fixtures::{all_specs, BASELINE};
use jamon::media::registry::{
    baseline_with_audio, corpus_enabled, corpus_entries, corpus_video_name, is_pinned, is_video_path,
    parse_sample_request, real_video_name, select_sample, trimmed_baseline, Kind, Registry, SampleRequest,
    TestVideo,
};

fn video(name: &str, kind: Kind) -> TestVideo {
    TestVideo { name: name.to_string(), path: format!("/fixtures/{name}.mp4"), spec: None, kind }
}

fn corpus() -> Vec<TestVideo> {
    let mut v: Vec<TestVideo> = all_specs()
        .into_iter()
        .map(|s| TestVideo {
            name: s.name.clone(),
            path: format!("/fixtures/{}", s.file_name()),
            spec: Some(s),
            kind: Kind::Synthetic,
        })
        .collect();
    v.push(video("trimmed", Kind::Derived));
    v.push(video("with_audio", Kind::Derived));
    v.push(video("real_holiday", Kind::RealWorld));
    v
}

#[test]
fn sample_requests_are_read() {
    assert_eq!(parse_sample_request(None), Ok(SampleRequest::Full));
    assert_eq!(parse_sample_request(Some("full")), Ok(SampleRequest::Full));
    assert_eq!(parse_sample_request(Some("sample:5")), Ok(SampleRequest::Sample { n: 5, seed: 0 }));
    assert_eq!(parse_sample_request(Some("sample:5:42")), Ok(SampleRequest::Sample { n: 5, seed: 42 }));
    assert!(parse_sample_request(Some("sample")).is_err());
    assert!(parse_sample_request(Some("sample:x")).is_err());
    assert!(parse_sample_request(Some("some")).is_err());
    assert!(parse_sample_request(Some("full:1")).is_err());
}

#[test]
fn full_registry_iterates_everything() {
    let videos = corpus();
    let n = videos.len();
    let registry = Registry::new("/fixtures".to_string(), videos, SampleRequest::Full);
    assert_eq!(registry.all().len(), n);
    assert_eq!(registry.all_full().len(), n);
    assert_eq!(registry.spec_backed().len(), 44);
    assert_eq!(registry.baseline().name, BASELINE);
    assert!(registry.get("nope").is_none());
    assert_eq!(trimmed_baseline(&registry), "/fixtures/trimmed.mp4");
    assert_eq!(baseline_with_audio(&registry), "/fixtures/with_audio.mp4");
    assert_eq!(registry.dir(), "/fixtures");
}

#[test]
fn samples_keep_pinned_and_real_videos() {
    let videos = corpus();
    let registry = Registry::new("/fixtures".to_string(), videos, SampleRequest::Sample { n: 3, seed: 7 });
    let sampled = registry.all();
    let pinned = sampled.iter().filter(|v| is_pinned(&v.name)).count();
    let real = sampled.iter().filter(|v| v.kind == Kind::RealWorld).count();
    assert_eq!(pinned, 6);
    assert_eq!(real, 1);
    assert_eq!(sampled.len(), 6 + 1 + 3);
    let again = Registry::new("/fixtures".to_string(), corpus(), SampleRequest::Sample { n: 3, seed: 7 });
    let names: Vec<&str> = sampled.iter().map(|v| v.name.as_str()).collect();
    let names_again: Vec<&str> = again.all().iter().map(|v| v.name.as_str()).collect();
    assert_eq!(names, names_again, "a seed decides the sample");
}

#[test]
fn selection_takes_the_first_drawable_of_the_order() {
    let videos = vec![
        video("a", Kind::Synthetic),
        video(BASELINE, Kind::Synthetic),
        video("b", Kind::Random),
        video("c", Kind::Chromium),
        video("mine", Kind::RealWorld),
    ];
    let order = vec![4, 3, 1, 0, 2];
    assert_eq!(select_sample(&videos, &order, 2), vec![0, 1, 3, 4]);
    assert_eq!(select_sample(&videos, &order, 0), vec![1, 4]);
    assert_eq!(select_sample(&videos, &order, 10), vec![0, 1, 2, 3, 4]);
}

#[test]
fn video_files_by_extension() {
    assert!(is_video_path("/home/me/clip.MKV"));
    assert!(is_video_path("a.ogv"));
    assert!(!is_video_path("notes.txt"));
    assert!(!is_video_path("mp4"));
}

#[test]
fn names_of_found_files() {
    assert_eq!(real_video_name("/home/me/holiday.mov"), "real_holiday");
    assert_eq!(corpus_video_name("bear.webm"), "chromium_bear_webm");
    assert_eq!(corpus_video_name("README"), "chromium_README_bin");
    let entries = corpus_entries(&vec!["bear.mp4".to_string(), "".to_string(), "bear.webm".to_string()]);
    assert_eq!(entries, vec![
        ("chromium_bear_mp4".to_string(), "bear.mp4".to_string()),
        ("chromium_bear_webm".to_string(), "bear.webm".to_string()),
    ]);
}

#[test]
fn corpus_switch() {
    assert_eq!(corpus_enabled(None), Ok(true));
    assert_eq!(corpus_enabled(Some("1")), Ok(true));
    assert_eq!(corpus_enabled(Some("0")), Ok(false));
    assert!(corpus_enabled(Some("yes")).is_err());
}
