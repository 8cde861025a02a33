use jamon::data::{DataType, DataValue, Frame, SimpleDataType, SimpleDataValue, SourceTrack};
use jamon::sketch::{self, NodeData, SketchError};
use jamon::text::{
    chars_of, format_unsigned, parse_i64, parse_u32, split_chars, text_contains, to_ascii_lower, trim_chars,
};

#[test]
fn keyframe_span_of_a_frame() {
    let t = SourceTrack::new("v.mp4".to_string(), 100, vec![0, 30, 60]);
    assert_eq!(t.find_nearest_keyframes(0), [0, 29]);
    assert_eq!(t.find_nearest_keyframes(45), [30, 59]);
    assert_eq!(t.find_nearest_keyframes(60), [60, 99]);
    assert_eq!(t.length(), 100);
    assert_eq!(t.typ(), SimpleDataType::VideoFrame);
}

#[test]
fn frames_map_every_byte() {
    let f = Frame { width: 2, height: 1, data: vec![1, 2, 3, 4, 5, 6] };
    let g = f.map(|b| b.saturating_mul(2));
    assert_eq!(g.data, vec![2, 4, 6, 8, 10, 12]);
    assert_eq!((g.width(), g.height()), (2, 1));
}

#[test]
fn values_convert_only_to_their_type() {
    assert_eq!(DataValue::integer(4).into_int().ok(), Some(4));
    assert!(DataValue::integer(4).into_float().is_err());
    assert_eq!(DataValue::string("x".to_string()).into_string().ok(), Some("x".to_string()));
    assert!(DataValue::path("p".to_string()).into_string().is_err());
    assert_eq!(SimpleDataValue::float(1.0f64.to_bits()).typ(), SimpleDataType::Float);
    assert_eq!(DataType::float().named("amount").name(), "amount");
    assert!(DataType::vframe().named("frame").is_named("frame"));
}

#[test]
fn sketch_graph_finds_its_ends() {
    let mut g = sketch::Graph::new();
    assert!(g.frame_index_input().is_ok());
    assert!(g.video_output().is_ok());
    let empty = sketch::Graph::empty();
    assert!(matches!(empty.frame_index_input(), Err(SketchError::FrameIndexUnavailable)));
    assert!(matches!(empty.video_output(), Err(SketchError::VideoOutputUnavailable)));
    let n = g.insert(NodeData::Path("in.mp4".to_string()));
    assert_eq!(g.get(n).inputs.len(), 0);
    g.set_inputs(n, vec![sketch::NodeRef(0)]);
    assert_eq!(g.get(n).inputs, vec![sketch::NodeRef(0)]);
    assert_eq!(g.outputs().len(), 1);
}

#[test]
fn text_helpers() {
    assert_eq!(parse_u32(&chars_of("42")), Some(42));
    assert_eq!(parse_u32(&chars_of("+7")), Some(7));
    assert_eq!(parse_u32(&chars_of("-7")), None);
    assert_eq!(parse_u32(&chars_of("4294967296")), None);
    assert_eq!(parse_i64(&chars_of("-90")), Some(-90));
    assert_eq!(trim_chars(&chars_of("  a b \n")), chars_of("a b"));
    assert_eq!(split_chars(&chars_of("a,,b"), ',').len(), 3);
    assert!(text_contains(&chars_of("timeline zoom in"), &chars_of("zoom")));
    assert!(!text_contains(&chars_of("zo"), &chars_of("zoom")));
    assert_eq!(to_ascii_lower(&chars_of("MiXed")), chars_of("mixed"));
    assert_eq!(format_unsigned(255, 16, 4), "00ff");
}

#[test]
fn named_bind_finds_an_input_by_name() {
    let (g, root) = jamon::graph::Graph::new(jamon::node::contrast_node());
    let frame = g.named_bind(root, "frame").expect("contrast has a frame input");
    assert_eq!(frame.node, root);
    assert_eq!(frame.bind_index, 1);
    assert!(g.named_bind(root, "missing").is_none());
}
