use jamon::data::Frame;
use jamon::media::metadata::MediaTime;
use jamon::rational::Rational;
use jamon::operations::node_id::{encode_node_inputs, NodeId, NodeInput, SimpleValue, Value, ValueError};

fn constant_id(value: SimpleValue) -> NodeId {
    NodeId::new(&[NodeInput::Constant(value)])
}

fn text(s: &str) -> NodeInput {
    NodeInput::Constant(SimpleValue::Str(s.to_string()))
}

#[test]
fn deterministic() {
    let inputs = [NodeInput::Constant(SimpleValue::Str("./video.mp4".to_string()))];
    assert_eq!(NodeId::new(&inputs), NodeId::new(&inputs));
}

#[test]
fn float_zeroes_and_nans_collapse() {
    let pos_zero = constant_id(SimpleValue::Float(0.0f64.to_bits()));
    let neg_zero = constant_id(SimpleValue::Float(f64::from_bits(0x8000_0000_0000_0000).to_bits()));
    assert_eq!(pos_zero, neg_zero);

    let nan_a = constant_id(SimpleValue::Float(0x7FF8_0000_0000_0001));
    let nan_b = constant_id(SimpleValue::Float(0xFFF8_0000_0000_0000));
    assert_eq!(nan_a, nan_b);
    assert_ne!(pos_zero, nan_a);
}

#[test]
fn time_rationals_canonicalize() {
    let half = constant_id(SimpleValue::Time(MediaTime::from_secs((1i64, 2i64))));
    let two_fourths = constant_id(SimpleValue::Time(MediaTime::from_secs((2i64, 4i64))));
    assert_eq!(half, two_fourths);
}

#[test]
fn times_written_in_other_terms_get_the_same_id() {
    let half = [NodeInput::Constant(SimpleValue::Time(MediaTime(Rational { numer: 1, denom: 2 })))];
    let minus_half = [NodeInput::Constant(SimpleValue::Time(MediaTime(Rational { numer: -6, denom: 12 })))];
    let also = [NodeInput::Constant(SimpleValue::Time(MediaTime(Rational { numer: 3, denom: 6 })))];
    assert_eq!(encode_node_inputs(&half), encode_node_inputs(&also));
    assert_eq!(NodeId::new(&half), NodeId::new(&also));
    assert_ne!(NodeId::new(&half), NodeId::new(&minus_half));
    let bytes = encode_node_inputs(&also);
    assert_eq!(&bytes[bytes.len() - 16..], &[1, 0, 0, 0, 0, 0, 0, 0, 2, 0, 0, 0, 0, 0, 0, 0]);
}

#[test]
fn distinct_types_and_tags() {
    let boolean = constant_id(SimpleValue::Bool(true));
    let int = constant_id(SimpleValue::Int(1i64));
    let float = constant_id(SimpleValue::Float(1.0f64.to_bits()));
    assert_ne!(boolean, int);
    assert_ne!(int, float);
    assert_ne!(boolean, float);

    let node = NodeId::new(&[NodeInput::Node(NodeId(1))]);
    assert_ne!(node, int);
}

#[test]
fn prefix_free() {
    let whole = NodeId::new(&[text("abc")]);
    let split_one = NodeId::new(&[text("ab"), text("c")]);
    let split_two = NodeId::new(&[text("a"), text("bc")]);
    assert_ne!(whole, split_one);
    assert_ne!(split_one, split_two);
    assert_ne!(whole, split_two);
}

#[test]
fn order_matters() {
    assert_ne!(NodeId::new(&[text("a"), text("b")]), NodeId::new(&[text("b"), text("a")]));
}

#[test]
fn interner_independent() {
    let first = String::from("./video.mp4");
    let second: String = ['.', '/', 'v', 'i', 'd', 'e', 'o', '.', 'm', 'p', '4'].iter().collect();
    assert_eq!(
        NodeId::new(&[NodeInput::Constant(SimpleValue::Str(first))]),
        NodeId::new(&[NodeInput::Constant(SimpleValue::Str(second))]),
    );
}

#[test]
fn golden_vector() {
    let id = NodeId::new(&[
        NodeInput::Constant(SimpleValue::Str("./sample.mp4".to_string())),
        NodeInput::Constant(SimpleValue::Float(1.5f64.to_bits())),
        NodeInput::Node(NodeId(0xDEAD_BEEF)),
    ]);
    assert_eq!(id.0, 0x8CCA_4390_7E93_9554);
}

#[test]
fn encoding_is_tagged_and_length_prefixed() {
    let bytes = encode_node_inputs(&[text("ab")]);
    let mut expected = vec![1u8];
    expected.extend_from_slice(&1u64.to_le_bytes());
    expected.push(0);
    expected.push(4);
    expected.extend_from_slice(&2u64.to_le_bytes());
    expected.extend_from_slice(b"ab");
    assert_eq!(bytes, expected);
}

#[test]
fn as_node_names_only_nodes() {
    assert_eq!(NodeInput::Node(NodeId(7)).as_node(), Some(NodeId(7)));
    assert_eq!(text("x").as_node(), None);
}

#[test]
fn value_conversions_check_the_variant() {
    let f = Frame { width: 1, height: 1, data: vec![1, 2, 3] };
    assert!(Value::Frame(f).to_frame().is_ok());
    assert!(matches!(Value::Simple(SimpleValue::Int(3)).to_frame(), Err(ValueError::NotAFrame)));
    assert_eq!(Value::Simple(SimpleValue::Float(2.5f64.to_bits())).to_float().ok(), Some(2.5f64.to_bits()));
    assert!(matches!(Value::Simple(SimpleValue::Bool(true)).to_float(), Err(ValueError::NotAFloat)));
    assert_eq!(Value::Simple(SimpleValue::Str("s".to_string())).to_str().ok(), Some("s".to_string()));
    assert!(matches!(Value::Simple(SimpleValue::Int(1)).to_str(), Err(ValueError::NotAString)));
}
