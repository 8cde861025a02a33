use jamon::data::{DataValue, SimpleDataValue};
use jamon::engine::graph::{Graph, NodeRef, PortRef};
use jamon::engine::node::{const_node, contrast_node, node_by_id, registered_ids, video_source_node, Node, NodeId};
use jamon::engine::plan::{RenderError, Step, TargetError};
use jamon::node::Builtin;

#[test]
fn round_trip() {
    for id in registered_ids() {
        let (node, _) = node_by_id(id).expect("registered");
        let deserialized = Node::from_repr(node.to_repr()).expect("known id");
        assert_eq!(deserialized, node);
    }

    for value in [
        SimpleDataValue::integer(5),
        SimpleDataValue::float(5.0f64.to_bits()),
        SimpleDataValue::float(0.0f64.to_bits()),
        SimpleDataValue::float((-0.0f64).to_bits()),
        SimpleDataValue::string("hello world".into()),
    ] {
        let node = const_node(value);
        let deserialized = Node::from_repr(node.to_repr()).expect("constants always restore");
        assert_eq!(deserialized, node);
    }
}

#[test]
fn unknown_ids_are_refused() {
    assert!(node_by_id("blur").is_none());
    assert!(NodeId::from_name("blur").is_err());
    assert!(NodeId::from_name("const").is_ok());
    assert_eq!(NodeId::from_name("contrast").ok().map(|id| id.0), Some("contrast"));
}

#[test]
fn named_ports_are_found_by_position() {
    let c = contrast_node();
    assert_eq!(c.get_named_input_port_position("frame"), Some(1));
    assert_eq!(c.get_named_input_port_position("gamma"), None);
    let v = video_source_node();
    assert_eq!(v.get_named_output_port_position("fps"), Some(1));
    assert_eq!(v.id().0, "video-source");
}

#[test]
fn plan_runs_inputs_before_their_consumer() {
    let mut g = Graph::<()>::new();
    let source = g.insert_node(video_source_node());
    let contrast = g.insert_node(contrast_node());
    g.set_input(PortRef { node: source, port_index: 0 }, SimpleDataValue::string("in.mp4".into()));
    g.set_input(PortRef { node: contrast, port_index: 0 }, SimpleDataValue::float(1.5f64.to_bits()));
    g.set_input(PortRef { node: contrast, port_index: 1 }, PortRef { node: source, port_index: 0 });
    let out = PortRef { node: contrast, port_index: 0 };
    g.set_output(out);
    assert!(g.check_acyclic());

    let plan = g.render_plan(out);
    assert_eq!(plan.error, None);
    let ports: Vec<PortRef> = plan
        .steps
        .iter()
        .map(|s| match s {
            Step::Const { port, .. } => *port,
            Step::Run { port, .. } => *port,
        })
        .collect();
    assert_eq!(ports.last(), Some(&out));
    let source_pos = ports.iter().position(|p| *p == PortRef { node: source, port_index: 0 });
    let contrast_pos = ports.iter().position(|p| *p == out);
    assert!(source_pos.expect("source runs") < contrast_pos.expect("contrast runs"));
    match &plan.steps[plan.steps.len() - 1] {
        Step::Run { builtin, inputs, .. } => {
            assert_eq!(*builtin, Builtin::Contrast);
            assert_eq!(inputs.len(), 2);
        },
        Step::Const { .. } => panic!("contrast is not a constant"),
    }

    assert_eq!(g.render_target(), Err(TargetError::NoFpsPort));
}

#[test]
fn unset_input_is_reported() {
    let mut g = Graph::<()>::new();
    let contrast = g.insert_node(contrast_node());
    let out = PortRef { node: contrast, port_index: 0 };
    let plan = g.render_plan(out);
    assert_eq!(plan.error, Some(RenderError::UnsetInput(out)));
    assert!(plan.steps.is_empty());
}

#[test]
fn no_output_no_target() {
    let g = Graph::<()>::new();
    assert_eq!(g.render_target(), Err(TargetError::NoOutput));
}

#[test]
fn cycles_are_detected() {
    let mut g = Graph::<()>::new();
    let a = g.insert_node(contrast_node());
    let b = g.insert_node(contrast_node());
    g.set_input(PortRef { node: a, port_index: 1 }, PortRef { node: b, port_index: 0 });
    g.set_input(PortRef { node: b, port_index: 1 }, PortRef { node: a, port_index: 0 });
    assert!(!g.check_acyclic());
}

#[test]
fn cache_reads_back_what_was_written() {
    let mut g = Graph::<()>::new();
    let n = g.insert_node(const_node(SimpleDataValue::integer(3)));
    let p = PortRef { node: n, port_index: 0 };
    let q = PortRef { node: NodeRef(9), port_index: 0 };
    assert!(g.cached_value(p).is_none());
    g.cache_value(p, DataValue::Simple(SimpleDataValue::integer(3)));
    g.cache_value(q, DataValue::Simple(SimpleDataValue::integer(4)));
    g.cache_value(p, DataValue::Simple(SimpleDataValue::integer(5)));
    match g.cached_value(p) {
        Some(DataValue::Simple(v)) => assert!(v.equals(&SimpleDataValue::integer(5))),
        _ => panic!("value was cached"),
    }
    match g.cached_value(q) {
        Some(DataValue::Simple(v)) => assert!(v.equals(&SimpleDataValue::integer(4))),
        _ => panic!("value was cached"),
    }
}

#[test]
fn constant_binding_places_a_node() {
    let mut g = Graph::<()>::new();
    let c = g.insert_node(contrast_node());
    g.set_input(PortRef { node: c, port_index: 0 }, SimpleDataValue::float(2.0f64.to_bits()));
    assert_eq!(g.nodes().len(), 2);
    assert_eq!(g.get(c).get_named_input_port("amount"), Some(PortRef { node: NodeRef(1), port_index: 0 }));
    assert_eq!(g.get(c).get_named_input_port("frame"), None);
}

#[test]
fn dangling_bindings_are_not_acyclic() {
    let mut g = Graph::<()>::new();
    let a = g.insert_node(contrast_node());
    g.set_input(PortRef { node: a, port_index: 1 }, PortRef { node: NodeRef(99), port_index: 0 });
    assert!(!g.check_acyclic());
    let mut ok = Graph::<()>::new();
    ok.insert_node(contrast_node());
    assert!(ok.check_acyclic());
}

#[test]
fn a_cycle_the_port_does_not_reach_leaves_it_renderable() {
    let mut g = Graph::<()>::new();
    let a = g.insert_node(contrast_node());
    let b = g.insert_node(contrast_node());
    g.set_input(PortRef { node: a, port_index: 1 }, PortRef { node: b, port_index: 0 });
    g.set_input(PortRef { node: b, port_index: 1 }, PortRef { node: a, port_index: 0 });
    let source = g.insert_node(video_source_node());
    g.set_input(PortRef { node: source, port_index: 0 }, SimpleDataValue::string("in.mp4".into()));
    let out = PortRef { node: source, port_index: 0 };
    assert!(!g.check_acyclic());
    assert!(g.check_acyclic_from(out));
    assert!(!g.check_acyclic_from(PortRef { node: a, port_index: 0 }));
    let plan = g.render_plan(out);
    assert_eq!(plan.error, None);
    assert_eq!(plan.steps.len(), 2);
}
