use jamon::media::metadata::{Fps, MediaTime, Resolution};
use jamon::media::read::ResolutionRequest;
use jamon::operations::node_id::{Extent, NodeId, NodeInput, SimpleValue};
use jamon::operations::ops::{
    bind_arguments, concat_extent, concat_fps, concat_resolution, concat_route, ArgError, BindError, Concat, ConcatError,
    Contrast, Load, Op, Side,
};
use jamon::operations::request::{Request, RequestDeps, Signature};
use jamon::rational::{Rational, URational};
use jamon::render::{NodeCache, RenderClock};

fn secs(n: i64, d: i64) -> MediaTime {
    MediaTime(Rational { numer: n, denom: d })
}

fn arg(v: i64) -> Result<NodeInput, ArgError> {
    Ok(NodeInput::Constant(SimpleValue::Int(v)))
}

fn int_of(i: &NodeInput) -> Option<i64> {
    match i {
        NodeInput::Constant(SimpleValue::Int(v)) => Some(*v),
        _ => None,
    }
}

#[test]
fn signatures_find_parameters() {
    let sig = Contrast::signature();
    assert_eq!(sig.len(), 2);
    assert!(!sig.is_empty());
    assert_eq!(sig.index_of("amount"), Some(1));
    assert_eq!(sig.index_of("gamma"), None);
    assert_eq!(Signature::new(&[]).len(), 0);
    assert_eq!(Load::name(), "load");
    assert_eq!(Concat::signature().index_of("b"), Some(1));
}

#[test]
fn arguments_bind_by_position_and_name() {
    let sig = Concat::signature();
    let bound = bind_arguments(&sig, vec![(None, arg(1)), (None, arg(2))]).expect("binds");
    assert_eq!(bound.iter().map(int_of).collect::<Vec<_>>(), vec![Some(1), Some(2)]);
    let bound = bind_arguments(&sig, vec![(Some("b".to_string()), arg(2)), (None, arg(1))]).expect("binds");
    assert_eq!(bound.iter().map(int_of).collect::<Vec<_>>(), vec![Some(1), Some(2)]);
    let unknown = bind_arguments(&sig, vec![(Some("c".to_string()), arg(2))]);
    assert!(matches!(unknown, Err(BindError::UnknownName)));
    let failed = bind_arguments(&sig, vec![(None, Err(ArgError("bad".to_string()))), (None, arg(2))]);
    assert!(matches!(failed, Err(BindError::Arg(ArgError(m))) if m == "bad"));
}

#[test]
fn operations_load_by_name() {
    let path = Ok(NodeInput::Constant(SimpleValue::Str("in.mp4".to_string())));
    match Op::try_load("load", vec![(None, path)]) {
        Ok(Some(Op::Load(l))) => assert!(matches!(l.path(), NodeInput::Constant(SimpleValue::Str(s)) if s == "in.mp4")),
        _ => panic!("load is an operation"),
    }
    assert!(matches!(Op::try_load("blur", vec![]), Ok(None)));
    let op = Op::try_load("contrast", vec![(None, arg(1)), (None, arg(2))]).expect("binds").expect("known");
    assert_eq!(op.inputs().len(), 2);
    assert_eq!(op.deps().bits, 0);
}

#[test]
fn request_dependencies() {
    let both = RequestDeps::time().union(RequestDeps::resolution());
    assert!(both.contains(RequestDeps::time()));
    assert!(!RequestDeps::time().contains(both));
    let r = Request { time: secs(3, 2), resolution: Resolution { width: 4, height: 3 } };
    let only_time = r.select(RequestDeps::time());
    assert!(only_time.time.0.same_value(&Rational { numer: 3, denom: 2 }));
    assert_eq!(only_time.resolution, Resolution { width: 0, height: 0 });
    let s = Request::sentinel();
    assert_eq!(s.resolution, Resolution { width: 0, height: 0 });
}

#[test]
fn concatenation_routes_by_time() {
    let a = Extent::new(secs(0, 1), secs(2, 1)).expect("ordered");
    let b = Extent::new(secs(10, 1), secs(13, 1)).expect("ordered");
    let req = |t: MediaTime| Request { time: t, resolution: Resolution { width: 1, height: 1 } };
    let (side, to) = concat_route(a, req(secs(1, 1))).expect("fits");
    assert_eq!(side, Side::A);
    assert!(to.time.0.same_value(&Rational { numer: 1, denom: 1 }));
    let (side, to) = concat_route(a, req(secs(5, 2))).expect("fits");
    assert_eq!(side, Side::B);
    assert!(to.time.0.same_value(&Rational { numer: 1, denom: 2 }));
    let e = concat_extent(a, b).expect("fits");
    assert!(e.end.0.same_value(&Rational { numer: 5, denom: 1 }));
    assert!(e.contains(secs(4, 1)));
    assert!(!e.contains(secs(5, 1)));
    assert!(Extent::new(secs(3, 1), secs(1, 1)).is_none());
}

#[test]
fn concatenation_needs_matching_streams() {
    let r = Resolution { width: 2, height: 2 };
    assert_eq!(concat_resolution(r, r), Ok(r));
    assert_eq!(concat_resolution(r, Resolution { width: 2, height: 3 }), Err(ConcatError::DifferentResolutions));
    let f30 = Fps(URational { numer: 30, denom: 1 });
    let f60_2 = Fps(URational { numer: 60, denom: 2 });
    assert!(matches!(concat_fps(Some(f30), Some(f60_2)), Ok(Some(_))));
    assert!(matches!(concat_fps(Some(f30), Some(Fps(URational { numer: 25, denom: 1 }))), Err(ConcatError::DifferentFps)));
    assert!(matches!(concat_fps(None, None), Ok(None)));
}

#[test]
fn render_clock_ticks_through_the_extent() {
    let ext = Extent::new(secs(0, 1), secs(1, 10)).expect("ordered");
    let mut clock = RenderClock::new(ext, Fps(URational { numer: 30, denom: 1 }));
    let mut n = 0;
    while let Some(t) = clock.tick() {
        assert!(t.0.same_value(&Rational { numer: n, denom: 30 }));
        n += 1;
    }
    assert_eq!(n, 3);
}

#[test]
fn node_cache_reads_back_writes() {
    let mut c: NodeCache<u32> = NodeCache::new();
    assert_eq!(c.get(NodeId(1)), None);
    c.insert(NodeId(1), 10);
    c.insert(NodeId(2), 20);
    c.insert(NodeId(1), 11);
    assert_eq!(c.get(NodeId(1)), Some(11));
    assert_eq!(c.get(NodeId(2)), Some(20));
}

#[test]
fn downsampling_never_reaches_zero() {
    let native = Resolution { width: 160, height: 2 };
    assert_eq!(ResolutionRequest::auto().resolve(native), native);
    assert_eq!(ResolutionRequest::Auto { downsample: 4 }.resolve(native), Resolution { width: 40, height: 1 });
    let manual = Resolution { width: 7, height: 9 };
    assert_eq!(ResolutionRequest::Manual(manual).resolve(native), manual);
}
