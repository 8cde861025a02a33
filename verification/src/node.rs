//! Nodes of a render graph: named, typed inputs, and outputs that each carry
//! the effect computing them.
use crate::data::{DataType, DataValue, Port, SimpleDataType, SimpleDataValue};
use vstd::prelude::*;

verus! {

/// The built-in computations a node output can carry. Each one reads files
/// or does pixel arithmetic, so the caller runs it.
#[derive(Debug, Clone, Copy, PartialEq, Eq)]
pub enum Builtin {
    /// Stretch a frame's pixels away from their average by `amount`.
    Contrast,
    /// The video track of the file at `path`.
    SourceTrack,
    /// The frame rate of the file at `path`.
    SourceFps,
    /// The duration in seconds of the file at `path`.
    SourceDuration,
    /// The number of frames of the file at `path`.
    SourceFrameCount,
}

/// How an output is computed: a fixed value, or a built-in computation of
/// the node's inputs.
#[derive(Debug, Clone)]
pub enum Effect {
    Const(SimpleDataValue),
    Fn(Builtin),
}

/// The outcome of applying an effect: a value, or a built-in computation for
/// the caller to run on the given inputs.
#[derive(Debug)]
pub enum Applied {
    Value(DataValue),
    Run(Builtin, Vec<DataValue>),
}

impl Effect {
    /// Apply this effect to `inputs`.
    pub fn apply(&self, inputs: Vec<DataValue>) -> (r: Applied)
        ensures
            match *self {
                Effect::Const(v) => r matches Applied::Value(DataValue::Simple(x)) && x.same(v),
                Effect::Fn(b) => r == Applied::Run(b, inputs),
            },
    {
        match self {
            Effect::Const(v) => Applied::Value(DataValue::Simple(v.duplicate())),
            Effect::Fn(b) => Applied::Run(*b, inputs),
        }
    }
}

/// A node: its name, its input ports, and its output ports with their effects.
#[derive(Debug)]
pub struct Node {
    pub name: &'static str,
    pub inputs: Vec<Port>,
    pub outputs: Vec<(Port, Effect)>,
}

/// `r` is the position of the first port of `ports` called `name`, or `None`
/// when there is none.
pub open spec fn first_named(ports: Seq<Port>, name: Seq<char>, r: Option<usize>) -> bool {
    match r {
        Some(i) => i < ports.len() && ports[i as int].name@ == name && forall|j: int|
            0 <= j < i ==> (#[trigger] ports[j]).name@ != name,
        None => forall|j: int| 0 <= j < ports.len() ==> (#[trigger] ports[j]).name@ != name,
    }
}

/// The ports of a list of outputs.
pub open spec fn output_ports<E>(outputs: Seq<(Port, E)>) -> Seq<Port> {
    outputs.map_values(|o: (Port, E)| o.0)
}

/// Position of the first port of `ports` called `name`.
pub fn position_named(ports: &[Port], name: &str) -> (r: Option<usize>)
    ensures
        first_named(ports@, name@, r),
{
    let mut i: usize = 0;
    while i < ports.len()
        invariant
            i <= ports@.len(),
            forall|j: int| 0 <= j < i ==> (#[trigger] ports@[j]).name@ != name@,
        decreases ports@.len() - i,
    {
        if ports[i].is_named(name) {
            return Some(i);
        }
        i = i + 1;
    }
    None
}

/// Position of the first output port called `name`.
pub fn output_position_named<E>(outputs: &[(Port, E)], name: &str) -> (r: Option<usize>)
    ensures
        first_named(output_ports(outputs@), name@, r),
{
    let mut i: usize = 0;
    while i < outputs.len()
        invariant
            i <= outputs@.len(),
            forall|j: int| 0 <= j < i ==> (#[trigger] output_ports(outputs@)[j]).name@ != name@,
        decreases outputs@.len() - i,
    {
        if outputs[i].0.is_named(name) {
            return Some(i);
        }
        i = i + 1;
    }
    None
}

impl Node {
    pub fn inputs(&self) -> (r: &[Port])
        ensures
            r@ == self.inputs@,
    {
        self.inputs.as_slice()
    }

    pub fn outputs(&self) -> (r: &[(Port, Effect)])
        ensures
            r@ == self.outputs@,
    {
        self.outputs.as_slice()
    }

    /// Position of the first input called `name`.
    pub fn get_named_input_port_position(&self, name: &str) -> (r: Option<usize>)
        ensures
            first_named(self.inputs@, name@, r),
    {
        position_named(self.inputs.as_slice(), name)
    }

    /// Position of the first output called `name`.
    pub fn get_named_output_port_position(&self, name: &str) -> (r: Option<usize>)
        ensures
            first_named(output_ports(self.outputs@), name@, r),
    {
        output_position_named(self.outputs.as_slice(), name)
    }

    /// The effect of output `index`, when there is one.
    pub fn effect(&self, index: usize) -> (r: Option<&Effect>)
        ensures
            index < self.outputs@.len() ==> r == Some(&self.outputs@[index as int].1),
            index >= self.outputs@.len() ==> r is None,
    {
        if index < self.outputs.len() {
            Some(&self.outputs[index].1)
        } else {
            None
        }
    }
}

/// `ports` are exactly the given names and types, in order.
pub open spec fn ports_are(ports: Seq<Port>, spec: Seq<(Seq<char>, DataType)>) -> bool {
    &&& ports.len() == spec.len()
    &&& forall|i: int| 0 <= i < ports.len() ==> (#[trigger] ports[i]).name@ == spec[i].0 && ports[i].typ == spec[i].1
}

/// Contrast: `amount` (a float) and `frame` in, the adjusted frame out.
pub fn contrast_node() -> (n: Node)
    ensures
        n.name@ == "contrast"@,
        ports_are(
            n.inputs@,
            seq![
                ("amount"@, DataType::Simple(SimpleDataType::Float)),
                ("frame"@, DataType::Simple(SimpleDataType::VideoFrame)),
            ],
        ),
        ports_are(output_ports(n.outputs@), seq![("output"@, DataType::Simple(SimpleDataType::VideoFrame))]),
        n.outputs@[0].1 == Effect::Fn(Builtin::Contrast),
{
    let inputs = vec![DataType::float().named("amount"), DataType::vframe().named("frame")];
    let outputs = vec![(DataType::vframe().named("output"), Effect::Fn(Builtin::Contrast))];
    let n = Node { name: "contrast", inputs, outputs };
    proof {
        assert(output_ports(n.outputs@) =~= seq![n.outputs@[0].0]);
    }
    n
}

/// A video file: `path` in; its video track, frame rate, duration and frame
/// count out.
pub fn video_source_node() -> (n: Node)
    ensures
        n.name@ == "video-source"@,
        ports_are(n.inputs@, seq![("path"@, DataType::Simple(SimpleDataType::Path))]),
        ports_are(
            output_ports(n.outputs@),
            seq![
                ("output"@, DataType::Track(SimpleDataType::VideoFrame)),
                ("fps"@, DataType::Simple(SimpleDataType::Float)),
                ("duration"@, DataType::Simple(SimpleDataType::Float)),
                ("frame-count"@, DataType::Simple(SimpleDataType::Float)),
            ],
        ),
        n.outputs@[0].1 == Effect::Fn(Builtin::SourceTrack),
        n.outputs@[1].1 == Effect::Fn(Builtin::SourceFps),
        n.outputs@[2].1 == Effect::Fn(Builtin::SourceDuration),
        n.outputs@[3].1 == Effect::Fn(Builtin::SourceFrameCount),
{
    let inputs = vec![DataType::path().named("path")];
    let outputs = vec![
        (DataType::video_track().named("output"), Effect::Fn(Builtin::SourceTrack)),
        (DataType::float().named("fps"), Effect::Fn(Builtin::SourceFps)),
        (DataType::float().named("duration"), Effect::Fn(Builtin::SourceDuration)),
        (DataType::float().named("frame-count"), Effect::Fn(Builtin::SourceFrameCount)),
    ];
    let n = Node { name: "video-source", inputs, outputs };
    proof {
        assert(output_ports(n.outputs@) =~= seq![
            n.outputs@[0].0,
            n.outputs@[1].0,
            n.outputs@[2].0,
            n.outputs@[3].0,
        ]);
    }
    n
}

/// A constant: no inputs, one output `output` holding `data`.
pub fn const_node(data: SimpleDataValue) -> (n: Node)
    ensures
        n.name@ == "const"@,
        n.inputs@.len() == 0,
        ports_are(output_ports(n.outputs@), seq![("output"@, DataType::Simple(data.spec_typ()))]),
        n.outputs@[0].1 == Effect::Const(data),
{
    let typ = data.typ();
    let outputs = vec![(DataType::Simple(typ).named("output"), Effect::Const(data))];
    let n = Node { name: "const", inputs: Vec::new(), outputs };
    proof {
        assert(output_ports(n.outputs@) =~= seq![n.outputs@[0].0]);
    }
    n
}

} // verus!
