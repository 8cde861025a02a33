//! Nodes of the engine's graphs: regular nodes, named by a registered id,
//! and constant nodes holding one value.
use crate::data::{DataType, Port, SimpleDataType, SimpleDataValue};
use crate::node::{first_named, output_ports, output_position_named, ports_are, position_named, Builtin};
use crate::text::str_eq;
use vstd::prelude::*;
use vstd::std_specs::cmp::PartialEqSpecImpl;

verus! {

/// How an output is computed: a built-in computation of the node's inputs,
/// run by the caller.
#[derive(Debug, Clone, Copy, PartialEq, Eq)]
pub enum Effect {
    Fn(Builtin),
}

/// The registered name of a kind of node.
#[derive(Debug, Clone, Copy)]
pub struct NodeId(pub &'static str);

impl PartialEq for NodeId {
    fn eq(&self, other: &NodeId) -> (r: bool) {
        str_eq(self.0, other.0)
    }
}

impl PartialEqSpecImpl for NodeId {
    open spec fn obeys_eq_spec() -> bool {
        true
    }

    open spec fn eq_spec(&self, other: &NodeId) -> bool {
        self.0@ == other.0@
    }
}

/// A node: a regular one with its id, inputs and outputs, or a constant.
#[derive(Debug)]
pub enum Node {
    Regular { id: NodeId, inputs: Vec<Port>, outputs: Vec<(Port, Effect)> },
    Const { value: SimpleDataValue },
}

impl PartialEq for Node {
    fn eq(&self, other: &Node) -> (r: bool) {
        match (self, other) {
            (Node::Regular { id: a, .. }, Node::Regular { id: b, .. }) => str_eq(a.0, b.0),
            (Node::Const { value: a }, Node::Const { value: b }) => a.equals(b),
            _ => false,
        }
    }
}

impl PartialEqSpecImpl for Node {
    open spec fn obeys_eq_spec() -> bool {
        true
    }

    open spec fn eq_spec(&self, other: &Node) -> bool {
        node_eq(*self, *other)
    }
}

/// Regular nodes are equal when their ids are; constants when their values are.
pub open spec fn node_eq(a: Node, b: Node) -> bool {
    match (a, b) {
        (Node::Regular { id: x, .. }, Node::Regular { id: y, .. }) => x.0@ == y.0@,
        (Node::Const { value: x }, Node::Const { value: y }) => x.same(y),
        _ => false,
    }
}

/// Spec views of a node.
impl Node {
    pub open spec fn input_ports(self) -> Seq<Port> {
        match self {
            Node::Regular { inputs, .. } => inputs@,
            Node::Const { .. } => Seq::empty(),
        }
    }

    pub open spec fn output_list(self) -> Option<Seq<(Port, Effect)>> {
        match self {
            Node::Regular { outputs, .. } => Some(outputs@),
            Node::Const { .. } => None,
        }
    }

    pub open spec fn id_name(self) -> Seq<char> {
        match self {
            Node::Regular { id, .. } => id.0@,
            Node::Const { .. } => seq!['c', 'o', 'n', 's', 't'],
        }
    }
}

impl Node {
    pub fn inputs(&self) -> (r: &[Port])
        ensures
            r@ == self.input_ports(),
    {
        match self {
            Node::Regular { inputs, .. } => inputs.as_slice(),
            Node::Const { .. } => &[],
        }
    }

    pub fn outputs(&self) -> (r: Option<&[(Port, Effect)]>)
        ensures
            match self.output_list() {
                Some(o) => r matches Some(s) && s@ == o,
                None => r is None,
            },
    {
        match self {
            Node::Regular { outputs, .. } => Some(outputs.as_slice()),
            Node::Const { .. } => None,
        }
    }

    /// Position of the first input called `name`.
    pub fn get_named_input_port_position(&self, name: &str) -> (r: Option<usize>)
        ensures
            first_named(self.input_ports(), name@, r),
    {
        position_named(self.inputs(), name)
    }

    /// Position of the first output called `name`; constants have none.
    pub fn get_named_output_port_position(&self, name: &str) -> (r: Option<usize>)
        ensures
            match self.output_list() {
                Some(o) => first_named(output_ports(o), name@, r),
                None => r is None,
            },
    {
        match self.outputs() {
            Some(o) => output_position_named(o, name),
            None => None,
        }
    }

    /// The effect of output `index`, when there is one.
    pub fn effect(&self, index: usize) -> (r: Option<Effect>)
        ensures
            match self.output_list() {
                Some(o) => if index < o.len() {
                    r == Some(o[index as int].1)
                } else {
                    r is None
                },
                None => r is None,
            },
    {
        match self.outputs() {
            Some(o) => if index < o.len() {
                Some(o[index].1)
            } else {
                None
            },
            None => None,
        }
    }

    /// The node's id; constants are all `const`.
    pub fn id(&self) -> (r: NodeId)
        ensures
            r.0@ == self.id_name(),
    {
        proof {
            reveal_strlit("const");
            assert("const"@ =~= seq!['c', 'o', 'n', 's', 't']);
        }
        match self {
            Node::Regular { id, .. } => *id,
            Node::Const { .. } => NodeId("const"),
        }
    }

    /// Output port `port_index`: a constant's single output is `output`, of
    /// the value's type.
    pub fn port_by_index(&self, port_index: usize) -> (r: Option<Port>)
        ensures
            match *self {
                Node::Regular { outputs, .. } => if port_index < outputs@.len() {
                    r == Some(outputs@[port_index as int].0)
                } else {
                    r is None
                },
                Node::Const { value } => if port_index == 0 {
                    r matches Some(p) && p.name@ == "output"@ && p.typ == DataType::Simple(value.spec_typ())
                } else {
                    r is None
                },
            },
    {
        match self {
            Node::Regular { outputs, .. } => {
                if port_index < outputs.len() {
                    Some(outputs[port_index].0)
                } else {
                    None
                }
            },
            Node::Const { value } => {
                if port_index == 0 {
                    Some(DataType::Simple(value.typ()).named("output"))
                } else {
                    None
                }
            },
        }
    }
}

/// `n` is the contrast node: `amount` (a float) and `frame` in, the
/// adjusted frame out.
pub open spec fn is_contrast_node(n: Node) -> bool {
    n matches Node::Regular { id, inputs, outputs } && id.0@ == "contrast"@ && ports_are(
        inputs@,
        seq![
            ("amount"@, DataType::Simple(SimpleDataType::Float)),
            ("frame"@, DataType::Simple(SimpleDataType::VideoFrame)),
        ],
    ) && ports_are(
        output_ports(outputs@),
        seq![("output"@, DataType::Simple(SimpleDataType::VideoFrame))],
    ) && outputs@[0].1 == Effect::Fn(Builtin::Contrast)
}

/// `n` is the video source node: `path` in; its video track, frame rate,
/// duration and frame count out.
pub open spec fn is_video_source_node(n: Node) -> bool {
    n matches Node::Regular { id, inputs, outputs } && id.0@ == "video-source"@ && ports_are(
        inputs@,
        seq![("path"@, DataType::Simple(SimpleDataType::String))],
    ) && ports_are(
        output_ports(outputs@),
        seq![
            ("output"@, DataType::Track(SimpleDataType::VideoFrame)),
            ("fps"@, DataType::Simple(SimpleDataType::Float)),
            ("duration"@, DataType::Simple(SimpleDataType::Float)),
            ("frame-count"@, DataType::Simple(SimpleDataType::Float)),
        ],
    ) && outputs@[0].1 == Effect::Fn(Builtin::SourceTrack) && outputs@[1].1 == Effect::Fn(
        Builtin::SourceFps,
    ) && outputs@[2].1 == Effect::Fn(Builtin::SourceDuration) && outputs@[3].1 == Effect::Fn(
        Builtin::SourceFrameCount,
    )
}

/// Contrast: `amount` (a float) and `frame` in, the adjusted frame out.
pub fn contrast_node() -> (n: Node)
    ensures
        is_contrast_node(n),
{
    let inputs = vec![DataType::float().named("amount"), DataType::vframe().named("frame")];
    let outputs = vec![(DataType::vframe().named("output"), Effect::Fn(Builtin::Contrast))];
    proof {
        assert(output_ports(outputs@) =~= seq![outputs@[0].0]);
    }
    Node::Regular { id: NodeId("contrast"), inputs, outputs }
}

/// A video file: `path` (a string) in; its video track, frame rate, duration
/// and frame count out.
pub fn video_source_node() -> (n: Node)
    ensures
        is_video_source_node(n),
{
    let inputs = vec![DataType::string().named("path")];
    let outputs = vec![
        (DataType::video_track().named("output"), Effect::Fn(Builtin::SourceTrack)),
        (DataType::float().named("fps"), Effect::Fn(Builtin::SourceFps)),
        (DataType::float().named("duration"), Effect::Fn(Builtin::SourceDuration)),
        (DataType::float().named("frame-count"), Effect::Fn(Builtin::SourceFrameCount)),
    ];
    proof {
        assert(output_ports(outputs@) =~= seq![outputs@[0].0, outputs@[1].0, outputs@[2].0, outputs@[3].0]);
    }
    Node::Regular { id: NodeId("video-source"), inputs, outputs }
}

/// A constant node holding `value`.
pub fn const_node(value: SimpleDataValue) -> (n: Node)
    ensures
        n == (Node::Const { value }),
{
    Node::Const { value }
}

// === Registered nodes ======================================================

/// The ids of the registered kinds of node.
pub open spec fn registered(id: Seq<char>) -> bool {
    id == "contrast"@ || id == "video-source"@
}

/// `n` is the node registered under `id`, built afresh: the contrast node
/// or the video source node.
pub open spec fn registered_node(id: Seq<char>, n: Node) -> bool {
    &&& n is Regular
    &&& n.id_name() == id
    &&& registered(id)
    &&& id == "contrast"@ ==> is_contrast_node(n)
    &&& id == "video-source"@ ==> is_video_source_node(n)
}

/// The node registered under `id`, with its position in the registry.
pub fn node_by_id(id: &str) -> (r: Option<(Node, usize)>)
    ensures
        registered(id@) <==> r is Some,
        r matches Some((n, k)) ==> registered_node(id@, n) && (k == 0 <==> id@ == "contrast"@),
{
    proof {
        reveal_strlit("contrast");
        reveal_strlit("video-source");
    }
    if str_eq(id, "contrast") {
        assert("contrast"@.len() != "video-source"@.len());
        Some((contrast_node(), 0))
    } else if str_eq(id, "video-source") {
        Some((video_source_node(), 1))
    } else {
        None
    }
}

/// The ids of the registered kinds of node, in registry order.
pub fn registered_ids() -> (r: Vec<&'static str>)
    ensures
        r@.len() == 2,
        r@[0]@ == "contrast"@,
        r@[1]@ == "video-source"@,
{
    vec!["contrast", "video-source"]
}

/// An id that names no registered node.
#[derive(Debug, Clone)]
pub struct UnknownNodeIdError(pub String);

impl NodeId {
    /// The id called `name`: `const`, or a registered id.
    pub fn from_name(name: &str) -> (r: Result<NodeId, UnknownNodeIdError>)
        ensures
            match r {
                Ok(id) => id.0@ == name@ && (name@ == "const"@ || registered(name@)),
                Err(e) => e.0@ == name@ && name@ != "const"@ && !registered(name@),
            },
    {
        if str_eq(name, "const") {
            return Ok(NodeId("const"));
        }
        match node_by_id(name) {
            Some((n, _)) => Ok(n.id()),
            None => Err(UnknownNodeIdError(name.to_string())),
        }
    }
}

// === Stored form ===========================================================

/// How a node is stored: a regular node by its id, a constant by its value.
#[derive(Debug, Clone)]
pub enum NodeRepr {
    Regular(String),
    Const(SimpleDataValue),
}

/// `r` stores `n`.
pub open spec fn stores(n: Node, r: NodeRepr) -> bool {
    match (n, r) {
        (Node::Regular { id, .. }, NodeRepr::Regular(s)) => s@ == id.0@,
        (Node::Const { value }, NodeRepr::Const(v)) => v.same(value),
        _ => false,
    }
}

/// `n` is what reading `r` gives.
pub open spec fn restores(r: NodeRepr, n: Node) -> bool {
    match r {
        NodeRepr::Regular(s) => registered_node(s@, n),
        NodeRepr::Const(v) => n == (Node::Const { value: v }),
    }
}

impl Node {
    /// The stored form of this node.
    pub fn to_repr(&self) -> (r: NodeRepr)
        ensures
            stores(*self, r),
    {
        match self {
            Node::Regular { id, .. } => NodeRepr::Regular(id.0.to_string()),
            Node::Const { value } => NodeRepr::Const(value.duplicate()),
        }
    }

    /// The node a stored form describes; an id that is not registered is an error.
    pub fn from_repr(r: NodeRepr) -> (n: Result<Node, UnknownNodeIdError>)
        ensures
            match r {
                NodeRepr::Regular(s) => match n {
                    Ok(node) => registered(s@) && restores(r, node),
                    Err(e) => !registered(s@) && e.0@ == s@,
                },
                NodeRepr::Const(v) => n matches Ok(node) && restores(r, node),
            },
    {
        match r {
            NodeRepr::Regular(s) => match node_by_id(s.as_str()) {
                Some((node, _)) => Ok(node),
                None => Err(UnknownNodeIdError(s)),
            },
            NodeRepr::Const(v) => Ok(Node::Const { value: v }),
        }
    }
}

/// Storing a node and reading it back gives an equal node: regular nodes of a
/// registered kind keep their id, constants their value.
pub proof fn lemma_repr_round_trip(n: Node, r: NodeRepr, back: Node)
    requires
        n is Regular ==> registered(n.id_name()),
        stores(n, r),
        restores(r, back),
    ensures
        node_eq(back, n),
{
}

/// Storing a node of a registered kind, or a constant, can always be read back.
pub proof fn lemma_repr_readable(n: Node, r: NodeRepr)
    requires
        n is Regular ==> registered(n.id_name()),
        stores(n, r),
    ensures
        r matches NodeRepr::Regular(s) ==> registered(s@),
{
}

} // verus!
