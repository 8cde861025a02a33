//! The graph shape the editor is moving towards: a frame-index input, a
//! video output, and nodes that list the nodes they read from.
use vstd::prelude::*;

verus! {

/// A node of a particular graph: its position among the graph's nodes.
#[derive(Debug, Clone, Copy, PartialEq, Eq, Hash)]
pub struct NodeRef(pub usize);

/// What a node is.
#[derive(Debug, Clone, PartialEq, Eq)]
pub enum NodeData {
    Path(String),
    Index(usize),
    Frame,
    VideoSource,
    ImageSource,
}

/// A node: what it is, the nodes it reads from, and its own reference.
#[derive(Debug)]
pub struct Node {
    pub data: NodeData,
    pub inputs: Vec<NodeRef>,
    pub outputs: Vec<NodeRef>,
    pub static_outputs: Vec<NodeRef>,
    pub id: NodeRef,
}

/// A value a node produces.
#[derive(Debug)]
pub enum NodeOutput {
    Index(usize),
    Path(String),
    Frame(Frame),
}

/// A frame of packed RGB bytes.
#[derive(Debug, Clone, PartialEq, Eq)]
pub struct Frame {
    pub width: usize,
    pub height: usize,
    pub data: Vec<u8>,
}

/// A graph with its input and output nodes.
#[derive(Debug)]
pub struct Graph {
    pub inputs: Vec<NodeRef>,
    pub outputs: Vec<NodeRef>,
    pub static_outputs: Vec<NodeRef>,
    pub nodes: Vec<Node>,
}

/// Why a graph's designated input or output could not be found.
#[derive(Debug, Clone, Copy, PartialEq, Eq)]
pub enum SketchError {
    /// The graph has no frame-index input.
    FrameIndexUnavailable,
    /// The graph has no video output.
    VideoOutputUnavailable,
}

impl Graph {
    /// Every node knows its own place.
    pub open spec fn wf(self) -> bool {
        forall|i: int| 0 <= i < self.nodes@.len() ==> (#[trigger] self.nodes@[i]).id.0 == i
    }

    /// A graph with no nodes.
    pub fn empty() -> (r: Self)
        ensures
            r.wf(),
            r.inputs@.len() == 0,
            r.outputs@.len() == 0,
            r.static_outputs@.len() == 0,
            r.nodes@.len() == 0,
    {
        Graph { inputs: Vec::new(), outputs: Vec::new(), static_outputs: Vec::new(), nodes: Vec::new() }
    }

    /// A graph with a frame-index input (starting at frame 0) and a video
    /// output.
    pub fn new() -> (r: Self)
        ensures
            r.wf(),
            r.nodes@.len() == 2,
            r.nodes@[0].data == NodeData::Index(0),
            r.nodes@[1].data == NodeData::Frame,
            forall|k: int|
                0 <= k < 2 ==> (#[trigger] r.nodes@[k]).inputs@.len() == 0 && r.nodes@[k].outputs@.len() == 0
                    && r.nodes@[k].static_outputs@.len() == 0,
            r.inputs@ == seq![NodeRef(0)],
            r.outputs@ == seq![NodeRef(1)],
            r.static_outputs@.len() == 0,
    {
        let mut graph = Graph::empty();
        let frame_index = graph.insert(NodeData::Index(0));
        let video_output = graph.insert(NodeData::Frame);
        graph.inputs = vec![frame_index];
        graph.outputs = vec![video_output];
        graph
    }

    /// Add a node with no connections.
    pub fn insert(&mut self, node: NodeData) -> (r: NodeRef)
        requires
            old(self).wf(),
        ensures
            final(self).wf(),
            r.0 == old(self).nodes@.len(),
            final(self).nodes@.len() == old(self).nodes@.len() + 1,
            forall|i: int| 0 <= i < old(self).nodes@.len() ==> (#[trigger] final(self).nodes@[i]) == old(self).nodes@[i],
            final(self).nodes@[r.0 as int].data == node,
            final(self).nodes@[r.0 as int].inputs@.len() == 0,
            final(self).nodes@[r.0 as int].outputs@.len() == 0,
            final(self).nodes@[r.0 as int].static_outputs@.len() == 0,
            final(self).inputs == old(self).inputs,
            final(self).outputs == old(self).outputs,
            final(self).static_outputs == old(self).static_outputs,
    {
        let r = NodeRef(self.nodes.len());
        self.nodes.push(
            Node { data: node, inputs: Vec::new(), outputs: Vec::new(), static_outputs: Vec::new(), id: r },
        );
        r
    }

    /// The node `node` points to.
    pub fn get(&self, node: NodeRef) -> (r: &Node)
        requires
            node.0 < self.nodes@.len(),
        ensures
            *r == self.nodes@[node.0 as int],
    {
        &self.nodes[node.0]
    }

    /// The nodes the graph's input references point to, in order.
    pub fn outputs(&self) -> (r: Vec<&Node>)
        requires
            forall|k: int| 0 <= k < self.inputs@.len() ==> (#[trigger] self.inputs@[k]).0 < self.nodes@.len(),
        ensures
            r@.len() == self.inputs@.len(),
            forall|k: int| 0 <= k < r@.len() ==> *(#[trigger] r@[k]) == self.nodes@[self.inputs@[k].0 as int],
    {
        let mut r: Vec<&Node> = Vec::new();
        let mut k: usize = 0;
        while k < self.inputs.len()
            invariant
                k <= self.inputs@.len(),
                forall|q: int| 0 <= q < self.inputs@.len() ==> (#[trigger] self.inputs@[q]).0 < self.nodes@.len(),
                r@.len() == k,
                forall|q: int| 0 <= q < k ==> *(#[trigger] r@[q]) == self.nodes@[self.inputs@[q].0 as int],
            decreases self.inputs@.len() - k,
        {
            r.push(&self.nodes[self.inputs[k].0]);
            k = k + 1;
        }
        r
    }

    /// Make `node` read from `inputs`.
    pub fn set_inputs(&mut self, node: NodeRef, inputs: Vec<NodeRef>)
        requires
            old(self).wf(),
            node.0 < old(self).nodes@.len(),
        ensures
            final(self).wf(),
            final(self).nodes@.len() == old(self).nodes@.len(),
            forall|i: int|
                0 <= i < old(self).nodes@.len() && i != node.0
                    ==> (#[trigger] final(self).nodes@[i]) == old(self).nodes@[i],
            final(self).nodes@[node.0 as int].inputs@ == inputs@,
            final(self).nodes@[node.0 as int].data == old(self).nodes@[node.0 as int].data,
            final(self).nodes@[node.0 as int].id == old(self).nodes@[node.0 as int].id,
            final(self).inputs == old(self).inputs,
            final(self).outputs == old(self).outputs,
    {
        let n = &mut self.nodes[node.0];
        n.inputs = inputs;
    }

    /// The frame-index input: the first input reference.
    pub fn frame_index_input(&self) -> (r: Result<NodeRef, SketchError>)
        ensures
            self.inputs@.len() > 0 ==> r == Ok::<NodeRef, SketchError>(self.inputs@[0]),
            self.inputs@.len() == 0 ==> r == Err::<NodeRef, SketchError>(SketchError::FrameIndexUnavailable),
    {
        if self.inputs.len() > 0 {
            Ok(self.inputs[0])
        } else {
            Err(SketchError::FrameIndexUnavailable)
        }
    }

    /// The video output: the first output reference.
    pub fn video_output(&self) -> (r: Result<NodeRef, SketchError>)
        ensures
            self.outputs@.len() > 0 ==> r == Ok::<NodeRef, SketchError>(self.outputs@[0]),
            self.outputs@.len() == 0 ==> r == Err::<NodeRef, SketchError>(SketchError::VideoOutputUnavailable),
    {
        if self.outputs.len() > 0 {
            Ok(self.outputs[0])
        } else {
            Err(SketchError::VideoOutputUnavailable)
        }
    }
}

/// A single black pixel.
pub fn black() -> (r: Frame)
    ensures
        r.width == 1,
        r.height == 1,
        r.data@ == seq![0u8, 0u8, 0u8],
{
    Frame { width: 1, height: 1, data: vec![0, 0, 0] }
}

} // verus!
