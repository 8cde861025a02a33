//! A render graph: nodes whose inputs are bound to outputs of other nodes or
//! to constant values.
use crate::data::SimpleDataValue;
use crate::node::{const_node, first_named, Node};
use vstd::prelude::*;

verus! {

/// A node of a particular graph: its position among the graph's nodes.
#[derive(Debug, Clone, Copy, PartialEq, Eq)]
pub struct NodeRef(pub usize);

/// One port of a node of a particular graph.
#[derive(Debug, Clone, Copy, PartialEq, Eq)]
pub struct BindRef {
    pub node: NodeRef,
    pub bind_index: usize,
}

impl NodeRef {
    /// Port `index` of this node.
    pub fn bind(self, index: usize) -> (r: BindRef)
        ensures
            r == (BindRef { node: self, bind_index: index }),
    {
        BindRef { node: self, bind_index: index }
    }
}

/// A node placed in a graph, with what each of its inputs is bound to.
#[derive(Debug)]
pub struct GNode {
    pub value: Node,
    /// One entry per input of `value`.
    pub inputs: Vec<Option<BindRef>>,
}

impl GNode {
    pub open spec fn wf(self) -> bool {
        self.inputs@.len() == self.value.inputs@.len()
    }

    /// Position of the first input of this node called `name`.
    pub fn get_named_bind_position(&self, name: &str) -> (r: Option<usize>)
        ensures
            first_named(self.value.inputs@, name@, r),
    {
        self.value.get_named_input_port_position(name)
    }

    /// `node` with all inputs unbound.
    pub fn from_node(node: Node) -> (r: GNode)
        ensures
            r.wf(),
            r.value == node,
            forall|i: int| 0 <= i < r.inputs@.len() ==> (#[trigger] r.inputs@[i]) is None,
    {
        let mut inputs: Vec<Option<BindRef>> = Vec::new();
        let mut i: usize = 0;
        while i < node.inputs.len()
            invariant
                i <= node.inputs@.len(),
                inputs@.len() == i,
                forall|j: int| 0 <= j < i ==> (#[trigger] inputs@[j]) is None,
            decreases node.inputs@.len() - i,
        {
            inputs.push(None);
            i = i + 1;
        }
        GNode { value: node, inputs }
    }
}

/// A render graph and the port whose value it renders.
#[derive(Debug)]
pub struct Graph {
    pub nodes: Vec<GNode>,
    pub output: BindRef,
}

/// `after` is `before` with node `at`'s input `index` bound to `origin`.
pub open spec fn bound(before: Graph, after: Graph, at: int, index: int, origin: BindRef) -> bool {
    &&& after.nodes@.len() == before.nodes@.len()
    &&& after.output == before.output
    &&& forall|i: int| 0 <= i < before.nodes@.len() && i != at ==> (#[trigger] after.nodes@[i]) == before.nodes@[i]
    &&& after.nodes@[at].value == before.nodes@[at].value
    &&& after.nodes@[at].inputs@ == before.nodes@[at].inputs@.update(index, Some(origin))
}

/// `after` has every node of `before`, unchanged and at the same place, and
/// the same output.
pub open spec fn extends(before: Graph, after: Graph) -> bool {
    &&& before.nodes@.len() <= after.nodes@.len()
    &&& forall|i: int| 0 <= i < before.nodes@.len() ==> (#[trigger] after.nodes@[i]) == before.nodes@[i]
    &&& after.output == before.output
}

/// Something an input can be bound to: a port, or a value, which gets a
/// constant node of its own.
pub trait IntoBindRef: Sized {
    /// Inserting `self` into `before` gives `after` and the port `r`.
    spec fn binds_into(self, before: Graph, after: Graph, r: BindRef) -> bool;

    fn into_bind_ref(self, graph: &mut Graph) -> (r: BindRef)
        requires
            old(graph).wf(),
        ensures
            final(graph).wf(),
            extends(*old(graph), *final(graph)),
            self.binds_into(*old(graph), *final(graph), r),
    ;
}

impl IntoBindRef for BindRef {
    open spec fn binds_into(self, before: Graph, after: Graph, r: BindRef) -> bool {
        after == before && r == self
    }

    fn into_bind_ref(self, graph: &mut Graph) -> (r: BindRef) {
        self
    }
}

impl IntoBindRef for SimpleDataValue {
    open spec fn binds_into(self, before: Graph, after: Graph, r: BindRef) -> bool {
        let n = before.nodes@.len();
        &&& after.nodes@.len() == n + 1
        &&& after.nodes@[n as int].value.name@ == "const"@
        &&& after.nodes@[n as int].value.outputs@[0].1 == crate::node::Effect::Const(self)
        &&& r == (BindRef { node: NodeRef(n as usize), bind_index: 0 })
    }

    fn into_bind_ref(self, graph: &mut Graph) -> (r: BindRef) {
        let node = const_node(self);
        let node_ref = graph.insert_node(node);
        node_ref.bind(0)
    }
}

impl Graph {
    /// Every placed node has one binding per input.
    pub open spec fn wf(self) -> bool {
        forall|i: int| 0 <= i < self.nodes@.len() ==> (#[trigger] self.nodes@[i]).wf()
    }

    pub open spec fn has(self, node_ref: NodeRef) -> bool {
        node_ref.0 < self.nodes@.len()
    }

    /// A graph of `root` alone, rendering its first port.
    pub fn new(root: Node) -> (r: (Graph, NodeRef))
        ensures
            r.0.wf(),
            r.0.nodes@.len() == 1,
            r.0.nodes@[0].value == root,
            forall|i: int| 0 <= i < r.0.nodes@[0].inputs@.len() ==> (#[trigger] r.0.nodes@[0].inputs@[i]) is None,
            r.0.output == (BindRef { node: NodeRef(0), bind_index: 0 }),
            r.1 == NodeRef(0),
    {
        let nodes = vec![GNode::from_node(root)];
        (Graph { nodes, output: BindRef { node: NodeRef(0), bind_index: 0 } }, NodeRef(0))
    }

    /// Place `node` in the graph, with all inputs unbound.
    pub fn insert_node(&mut self, node: Node) -> (r: NodeRef)
        requires
            old(self).wf(),
        ensures
            final(self).wf(),
            extends(*old(self), *final(self)),
            final(self).nodes@.len() == old(self).nodes@.len() + 1,
            r.0 == old(self).nodes@.len(),
            final(self).nodes@[r.0 as int].value == node,
            forall|i: int|
                0 <= i < final(self).nodes@[r.0 as int].inputs@.len()
                    ==> (#[trigger] final(self).nodes@[r.0 as int].inputs@[i]) is None,
    {
        self.nodes.push(GNode::from_node(node));
        NodeRef(self.nodes.len() - 1)
    }

    /// The placed node `node_ref` points to.
    pub fn get(&self, node_ref: NodeRef) -> (r: &GNode)
        requires
            self.has(node_ref),
        ensures
            *r == self.nodes@[node_ref.0 as int],
    {
        &self.nodes[node_ref.0]
    }

    /// The input of node `node_ref` called `name`, when it has one.
    pub fn named_bind(&self, node_ref: NodeRef, name: &str) -> (r: Option<BindRef>)
        requires
            self.has(node_ref),
        ensures
            match r {
                Some(b) => b.node == node_ref && first_named(
                    self.nodes@[node_ref.0 as int].value.inputs@,
                    name@,
                    Some(b.bind_index),
                ),
                None => first_named(self.nodes@[node_ref.0 as int].value.inputs@, name@, None),
            },
    {
        let node = self.get(node_ref);
        match node.get_named_bind_position(name) {
            Some(index) => Some(BindRef { node: node_ref, bind_index: index }),
            None => None,
        }
    }

    /// The placed node `node_ref` points to, for changing it.
    pub fn get_mut(&mut self, node_ref: NodeRef) -> (r: &mut GNode)
        requires
            old(self).has(node_ref),
        ensures
            *r == old(self).nodes@[node_ref.0 as int],
            final(self).nodes@ == old(self).nodes@.update(node_ref.0 as int, *final(r)),
            final(self).output == old(self).output,
    {
        &mut self.nodes[node_ref.0]
    }

    /// Bind input `dest_ref` to `origin`, placing a constant node first when
    /// `origin` is a value.
    pub fn set_input<O: IntoBindRef>(&mut self, dest_ref: BindRef, origin: O)
        requires
            old(self).wf(),
            old(self).has(dest_ref.node),
            dest_ref.bind_index < old(self).nodes@[dest_ref.node.0 as int].inputs@.len(),
        ensures
            final(self).wf(),
            exists|mid: Graph, r: BindRef|
                #![trigger origin.binds_into(*old(self), mid, r)]
                extends(*old(self), mid) && origin.binds_into(*old(self), mid, r) && bound(
                    mid,
                    *final(self),
                    dest_ref.node.0 as int,
                    dest_ref.bind_index as int,
                    r,
                ),
    {
        let ghost before = *self;
        let origin = origin.into_bind_ref(self);
        let ghost mid = *self;
        let i = dest_ref.node.0;
        let b = dest_ref.bind_index;
        assert(self.nodes@[i as int] == before.nodes@[i as int]);
        let dest = &mut self.nodes[i];
        dest.inputs.set(b, Some(origin));
        proof {
            assert(bound(mid, *self, i as int, b as int, origin));
            assert(self.nodes@[i as int].wf());
        }
    }

    /// Render `bind` as the graph's output.
    pub fn set_output(&mut self, bind: BindRef)
        ensures
            final(self).nodes == old(self).nodes,
            final(self).output == bind,
    {
        self.output = bind;
    }
}

} // verus!
