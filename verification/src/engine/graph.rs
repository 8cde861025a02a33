//! The engine's graph: placed nodes, their input bindings, the rendered
//! output, and the cache of computed output values.
use crate::data::{DataValue, Port, SimpleDataValue};
use crate::engine::node::{const_node, Node};
use crate::node::first_named;
use crate::node::output_ports;
use vstd::prelude::*;

verus! {

/// A node of a particular graph: its position among the graph's nodes.
#[derive(Debug, Clone, Copy, PartialEq, Eq, Hash, Structural)]
pub struct NodeRef(pub usize);

/// One port of a node of a particular graph.
#[derive(Debug, Clone, Copy, PartialEq, Eq, Hash, Structural)]
pub struct PortRef {
    pub node: NodeRef,
    pub port_index: usize,
}

/// A node placed in a graph: the node, what each input is bound to, its own
/// reference, and caller metadata.
#[derive(Debug)]
pub struct NodeInstance<M> {
    pub value: Node,
    /// One entry per input of `value`.
    pub inputs: Vec<Option<PortRef>>,
    pub self_ref: NodeRef,
    pub metadata: M,
}

/// All inputs are bound, to `ports` in order.
pub open spec fn all_bound(inputs: Seq<Option<PortRef>>, ports: Seq<PortRef>) -> bool {
    &&& ports.len() == inputs.len()
    &&& forall|i: int| 0 <= i < inputs.len() ==> (#[trigger] inputs[i]) == Some(ports[i])
}

impl<M> NodeInstance<M> {
    pub open spec fn wf(self) -> bool {
        self.inputs@.len() == self.value.input_ports().len()
    }

    pub fn inner(&self) -> (r: &Node)
        ensures
            *r == self.value,
    {
        &self.value
    }

    /// What the input called `name` is bound to.
    pub fn get_named_input_port(&self, name: &str) -> (r: Option<PortRef>)
        requires
            self.wf(),
        ensures
            match r {
                Some(p) => exists|i: usize| #[trigger]
                    first_named(self.value.input_ports(), name@, Some(i)) && self.inputs@[i as int] == Some(p),
                None => first_named(self.value.input_ports(), name@, None) || exists|i: usize| #[trigger]
                    first_named(self.value.input_ports(), name@, Some(i)) && self.inputs@[i as int] is None,
            },
    {
        match self.value.get_named_input_port_position(name) {
            Some(i) => self.inputs[i],
            None => None,
        }
    }

    /// The output port called `name` of this node.
    pub fn get_named_output_port(&self, name: &str) -> (r: Option<PortRef>)
        ensures
            match self.value.output_list() {
                Some(o) => match r {
                    Some(p) => p.node == self.self_ref && first_named(output_ports(o), name@, Some(p.port_index)),
                    None => first_named(output_ports(o), name@, None),
                },
                None => r is None,
            },
    {
        match self.value.get_named_output_port_position(name) {
            Some(i) => Some(PortRef { node: self.self_ref, port_index: i }),
            None => None,
        }
    }

    /// The ports all inputs are bound to, when every input is bound.
    pub fn realized_inputs(&self) -> (r: Option<Vec<PortRef>>)
        ensures
            match r {
                Some(ps) => all_bound(self.inputs@, ps@),
                None => exists|i: int| 0 <= i < self.inputs@.len() && (#[trigger] self.inputs@[i]) is None,
            },
    {
        let mut ps: Vec<PortRef> = Vec::new();
        let mut i: usize = 0;
        while i < self.inputs.len()
            invariant
                i <= self.inputs@.len(),
                ps@.len() == i,
                forall|j: int| 0 <= j < i ==> (#[trigger] self.inputs@[j]) == Some(ps@[j]),
            decreases self.inputs@.len() - i,
        {
            match self.inputs[i] {
                Some(p) => ps.push(p),
                None => {
                    return None;
                },
            }
            i = i + 1;
        }
        Some(ps)
    }
}

/// A graph: placed nodes, the port it renders, and the values computed so far.
#[derive(Debug)]
pub struct Graph<M> {
    pub nodes: Vec<NodeInstance<M>>,
    pub output: Option<PortRef>,
    /// Computed output values, at most one per port.
    pub output_cache: Vec<(PortRef, DataValue)>,
}

/// `after` has the nodes of `before` unchanged at the same places (metadata
/// included), and the same output and cache.
pub open spec fn extends<M>(before: Graph<M>, after: Graph<M>) -> bool {
    &&& before.nodes@.len() <= after.nodes@.len()
    &&& forall|i: int| 0 <= i < before.nodes@.len() ==> (#[trigger] after.nodes@[i]) == before.nodes@[i]
    &&& after.output == before.output
    &&& after.output_cache == before.output_cache
}

/// `after` is `before` with input `index` of node `at` bound to `origin`, and
/// no value cached: a value computed before may depend on the old binding.
pub open spec fn bound<M>(before: Graph<M>, after: Graph<M>, at: int, index: int, origin: PortRef) -> bool {
    &&& after.nodes@.len() == before.nodes@.len()
    &&& after.output == before.output
    &&& after.output_cache@.len() == 0
    &&& forall|i: int| 0 <= i < before.nodes@.len() && i != at ==> (#[trigger] after.nodes@[i]) == before.nodes@[i]
    &&& after.nodes@[at].value == before.nodes@[at].value
    &&& after.nodes@[at].self_ref == before.nodes@[at].self_ref
    &&& after.nodes@[at].metadata == before.nodes@[at].metadata
    &&& after.nodes@[at].inputs@ == before.nodes@[at].inputs@.update(index, Some(origin))
}

/// Something an input can be bound to: a port, or a value, which gets a
/// constant node of its own.
pub trait IntoBindRef<M>: Sized {
    /// Inserting `self` into `before` gives `after` and the port `r`.
    spec fn binds_into(self, before: Graph<M>, after: Graph<M>, r: PortRef) -> bool;

    fn into_bind_ref(self, graph: &mut Graph<M>) -> (r: PortRef)
        requires
            old(graph).wf(),
        ensures
            final(graph).wf(),
            extends(*old(graph), *final(graph)),
            self.binds_into(*old(graph), *final(graph), r),
    ;
}

impl<M> IntoBindRef<M> for PortRef {
    open spec fn binds_into(self, before: Graph<M>, after: Graph<M>, r: PortRef) -> bool {
        after == before && r == self
    }

    fn into_bind_ref(self, graph: &mut Graph<M>) -> (r: PortRef) {
        self
    }
}

impl<M: Default> IntoBindRef<M> for SimpleDataValue {
    open spec fn binds_into(self, before: Graph<M>, after: Graph<M>, r: PortRef) -> bool {
        let n = before.nodes@.len();
        &&& after.nodes@.len() == n + 1
        &&& after.nodes@[n as int].value == (Node::Const { value: self })
        &&& r == (PortRef { node: NodeRef(n as usize), port_index: 0 })
    }

    fn into_bind_ref(self, graph: &mut Graph<M>) -> (r: PortRef) {
        let node = graph.insert_node(const_node(self));
        PortRef { node, port_index: 0 }
    }
}

impl Graph<()> {
    /// A graph without nodes or metadata.
    pub fn new() -> (r: Self)
        ensures
            r.wf(),
            r.nodes@.len() == 0,
            r.output is None,
            r.output_cache@.len() == 0,
    {
        Graph { nodes: Vec::new(), output: None, output_cache: Vec::new() }
    }
}

impl<M> Graph<M> {
    /// Every placed node knows its place and has one binding per input, and
    /// the cache holds at most one value per port.
    pub open spec fn wf(self) -> bool {
        &&& forall|i: int| 0 <= i < self.nodes@.len() ==> (#[trigger] self.nodes@[i]).wf()
        &&& forall|i: int| 0 <= i < self.nodes@.len() ==> (#[trigger] self.nodes@[i]).self_ref == NodeRef(i as usize)
        &&& forall|a: int, b: int|
            0 <= a < b < self.output_cache@.len() ==> (#[trigger] self.output_cache@[a]).0 != (#[trigger] self.output_cache@[b]).0
    }

    pub open spec fn has(self, node_ref: NodeRef) -> bool {
        node_ref.0 < self.nodes@.len()
    }

    pub fn nodes(&self) -> (r: &[NodeInstance<M>])
        ensures
            r@ == self.nodes@,
    {
        self.nodes.as_slice()
    }

    /// References to every node, in order.
    pub fn node_refs(&self) -> (r: Vec<NodeRef>)
        ensures
            r@.len() == self.nodes@.len(),
            forall|i: int| 0 <= i < r@.len() ==> (#[trigger] r@[i]) == NodeRef(i as usize),
    {
        let mut r: Vec<NodeRef> = Vec::new();
        let mut i: usize = 0;
        while i < self.nodes.len()
            invariant
                i <= self.nodes@.len(),
                r@.len() == i,
                forall|j: int| 0 <= j < i ==> (#[trigger] r@[j]) == NodeRef(j as usize),
            decreases self.nodes@.len() - i,
        {
            r.push(NodeRef(i));
            i = i + 1;
        }
        r
    }

    /// The placed nodes, for changing them.
    pub fn nodes_mut(&mut self) -> (r: &mut Vec<NodeInstance<M>>)
        ensures
            *r == old(self).nodes,
            final(self).nodes == *final(r),
            final(self).output == old(self).output,
            final(self).output_cache == old(self).output_cache,
    {
        &mut self.nodes
    }

    /// The placed node `node_ref` points to.
    pub fn get(&self, node_ref: NodeRef) -> (r: &NodeInstance<M>)
        requires
            self.has(node_ref),
        ensures
            *r == self.nodes@[node_ref.0 as int],
    {
        &self.nodes[node_ref.0]
    }

    /// The placed node `node_ref` points to, for changing it.
    fn get_mut(&mut self, node_ref: NodeRef) -> (r: &mut NodeInstance<M>)
        requires
            old(self).has(node_ref),
        ensures
            *r == old(self).nodes@[node_ref.0 as int],
            final(self).nodes@ == old(self).nodes@.update(node_ref.0 as int, *final(r)),
            final(self).output == old(self).output,
            final(self).output_cache == old(self).output_cache,
    {
        &mut self.nodes[node_ref.0]
    }

    /// The metadata of node `node_ref`, for changing it.
    pub fn get_meta_mut(&mut self, node_ref: NodeRef) -> (r: &mut M)
        requires
            old(self).has(node_ref),
        ensures
            *r == old(self).nodes@[node_ref.0 as int].metadata,
            final(self).nodes@.len() == old(self).nodes@.len(),
            forall|i: int|
                0 <= i < old(self).nodes@.len() && i != node_ref.0 ==> (#[trigger] final(self).nodes@[i])
                    == old(self).nodes@[i],
            final(self).nodes@[node_ref.0 as int].metadata == *final(r),
            final(self).nodes@[node_ref.0 as int].value == old(self).nodes@[node_ref.0 as int].value,
            final(self).nodes@[node_ref.0 as int].inputs == old(self).nodes@[node_ref.0 as int].inputs,
            final(self).nodes@[node_ref.0 as int].self_ref == old(self).nodes@[node_ref.0 as int].self_ref,
            final(self).output == old(self).output,
            final(self).output_cache == old(self).output_cache,
    {
        &mut self.nodes[node_ref.0].metadata
    }

    /// The input port `port_ref` names, when the node has one at that index.
    pub fn get_input_port(&self, port_ref: PortRef) -> (r: Option<&Port>)
        requires
            self.has(port_ref.node),
        ensures
            ({
                let ins = self.nodes@[port_ref.node.0 as int].value.input_ports();
                if port_ref.port_index < ins.len() {
                    r matches Some(p) && *p == ins[port_ref.port_index as int]
                } else {
                    r is None
                }
            }),
    {
        let ins = self.get(port_ref.node).inner().inputs();
        if port_ref.port_index < ins.len() {
            Some(&ins[port_ref.port_index])
        } else {
            None
        }
    }

    /// The output port `port_ref` names, when the node has one at that index.
    pub fn get_output_port(&self, port_ref: PortRef) -> (r: Option<&Port>)
        requires
            self.has(port_ref.node),
        ensures
            match self.nodes@[port_ref.node.0 as int].value.output_list() {
                Some(o) => if port_ref.port_index < o.len() {
                    r matches Some(p) && *p == o[port_ref.port_index as int].0
                } else {
                    r is None
                },
                None => r is None,
            },
    {
        match self.get(port_ref.node).inner().outputs() {
            Some(o) => if port_ref.port_index < o.len() {
                Some(&o[port_ref.port_index].0)
            } else {
                None
            },
            None => None,
        }
    }

    /// Place `node` with the metadata `M::default()` gives and all inputs
    /// unbound.
    pub fn insert_node(&mut self, node: Node) -> (r: NodeRef) where M: Default
        requires
            old(self).wf(),
        ensures
            final(self).wf(),
            extends(*old(self), *final(self)),
            final(self).nodes@.len() == old(self).nodes@.len() + 1,
            r.0 == old(self).nodes@.len(),
            final(self).nodes@[r.0 as int].value == node,
            final(self).nodes@[r.0 as int].self_ref == r,
            call_ensures(M::default, (), final(self).nodes@[r.0 as int].metadata),
            forall|i: int|
                0 <= i < final(self).nodes@[r.0 as int].inputs@.len()
                    ==> (#[trigger] final(self).nodes@[r.0 as int].inputs@[i]) is None,
    {
        let metadata = M::default();
        self.insert_node_with_meta(node, metadata)
    }

    /// Place `node` with `metadata` and all inputs unbound.
    pub fn insert_node_with_meta(&mut self, node: Node, metadata: M) -> (r: NodeRef)
        requires
            old(self).wf(),
        ensures
            final(self).wf(),
            extends(*old(self), *final(self)),
            final(self).nodes@.len() == old(self).nodes@.len() + 1,
            r.0 == old(self).nodes@.len(),
            final(self).nodes@[r.0 as int].value == node,
            final(self).nodes@[r.0 as int].metadata == metadata,
            final(self).nodes@[r.0 as int].self_ref == r,
            forall|i: int|
                0 <= i < final(self).nodes@[r.0 as int].inputs@.len()
                    ==> (#[trigger] final(self).nodes@[r.0 as int].inputs@[i]) is None,
    {
        let node_ref = NodeRef(self.nodes.len());
        let mut inputs: Vec<Option<PortRef>> = Vec::new();
        let n = node.inputs().len();
        let mut i: usize = 0;
        while i < n
            invariant
                i <= n,
                n == node.input_ports().len(),
                inputs@.len() == i,
                forall|j: int| 0 <= j < i ==> (#[trigger] inputs@[j]) is None,
            decreases n - i,
        {
            inputs.push(None);
            i = i + 1;
        }
        self.nodes.push(NodeInstance { value: node, inputs, self_ref: node_ref, metadata });
        node_ref
    }

    /// Bind input `dest_ref` to `origin`, placing a constant node first when
    /// `origin` is a value. The cache is emptied, so that nothing computed
    /// from the old binding is rendered again.
    pub fn set_input<O: IntoBindRef<M>>(&mut self, dest_ref: PortRef, origin: O)
        requires
            old(self).wf(),
            old(self).has(dest_ref.node),
            dest_ref.port_index < old(self).nodes@[dest_ref.node.0 as int].inputs@.len(),
        ensures
            final(self).wf(),
            exists|mid: Graph<M>, r: PortRef|
                #![trigger origin.binds_into(*old(self), mid, r)]
                extends(*old(self), mid) && origin.binds_into(*old(self), mid, r) && bound(
                    mid,
                    *final(self),
                    dest_ref.node.0 as int,
                    dest_ref.port_index as int,
                    r,
                ),
    {
        let ghost before = *self;
        let origin = origin.into_bind_ref(self);
        let ghost mid = *self;
        let i = dest_ref.node.0;
        let b = dest_ref.port_index;
        assert(self.nodes@[i as int] == before.nodes@[i as int]);
        let dest = &mut self.nodes[i];
        dest.inputs.set(b, Some(origin));
        self.output_cache = Vec::new();
        proof {
            assert(bound(mid, *self, i as int, b as int, origin));
            assert(self.nodes@[i as int].wf());
        }
    }

    /// Render `port` as the graph's output.
    pub fn set_output(&mut self, port: PortRef)
        ensures
            final(self).nodes == old(self).nodes,
            final(self).output == Some(port),
            final(self).output_cache == old(self).output_cache,
    {
        self.output = Some(port);
    }
}

} // verus!
