//! Rendering a port: the order in which output values are computed. A port
//! is computed after every port its node's inputs are bound to; a port
//! already in the cache is not computed again; a constant node's output is
//! its value. The caller carries the plan out, running each built-in on the
//! values of its inputs and caching the result.
use crate::data::{DataValue, SimpleDataValue};
use crate::engine::graph::{all_bound, Graph, PortRef};
use crate::engine::node::{Effect, Node};
use crate::node::Builtin;
use vstd::prelude::*;

verus! {

/// One computation of a plan.
#[derive(Debug)]
pub enum Step {
    /// Cache `value` for `port`: a constant node's output.
    Const { port: PortRef, value: SimpleDataValue },
    /// Run `builtin` on the values cached for `inputs`, and cache the result
    /// for `port`.
    Run { port: PortRef, builtin: Builtin, inputs: Vec<PortRef> },
}

/// Why a port cannot be rendered.
#[derive(Debug, Clone, Copy, PartialEq, Eq, Structural)]
pub enum RenderError {
    /// The node of this port has an input bound to nothing.
    UnsetInput(PortRef),
    /// The node of this port has no output at this index.
    InvalidPort(PortRef),
}

/// The computations to carry out, in order, and the error met after them.
#[derive(Debug)]
pub struct RenderPlan {
    pub steps: Vec<Step>,
    pub error: Option<RenderError>,
}

pub open spec fn step_port(s: Step) -> PortRef {
    match s {
        Step::Const { port, .. } => port,
        Step::Run { port, .. } => port,
    }
}

/// `p` has a cached value.
pub open spec fn in_cache<M>(g: Graph<M>, p: PortRef) -> bool {
    exists|k: int| 0 <= k < g.output_cache@.len() && (#[trigger] g.output_cache@[k]).0 == p
}

/// `p` has a value once `steps[0..upto]` are carried out.
pub open spec fn done<M>(g: Graph<M>, steps: Seq<Step>, upto: int, p: PortRef) -> bool {
    in_cache(g, p) || exists|k: int| 0 <= k < upto && step_port(#[trigger] steps[k]) == p
}

/// The port's node is a constant and the port its single output.
pub open spec fn const_output<M>(g: Graph<M>, p: PortRef) -> bool {
    g.nodes@[p.node.0 as int].value is Const && p.port_index == 0
}

/// Step `k` computes a port that has no value yet, as the port's node says.
pub open spec fn step_ok<M>(g: Graph<M>, steps: Seq<Step>, k: int) -> bool {
    let s = steps[k];
    let p = step_port(s);
    let inst = g.nodes@[p.node.0 as int];
    &&& p.node.0 < g.nodes@.len()
    &&& !done(g, steps, k, p)
    &&& match s {
        Step::Const { port, value } => inst.value matches Node::Const { value: v } && port.port_index == 0
            && value.same(v),
        Step::Run { port, builtin, inputs } => {
            &&& !const_output(g, port)
            &&& all_bound(inst.inputs@, inputs@)
            &&& inst.value.output_list() matches Some(o) && port.port_index < o.len() && o[port.port_index as int].1
                == Effect::Fn(builtin)
            &&& forall|i: int| 0 <= i < inputs@.len() ==> done(g, steps, k, #[trigger] inputs@[i])
        },
    }
}

/// Every step computes a new port from values already there.
pub open spec fn plan_ok<M>(g: Graph<M>, steps: Seq<Step>) -> bool {
    forall|k: int| 0 <= k < steps.len() ==> #[trigger] step_ok(g, steps, k)
}

/// `to` can be reached from `from` by following input bindings at most `n`
/// times.
pub open spec fn reaches<M>(g: Graph<M>, from: PortRef, to: PortRef, n: nat) -> bool
    decreases n,
{
    from == to || (n > 0 && from.node.0 < g.nodes@.len() && exists|i: int|
        0 <= i < g.nodes@[from.node.0 as int].inputs@.len() && match #[trigger] g.nodes@[from.node.0 as int].inputs@[i] {
            Some(q) => reaches(g, q, to, (n - 1) as nat),
            None => false,
        })
}

/// The value of `from` depends on that of `to`.
pub open spec fn reachable<M>(g: Graph<M>, from: PortRef, to: PortRef) -> bool {
    exists|n: nat| #[trigger] reaches(g, from, to, n)
}

/// `rank` decreases along every input binding, which points to a node of the
/// graph.
pub open spec fn ranked<M>(g: Graph<M>, rank: spec_fn(int) -> nat) -> bool {
    forall|i: int, j: int|
        0 <= i < g.nodes@.len() && 0 <= j < g.nodes@[i].inputs@.len() ==> match #[trigger] g.nodes@[i].inputs@[j] {
            Some(p) => p.node.0 < g.nodes@.len() && rank(p.node.0 as int) < rank(i),
            None => true,
        }
}

/// No chain of input bindings comes back to where it started.
pub open spec fn acyclic<M>(g: Graph<M>) -> bool {
    exists|rank: spec_fn(int) -> nat| ranked(g, rank)
}

/// `rank` decreases along every input binding of a node that `root`
/// depends on, and each such binding points to a node of the graph.
pub open spec fn ranked_from<M>(g: Graph<M>, root: PortRef, rank: spec_fn(int) -> nat) -> bool {
    forall|q: PortRef, j: int|
        reachable(g, root, q) && q.node.0 < g.nodes@.len() && 0 <= j < g.nodes@[q.node.0 as int].inputs@.len()
            ==> match #[trigger] g.nodes@[q.node.0 as int].inputs@[j] {
            Some(p) => p.node.0 < g.nodes@.len() && rank(p.node.0 as int) < rank(q.node.0 as int),
            None => true,
        }
}

/// No chain of input bindings that `root` depends on comes back to where it
/// started.
pub open spec fn acyclic_from<M>(g: Graph<M>, root: PortRef) -> bool {
    exists|rank: spec_fn(int) -> nat| ranked_from(g, root, rank)
}

/// What an error says of the port it names, once the plan's steps are
/// carried out.
pub open spec fn error_ok<M>(g: Graph<M>, steps: Seq<Step>, root: PortRef, e: RenderError) -> bool {
    match e {
        RenderError::UnsetInput(q) => {
            &&& reachable(g, root, q)
            &&& q.node.0 < g.nodes@.len()
            &&& !done(g, steps, steps.len() as int, q)
            &&& !const_output(g, q)
            &&& exists|i: int| 0 <= i < g.nodes@[q.node.0 as int].inputs@.len() && (#[trigger] g.nodes@[q.node.0 as int].inputs@[i]) is None
        },
        RenderError::InvalidPort(q) => {
            &&& reachable(g, root, q)
            &&& q.node.0 < g.nodes@.len()
            &&& !done(g, steps, steps.len() as int, q)
            &&& !const_output(g, q)
            &&& forall|i: int| 0 <= i < g.nodes@[q.node.0 as int].inputs@.len() ==> match #[trigger] g.nodes@[q.node.0 as int].inputs@[i] {
                Some(p) => done(g, steps, steps.len() as int, p),
                None => false,
            }
            &&& match g.nodes@[q.node.0 as int].value.output_list() {
                Some(o) => q.port_index >= o.len(),
                None => true,
            }
        },
    }
}

proof fn lemma_reach_refl<M>(g: Graph<M>, p: PortRef)
    ensures
        reachable(g, p, p),
{
    assert(reaches(g, p, p, 0));
}

proof fn lemma_reach_extend<M>(g: Graph<M>, from: PortRef, p: PortRef, j: int, q: PortRef, n: nat)
    requires
        reaches(g, from, p, n),
        p.node.0 < g.nodes@.len(),
        0 <= j < g.nodes@[p.node.0 as int].inputs@.len(),
        g.nodes@[p.node.0 as int].inputs@[j] == Some(q),
    ensures
        reaches(g, from, q, n + 1),
    decreases n,
{
    if from == p {
        assert(reaches(g, q, q, 0));
        assert(reaches(g, g.nodes@[from.node.0 as int].inputs@[j].unwrap(), q, n));
        lemma_reaches_mono(g, q, q, 0, n);
    } else {
        let i = choose|i: int|
            0 <= i < g.nodes@[from.node.0 as int].inputs@.len() && match #[trigger] g.nodes@[from.node.0 as int].inputs@[i] {
                Some(x) => reaches(g, x, p, (n - 1) as nat),
                None => false,
            };
        let x = g.nodes@[from.node.0 as int].inputs@[i].unwrap();
        lemma_reach_extend(g, x, p, j, q, (n - 1) as nat);
    }
}

proof fn lemma_reaches_mono<M>(g: Graph<M>, from: PortRef, to: PortRef, n: nat, m: nat)
    requires
        reaches(g, from, to, n),
        n <= m,
    ensures
        reaches(g, from, to, m),
    decreases n,
{
    if from != to {
        let i = choose|i: int|
            0 <= i < g.nodes@[from.node.0 as int].inputs@.len() && match #[trigger] g.nodes@[from.node.0 as int].inputs@[i] {
                Some(x) => reaches(g, x, to, (n - 1) as nat),
                None => false,
            };
        let x = g.nodes@[from.node.0 as int].inputs@[i].unwrap();
        lemma_reaches_mono(g, x, to, (n - 1) as nat, (m - 1) as nat);
    }
}

/// Steps added after a prefix keep the prefix's steps valid.
proof fn lemma_prefix_done<M>(g: Graph<M>, old_steps: Seq<Step>, new_steps: Seq<Step>, upto: int, p: PortRef)
    requires
        old_steps.len() <= new_steps.len(),
        forall|k: int| 0 <= k < old_steps.len() ==> new_steps[k] == old_steps[k],
        0 <= upto <= old_steps.len(),
    ensures
        done(g, old_steps, upto, p) == done(g, new_steps, upto, p),
{
    if done(g, old_steps, upto, p) && !in_cache(g, p) {
        let k = choose|k: int| 0 <= k < upto && step_port(#[trigger] old_steps[k]) == p;
        assert(step_port(new_steps[k]) == p);
    }
    if done(g, new_steps, upto, p) && !in_cache(g, p) {
        let k = choose|k: int| 0 <= k < upto && step_port(#[trigger] new_steps[k]) == p;
        assert(step_port(old_steps[k]) == p);
    }
}

proof fn lemma_prefix_plan<M>(g: Graph<M>, old_steps: Seq<Step>, new_steps: Seq<Step>)
    requires
        plan_ok(g, old_steps),
        old_steps.len() <= new_steps.len(),
        forall|k: int| 0 <= k < old_steps.len() ==> new_steps[k] == old_steps[k],
        forall|k: int| old_steps.len() <= k < new_steps.len() ==> #[trigger] step_ok(g, new_steps, k),
    ensures
        plan_ok(g, new_steps),
{
    assert forall|k: int| 0 <= k < new_steps.len() implies #[trigger] step_ok(g, new_steps, k) by {
        if k < old_steps.len() {
            assert(step_ok(g, old_steps, k));
            lemma_prefix_done(g, old_steps, new_steps, k, step_port(old_steps[k]));
            match old_steps[k] {
                Step::Run { port, builtin, inputs } => {
                    assert forall|i: int| 0 <= i < inputs@.len() implies done(g, new_steps, k, #[trigger] inputs@[i]) by {
                        lemma_prefix_done(g, old_steps, new_steps, k, inputs@[i]);
                    }
                },
                _ => {},
            }
        }
    }
}

/// A port with a value keeps it as steps are added.
proof fn lemma_done_grows<M>(g: Graph<M>, old_steps: Seq<Step>, new_steps: Seq<Step>, p: PortRef)
    requires
        old_steps.len() <= new_steps.len(),
        forall|k: int| 0 <= k < old_steps.len() ==> new_steps[k] == old_steps[k],
        done(g, old_steps, old_steps.len() as int, p),
    ensures
        done(g, new_steps, new_steps.len() as int, p),
{
    if !in_cache(g, p) {
        let k = choose|k: int| 0 <= k < old_steps.len() && step_port(#[trigger] old_steps[k]) == p;
        assert(step_port(new_steps[k]) == p);
    }
}

impl<M> Graph<M> {
    /// Whether `p` has a value once `steps` are carried out.
    fn is_done(&self, steps: &Vec<Step>, p: PortRef) -> (r: bool)
        ensures
            r == done(*self, steps@, steps@.len() as int, p),
    {
        let mut k: usize = 0;
        while k < self.output_cache.len()
            invariant
                k <= self.output_cache@.len(),
                forall|j: int| 0 <= j < k ==> (#[trigger] self.output_cache@[j]).0 != p,
            decreases self.output_cache@.len() - k,
        {
            if self.output_cache[k].0 == p {
                return true;
            }
            k = k + 1;
        }
        let mut j: usize = 0;
        while j < steps.len()
            invariant
                j <= steps@.len(),
                !in_cache(*self, p),
                forall|q: int| 0 <= q < j ==> step_port(#[trigger] steps@[q]) != p,
            decreases steps@.len() - j,
        {
            let sp = match &steps[j] {
                Step::Const { port, .. } => *port,
                Step::Run { port, .. } => *port,
            };
            if sp == p {
                return true;
            }
            j = j + 1;
        }
        false
    }

    /// Plan `port` after the steps already planned.
    fn plan_into(
        &self,
        port: PortRef,
        steps: &mut Vec<Step>,
        Ghost(rank): Ghost<spec_fn(int) -> nat>,
        Ghost(root): Ghost<PortRef>,
    ) -> (r: Result<(), RenderError>)
        requires
            self.wf(),
            ranked_from(*self, root, rank),
            port.node.0 < self.nodes@.len(),
            reachable(*self, root, port),
            plan_ok(*self, old(steps)@),
            forall|k: int| 0 <= k < old(steps)@.len() ==> reachable(*self, root, step_port(#[trigger] old(steps)@[k])),
        ensures
            plan_ok(*self, final(steps)@),
            old(steps)@.len() <= final(steps)@.len(),
            forall|k: int| 0 <= k < old(steps)@.len() ==> #[trigger] final(steps)@[k] == old(steps)@[k],
            forall|k: int| 0 <= k < final(steps)@.len() ==> reachable(*self, root, step_port(#[trigger] final(steps)@[k])),
            forall|k: int|
                old(steps)@.len() <= k < final(steps)@.len() ==> rank(step_port(#[trigger] final(steps)@[k]).node.0 as int)
                    <= rank(port.node.0 as int) && (step_port(final(steps)@[k]) != port ==> rank(
                    step_port(final(steps)@[k]).node.0 as int,
                ) < rank(port.node.0 as int)),
            r is Ok ==> done(*self, final(steps)@, final(steps)@.len() as int, port),
            r matches Err(e) ==> error_ok(*self, final(steps)@, root, e),
            (!done(*self, old(steps)@, old(steps)@.len() as int, port) && !const_output(*self, port) && exists|i: int|
                0 <= i < self.nodes@[port.node.0 as int].inputs@.len() && (
                #[trigger] self.nodes@[port.node.0 as int].inputs@[i]) is None) ==> final(steps)@ == old(steps)@ && r
                == Err::<(), RenderError>(RenderError::UnsetInput(port)),
        decreases rank(port.node.0 as int),
    {
        if self.is_done(steps, port) {
            return Ok(());
        }
        let ghost start = steps@;
        let inst = &self.nodes[port.node.0];
        if port.port_index == 0 {
            if let Node::Const { value } = &inst.value {
                let ghost before = steps@;
                steps.push(Step::Const { port, value: value.duplicate() });
                proof {
                    assert(step_ok(*self, steps@, before.len() as int));
                    lemma_prefix_plan(*self, before, steps@);
                    assert(step_port(steps@[before.len() as int]) == port);
                }
                return Ok(());
            }
        }
        proof {
            assert(!const_output(*self, port));
        }
        let inputs = match inst.realized_inputs() {
            Some(i) => i,
            None => {
                proof {
                    lemma_reach_refl(*self, port);
                }
                return Err(RenderError::UnsetInput(port));
            },
        };
        let mut i: usize = 0;
        while i < inputs.len()
            invariant
                self.wf(),
                ranked_from(*self, root, rank),
                port.node.0 < self.nodes@.len(),
                reachable(*self, root, port),
                inst == self.nodes@[port.node.0 as int],
                all_bound(inst.inputs@, inputs@),
                !const_output(*self, port),
                i <= inputs@.len(),
                plan_ok(*self, steps@),
                start == old(steps)@,
                start.len() <= steps@.len(),
                forall|k: int| 0 <= k < start.len() ==> #[trigger] steps@[k] == start[k],
                !done(*self, start, start.len() as int, port),
                forall|k: int| 0 <= k < steps@.len() ==> reachable(*self, root, step_port(#[trigger] steps@[k])),
                forall|k: int|
                    start.len() <= k < steps@.len() ==> rank(step_port(#[trigger] steps@[k]).node.0 as int) < rank(
                        port.node.0 as int,
                    ),
                forall|j: int| 0 <= j < i ==> done(*self, steps@, steps@.len() as int, #[trigger] inputs@[j]),
            decreases inputs@.len() - i,
        {
            let q = inputs[i];
            let ghost before = steps@;
            proof {
                assert(inst.inputs@[i as int] == Some(q));
                assert(match self.nodes@[port.node.0 as int].inputs@[i as int] {
                    Some(p) => p.node.0 < self.nodes@.len() && rank(p.node.0 as int) < rank(port.node.0 as int),
                    None => true,
                });
                let n = choose|n: nat| #[trigger] reaches(*self, root, port, n);
                lemma_reach_extend(*self, root, port, i as int, q, n);
            }
            match self.plan_into(q, steps, Ghost(rank), Ghost(root)) {
                Ok(()) => {},
                Err(e) => {
                    return Err(e);
                },
            }
            proof {
                assert forall|j: int| 0 <= j < i + 1 implies done(*self, steps@, steps@.len() as int, #[trigger] inputs@[j]) by {
                    if j < i {
                        lemma_done_grows(*self, before, steps@, inputs@[j]);
                    }
                }
            }
            i = i + 1;
        }
        let effect = inst.value.effect(port.port_index);
        match effect {
            Some(Effect::Fn(b)) => {
                let ghost before = steps@;
                proof {
                    assert(!done(*self, before, before.len() as int, port)) by {
                        if !in_cache(*self, port) && done(*self, before, before.len() as int, port) {
                            let k = choose|k: int| 0 <= k < before.len() && step_port(#[trigger] before[k]) == port;
                            if k < start.len() {
                                assert(step_port(start[k]) == port);
                            }
                        }
                    }
                }
                steps.push(Step::Run { port, builtin: b, inputs });
                proof {
                    let k = before.len() as int;
                    assert forall|j: int| 0 <= j < inputs@.len() implies done(*self, steps@, k, #[trigger] inputs@[j]) by {
                        lemma_prefix_done(*self, before, steps@, k, inputs@[j]);
                    }
                    lemma_prefix_done(*self, before, steps@, k, port);
                    assert(step_ok(*self, steps@, k));
                    lemma_prefix_plan(*self, before, steps@);
                    assert(step_port(steps@[k]) == port);
                }
                Ok(())
            },
            None => {
                proof {
                    lemma_reach_refl(*self, port);
                    assert(!done(*self, steps@, steps@.len() as int, port)) by {
                        if !in_cache(*self, port) && done(*self, steps@, steps@.len() as int, port) {
                            let k = choose|k: int| 0 <= k < steps@.len() && step_port(#[trigger] steps@[k]) == port;
                            if k < start.len() {
                                assert(step_port(start[k]) == port);
                            }
                        }
                    }
                    assert forall|j: int| 0 <= j < self.nodes@[port.node.0 as int].inputs@.len()
                        implies match #[trigger] self.nodes@[port.node.0 as int].inputs@[j] {
                        Some(p) => done(*self, steps@, steps@.len() as int, p),
                        None => false,
                    } by {
                        assert(inst.inputs@[j] == Some(inputs@[j]));
                    }
                }
                Err(RenderError::InvalidPort(port))
            },
        }
    }

    /// The computations that render `port`, in the order they are carried
    /// out, and the error met after them, if any.
    pub fn render_plan(&self, port: PortRef) -> (r: RenderPlan)
        requires
            self.wf(),
            acyclic_from(*self, port),
            port.node.0 < self.nodes@.len(),
        ensures
            plan_ok(*self, r.steps@),
            forall|k: int| 0 <= k < r.steps@.len() ==> reachable(*self, port, step_port(#[trigger] r.steps@[k])),
            match r.error {
                None => done(*self, r.steps@, r.steps@.len() as int, port),
                Some(e) => error_ok(*self, r.steps@, port, e),
            },
            (!in_cache(*self, port) && !const_output(*self, port) && exists|i: int|
                0 <= i < self.nodes@[port.node.0 as int].inputs@.len() && (
                #[trigger] self.nodes@[port.node.0 as int].inputs@[i]) is None) ==> r.steps@.len() == 0 && r.error
                == Some(RenderError::UnsetInput(port)),
    {
        let ghost rank = choose|rank: spec_fn(int) -> nat| ranked_from(*self, port, rank);
        let mut steps: Vec<Step> = Vec::new();
        proof {
            lemma_reach_refl(*self, port);
        }
        let error = match self.plan_into(port, &mut steps, Ghost(rank), Ghost(port)) {
            Ok(()) => None,
            Err(e) => Some(e),
        };
        RenderPlan { steps, error }
    }
}

/// Why a graph cannot be rendered to a file.
#[derive(Debug, Clone, Copy, PartialEq, Eq, Structural)]
pub enum TargetError {
    /// No output port is set.
    NoOutput,
    /// The output's node has no `fps` output.
    NoFpsPort,
}

proof fn lemma_count_zero(s: Seq<bool>)
    requires
        forall|q: int| 0 <= q < s.len() ==> !#[trigger] s[q],
    ensures
        count_set(s) == 0,
    decreases s.len(),
{
    if s.len() > 0 {
        lemma_count_zero(s.drop_last());
    }
}

/// How many of `s` are set.
pub open spec fn count_set(s: Seq<bool>) -> nat
    decreases s.len(),
{
    if s.len() == 0 {
        0
    } else {
        count_set(s.drop_last()) + if s.last() {
            1nat
        } else {
            0nat
        }
    }
}

proof fn lemma_count_set_bound(s: Seq<bool>)
    ensures
        count_set(s) <= s.len(),
        count_set(s) == s.len() ==> forall|i: int| 0 <= i < s.len() ==> #[trigger] s[i],
        count_set(s) < s.len() ==> exists|i: int| 0 <= i < s.len() && !#[trigger] s[i],
    decreases s.len(),
{
    if s.len() > 0 {
        let d = s.drop_last();
        lemma_count_set_bound(d);
        if count_set(s) == s.len() {
            assert forall|i: int| 0 <= i < s.len() implies #[trigger] s[i] by {
                if i < s.len() - 1 {
                    assert(d[i] == s[i]);
                }
            }
        }
        if count_set(s) < s.len() {
            if !s.last() {
                assert(!s[s.len() - 1]);
            } else {
                let i = choose|i: int| 0 <= i < d.len() && !#[trigger] d[i];
                assert(!s[i]);
            }
        }
    }
}

proof fn lemma_count_set_mark(s: Seq<bool>, i: int)
    requires
        0 <= i < s.len(),
        !s[i],
    ensures
        count_set(s.update(i, true)) == count_set(s) + 1,
    decreases s.len(),
{
    let t = s.update(i, true);
    if i < s.len() - 1 {
        lemma_count_set_mark(s.drop_last(), i);
        assert(t.drop_last() =~= s.drop_last().update(i, true));
    } else {
        assert(t.drop_last() =~= s.drop_last());
    }
}

/// Every binding of node `i` points to a node already taken off.
pub open spec fn ready<M>(g: Graph<M>, taken: Seq<bool>, i: int) -> bool {
    forall|j: int|
        0 <= j < g.nodes@[i].inputs@.len() ==> match #[trigger] g.nodes@[i].inputs@[j] {
            Some(p) => p.node.0 < g.nodes@.len() && taken[p.node.0 as int],
            None => true,
        }
}

/// Among the nodes not taken off, one of least rank.
proof fn lemma_least_rank_left(rank: spec_fn(int) -> nat, taken: Seq<bool>, w: int)
    requires
        0 <= w < taken.len(),
        !taken[w],
    ensures
        exists|m: int|
            0 <= m < taken.len() && !taken[m] && forall|k: int| 0 <= k < taken.len() && !taken[k] ==> rank(m) <= rank(k),
    decreases rank(w),
{
    if !(forall|k: int| 0 <= k < taken.len() && !taken[k] ==> rank(w) <= rank(k)) {
        let k = choose|k: int| 0 <= k < taken.len() && !taken[k] && rank(k) < rank(w);
        lemma_least_rank_left(rank, taken, k);
    }
}

/// When every node left has a binding to a node left, no rank decreases
/// along all bindings.
proof fn lemma_stuck_means_cycle<M>(g: Graph<M>, taken: Seq<bool>, w: int)
    requires
        taken.len() == g.nodes@.len(),
        0 <= w < taken.len(),
        !taken[w],
        forall|i: int| 0 <= i < taken.len() && !taken[i] ==> !#[trigger] ready(g, taken, i),
    ensures
        !acyclic(g),
{
    if acyclic(g) {
        let rank = choose|rank: spec_fn(int) -> nat| ranked(g, rank);
        lemma_least_rank_left(rank, taken, w);
        let m = choose|m: int|
            0 <= m < taken.len() && !taken[m] && forall|k: int| 0 <= k < taken.len() && !taken[k] ==> rank(m) <= rank(k);
        assert(!ready(g, taken, m));
        let j = choose|j: int|
            0 <= j < g.nodes@[m].inputs@.len() && !match #[trigger] g.nodes@[m].inputs@[j] {
                Some(p) => p.node.0 < g.nodes@.len() && taken[p.node.0 as int],
                None => true,
            };
        assert(match g.nodes@[m].inputs@[j] {
            Some(p) => p.node.0 < g.nodes@.len() && rank(p.node.0 as int) < rank(m),
            None => true,
        });
    }
}

/// Along bindings out of nodes taken off, every node reached is taken off.
proof fn lemma_reach_taken<M>(g: Graph<M>, taken: Seq<bool>, from: PortRef, to: PortRef, n: nat)
    requires
        taken.len() == g.nodes@.len(),
        from.node.0 < g.nodes@.len(),
        taken[from.node.0 as int],
        forall|i: int, j: int|
            0 <= i < taken.len() && taken[i] && 0 <= j < g.nodes@[i].inputs@.len() ==> match #[trigger] g.nodes@[i].inputs@[j] {
                Some(p) => p.node.0 < g.nodes@.len() && taken[p.node.0 as int],
                None => true,
            },
        reaches(g, from, to, n),
    ensures
        to.node.0 < g.nodes@.len(),
        taken[to.node.0 as int],
    decreases n,
{
    if from != to {
        let i = choose|i: int|
            0 <= i < g.nodes@[from.node.0 as int].inputs@.len() && match #[trigger] g.nodes@[from.node.0 as int].inputs@[i] {
                Some(x) => reaches(g, x, to, (n - 1) as nat),
                None => false,
            };
        let x = g.nodes@[from.node.0 as int].inputs@[i].unwrap();
        lemma_reach_taken(g, taken, x, to, (n - 1) as nat);
    }
}

/// When no node left is ready and a rank decreases along what `root`
/// depends on, every node `root` depends on was taken off.
proof fn lemma_ranked_taken<M>(g: Graph<M>, taken: Seq<bool>, rank: spec_fn(int) -> nat, root: PortRef, q: PortRef)
    requires
        taken.len() == g.nodes@.len(),
        forall|i: int| 0 <= i < taken.len() && !taken[i] ==> !#[trigger] ready(g, taken, i),
        ranked_from(g, root, rank),
        reachable(g, root, q),
        q.node.0 < g.nodes@.len(),
    ensures
        taken[q.node.0 as int],
    decreases rank(q.node.0 as int),
{
    let m = q.node.0 as int;
    if !taken[m] {
        assert(!ready(g, taken, m));
        let j = choose|j: int|
            0 <= j < g.nodes@[m].inputs@.len() && !match #[trigger] g.nodes@[m].inputs@[j] {
                Some(p) => p.node.0 < g.nodes@.len() && taken[p.node.0 as int],
                None => true,
            };
        let p = g.nodes@[q.node.0 as int].inputs@[j].unwrap();
        assert(p.node.0 < g.nodes@.len() && rank(p.node.0 as int) < rank(q.node.0 as int));
        let n = choose|n: nat| #[trigger] reaches(g, root, q, n);
        lemma_reach_extend(g, root, q, j, p, n);
        lemma_ranked_taken(g, taken, rank, root, p);
    }
}

impl<M> Graph<M> {
    /// Takes off, one at a time, nodes whose bindings all point to nodes
    /// already taken off, until no node left is ready; each taken node gets
    /// the position at which it came off.
    fn peel(&self) -> (r: (Vec<bool>, Vec<usize>))
        ensures
            r.0@.len() == self.nodes@.len(),
            r.1@.len() == self.nodes@.len(),
            forall|i: int, j: int|
                0 <= i < self.nodes@.len() && r.0@[i] && 0 <= j < self.nodes@[i].inputs@.len() ==> match #[trigger] self.nodes@[i].inputs@[j] {
                    Some(p) => p.node.0 < self.nodes@.len() && r.0@[p.node.0 as int] && r.1@[p.node.0 as int] < r.1@[i],
                    None => true,
                },
            forall|i: int| 0 <= i < self.nodes@.len() && !r.0@[i] ==> !#[trigger] ready(*self, r.0@, i),
    {
        let n = self.nodes.len();
        let mut taken: Vec<bool> = Vec::new();
        let mut order: Vec<usize> = Vec::new();
        let mut k: usize = 0;
        while k < n
            invariant
                k <= n,
                n == self.nodes@.len(),
                taken@.len() == k,
                order@.len() == k,
                forall|q: int| 0 <= q < k ==> !#[trigger] taken@[q],
            decreases n - k,
        {
            taken.push(false);
            order.push(0);
            k = k + 1;
        }
        proof {
            lemma_count_zero(taken@);
        }
        let mut count: usize = 0;
        while count < n
            invariant
                n == self.nodes@.len(),
                taken@.len() == n,
                order@.len() == n,
                count <= n,
                count_set(taken@) == count,
                forall|i: int| 0 <= i < n && #[trigger] taken@[i] ==> order@[i] < count,
                forall|i: int, j: int|
                    0 <= i < n && taken@[i] && 0 <= j < self.nodes@[i].inputs@.len() ==> match #[trigger] self.nodes@[i].inputs@[j] {
                        Some(p) => p.node.0 < n && taken@[p.node.0 as int] && order@[p.node.0 as int] < order@[i],
                        None => true,
                    },
            decreases n - count,
        {
            let mut i: usize = 0;
            let mut found = false;
            while i < n
                invariant_except_break
                    !found,
                invariant
                    n == self.nodes@.len(),
                    taken@.len() == n,
                    i <= n,
                    forall|q: int| 0 <= q < i && !taken@[q] ==> !#[trigger] ready(*self, taken@, q),
                ensures
                    found ==> i < n && !taken@[i as int] && ready(*self, taken@, i as int),
                    !found ==> i == n,
                decreases n - i,
            {
                if !taken[i] {
                    let ins = &self.nodes[i].inputs;
                    let mut j: usize = 0;
                    let mut ok = true;
                    while j < ins.len()
                        invariant
                            n == self.nodes@.len(),
                            taken@.len() == n,
                            i < n,
                            *ins == self.nodes@[i as int].inputs,
                            j <= ins@.len(),
                            ok == forall|b: int|
                                0 <= b < j ==> match #[trigger] ins@[b] {
                                    Some(p) => p.node.0 < n && taken@[p.node.0 as int],
                                    None => true,
                                },
                        decreases ins@.len() - j,
                    {
                        if let Some(p) = ins[j] {
                            if !(p.node.0 < n && taken[p.node.0]) {
                                ok = false;
                            }
                        }
                        j = j + 1;
                    }
                    if ok {
                        found = true;
                        proof {
                            assert(ready(*self, taken@, i as int));
                        }
                        break;
                    }
                }
                i = i + 1;
            }
            if !found {
                return (taken, order);
            }
            proof {
                lemma_count_set_mark(taken@, i as int);
            }
            taken.set(i, true);
            order.set(i, count);
            count = count + 1;
        }
        proof {
            lemma_count_set_bound(taken@);
        }
        (taken, order)
    }

    /// Whether no chain of input bindings comes back to where it started (and
    /// every binding points to a node of the graph): the graph is acyclic
    /// exactly when every node comes off.
    pub fn check_acyclic(&self) -> (r: bool)
        ensures
            r == acyclic(*self),
    {
        let (taken, order) = self.peel();
        let n = taken.len();
        let mut i: usize = 0;
        while i < n
            invariant
                n == taken@.len(),
                n == self.nodes@.len(),
                i <= n,
                forall|q: int| 0 <= q < n && !taken@[q] ==> !#[trigger] ready(*self, taken@, q),
                forall|q: int| 0 <= q < i ==> #[trigger] taken@[q],
            decreases n - i,
        {
            if !taken[i] {
                proof {
                    lemma_stuck_means_cycle(*self, taken@, i as int);
                }
                return false;
            }
            i = i + 1;
        }
        proof {
            let rank = |x: int| order@[x] as nat;
            assert(ranked(*self, rank));
        }
        true
    }

    /// Whether no chain of input bindings that `port` depends on comes back
    /// to where it started (and each of them points to a node of the graph):
    /// exactly when `port`'s node comes off.
    pub fn check_acyclic_from(&self, port: PortRef) -> (r: bool)
        requires
            port.node.0 < self.nodes@.len(),
        ensures
            r == acyclic_from(*self, port),
    {
        let (taken, order) = self.peel();
        let r = taken[port.node.0];
        proof {
            if r {
                let rank = |x: int| order@[x] as nat;
                assert forall|q: PortRef, j: int|
                    reachable(*self, port, q) && q.node.0 < self.nodes@.len() && 0 <= j < self.nodes@[q.node.0 as int].inputs@.len()
                    implies match #[trigger] self.nodes@[q.node.0 as int].inputs@[j] {
                    Some(p) => p.node.0 < self.nodes@.len() && rank(p.node.0 as int) < rank(q.node.0 as int),
                    None => true,
                } by {
                    let n = choose|n: nat| #[trigger] reaches(*self, port, q, n);
                    lemma_reach_taken(*self, taken@, port, q, n);
                }
                assert(ranked_from(*self, port, rank));
            } else if acyclic_from(*self, port) {
                let rank = choose|rank: spec_fn(int) -> nat| ranked_from(*self, port, rank);
                lemma_reach_refl(*self, port);
                lemma_ranked_taken(*self, taken@, rank, port, port);
            }
        }
        r
    }

    /// Every port of an acyclic graph has acyclic dependencies.
    pub proof fn lemma_acyclic_from(&self, port: PortRef)
        requires
            acyclic(*self),
        ensures
            acyclic_from(*self, port),
    {
        let rank = choose|rank: spec_fn(int) -> nat| ranked(*self, rank);
        assert(ranked_from(*self, port, rank));
    }

    /// The ports rendering to a file reads: the output port, and the `fps`
    /// output of the output's node.
    pub fn render_target(&self) -> (r: Result<(PortRef, PortRef), TargetError>)
        requires
            self.output matches Some(p) ==> p.node.0 < self.nodes@.len(),
        ensures
            match self.output {
                None => r == Err::<(PortRef, PortRef), TargetError>(TargetError::NoOutput),
                Some(out) => match self.nodes@[out.node.0 as int].value.output_list() {
                    Some(o) => match r {
                        Ok((a, f)) => a == out && f.node == self.nodes@[out.node.0 as int].self_ref
                            && crate::node::first_named(crate::node::output_ports(o), "fps"@, Some(f.port_index)),
                        Err(e) => e == TargetError::NoFpsPort && crate::node::first_named(
                            crate::node::output_ports(o),
                            "fps"@,
                            None,
                        ),
                    },
                    None => r == Err::<(PortRef, PortRef), TargetError>(TargetError::NoFpsPort),
                },
            },
    {
        let out = match self.output {
            Some(p) => p,
            None => return Err(TargetError::NoOutput),
        };
        match self.nodes[out.node.0].get_named_output_port("fps") {
            Some(f) => Ok((out, f)),
            None => Err(TargetError::NoFpsPort),
        }
    }

    /// The cached value of `port`.
    pub fn cached_value(&self, port: PortRef) -> (r: Option<&DataValue>)
        requires
            self.wf(),
        ensures
            match crate::render::lookup(self.output_cache@, port) {
                Some(v) => r == Some(&v),
                None => r is None,
            },
    {
        let mut k: usize = 0;
        while k < self.output_cache.len()
            invariant
                k <= self.output_cache@.len(),
                self.wf(),
                forall|j: int| 0 <= j < k ==> (#[trigger] self.output_cache@[j]).0 != port,
            decreases self.output_cache@.len() - k,
        {
            if self.output_cache[k].0 == port {
                proof {
                    crate::render::lemma_lookup_at(self.output_cache@, k as int);
                }
                return Some(&self.output_cache[k].1);
            }
            k = k + 1;
        }
        None
    }

    /// Cache `value` for `port`, replacing what was cached for it.
    pub fn cache_value(&mut self, port: PortRef, value: DataValue)
        requires
            old(self).wf(),
        ensures
            final(self).wf(),
            final(self).nodes == old(self).nodes,
            final(self).output == old(self).output,
            crate::render::lookup(final(self).output_cache@, port) == Some(value),
            forall|other: PortRef|
                other != port ==> crate::render::lookup(final(self).output_cache@, other) == crate::render::lookup(
                    old(self).output_cache@,
                    other,
                ),
    {
        let ghost before = self.output_cache@;
        let mut i: usize = 0;
        while i < self.output_cache.len() && self.output_cache[i].0 != port
            invariant
                i <= self.output_cache@.len(),
                self.output_cache@ == before,
                forall|j: int| 0 <= j < i ==> (#[trigger] self.output_cache@[j]).0 != port,
            decreases self.output_cache@.len() - i,
        {
            i = i + 1;
        }
        if i < self.output_cache.len() {
            self.output_cache.set(i, (port, value));
            proof {
                let after = self.output_cache@;
                assert(before[i as int].0 == port);
                assert(crate::render::keys_unique(after)) by {
                    assert forall|a: int, b: int| 0 <= a < b < after.len() implies (#[trigger] after[a]).0
                        != (#[trigger] after[b]).0 by {
                        assert(after[a].0 == before[a].0);
                        assert(after[b].0 == before[b].0);
                    }
                }
                crate::render::lemma_lookup_at(after, i as int);
                assert forall|other: PortRef| other != port implies crate::render::lookup(after, other)
                    == crate::render::lookup(before, other) by {
                    if exists|j: int| 0 <= j < after.len() && after[j].0 == other {
                        let j = choose|j: int| 0 <= j < after.len() && after[j].0 == other;
                        assert(j != i);
                        assert(before[j] == after[j]);
                        crate::render::lemma_lookup_at(after, j);
                        crate::render::lemma_lookup_at(before, j);
                    } else {
                        assert forall|j: int| 0 <= j < before.len() implies before[j].0 != other by {
                            if j != i {
                                assert(after[j] == before[j]);
                            }
                        }
                    }
                }
            }
        } else {
            self.output_cache.push((port, value));
            proof {
                let after = self.output_cache@;
                let n = before.len() as int;
                assert(crate::render::keys_unique(after)) by {
                    assert forall|a: int, b: int| 0 <= a < b < after.len() implies (#[trigger] after[a]).0
                        != (#[trigger] after[b]).0 by {
                        if b == n {
                            assert(after[a] == before[a]);
                        } else {
                            assert(after[a] == before[a] && after[b] == before[b]);
                        }
                    }
                }
                crate::render::lemma_lookup_at(after, n);
                assert forall|other: PortRef| other != port implies crate::render::lookup(after, other)
                    == crate::render::lookup(before, other) by {
                    if exists|j: int| 0 <= j < before.len() && before[j].0 == other {
                        let j = choose|j: int| 0 <= j < before.len() && before[j].0 == other;
                        assert(after[j] == before[j]);
                        crate::render::lemma_lookup_at(after, j);
                        crate::render::lemma_lookup_at(before, j);
                    } else {
                        assert forall|j: int| 0 <= j < after.len() implies after[j].0 != other by {
                            if j < n {
                                assert(after[j] == before[j]);
                            }
                        }
                    }
                }
            }
        }
    }
}

} // verus!
