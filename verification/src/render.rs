//! The renderer's memory: values computed per node, and frames computed per
//! node and request (keyed by the parts of the request the node depends
//! on), plus the clock that steps through an output's frames.
use crate::media::metadata::{signed_period, Fps, MediaTime, Resolution};
use crate::operations::node_id::{Extent, NodeId};
use crate::operations::request::PartialRequest;
use crate::rational::{frac_add, frac_eq, frac_le, rational_le, sum_of};
use vstd::prelude::*;

verus! {

/// Values computed per node, at most one per node.
#[derive(Debug, Clone)]
pub struct NodeCache<V> {
    pub entries: Vec<(NodeId, V)>,
}

/// The value `entries` holds for `node`.
pub open spec fn lookup<K, V>(entries: Seq<(K, V)>, key: K) -> Option<V> {
    if exists|i: int| 0 <= i < entries.len() && entries[i].0 == key {
        Some(entries[choose|i: int| 0 <= i < entries.len() && entries[i].0 == key].1)
    } else {
        None
    }
}

/// No key occurs twice.
pub open spec fn keys_unique<K, V>(entries: Seq<(K, V)>) -> bool {
    forall|a: int, b: int| 0 <= a < b < entries.len() ==> (#[trigger] entries[a]).0 != (#[trigger] entries[b]).0
}

pub proof fn lemma_lookup_at<K, V>(entries: Seq<(K, V)>, i: int)
    requires
        keys_unique(entries),
        0 <= i < entries.len(),
    ensures
        lookup(entries, entries[i].0) == Some(entries[i].1),
{
    let key = entries[i].0;
    let j = choose|j: int| 0 <= j < entries.len() && entries[j].0 == key;
    if j != i {
        if j < i {
            assert(entries[j].0 != entries[i].0);
        } else {
            assert(entries[i].0 != entries[j].0);
        }
    }
}

/// A cache is the map from each node it holds to its value.
impl<V> View for NodeCache<V> {
    type V = Map<NodeId, V>;

    open spec fn view(&self) -> Map<NodeId, V> {
        Map::new(|n: NodeId| lookup(self.entries@, n) is Some, |n: NodeId| lookup(self.entries@, n)->0)
    }
}

impl<V: Copy> NodeCache<V> {
    pub open spec fn wf(self) -> bool {
        keys_unique(self.entries@)
    }

    pub fn new() -> (r: Self)
        ensures
            r.wf(),
            r@ == Map::<NodeId, V>::empty(),
    {
        NodeCache { entries: Vec::new() }
    }

    /// The value cached for `node`.
    pub fn get(&self, node: NodeId) -> (r: Option<V>)
        requires
            self.wf(),
        ensures
            r == (if self@.dom().contains(node) {
                Some(self@[node])
            } else {
                None
            }),
    {
        let mut i: usize = 0;
        while i < self.entries.len()
            invariant
                i <= self.entries@.len(),
                keys_unique(self.entries@),
                forall|j: int| 0 <= j < i ==> (#[trigger] self.entries@[j]).0 != node,
            decreases self.entries@.len() - i,
        {
            if self.entries[i].0 == node {
                proof {
                    lemma_lookup_at(self.entries@, i as int);
                }
                return Some(self.entries[i].1);
            }
            i = i + 1;
        }
        None
    }

    /// Remember `value` for `node`, replacing what was there.
    pub fn insert(&mut self, node: NodeId, value: V)
        requires
            old(self).wf(),
        ensures
            final(self).wf(),
            final(self)@ == old(self)@.insert(node, value),
    {
        let ghost before = self.entries@;
        let mut i: usize = 0;
        while i < self.entries.len() && self.entries[i].0 != node
            invariant
                i <= self.entries@.len(),
                self.entries@ == before,
                forall|j: int| 0 <= j < i ==> (#[trigger] self.entries@[j]).0 != node,
            decreases self.entries@.len() - i,
        {
            i = i + 1;
        }
        if i < self.entries.len() {
            self.entries.set(i, (node, value));
            proof {
                let after = self.entries@;
                assert(before[i as int].0 == node);
                assert(keys_unique(after)) by {
                    assert forall|a: int, b: int| 0 <= a < b < after.len() implies (#[trigger] after[a]).0
                        != (#[trigger] after[b]).0 by {
                        assert(after[a].0 == before[a].0);
                        assert(after[b].0 == before[b].0);
                    }
                }
                lemma_lookup_at(after, i as int);
                assert forall|other: NodeId| other != node implies #[trigger] lookup(after, other) == lookup(before, other) by {
                    if exists|j: int| 0 <= j < after.len() && after[j].0 == other {
                        let j = choose|j: int| 0 <= j < after.len() && after[j].0 == other;
                        assert(j != i);
                        assert(before[j] == after[j]);
                        lemma_lookup_at(after, j);
                        lemma_lookup_at(before, j);
                    } else {
                        assert forall|j: int| 0 <= j < before.len() implies before[j].0 != other by {
                            if j != i {
                                assert(after[j] == before[j]);
                            }
                        }
                    }
                }
            }
        } else {
            self.entries.push((node, value));
            proof {
                let after = self.entries@;
                let n = before.len() as int;
                assert(keys_unique(after)) by {
                    assert forall|a: int, b: int| 0 <= a < b < after.len() implies (#[trigger] after[a]).0
                        != (#[trigger] after[b]).0 by {
                        if b == n {
                            assert(after[a] == before[a]);
                        } else {
                            assert(after[a] == before[a] && after[b] == before[b]);
                        }
                    }
                }
                lemma_lookup_at(after, n);
                assert forall|other: NodeId| other != node implies #[trigger] lookup(after, other) == lookup(before, other) by {
                    if exists|j: int| 0 <= j < before.len() && before[j].0 == other {
                        let j = choose|j: int| 0 <= j < before.len() && before[j].0 == other;
                        assert(after[j] == before[j]);
                        lemma_lookup_at(after, j);
                        lemma_lookup_at(before, j);
                    } else {
                        assert forall|j: int| 0 <= j < after.len() implies after[j].0 != other by {
                            if j < n {
                                assert(after[j] == before[j]);
                            }
                        }
                    }
                }
            }
        }
    }
}

/// What a cache gives back for a node after a value was stored for it is
/// that value, and storing leaves every other node's value as it was.
pub proof fn lemma_cache_read_after_write<V: Copy>(
    before: NodeCache<V>,
    after: NodeCache<V>,
    node: NodeId,
    value: V,
    other: NodeId,
)
    requires
        after@ == before@.insert(node, value),
    ensures
        after@.dom().contains(node) && after@[node] == value,
        other != node ==> (after@.dom().contains(other) == before@.dom().contains(other) && (
        before@.dom().contains(other) ==> after@[other] == before@[other])),
{
}

// === Stepping through an output ============================================

/// The times an output is rendered at: from its start, one frame period at
/// a time, while before its end.
#[derive(Debug, Clone, Copy)]
pub struct RenderClock {
    pub next: MediaTime,
    pub end: MediaTime,
    pub fps: Fps,
}

impl RenderClock {
    pub open spec fn wf(self) -> bool {
        &&& self.next.wf()
        &&& self.end.wf()
        &&& self.fps.0.wf()
        &&& 0 < self.fps.0.numer <= i64::MAX
    }

    /// A clock at the start of `extent`.
    pub fn new(extent: Extent, fps: Fps) -> (r: RenderClock)
        ensures
            r.next == extent.start,
            r.end == extent.end,
            r.fps == fps,
    {
        RenderClock { next: extent.start, end: extent.end, fps }
    }

    /// The next time to render, while it is before the end; the clock then
    /// moves on by one frame period. `None` at the end, or when exact time
    /// arithmetic overflows.
    pub fn tick(&mut self) -> (r: Option<MediaTime>)
        requires
            old(self).wf(),
        ensures
            r matches Some(t) ==> t == old(self).next && !frac_le(old(self).end.frac(), t.frac())
                && final(self).wf() && final(self).end == old(self).end && final(self).fps == old(self).fps
                && frac_eq(
                final(self).next.frac(),
                frac_add(t.frac(), ((old(self).fps.0.denom as i64) as int, old(self).fps.0.numer as int)),
            ),
            r is None <==> frac_le(old(self).end.frac(), old(self).next.frac()) || sum_of(
                old(self).next.0,
                signed_period(old(self).fps.0),
            ) is None,
            r is None ==> *final(self) == *old(self),
    {
        if rational_le(self.end.0, self.next.0) {
            return None;
        }
        let t = self.next;
        let step = self.fps.frame_length();
        match t.advance_secs(step) {
            Some(n) => {
                self.next = n;
                Some(t)
            },
            None => None,
        }
    }
}

} // verus!
