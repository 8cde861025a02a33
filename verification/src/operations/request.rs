//! What a node is asked for (a time and a resolution), which parts of a
//! request a node depends on, and the argument lists of operations.
use crate::media::metadata::{MediaTime, Resolution};
use crate::rational::Rational;
use crate::text::str_eq;
use vstd::prelude::*;

verus! {

/// The parts of a request a node depends on, as bit flags.
#[derive(Debug, Clone, Copy, PartialEq, Eq, Hash, Structural)]
pub struct RequestDeps {
    pub bits: u8,
}

pub open spec fn time_bit() -> u8 {
    1
}

pub open spec fn resolution_bit() -> u8 {
    2
}

impl RequestDeps {
    /// Depends on the requested time.
    pub fn time() -> (r: RequestDeps)
        ensures
            r.bits == time_bit(),
    {
        RequestDeps { bits: 1 }
    }

    /// Depends on the requested resolution.
    pub fn resolution() -> (r: RequestDeps)
        ensures
            r.bits == resolution_bit(),
    {
        RequestDeps { bits: 2 }
    }

    /// Depends on nothing.
    pub fn empty() -> (r: RequestDeps)
        ensures
            r.bits == 0,
    {
        RequestDeps { bits: 0 }
    }

    /// Both dependencies together.
    pub fn union(self, other: RequestDeps) -> (r: RequestDeps)
        ensures
            r.bits == self.bits | other.bits,
    {
        RequestDeps { bits: self.bits | other.bits }
    }

    /// Whether every flag of `other` is set in `self`.
    pub fn contains(self, other: RequestDeps) -> (r: bool)
        ensures
            r == (self.bits & other.bits == other.bits),
    {
        self.bits & other.bits == other.bits
    }

    pub open spec fn has_time(self) -> bool {
        self.bits & time_bit() == time_bit()
    }

    pub open spec fn has_resolution(self) -> bool {
        self.bits & resolution_bit() == resolution_bit()
    }
}

/// A union holds the flags of both sides.
pub proof fn lemma_union_contains(a: RequestDeps, b: RequestDeps)
    ensures
        ((a.bits | b.bits) & a.bits) == a.bits,
        ((a.bits | b.bits) & b.bits) == b.bits,
{
    let x = a.bits;
    let y = b.bits;
    assert(((x | y) & x) == x) by (bit_vector);
    assert(((x | y) & y) == y) by (bit_vector);
}

/// What a node is asked for: a frame at `time`, at `resolution`.
#[derive(Debug, Clone, Copy)]
pub struct Request {
    pub time: MediaTime,
    pub resolution: Resolution,
}

/// A request with the parts a node does not depend on zeroed. Requests
/// selected with the same dependencies are equal exactly when they agree on
/// the parts kept.
#[derive(Debug, Clone, Copy)]
pub struct PartialRequest {
    pub resolution: Resolution,
    pub time: MediaTime,
}

pub open spec fn zero_time() -> MediaTime {
    MediaTime(Rational { numer: 0, denom: 1 })
}

pub open spec fn zero_resolution() -> Resolution {
    Resolution { width: 0, height: 0 }
}

/// `r` with the parts outside `deps` zeroed.
pub open spec fn selected(r: Request, deps: RequestDeps) -> PartialRequest {
    PartialRequest {
        resolution: if deps.has_resolution() {
            r.resolution
        } else {
            zero_resolution()
        },
        time: if deps.has_time() {
            r.time
        } else {
            zero_time()
        },
    }
}

impl Request {
    /// The request handed to nodes that should not depend on one: time zero
    /// at zero resolution.
    pub fn sentinel() -> (r: Request)
        ensures
            r.time == zero_time(),
            r.resolution == zero_resolution(),
    {
        Request { resolution: Resolution { width: 0, height: 0 }, time: MediaTime(Rational::from_integer(0)) }
    }

    /// The parts of this request `deps` says a node depends on.
    pub fn select(self, deps: RequestDeps) -> (r: PartialRequest)
        ensures
            r == selected(self, deps),
    {
        let mut partial = PartialRequest { resolution: self.resolution, time: self.time };
        if !deps.contains(RequestDeps::time()) {
            partial.time = MediaTime(Rational::from_integer(0));
        }
        if !deps.contains(RequestDeps::resolution()) {
            partial.resolution = Resolution { width: 0, height: 0 };
        }
        partial
    }
}

/// Two requests select the same partial request under the same dependencies
/// exactly when they agree on every part those dependencies keep.
pub proof fn lemma_select_equality(a: Request, b: Request, deps: RequestDeps)
    ensures
        (selected(a, deps) == selected(b, deps)) <==> ((deps.has_time() ==> a.time == b.time)
            && (deps.has_resolution() ==> a.resolution == b.resolution)),
{
}

/// Selecting with every dependency keeps the whole request; selecting with
/// none gives the sentinel's parts.
pub proof fn lemma_select_extremes(r: Request)
    ensures
        selected(r, RequestDeps { bits: 3 }).time == r.time,
        selected(r, RequestDeps { bits: 3 }).resolution == r.resolution,
        selected(r, RequestDeps { bits: 0 }).time == zero_time(),
        selected(r, RequestDeps { bits: 0 }).resolution == zero_resolution(),
{
    assert((3u8 & 1u8) == 1u8) by (bit_vector);
    assert((3u8 & 2u8) == 2u8) by (bit_vector);
    assert((0u8 & 1u8) == 0u8) by (bit_vector);
    assert((0u8 & 2u8) == 0u8) by (bit_vector);
}

// === Argument lists ========================================================

/// The parameter names of an operation, in order.
#[derive(Debug, Clone, Copy)]
pub struct Signature {
    pub names: &'static [&'static str],
}

impl Signature {
    pub fn new(names: &'static [&'static str]) -> (r: Signature)
        ensures
            r.names == names,
    {
        Signature { names }
    }

    pub fn len(&self) -> (r: usize)
        ensures
            r == self.names@.len(),
    {
        self.names.len()
    }

    pub fn is_empty(&self) -> (r: bool)
        ensures
            r == (self.names@.len() == 0),
    {
        self.len() == 0
    }

    /// Position of the first parameter called `name`.
    pub fn index_of(&self, name: &str) -> (r: Option<usize>)
        ensures
            match r {
                Some(i) => i < self.names@.len() && self.names@[i as int]@ == name@ && forall|j: int|
                    0 <= j < i ==> (#[trigger] self.names@[j])@ != name@,
                None => forall|j: int| 0 <= j < self.names@.len() ==> (#[trigger] self.names@[j])@ != name@,
            },
    {
        let mut i: usize = 0;
        while i < self.names.len()
            invariant
                i <= self.names@.len(),
                forall|j: int| 0 <= j < i ==> (#[trigger] self.names@[j])@ != name@,
            decreases self.names@.len() - i,
        {
            if str_eq(self.names[i], name) {
                return Some(i);
            }
            i = i + 1;
        }
        None
    }
}

} // verus!
