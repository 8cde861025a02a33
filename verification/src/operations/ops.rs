//! The built-in operations (load a file, concatenate two clips, change
//! contrast), how call arguments are bound to their parameters, and the
//! decisions concatenation makes from what its inputs report.
use crate::media::metadata::{time_of, Fps, MediaTime, Resolution};
use crate::operations::node_id::{Extent, NodeInput, SimpleValue};
use crate::operations::request::{Request, RequestDeps, Signature};
use crate::rational::{
    checked_add, checked_sub, difference_of, frac_add, frac_eq, frac_le, frac_sub, rational_le, sum_of, urational_eq,
};
use crate::text::str_eq;
use vstd::prelude::*;

verus! {

impl SimpleValue {
    /// A copy of this value.
    pub fn duplicate(&self) -> (r: SimpleValue)
        ensures
            r == *self,
    {
        match self {
            SimpleValue::Bool(b) => SimpleValue::Bool(*b),
            SimpleValue::Int(i) => SimpleValue::Int(*i),
            SimpleValue::Float(f) => SimpleValue::Float(*f),
            SimpleValue::Time(t) => SimpleValue::Time(*t),
            SimpleValue::Str(s) => SimpleValue::Str(s.clone()),
        }
    }
}

impl NodeInput {
    /// A copy of this input.
    pub fn duplicate(&self) -> (r: NodeInput)
        ensures
            r == *self,
    {
        match self {
            NodeInput::Constant(v) => NodeInput::Constant(v.duplicate()),
            NodeInput::Node(n) => NodeInput::Node(*n),
        }
    }
}

// === Extents ===============================================================

impl Extent {
    pub open spec fn wf(self) -> bool {
        self.start.wf() && self.end.wf()
    }

    /// The range `start..end`, when it is not reversed.
    pub fn new(start: MediaTime, end: MediaTime) -> (r: Option<Extent>)
        requires
            start.wf(),
            end.wf(),
        ensures
            frac_le(start.frac(), end.frac()) ==> r == Some(Extent { start, end }),
            !frac_le(start.frac(), end.frac()) ==> r is None,
    {
        if rational_le(start.0, end.0) {
            Some(Extent { start, end })
        } else {
            None
        }
    }

    /// Whether `t` lies in `start..end`.
    pub fn contains(&self, t: MediaTime) -> (r: bool)
        requires
            self.wf(),
            t.wf(),
        ensures
            r == (frac_le(self.start.frac(), t.frac()) && !frac_le(self.end.frac(), t.frac())),
    {
        rational_le(self.start.0, t.0) && !rational_le(self.end.0, t.0)
    }

    /// `end - start`; `None` when the exact difference overflows.
    pub fn duration(&self) -> (r: Option<MediaTime>)
        requires
            self.wf(),
        ensures
            r == time_of(difference_of(self.end.0, self.start.0)),
            r matches Some(d) ==> d.wf() && frac_eq(d.frac(), frac_sub(self.end.frac(), self.start.frac())),
    {
        match checked_sub(self.end.0, self.start.0) {
            Some(d) => Some(MediaTime(d)),
            None => None,
        }
    }
}

// === Operations ============================================================

/// Open a media file: `path`.
#[derive(Debug, Clone)]
pub struct Load {
    pub inputs: Vec<NodeInput>,
}

/// Play clip `a`, then clip `b`.
#[derive(Debug, Clone)]
pub struct Concat {
    pub inputs: Vec<NodeInput>,
}

/// Stretch pixel values away from the middle by `amount`: `input`, `amount`.
#[derive(Debug, Clone)]
pub struct Contrast {
    pub inputs: Vec<NodeInput>,
}

pub open spec fn load_params() -> Seq<Seq<char>> {
    seq!["path"@]
}

pub open spec fn concat_params() -> Seq<Seq<char>> {
    seq!["a"@, "b"@]
}

pub open spec fn contrast_params() -> Seq<Seq<char>> {
    seq!["input"@, "amount"@]
}

/// The parameter names of a signature, as text.
pub open spec fn param_names(sig: Signature) -> Seq<Seq<char>> {
    sig.names@.map_values(|n: &'static str| n@)
}

impl Load {
    pub fn name() -> (r: &'static str)
        ensures
            r@ == "load"@,
    {
        "load"
    }

    pub fn signature() -> (r: Signature)
        ensures
            param_names(r) == load_params(),
    {
        let s = Signature::new(&["path"]);
        proof {
            assert(param_names(s) =~= load_params());
        }
        s
    }

    pub fn deps() -> (r: RequestDeps)
        ensures
            r.bits == 0,
    {
        RequestDeps::empty()
    }

    pub fn path(&self) -> (r: &NodeInput)
        requires
            self.inputs@.len() == 1,
        ensures
            *r == self.inputs@[0],
    {
        &self.inputs[0]
    }
}

impl Concat {
    pub fn name() -> (r: &'static str)
        ensures
            r@ == "concat"@,
    {
        "concat"
    }

    pub fn signature() -> (r: Signature)
        ensures
            param_names(r) == concat_params(),
    {
        let s = Signature::new(&["a", "b"]);
        proof {
            assert(param_names(s) =~= concat_params());
        }
        s
    }

    pub fn deps() -> (r: RequestDeps)
        ensures
            r.bits == 0,
    {
        RequestDeps::empty()
    }

    pub fn a(&self) -> (r: &NodeInput)
        requires
            self.inputs@.len() == 2,
        ensures
            *r == self.inputs@[0],
    {
        &self.inputs[0]
    }

    pub fn b(&self) -> (r: &NodeInput)
        requires
            self.inputs@.len() == 2,
        ensures
            *r == self.inputs@[1],
    {
        &self.inputs[1]
    }
}

impl Contrast {
    pub fn name() -> (r: &'static str)
        ensures
            r@ == "contrast"@,
    {
        "contrast"
    }

    pub fn signature() -> (r: Signature)
        ensures
            param_names(r) == contrast_params(),
    {
        let s = Signature::new(&["input", "amount"]);
        proof {
            assert(param_names(s) =~= contrast_params());
        }
        s
    }

    pub fn deps() -> (r: RequestDeps)
        ensures
            r.bits == 0,
    {
        RequestDeps::empty()
    }

    pub fn input(&self) -> (r: &NodeInput)
        requires
            self.inputs@.len() == 2,
        ensures
            *r == self.inputs@[0],
    {
        &self.inputs[0]
    }

    pub fn amount(&self) -> (r: &NodeInput)
        requires
            self.inputs@.len() == 2,
        ensures
            *r == self.inputs@[1],
    {
        &self.inputs[1]
    }
}

// === Binding arguments =====================================================

/// An argument that could not be evaluated, with the reason.
#[derive(Debug, Clone)]
pub struct ArgError(pub String);

/// Why arguments could not be bound.
#[derive(Debug, Clone)]
pub enum BindError {
    /// A named argument names no parameter.
    UnknownName,
    /// An argument failed to evaluate.
    Arg(ArgError),
}

/// Binding in progress: what each parameter holds and the first position a
/// positional argument goes to; or an error; or an argument with nowhere to
/// go, where binding stops the program.
pub enum BindState {
    Going(Seq<Option<NodeInput>>, int),
    Failed(BindError),
    Overflow,
}

/// Position of the first of `names` equal to `name`.
pub open spec fn first_param(names: Seq<Seq<char>>, name: Seq<char>) -> Option<int> {
    if exists|i: int| 0 <= i < names.len() && names[i] == name {
        Some(choose|i: int| 0 <= i < names.len() && names[i] == name && forall|j: int| 0 <= j < i ==> names[j] != name)
    } else {
        None
    }
}

/// The state after binding `args[0..n]` to parameters `names`. A named
/// argument goes to its parameter (and moves the next positional slot past
/// it when it is that slot); a positional one to the next positional slot.
/// The name is looked up before the argument's value is checked.
pub open spec fn bind_after(
    names: Seq<Seq<char>>,
    args: Seq<(Option<String>, Result<NodeInput, ArgError>)>,
    n: int,
) -> BindState
    decreases n,
{
    if n <= 0 {
        BindState::Going(Seq::new(names.len(), |i: int| None::<NodeInput>), 0)
    } else {
        match bind_after(names, args, n - 1) {
            BindState::Going(ins, next) => {
                let (name, val) = args[n - 1];
                match name {
                    Some(nm) => match first_param(names, nm@) {
                        None => BindState::Failed(BindError::UnknownName),
                        Some(i) => match val {
                            Err(e) => BindState::Failed(BindError::Arg(e)),
                            Ok(v) => BindState::Going(
                                ins.update(i, Some(v)),
                                if i == next {
                                    next + 1
                                } else {
                                    next
                                },
                            ),
                        },
                    },
                    None => match val {
                        Err(e) => BindState::Failed(BindError::Arg(e)),
                        Ok(v) => if 0 <= next < ins.len() {
                            BindState::Going(ins.update(next, Some(v)), next + 1)
                        } else {
                            BindState::Overflow
                        },
                    },
                }
            },
            other => other,
        }
    }
}

/// Binding completes without stopping the program: no argument overflows the
/// parameter list, and, when no error comes first, every parameter is bound.
pub open spec fn binds_without_stopping(
    names: Seq<Seq<char>>,
    args: Seq<(Option<String>, Result<NodeInput, ArgError>)>,
) -> bool {
    match bind_after(names, args, args.len() as int) {
        BindState::Going(ins, _) => forall|i: int| 0 <= i < ins.len() ==> (#[trigger] ins[i]) is Some,
        BindState::Failed(_) => true,
        BindState::Overflow => false,
    }
}

proof fn lemma_bind_len(
    names: Seq<Seq<char>>,
    args: Seq<(Option<String>, Result<NodeInput, ArgError>)>,
    n: int,
)
    ensures
        bind_after(names, args, n) matches BindState::Going(ins, next) ==> ins.len() == names.len() && 0
            <= next,
    decreases n,
{
    if n > 0 {
        lemma_bind_len(names, args, n - 1);
        let (name, val) = args[n - 1];
        if let Some(nm) = name {
            lemma_first_param(names, nm@);
        }
    }
}

proof fn lemma_first_param(names: Seq<Seq<char>>, name: Seq<char>)
    ensures
        first_param(names, name) matches Some(i) ==> 0 <= i < names.len() && names[i] == name,
{
    if exists|i: int| 0 <= i < names.len() && names[i] == name {
        let w = choose|i: int| 0 <= i < names.len() && names[i] == name;
        lemma_first_witness(names, name, w);
    }
}

proof fn lemma_first_witness(names: Seq<Seq<char>>, name: Seq<char>, w: int)
    requires
        0 <= w < names.len(),
        names[w] == name,
    ensures
        exists|i: int| 0 <= i < names.len() && names[i] == name && forall|j: int| 0 <= j < i ==> names[j] != name,
    decreases w,
{
    if exists|j: int| 0 <= j < w && names[j] == name {
        let j = choose|j: int| 0 <= j < w && names[j] == name;
        lemma_first_witness(names, name, j);
    }
}

/// Bind call arguments, each named or positional, to the parameters of
/// `sig`; the first failing argument or unknown name decides the error.
pub fn bind_arguments(sig: &Signature, args: Vec<(Option<String>, Result<NodeInput, ArgError>)>) -> (r:
    Result<Vec<NodeInput>, BindError>)
    requires
        binds_without_stopping(param_names(*sig), args@),
    ensures
        match bind_after(param_names(*sig), args@, args@.len() as int) {
            BindState::Going(ins, _) => r matches Ok(v) && v@.len() == ins.len() && forall|i: int|
                0 <= i < v@.len() ==> ins[i] == Some(#[trigger] v@[i]),
            BindState::Failed(e) => r matches Err(e2) && e2 == e,
            BindState::Overflow => false,
        },
{
    let ghost names = param_names(*sig);
    let ghost all = args@;
    let n = sig.len();
    let mut inputs: Vec<Option<NodeInput>> = Vec::new();
    let mut k: usize = 0;
    while k < n
        invariant
            k <= n,
            n == sig.names@.len(),
            inputs@.len() == k,
            forall|j: int| 0 <= j < k ==> (#[trigger] inputs@[j]) is None,
        decreases n - k,
    {
        inputs.push(None);
        k = k + 1;
    }
    proof {
        assert(inputs@ =~= Seq::new(names.len(), |i: int| None::<NodeInput>));
    }
    let mut first_available: usize = 0;
    for arg in it: args
        invariant
            it.seq() == all,
            names == param_names(*sig),
            n == names.len(),
            binds_without_stopping(names, all),
            bind_after(names, all, it.index() as int) == BindState::Going(inputs@, first_available as int),
    {
        let ghost j = it.index() as int;
        proof {
            assert(all[j] == arg);
            lemma_bind_len(names, all, j);
        }
        let (name, val) = arg;
        match name {
            Some(nm) => {
                let i = match sig.index_of(nm.as_str()) {
                    Some(i) => i,
                    None => {
                        proof {
                            assert(!(exists|i: int| 0 <= i < names.len() && names[i] == nm@));
                            lemma_failed_stays(names, all, j + 1);
                        }
                        return Err(BindError::UnknownName);
                    },
                };
                proof {
                    assert(names[i as int] == nm@);
                    let c = choose|c: int|
                        0 <= c < names.len() && names[c] == nm@ && forall|q: int| 0 <= q < c ==> names[q] != nm@;
                    assert(c == i as int) by {
                        if c < i {
                            assert(names[c] != nm@);
                        }
                        if i < c {
                            assert(names[i as int] != nm@);
                        }
                    }
                }
                match val {
                    Err(e) => {
                        proof {
                            lemma_failed_stays(names, all, j + 1);
                        }
                        return Err(BindError::Arg(e));
                    },
                    Ok(v) => {
                        if i == first_available {
                            first_available = first_available + 1;
                        }
                        inputs.set(i, Some(v));
                    },
                }
            },
            None => {
                match val {
                    Err(e) => {
                        proof {
                            lemma_failed_stays(names, all, j + 1);
                        }
                        return Err(BindError::Arg(e));
                    },
                    Ok(v) => {
                        proof {
                            if first_available >= inputs@.len() {
                                assert(bind_after(names, all, j + 1) is Overflow);
                                lemma_overflow_stays(names, all, j + 1);
                                assert(false);
                            }
                        }
                        inputs.set(first_available, Some(v));
                        first_available = first_available + 1;
                    },
                }
            },
        }
    }
    let mut out: Vec<NodeInput> = Vec::new();
    let mut q: usize = 0;
    while q < inputs.len()
        invariant
            q <= inputs@.len(),
            out@.len() == q,
            forall|i: int| 0 <= i < inputs@.len() ==> (#[trigger] inputs@[i]) is Some,
            forall|i: int| 0 <= i < q ==> inputs@[i] == Some(#[trigger] out@[i]),
        decreases inputs@.len() - q,
    {
        match &inputs[q] {
            Some(v) => out.push(v.duplicate()),
            None => {},
        }
        q = q + 1;
    }
    Ok(out)
}

proof fn lemma_failed_stays(
    names: Seq<Seq<char>>,
    args: Seq<(Option<String>, Result<NodeInput, ArgError>)>,
    n: int,
)
    requires
        0 < n <= args.len(),
        bind_after(names, args, n) is Failed,
    ensures
        bind_after(names, args, args.len() as int) == bind_after(names, args, n),
    decreases args.len() - n,
{
    if n < args.len() {
        lemma_failed_stays(names, args, n + 1);
    }
}

proof fn lemma_overflow_stays(
    names: Seq<Seq<char>>,
    args: Seq<(Option<String>, Result<NodeInput, ArgError>)>,
    n: int,
)
    requires
        0 < n <= args.len(),
        bind_after(names, args, n) is Overflow,
    ensures
        bind_after(names, args, args.len() as int) is Overflow,
    decreases args.len() - n,
{
    if n < args.len() {
        lemma_overflow_stays(names, args, n + 1);
    }
}

// === Operations by name ====================================================

/// A built-in operation with its inputs.
#[derive(Debug, Clone)]
pub enum Op {
    Load(Load),
    Concat(Concat),
    Contrast(Contrast),
}

/// The parameters of the operation called `name`, when there is one.
pub open spec fn params_of(name: Seq<char>) -> Option<Seq<Seq<char>>> {
    if name == "load"@ {
        Some(load_params())
    } else if name == "concat"@ {
        Some(concat_params())
    } else if name == "contrast"@ {
        Some(contrast_params())
    } else {
        None
    }
}

impl Op {
    /// The inputs of this operation, in parameter order.
    pub fn inputs(&self) -> (r: &[NodeInput])
        ensures
            r@ == match *self {
                Op::Load(o) => o.inputs@,
                Op::Concat(o) => o.inputs@,
                Op::Contrast(o) => o.inputs@,
            },
    {
        match self {
            Op::Load(o) => o.inputs.as_slice(),
            Op::Concat(o) => o.inputs.as_slice(),
            Op::Contrast(o) => o.inputs.as_slice(),
        }
    }

    /// The parts of a request this operation's result depends on: none of
    /// the built-in operations depends on any.
    pub fn deps(&self) -> (r: RequestDeps)
        ensures
            r.bits == 0,
    {
        RequestDeps::empty()
    }

    /// The parts of a request this operation's result is independent of.
    pub fn indeps(&self) -> (r: RequestDeps)
        ensures
            r.bits == 0,
    {
        RequestDeps::empty()
    }

    /// The operation called `name` with `args` bound to its parameters;
    /// `None` for a name no operation has.
    pub fn try_load(name: &str, args: Vec<(Option<String>, Result<NodeInput, ArgError>)>) -> (r: Result<
        Option<Op>,
        BindError,
    >)
        requires
            params_of(name@) matches Some(p) ==> binds_without_stopping(p, args@),
        ensures
            match params_of(name@) {
                None => r matches Ok(None),
                Some(p) => match bind_after(p, args@, args@.len() as int) {
                    BindState::Going(ins, _) => r matches Ok(Some(op)) && (match op {
                        Op::Load(o) => name@ == "load"@ && o.inputs@.len() == ins.len() && forall|i: int|
                            0 <= i < ins.len() ==> ins[i] == Some(#[trigger] o.inputs@[i]),
                        Op::Concat(o) => name@ == "concat"@ && o.inputs@.len() == ins.len() && forall|i: int|
                            0 <= i < ins.len() ==> ins[i] == Some(#[trigger] o.inputs@[i]),
                        Op::Contrast(o) => name@ == "contrast"@ && o.inputs@.len() == ins.len() && forall|i: int|
                            0 <= i < ins.len() ==> ins[i] == Some(#[trigger] o.inputs@[i]),
                    }),
                    BindState::Failed(e) => r matches Err(e2) && e2 == e,
                    BindState::Overflow => false,
                },
            },
    {
        if str_eq(name, "load") {
            let inputs = bind_arguments(&Load::signature(), args)?;
            Ok(Some(Op::Load(Load { inputs })))
        } else if str_eq(name, "concat") {
            let inputs = bind_arguments(&Concat::signature(), args)?;
            Ok(Some(Op::Concat(Concat { inputs })))
        } else if str_eq(name, "contrast") {
            let inputs = bind_arguments(&Contrast::signature(), args)?;
            Ok(Some(Op::Contrast(Contrast { inputs })))
        } else {
            Ok(None)
        }
    }
}

// === Concatenation =========================================================

/// Which clip a concatenation reads for a request.
#[derive(Debug, Clone, Copy, PartialEq, Eq, Structural)]
pub enum Side {
    A,
    B,
}

/// Why two clips cannot be concatenated, or a time overflowed.
#[derive(Debug, Clone, Copy, PartialEq, Eq, Structural)]
pub enum ConcatError {
    DifferentResolutions,
    DifferentFps,
    Overflow,
}

/// The clip a concatenation reads for `req`, and the request it passes on:
/// the first clip while `req.time` lies in its extent, otherwise the second
/// clip, at the time shifted back by the first clip's duration.
pub fn concat_route(ext_a: Extent, req: Request) -> (r: Result<(Side, Request), ConcatError>)
    requires
        ext_a.wf(),
        req.time.wf(),
    ensures
        match r {
            Ok((side, to)) => {
                let inside = frac_le(ext_a.start.frac(), req.time.frac()) && !frac_le(
                    ext_a.end.frac(),
                    req.time.frac(),
                );
                &&& side == (if inside {
                    Side::A
                } else {
                    Side::B
                })
                &&& to.resolution == req.resolution
                &&& inside ==> to.time == req.time
                &&& !inside ==> to.time.wf() && frac_eq(
                    to.time.frac(),
                    frac_sub(req.time.frac(), frac_sub(ext_a.end.frac(), ext_a.start.frac())),
                )
            },
            Err(e) => e == ConcatError::Overflow,
        },
        r is Err <==> !(frac_le(ext_a.start.frac(), req.time.frac()) && !frac_le(
            ext_a.end.frac(),
            req.time.frac(),
        )) && match difference_of(ext_a.end.0, ext_a.start.0) {
            None => true,
            Some(d) => difference_of(req.time.0, d) is None,
        },
{
    if ext_a.contains(req.time) {
        return Ok((Side::A, req));
    }
    let d = match ext_a.duration() {
        Some(d) => d,
        None => return Err(ConcatError::Overflow),
    };
    let t = match checked_sub(req.time.0, d.0) {
        Some(t) => t,
        None => return Err(ConcatError::Overflow),
    };
    proof {
        crate::rational::lemma_frac_pos_ops(ext_a.end.frac(), ext_a.start.frac());
        crate::rational::lemma_frac_congruence(
            req.time.frac(),
            d.frac(),
            req.time.frac(),
            frac_sub(ext_a.end.frac(), ext_a.start.frac()),
        );
        crate::rational::lemma_frac_pos_ops(req.time.frac(), d.frac());
        crate::rational::lemma_frac_pos_ops(
            req.time.frac(),
            frac_sub(ext_a.end.frac(), ext_a.start.frac()),
        );
        crate::rational::lemma_frac_eq_trans(
            t.frac(),
            frac_sub(req.time.frac(), d.frac()),
            frac_sub(req.time.frac(), frac_sub(ext_a.end.frac(), ext_a.start.frac())),
        );
    }
    Ok((Side::B, Request { time: MediaTime(t), ..req }))
}

/// The extent of a concatenation: from the first clip's start, lasting
/// until the first clip's end plus the second clip's duration.
pub fn concat_extent(ext_a: Extent, ext_b: Extent) -> (r: Result<Extent, ConcatError>)
    requires
        ext_a.wf(),
        ext_b.wf(),
    ensures
        match r {
            Ok(e) => e.start == ext_a.start && e.end.wf() && frac_eq(
                e.end.frac(),
                frac_add(ext_a.end.frac(), frac_sub(ext_b.end.frac(), ext_b.start.frac())),
            ),
            Err(e) => e == ConcatError::Overflow,
        },
        r is Err <==> match difference_of(ext_b.end.0, ext_b.start.0) {
            None => true,
            Some(d) => sum_of(ext_a.end.0, d) is None,
        },
{
    let d = match ext_b.duration() {
        Some(d) => d,
        None => return Err(ConcatError::Overflow),
    };
    let end = match checked_add(ext_a.end.0, d.0) {
        Some(e) => e,
        None => return Err(ConcatError::Overflow),
    };
    proof {
        crate::rational::lemma_frac_pos_ops(ext_b.end.frac(), ext_b.start.frac());
        crate::rational::lemma_frac_congruence(
            ext_a.end.frac(),
            d.frac(),
            ext_a.end.frac(),
            frac_sub(ext_b.end.frac(), ext_b.start.frac()),
        );
        crate::rational::lemma_frac_pos_ops(ext_a.end.frac(), d.frac());
        crate::rational::lemma_frac_pos_ops(
            ext_a.end.frac(),
            frac_sub(ext_b.end.frac(), ext_b.start.frac()),
        );
        crate::rational::lemma_frac_eq_trans(
            end.frac(),
            frac_add(ext_a.end.frac(), d.frac()),
            frac_add(ext_a.end.frac(), frac_sub(ext_b.end.frac(), ext_b.start.frac())),
        );
    }
    Ok(Extent { start: ext_a.start, end: MediaTime(end) })
}

/// The resolution of a concatenation: both clips must share it.
pub fn concat_resolution(res_a: Resolution, res_b: Resolution) -> (r: Result<Resolution, ConcatError>)
    ensures
        res_a == res_b ==> r == Ok::<Resolution, ConcatError>(res_a),
        res_a != res_b ==> r == Err::<Resolution, ConcatError>(ConcatError::DifferentResolutions),
{
    if res_a.width == res_b.width && res_a.height == res_b.height {
        Ok(res_a)
    } else {
        Err(ConcatError::DifferentResolutions)
    }
}

/// The frame rate of a concatenation: both clips must share it (or both
/// have none).
pub fn concat_fps(fps_a: Option<Fps>, fps_b: Option<Fps>) -> (r: Result<Option<Fps>, ConcatError>)
    requires
        fps_a matches Some(f) ==> f.0.wf(),
        fps_b matches Some(f) ==> f.0.wf(),
    ensures
        match (fps_a, fps_b) {
            (None, None) => r matches Ok(None),
            (Some(x), Some(y)) => if frac_eq(x.0.frac(), y.0.frac()) {
                r matches Ok(Some(z)) && z == x
            } else {
                r matches Err(ConcatError::DifferentFps)
            },
            _ => r matches Err(ConcatError::DifferentFps),
        },
{
    match (fps_a, fps_b) {
        (None, None) => Ok(None),
        (Some(x), Some(y)) => if urational_eq(x.0, y.0) {
            Ok(Some(x))
        } else {
            Err(ConcatError::DifferentFps)
        },
        _ => Err(ConcatError::DifferentFps),
    }
}

} // verus!
