//! Node identity: a node is identified by a hash of a canonical byte
//! encoding of its inputs (explicit tags, fixed little-endian widths,
//! length-prefixed strings), stable across platforms, toolchains and runs.
use crate::data::Frame;
use crate::media::metadata::{Fps, MediaTime, Resolution};
use crate::rational::{frac_eq, lemma_lowest_terms, lemma_lowest_terms_unique, lowest_terms, rational_new};
use vstd::prelude::*;

verus! {

/// A constant value a node can take as input. A float is held as its
/// IEEE-754 bit pattern, a time as exact seconds.
#[derive(Debug, Clone)]
pub enum SimpleValue {
    Bool(bool),
    Int(i64),
    Float(u64),
    Time(MediaTime),
    Str(String),
}

/// The identity of a node.
#[derive(Debug, Clone, Copy, PartialEq, Eq, Hash, Structural)]
pub struct NodeId(pub u64);

/// An input of a node: a constant, or another node.
#[derive(Debug, Clone)]
pub enum NodeInput {
    Constant(SimpleValue),
    Node(NodeId),
}

impl NodeInput {
    /// The node this input names, when it names one.
    pub fn as_node(&self) -> (r: Option<NodeId>)
        ensures
            match *self {
                NodeInput::Node(n) => r == Some(n),
                NodeInput::Constant(_) => r is None,
            },
    {
        match self {
            NodeInput::Node(node) => Some(*node),
            _ => None,
        }
    }
}

// === Floats ================================================================

/// The single quiet NaN all NaNs are encoded as.
pub open spec fn canonical_nan() -> u64 {
    0x7FF8_0000_0000_0000
}

/// The bit pattern `bits` is a NaN: all exponent bits set and a nonzero
/// mantissa.
pub open spec fn is_nan_bits(bits: u64) -> bool {
    (bits & 0x7FF0_0000_0000_0000) == 0x7FF0_0000_0000_0000 && (bits & 0x000F_FFFF_FFFF_FFFF) != 0
}

/// Floats normalized as ordered floats compare them: both zeroes are `+0.0`
/// and every NaN is the canonical quiet NaN.
pub open spec fn canonical_float(bits: u64) -> u64 {
    if bits & 0x7FFF_FFFF_FFFF_FFFF == 0 {
        0
    } else if is_nan_bits(bits) {
        canonical_nan()
    } else {
        bits
    }
}

/// The bit pattern a float is encoded with.
pub fn canonical_float_bits(bits: u64) -> (r: u64)
    ensures
        r == canonical_float(bits),
{
    if bits & 0x7FFF_FFFF_FFFF_FFFF == 0 {
        0
    } else if (bits & 0x7FF0_0000_0000_0000) == 0x7FF0_0000_0000_0000 && (bits & 0x000F_FFFF_FFFF_FFFF) != 0 {
        0x7FF8_0000_0000_0000
    } else {
        bits
    }
}

/// `-0.0` and `+0.0` are encoded alike, and so is every NaN; a NaN is never
/// encoded like a number, and other numbers keep their bits.
pub proof fn lemma_float_canonical(bits: u64, nan: u64)
    requires
        is_nan_bits(nan),
    ensures
        canonical_float(0x8000_0000_0000_0000) == canonical_float(0),
        canonical_float(nan) == canonical_nan(),
        !is_nan_bits(bits) && bits & 0x7FFF_FFFF_FFFF_FFFF != 0 ==> canonical_float(bits) == bits
            && canonical_float(bits) != canonical_nan(),
{
    assert(0x8000_0000_0000_0000u64 & 0x7FFF_FFFF_FFFF_FFFFu64 == 0) by (bit_vector);
    assert(0u64 & 0x7FFF_FFFF_FFFF_FFFFu64 == 0) by (bit_vector);
    assert(is_nan_bits(nan) ==> nan & 0x7FFF_FFFF_FFFF_FFFFu64 != 0) by (bit_vector);
    assert(is_nan_bits(0x7FF8_0000_0000_0000u64)) by (bit_vector);
}

// === Encoding ==============================================================

/// `x` as 8 little-endian bytes.
pub open spec fn le64(x: u64) -> Seq<u8> {
    seq![
        (x & 0xff) as u8,
        ((x >> 8) & 0xff) as u8,
        ((x >> 16) & 0xff) as u8,
        ((x >> 24) & 0xff) as u8,
        ((x >> 32) & 0xff) as u8,
        ((x >> 40) & 0xff) as u8,
        ((x >> 48) & 0xff) as u8,
        ((x >> 56) & 0xff) as u8,
    ]
}

fn push_le64(out: &mut Vec<u8>, x: u64)
    ensures
        final(out)@ == old(out)@ + le64(x),
{
    out.push((x & 0xff) as u8);
    out.push(((x >> 8) & 0xff) as u8);
    out.push(((x >> 16) & 0xff) as u8);
    out.push(((x >> 24) & 0xff) as u8);
    out.push(((x >> 32) & 0xff) as u8);
    out.push(((x >> 40) & 0xff) as u8);
    out.push(((x >> 48) & 0xff) as u8);
    out.push(((x >> 56) & 0xff) as u8);
    proof {
        assert(final(out)@ =~= old(out)@ + le64(x));
    }
}

/// The canonical bytes of a constant: a tag, then the value. Integers and
/// float bits are 8 bytes little-endian, a time the numerator and
/// denominator of its lowest terms, a string its UTF-8 length then its UTF-8 bytes.
pub open spec fn value_bytes(v: SimpleValue) -> Seq<u8> {
    match v {
        SimpleValue::Bool(b) => seq![0u8, if b {
            1u8
        } else {
            0u8
        }],
        SimpleValue::Int(i) => seq![1u8] + le64(i as u64),
        SimpleValue::Float(bits) => seq![2u8] + le64(canonical_float(bits)),
        SimpleValue::Time(t) => seq![3u8] + le64(lowest_terms(t.0).numer as u64) + le64(
            lowest_terms(t.0).denom as u64,
        ),
        SimpleValue::Str(s) => seq![4u8] + le64(vstd::utf8::encode_utf8(s@).len() as u64)
            + vstd::utf8::encode_utf8(s@),
    }
}

/// The canonical bytes of an input: tag `0` and a constant, or tag `1` and a
/// node id.
pub open spec fn input_bytes(i: NodeInput) -> Seq<u8> {
    match i {
        NodeInput::Constant(v) => seq![0u8] + value_bytes(v),
        NodeInput::Node(id) => seq![1u8] + le64(id.0),
    }
}

/// The canonical bytes of `inputs[0..n]`, one after another.
pub open spec fn inputs_bytes(inputs: Seq<NodeInput>, n: int) -> Seq<u8>
    decreases n,
{
    if n <= 0 {
        Seq::empty()
    } else {
        inputs_bytes(inputs, n - 1) + input_bytes(inputs[n - 1])
    }
}

/// The encoding version byte.
pub open spec fn encoding_version() -> u8 {
    1
}

/// The canonical bytes a node id is hashed from: the version, the input
/// count, then every input.
pub open spec fn node_id_bytes(inputs: Seq<NodeInput>) -> Seq<u8> {
    seq![encoding_version()] + le64(inputs.len() as u64) + inputs_bytes(inputs, inputs.len() as int)
}

fn push_value(out: &mut Vec<u8>, v: &SimpleValue)
    requires
        v matches SimpleValue::Time(t) ==> t.0.wf(),
    ensures
        final(out)@ == old(out)@ + value_bytes(*v),
{
    let ghost start = out@;
    match v {
        SimpleValue::Bool(b) => {
            out.push(0);
            out.push(
                if *b {
                    1
                } else {
                    0
                },
            );
        },
        SimpleValue::Int(i) => {
            out.push(1);
            push_le64(out, *i as u64);
        },
        SimpleValue::Float(bits) => {
            out.push(2);
            push_le64(out, canonical_float_bits(*bits));
        },
        SimpleValue::Time(t) => {
            out.push(3);
            let r = rational_new(t.0.numer, t.0.denom);
            proof {
                lemma_lowest_terms(t.0, t.0);
                lemma_lowest_terms(r, t.0);
                lemma_lowest_terms_unique(r, lowest_terms(t.0));
            }
            push_le64(out, r.numer as u64);
            push_le64(out, r.denom as u64);
        },
        SimpleValue::Str(s) => {
            out.push(4);
            let bytes = s.as_str().as_bytes();
            push_le64(out, bytes.len() as u64);
            let mut k: usize = 0;
            let ghost mid = out@;
            while k < bytes.len()
                invariant
                    k <= bytes@.len(),
                    out@ == mid + bytes@.take(k as int),
                decreases bytes@.len() - k,
            {
                out.push(bytes[k]);
                k = k + 1;
                proof {
                    assert(out@ =~= mid + bytes@.take(k as int));
                }
            }
            proof {
                assert(bytes@.take(bytes@.len() as int) =~= bytes@);
            }
        },
    }
    proof {
        assert(out@ =~= start + value_bytes(*v));
    }
}

/// The canonical bytes node ids are hashed from.
pub fn encode_node_inputs(inputs: &[NodeInput]) -> (r: Vec<u8>)
    requires
        times_wf(inputs@),
    ensures
        r@ == node_id_bytes(inputs@),
{
    let mut buf: Vec<u8> = Vec::new();
    buf.push(1);
    push_le64(&mut buf, inputs.len() as u64);
    let ghost head = buf@;
    let mut i: usize = 0;
    while i < inputs.len()
        invariant
            i <= inputs@.len(),
            times_wf(inputs@),
            buf@ == head + inputs_bytes(inputs@, i as int),
        decreases inputs@.len() - i,
    {
        match &inputs[i] {
            NodeInput::Constant(v) => {
                buf.push(0);
                proof {
                    assert(times_wf_input(inputs@[i as int]));
                }
                push_value(&mut buf, v);
            },
            NodeInput::Node(node) => {
                buf.push(1);
                push_le64(&mut buf, node.0);
            },
        }
        i = i + 1;
        proof {
            assert(buf@ =~= head + inputs_bytes(inputs@, i as int));
        }
    }
    proof {
        assert(buf@ =~= node_id_bytes(inputs@));
    }
    buf
}

// === Hashing ===============================================================

/// What `museair::bfast::hash128_folded` returns for these bytes and seeds.
pub uninterp spec fn museair_folded(bytes: Seq<u8>, seed_a: u64, seed_b: u64) -> u64;

/// `museair::bfast::hash128_folded`: the 128-bit MuseAir-BFast hash of
/// `bytes`, add-folded to 64 bits.
///
/// Claims: the result is a function of the bytes and the two seeds alone
/// (the algorithm is not restated; it is named).
#[verifier::external_body]
fn hash128_folded(bytes: &[u8], seed_a: u64, seed_b: u64) -> (r: u64)
    ensures
        r == museair_folded(bytes@, seed_a, seed_b),
{
    museair::bfast::hash128_folded(bytes, seed_a, seed_b)
}

pub open spec fn seed_a() -> u64 {
    0x040104
}

pub open spec fn seed_b() -> u64 {
    0x040105
}

impl NodeId {
    /// The identity of a node with these inputs: the hash of their canonical
    /// encoding. Strings count by their content.
    pub fn new(inputs: &[NodeInput]) -> (r: NodeId)
        requires
            times_wf(inputs@),
        ensures
            r.0 == museair_folded(node_id_bytes(inputs@), seed_a(), seed_b()),
    {
        let buf = encode_node_inputs(inputs);
        NodeId(hash128_folded(buf.as_slice(), 0x040104, 0x040105))
    }
}

/// Inputs with the same canonical encoding get the same identity.
pub proof fn lemma_same_encoding_same_id(a: Seq<NodeInput>, b: Seq<NodeInput>)
    requires
        node_id_bytes(a) == node_id_bytes(b),
    ensures
        museair_folded(node_id_bytes(a), seed_a(), seed_b()) == museair_folded(
            node_id_bytes(b),
            seed_a(),
            seed_b(),
        ),
{
}

/// Both zeroes, and any two NaNs, give a constant input the same encoding.
pub proof fn lemma_float_inputs_collapse(nan_a: u64, nan_b: u64)
    requires
        is_nan_bits(nan_a),
        is_nan_bits(nan_b),
    ensures
        input_bytes(NodeInput::Constant(SimpleValue::Float(0))) == input_bytes(
            NodeInput::Constant(SimpleValue::Float(0x8000_0000_0000_0000)),
        ),
        input_bytes(NodeInput::Constant(SimpleValue::Float(nan_a))) == input_bytes(
            NodeInput::Constant(SimpleValue::Float(nan_b)),
        ),
{
    lemma_float_canonical(0, nan_a);
    lemma_float_canonical(0, nan_b);
}

// === The encoding is canonical ============================================

/// Two constants a node id cannot tell apart: the same kind and value, floats
/// compared as canonical bits, times by their lowest terms, strings by their
/// characters.
pub open spec fn same_value(x: SimpleValue, y: SimpleValue) -> bool {
    match (x, y) {
        (SimpleValue::Bool(a), SimpleValue::Bool(b)) => a == b,
        (SimpleValue::Int(a), SimpleValue::Int(b)) => a == b,
        (SimpleValue::Float(a), SimpleValue::Float(b)) => canonical_float(a) == canonical_float(b),
        (SimpleValue::Time(a), SimpleValue::Time(b)) => lowest_terms(a.0) == lowest_terms(b.0),
        (SimpleValue::Str(a), SimpleValue::Str(b)) => a@ == b@,
        _ => false,
    }
}

pub open spec fn same_input(x: NodeInput, y: NodeInput) -> bool {
    match (x, y) {
        (NodeInput::Constant(a), NodeInput::Constant(b)) => same_value(a, b),
        (NodeInput::Node(a), NodeInput::Node(b)) => a == b,
        _ => false,
    }
}

/// Input lists a node id cannot tell apart, input by input.
pub open spec fn same_inputs(a: Seq<NodeInput>, b: Seq<NodeInput>) -> bool {
    a.len() == b.len() && forall|i: int| 0 <= i < a.len() ==> #[trigger] same_input(a[i], b[i])
}

/// Every length the encoding writes fits its 8-byte field.
pub open spec fn encodable_input(x: NodeInput) -> bool {
    x matches NodeInput::Constant(SimpleValue::Str(s)) ==> vstd::utf8::encode_utf8(s@).len() <= u64::MAX
}

/// A constant time has a positive denominator, as every `MediaTime` does.
pub open spec fn times_wf_input(x: NodeInput) -> bool {
    x matches NodeInput::Constant(SimpleValue::Time(t)) ==> t.0.wf()
}

/// Every constant time among the inputs has a positive denominator.
pub open spec fn times_wf(a: Seq<NodeInput>) -> bool {
    forall|i: int| 0 <= i < a.len() ==> #[trigger] times_wf_input(a[i])
}

pub open spec fn encodable(a: Seq<NodeInput>) -> bool {
    a.len() <= u64::MAX && forall|i: int| 0 <= i < a.len() ==> #[trigger] encodable_input(a[i])
}

proof fn lemma_le64_injective(x: u64, y: u64)
    requires
        le64(x) == le64(y),
    ensures
        x == y,
{
    assert(le64(x)[0] == le64(y)[0] && le64(x)[1] == le64(y)[1] && le64(x)[2] == le64(y)[2] && le64(x)[3]
        == le64(y)[3] && le64(x)[4] == le64(y)[4] && le64(x)[5] == le64(y)[5] && le64(x)[6] == le64(y)[6]
        && le64(x)[7] == le64(y)[7]);
    assert(x == y) by (bit_vector)
        requires
            (x & 0xff) as u8 == (y & 0xff) as u8,
            ((x >> 8) & 0xff) as u8 == ((y >> 8) & 0xff) as u8,
            ((x >> 16) & 0xff) as u8 == ((y >> 16) & 0xff) as u8,
            ((x >> 24) & 0xff) as u8 == ((y >> 24) & 0xff) as u8,
            ((x >> 32) & 0xff) as u8 == ((y >> 32) & 0xff) as u8,
            ((x >> 40) & 0xff) as u8 == ((y >> 40) & 0xff) as u8,
            ((x >> 48) & 0xff) as u8 == ((y >> 48) & 0xff) as u8,
            ((x >> 56) & 0xff) as u8 == ((y >> 56) & 0xff) as u8,
    ;
}

proof fn lemma_i64_bits_injective(a: i64, b: i64)
    requires
        a as u64 == b as u64,
    ensures
        a == b,
{
    assert(a == b) by (bit_vector)
        requires
            a as u64 == b as u64,
    ;
}

/// Equal constants in the sense of [`same_value`] are encoded alike.
proof fn lemma_same_value_bytes(x: SimpleValue, y: SimpleValue)
    requires
        same_value(x, y),
    ensures
        value_bytes(x) == value_bytes(y),
{
}

/// The encoding of a constant is prefix-free: from the bytes of one constant
/// followed by anything, the constant and the rest are read back.
proof fn lemma_value_prefix(x: SimpleValue, y: SimpleValue, r1: Seq<u8>, r2: Seq<u8>)
    requires
        encodable_input(NodeInput::Constant(x)),
        encodable_input(NodeInput::Constant(y)),
        value_bytes(x) + r1 == value_bytes(y) + r2,
    ensures
        same_value(x, y),
        r1 == r2,
{
    let s = value_bytes(x) + r1;
    assert(s[0] == value_bytes(x)[0] && s[0] == value_bytes(y)[0]);
    match (x, y) {
        (SimpleValue::Bool(a), SimpleValue::Bool(b)) => {
            assert(s[1] == value_bytes(x)[1] && s[1] == value_bytes(y)[1]);
        },
        (SimpleValue::Int(a), SimpleValue::Int(b)) => {
            assert(s.subrange(1, 9) == le64(a as u64)) by {
                assert(s.subrange(1, 9) =~= le64(a as u64));
            }
            assert(s.subrange(1, 9) == le64(b as u64)) by {
                assert(s.subrange(1, 9) =~= le64(b as u64));
            }
            lemma_le64_injective(a as u64, b as u64);
            lemma_i64_bits_injective(a, b);
        },
        (SimpleValue::Float(a), SimpleValue::Float(b)) => {
            assert(s.subrange(1, 9) =~= le64(canonical_float(a)));
            assert(s.subrange(1, 9) =~= le64(canonical_float(b)));
            lemma_le64_injective(canonical_float(a), canonical_float(b));
        },
        (SimpleValue::Time(a), SimpleValue::Time(b)) => {
            let (la, lb) = (lowest_terms(a.0), lowest_terms(b.0));
            assert(s.subrange(1, 9) =~= le64(la.numer as u64));
            assert(s.subrange(1, 9) =~= le64(lb.numer as u64));
            assert(s.subrange(9, 17) =~= le64(la.denom as u64));
            assert(s.subrange(9, 17) =~= le64(lb.denom as u64));
            lemma_le64_injective(la.numer as u64, lb.numer as u64);
            lemma_le64_injective(la.denom as u64, lb.denom as u64);
            lemma_i64_bits_injective(la.numer, lb.numer);
            lemma_i64_bits_injective(la.denom, lb.denom);
        },
        (SimpleValue::Str(a), SimpleValue::Str(b)) => {
            let ea = vstd::utf8::encode_utf8(a@);
            let eb = vstd::utf8::encode_utf8(b@);
            assert(s.subrange(1, 9) =~= le64(ea.len() as u64));
            assert(s.subrange(1, 9) =~= le64(eb.len() as u64));
            lemma_le64_injective(ea.len() as u64, eb.len() as u64);
            assert(ea.len() == eb.len());
            assert(s.subrange(9, 9 + ea.len() as int) =~= ea);
            assert(s.subrange(9, 9 + eb.len() as int) =~= eb);
            vstd::utf8::encode_utf8_decode_utf8(a@);
            vstd::utf8::encode_utf8_decode_utf8(b@);
        },
        _ => {},
    }
    if same_value(x, y) {
        lemma_same_value_bytes(x, y);
        let n = value_bytes(x).len() as int;
        assert(r1 =~= s.skip(n));
        assert(r2 =~= s.skip(n));
    }
}

/// The encoding of an input is prefix-free.
proof fn lemma_input_prefix(x: NodeInput, y: NodeInput, r1: Seq<u8>, r2: Seq<u8>)
    requires
        encodable_input(x),
        encodable_input(y),
        input_bytes(x) + r1 == input_bytes(y) + r2,
    ensures
        same_input(x, y),
        r1 == r2,
{
    let s = input_bytes(x) + r1;
    assert(s[0] == input_bytes(x)[0] && s[0] == input_bytes(y)[0]);
    match (x, y) {
        (NodeInput::Constant(a), NodeInput::Constant(b)) => {
            assert(s.skip(1) =~= value_bytes(a) + r1);
            assert(s.skip(1) =~= value_bytes(b) + r2);
            lemma_value_prefix(a, b, r1, r2);
        },
        (NodeInput::Node(a), NodeInput::Node(b)) => {
            assert(s.subrange(1, 9) =~= le64(a.0));
            assert(s.subrange(1, 9) =~= le64(b.0));
            lemma_le64_injective(a.0, b.0);
            assert(r1 =~= s.skip(9));
            assert(r2 =~= s.skip(9));
        },
        _ => {},
    }
}

/// The inputs' bytes, read from the front.
proof fn lemma_inputs_bytes_front(a: Seq<NodeInput>, n: int)
    requires
        1 <= n <= a.len(),
    ensures
        inputs_bytes(a, n) == input_bytes(a[0]) + inputs_bytes(a.drop_first(), n - 1),
    decreases n,
{
    let d = a.drop_first();
    if n > 1 {
        lemma_inputs_bytes_front(a, n - 1);
        assert(d[n - 2] == a[n - 1]);
        assert(inputs_bytes(a, n) =~= input_bytes(a[0]) + (inputs_bytes(d, n - 2) + input_bytes(d[n - 2])));
    } else {
        assert(inputs_bytes(a, 0) == Seq::<u8>::empty());
        assert(inputs_bytes(d, 0) == Seq::<u8>::empty());
        assert(inputs_bytes(a, 1) == inputs_bytes(a, 0) + input_bytes(a[0]));
        assert(inputs_bytes(a, 1) =~= input_bytes(a[0]) + inputs_bytes(d, 0));
    }
}

proof fn lemma_inputs_injective(a: Seq<NodeInput>, b: Seq<NodeInput>)
    requires
        a.len() == b.len(),
        encodable(a),
        encodable(b),
        inputs_bytes(a, a.len() as int) == inputs_bytes(b, b.len() as int),
    ensures
        same_inputs(a, b),
    decreases a.len(),
{
    if a.len() > 0 {
        lemma_inputs_bytes_front(a, a.len() as int);
        lemma_inputs_bytes_front(b, b.len() as int);
        assert(encodable_input(a[0]) && encodable_input(b[0]));
        lemma_input_prefix(
            a[0],
            b[0],
            inputs_bytes(a.drop_first(), a.len() - 1),
            inputs_bytes(b.drop_first(), b.len() - 1),
        );
        assert forall|i: int| 0 <= i < a.drop_first().len() implies #[trigger] encodable_input(
            a.drop_first()[i],
        ) by {
            assert(encodable_input(a[i + 1]));
        }
        assert forall|i: int| 0 <= i < b.drop_first().len() implies #[trigger] encodable_input(
            b.drop_first()[i],
        ) by {
            assert(encodable_input(b[i + 1]));
        }
        lemma_inputs_injective(a.drop_first(), b.drop_first());
        assert forall|i: int| 0 <= i < a.len() implies #[trigger] same_input(a[i], b[i]) by {
            if i > 0 {
                assert(same_input(a.drop_first()[i - 1], b.drop_first()[i - 1]));
            }
        }
    }
}

proof fn lemma_same_inputs_bytes(a: Seq<NodeInput>, b: Seq<NodeInput>, n: int)
    requires
        same_inputs(a, b),
        0 <= n <= a.len(),
    ensures
        inputs_bytes(a, n) == inputs_bytes(b, n),
    decreases n,
{
    if n > 0 {
        lemma_same_inputs_bytes(a, b, n - 1);
        assert(same_input(a[n - 1], b[n - 1]));
        match (a[n - 1], b[n - 1]) {
            (NodeInput::Constant(x), NodeInput::Constant(y)) => {
                lemma_same_value_bytes(x, y);
            },
            _ => {},
        }
    }
}

/// Constants a node cannot tell apart by value: as `same_value`, with times
/// compared by the number they stand for.
pub open spec fn equal_value(x: SimpleValue, y: SimpleValue) -> bool {
    match (x, y) {
        (SimpleValue::Time(a), SimpleValue::Time(b)) => frac_eq(a.frac(), b.frac()),
        _ => same_value(x, y),
    }
}

/// Inputs equal under `equal_value`, or bound to the same node.
pub open spec fn equal_input(x: NodeInput, y: NodeInput) -> bool {
    match (x, y) {
        (NodeInput::Constant(a), NodeInput::Constant(b)) => equal_value(a, b),
        (NodeInput::Node(a), NodeInput::Node(b)) => a == b,
        _ => false,
    }
}

/// Input lists equal input by input under `equal_input`.
pub open spec fn equal_inputs(a: Seq<NodeInput>, b: Seq<NodeInput>) -> bool {
    a.len() == b.len() && forall|i: int| 0 <= i < a.len() ==> #[trigger] equal_input(a[i], b[i])
}

/// A node's id depends on its inputs' values only: `+0.0` and `-0.0` give
/// the same id, as do any two NaNs, two times of equal value, and two strings
/// of equal content.
pub proof fn lemma_node_id_by_value(a: Seq<NodeInput>, b: Seq<NodeInput>)
    requires
        equal_inputs(a, b),
        encodable(a),
        encodable(b),
        times_wf(a),
        times_wf(b),
    ensures
        node_id_bytes(a) == node_id_bytes(b),
        museair_folded(node_id_bytes(a), seed_a(), seed_b()) == museair_folded(
            node_id_bytes(b),
            seed_a(),
            seed_b(),
        ),
{
    assert forall|i: int| 0 <= i < a.len() implies #[trigger] same_input(a[i], b[i]) by {
        assert(equal_input(a[i], b[i]));
        if let (NodeInput::Constant(SimpleValue::Time(x)), NodeInput::Constant(SimpleValue::Time(y))) = (a[i], b[i]) {
            assert(times_wf_input(a[i]) && times_wf_input(b[i]));
            lemma_lowest_terms(x.0, y.0);
        }
    }
    lemma_encoding_canonical(a, b);
}

/// Node ids are hashed from a canonical encoding: two input lists get the same
/// bytes exactly when no node could tell them apart (same kinds and values in
/// the same order, both zeroes alike, all NaNs alike, strings by content).
pub proof fn lemma_encoding_canonical(a: Seq<NodeInput>, b: Seq<NodeInput>)
    requires
        encodable(a),
        encodable(b),
    ensures
        node_id_bytes(a) == node_id_bytes(b) <==> same_inputs(a, b),
{
    if node_id_bytes(a) == node_id_bytes(b) {
        let s = node_id_bytes(a);
        assert(s.subrange(1, 9) =~= le64(a.len() as u64));
        assert(node_id_bytes(b).subrange(1, 9) =~= le64(b.len() as u64));
        lemma_le64_injective(a.len() as u64, b.len() as u64);
        assert(s.skip(9) =~= inputs_bytes(a, a.len() as int));
        assert(node_id_bytes(b).skip(9) =~= inputs_bytes(b, b.len() as int));
        lemma_inputs_injective(a, b);
    }
    if same_inputs(a, b) {
        lemma_same_inputs_bytes(a, b, a.len() as int);
    }
}

// === Values ================================================================

/// The time range a node covers.
#[derive(Debug, Clone, Copy)]
pub struct Extent {
    pub start: MediaTime,
    pub end: MediaTime,
}

/// What evaluating a node gives.
#[derive(Debug)]
pub enum Value {
    Simple(SimpleValue),
    Frame(Frame),
    Extent(Extent),
    Fps(Fps),
    Resolution(Resolution),
}

/// A value of another kind was found.
#[derive(Debug, Clone, Copy, PartialEq, Eq, Structural)]
pub enum ValueError {
    NotAFrame,
    NotAFloat,
    NotAString,
}

impl Value {
    pub fn to_frame(self) -> (r: Result<Frame, ValueError>)
        ensures
            match self {
                Value::Frame(f) => r == Ok::<Frame, ValueError>(f),
                _ => r == Err::<Frame, ValueError>(ValueError::NotAFrame),
            },
    {
        match self {
            Value::Frame(frame) => Ok(frame),
            _ => Err(ValueError::NotAFrame),
        }
    }

    /// The bit pattern of the float this value holds.
    pub fn to_float(self) -> (r: Result<u64, ValueError>)
        ensures
            match self {
                Value::Simple(SimpleValue::Float(v)) => r == Ok::<u64, ValueError>(v),
                _ => r == Err::<u64, ValueError>(ValueError::NotAFloat),
            },
    {
        match self {
            Value::Simple(SimpleValue::Float(v)) => Ok(v),
            _ => Err(ValueError::NotAFloat),
        }
    }

    pub fn to_str(self) -> (r: Result<String, ValueError>)
        ensures
            match self {
                Value::Simple(SimpleValue::Str(v)) => r == Ok::<String, ValueError>(v),
                _ => r == Err::<String, ValueError>(ValueError::NotAString),
            },
    {
        match self {
            Value::Simple(SimpleValue::Str(v)) => Ok(v),
            _ => Err(ValueError::NotAString),
        }
    }
}

} // verus!
