//! Seeded random clip descriptions: the same kind of clip as the fixed
//! matrix, with encoding parameters drawn from a seed. Clip `i` of a seed
//! draws from its own generator, seeded with `seed ^ i`.
use crate::media::fixtures::{
    base_name, codec_tag, lemma_matrix_names_distinct, matrix, matrix_key, Codec, Container, PixFmt, Spec, Timing,
};
use crate::media::metadata::{MediaTime, Resolution};
use crate::rational::{coprime, frac_eq, integer, rational_new, urational_new, Frac, Rational, URational};
use crate::text::{chars_of, digits_in, digits_value, format_unsigned, lemma_padded_decimal_value, padded, string_of};
use rand::rngs::StdRng;
use rand::seq::{IndexedRandom, SliceRandom};
use rand::{Rng, SeedableRng};
use vstd::prelude::*;

verus! {

#[verifier::external_type_specification]
#[verifier::external_body]
pub struct ExStdRng(StdRng);

/// One draw from a generator: its kind, the arguments it was made with and
/// what it gave.
#[derive(Debug, Clone, Copy, PartialEq, Eq, Structural)]
pub enum Draw {
    /// A position among `count`.
    Pick { count: usize, got: usize },
    /// A `u32` in `lo..=hi`.
    U32 { lo: u32, hi: u32, got: u32 },
    /// A `u64` in `lo..=hi`.
    U64 { lo: u64, hi: u64, got: u64 },
    /// An `i64` in `lo..=hi`.
    I64 { lo: i64, hi: i64, got: i64 },
    /// `true` with chance `numer` in `denom`.
    Chance { numer: u32, denom: u32, got: bool },
    /// A shuffle of `len` items.
    Shuffle { len: usize },
}

/// A random generator, with the seed it was made from and every draw made
/// from it so far, in order.
pub struct Generator {
    rng: StdRng,
    seed: Ghost<u64>,
    draws: Ghost<Seq<Draw>>,
    orders: Ghost<Seq<Seq<usize>>>,
}

impl Generator {
    /// The seed the generator was made from.
    pub closed spec fn seed_of(&self) -> u64 {
        self.seed@
    }

    /// The draws made from the generator so far, in order.
    pub closed spec fn draws_of(&self) -> Seq<Draw> {
        self.draws@
    }

    /// The orders its shuffles gave, in order.
    pub closed spec fn orders_of(&self) -> Seq<Seq<usize>> {
        self.orders@
    }
}

/// `StdRng::seed_from_u64` (rand): a generator seeded with `seed`.
///
/// Claims: the generator is made from `seed` and nothing has been drawn from
/// it yet. Nothing is claimed of its state.
#[verifier::external_body]
pub(crate) fn seeded(seed: u64) -> (r: Generator)
    ensures
        r.seed_of() == seed,
        r.draws_of() == Seq::<Draw>::empty(),
        r.orders_of() == Seq::<Seq<usize>>::empty(),
{
    Generator {
        rng: StdRng::seed_from_u64(seed),
        seed: Ghost(seed),
        draws: Ghost(Seq::empty()),
        orders: Ghost(Seq::empty()),
    }
}

/// `SliceRandom::shuffle` (rand): puts the items of `items` in a random
/// order.
///
/// Claims: afterwards `items` holds the same items, each as many times as
/// before (which order is not stated), the shuffle is the generator's next
/// draw, and the order it gave is recorded.
#[verifier::external_body]
pub(crate) fn shuffle(rng: &mut Generator, items: &mut Vec<usize>)
    ensures
        final(items)@.to_multiset() == old(items)@.to_multiset(),
        final(rng).seed_of() == old(rng).seed_of(),
        final(rng).draws_of() == old(rng).draws_of().push(Draw::Shuffle { len: old(items)@.len() as usize }),
        final(rng).orders_of() == old(rng).orders_of().push(final(items)@),
{
    rng.draws = Ghost(rng.draws@.push(Draw::Shuffle { len: items.len() }));
    items.shuffle(&mut rng.rng);
    rng.orders = Ghost(rng.orders@.push(items@));
}

/// `IndexedRandom::choose` (rand) on a non-empty slice of positions.
///
/// Claims: the position returned is one of `items`, and the choice is the
/// generator's next draw. (`choose` draws an index from the slice's length
/// alone, so choosing among `0..count` draws what choosing among any `count`
/// items would.)
#[verifier::external_body]
fn choose_index(rng: &mut Generator, items: &[usize]) -> (r: usize)
    requires
        items@.len() > 0,
    ensures
        items@.contains(r),
        final(rng).seed_of() == old(rng).seed_of(),
        final(rng).draws_of() == old(rng).draws_of().push(Draw::Pick { count: items@.len() as usize, got: r }),
        final(rng).orders_of() == old(rng).orders_of(),
{
    let r = match items.choose(&mut rng.rng) {
        Some(x) => *x,
        None => items[0],
    };
    rng.draws = Ghost(rng.draws@.push(Draw::Pick { count: items.len(), got: r }));
    r
}

/// `Rng::random_range` (rand) on `lo..=hi` of `u32`.
///
/// Claims: the value lies in the range, and is the generator's next draw.
#[verifier::external_body]
fn range_u32(rng: &mut Generator, lo: u32, hi: u32) -> (r: u32)
    requires
        lo <= hi,
    ensures
        lo <= r <= hi,
        final(rng).seed_of() == old(rng).seed_of(),
        final(rng).draws_of() == old(rng).draws_of().push(Draw::U32 { lo, hi, got: r }),
        final(rng).orders_of() == old(rng).orders_of(),
{
    let r = rng.rng.random_range(lo..=hi);
    rng.draws = Ghost(rng.draws@.push(Draw::U32 { lo, hi, got: r }));
    r
}

/// `Rng::random_range` (rand) on `lo..=hi` of `u64`.
///
/// Claims: the value lies in the range, and is the generator's next draw.
#[verifier::external_body]
fn range_u64(rng: &mut Generator, lo: u64, hi: u64) -> (r: u64)
    requires
        lo <= hi,
    ensures
        lo <= r <= hi,
        final(rng).seed_of() == old(rng).seed_of(),
        final(rng).draws_of() == old(rng).draws_of().push(Draw::U64 { lo, hi, got: r }),
        final(rng).orders_of() == old(rng).orders_of(),
{
    let r = rng.rng.random_range(lo..=hi);
    rng.draws = Ghost(rng.draws@.push(Draw::U64 { lo, hi, got: r }));
    r
}

/// `Rng::random_range` (rand) on `lo..=hi` of `i64`.
///
/// Claims: the value lies in the range, and is the generator's next draw.
#[verifier::external_body]
fn range_i64(rng: &mut Generator, lo: i64, hi: i64) -> (r: i64)
    requires
        lo <= hi,
    ensures
        lo <= r <= hi,
        final(rng).seed_of() == old(rng).seed_of(),
        final(rng).draws_of() == old(rng).draws_of().push(Draw::I64 { lo, hi, got: r }),
        final(rng).orders_of() == old(rng).orders_of(),
{
    let r = rng.rng.random_range(lo..=hi);
    rng.draws = Ghost(rng.draws@.push(Draw::I64 { lo, hi, got: r }));
    r
}

/// `Rng::random_ratio` (rand): `true` with chance `numer` in `denom`.
///
/// Claims: never `true` at chance zero, and the result is the generator's
/// next draw. (The probability it computes is the same one `random_bool`
/// computes for the decimal `numer / denom`.)
#[verifier::external_body]
fn chance(rng: &mut Generator, numer: u32, denom: u32) -> (r: bool)
    requires
        0 < denom,
        numer < denom,
    ensures
        numer == 0 ==> !r,
        final(rng).seed_of() == old(rng).seed_of(),
        final(rng).draws_of() == old(rng).draws_of().push(Draw::Chance { numer, denom, got: r }),
        final(rng).orders_of() == old(rng).orders_of(),
{
    let r = rng.rng.random_ratio(numer, denom);
    rng.draws = Ghost(rng.draws@.push(Draw::Chance { numer, denom, got: r }));
    r
}

/// The containers each codec can be written into.
pub open spec fn allowed(codec: Codec) -> Seq<Container> {
    match codec {
        Codec::H264 | Codec::Hevc => seq![Container::Mp4, Container::Mkv, Container::MpegTs],
        Codec::Vp9 => seq![Container::WebM, Container::Mkv],
        Codec::Ffv1 => seq![Container::Mkv],
    }
}

/// The containers `codec` can be written into.
pub fn allowed_containers(codec: Codec) -> (r: Vec<Container>)
    ensures
        r@ == allowed(codec),
{
    match codec {
        Codec::H264 | Codec::Hevc => vec![Container::Mp4, Container::Mkv, Container::MpegTs],
        Codec::Vp9 => vec![Container::WebM, Container::Mkv],
        Codec::Ffv1 => vec![Container::Mkv],
    }
}

/// The constant rates a random clip can have.
pub open spec fn random_rates() -> Seq<Frac> {
    seq![(30, 1), (25, 1), (60, 1), (15, 1), (24000, 1001), (30000, 1001)]
}

/// The name of random clip `i` of `seed`: `rand_`, the seed in 16 hex
/// digits, `_`, and the index in at least 2 decimal digits.
pub open spec fn random_name(seed: u64, i: u32) -> Seq<char> {
    "rand_"@ + padded(digits_in(seed as nat, 16), 16, '0') + "_"@ + padded(digits_in(i as nat, 10), 2, '0')
}

/// A ratio of `k` thousandths, in lowest terms, for some `k` in `lo..=hi`.
pub open spec fn millis_in(q: URational, lo: int, hi: int) -> bool {
    &&& q.wf()
    &&& coprime(q.numer as int, q.denom as int)
    &&& exists|k: int| lo <= k <= hi && #[trigger] frac_eq(q.frac(), (k, 1000))
}

/// What holds of every random clip `i` of `seed`, whatever was drawn.
pub open spec fn random_spec_ok(s: Spec, seed: u64, i: u32) -> bool {
    let cfr = s.timing is Cfr;
    &&& s.name@ == random_name(seed, i)
    &&& allowed(s.codec).contains(s.container)
    &&& 32 <= s.resolution.width <= 320 && s.resolution.width % 2 == 0
    &&& 24 <= s.resolution.height <= 240 && s.resolution.height % 2 == 0
    &&& 10 <= s.frames <= 120
    &&& s.container == Container::MpegTs ==> cfr
    &&& match s.timing {
        Timing::Cfr { fps } => fps.wf() && exists|k: int|
            0 <= k < 6 && #[trigger] frac_eq(fps.frac(), random_rates()[k]),
        Timing::Vfr { durations } => durations@.len() == s.frames && forall|j: int|
            0 <= j < durations@.len() ==> millis_in(#[trigger] durations@[j], 10, 100),
    }
    &&& s.start_offset.wf()
    &&& if cfr && (s.container == Container::Mp4 || s.container == Container::MpegTs) {
        frac_eq(s.start_offset.frac(), (0, 1)) || exists|k: int|
            100 <= k <= 2000 && #[trigger] frac_eq(s.start_offset.frac(), (k, 1000))
    } else {
        frac_eq(s.start_offset.frac(), (0, 1))
    }
    &&& if cfr && (s.codec == Codec::H264 || s.codec == Codec::Hevc) {
        s.bframes <= 3
    } else {
        s.bframes == 0
    }
    &&& 1 <= s.gop <= 250
}

fn random_name_of(seed: u64, i: u32) -> (r: String)
    ensures
        r@ == random_name(seed, i),
{
    let hex = format_unsigned(seed, 16, 16);
    let dec = format_unsigned(i as u64, 10, 2);
    let mut c = chars_of("rand_");
    let mut h = chars_of(hex.as_str());
    let mut u = chars_of("_");
    let mut d = chars_of(dec.as_str());
    c.append(&mut h);
    c.append(&mut u);
    c.append(&mut d);
    string_of(c.as_slice())
}

/// Constant rate `k` of `random_rates`, in lowest terms.
pub open spec fn rate_at(k: int) -> URational {
    if k == 0 {
        URational { numer: 30, denom: 1 }
    } else if k == 1 {
        URational { numer: 25, denom: 1 }
    } else if k == 2 {
        URational { numer: 60, denom: 1 }
    } else if k == 3 {
        URational { numer: 15, denom: 1 }
    } else if k == 4 {
        URational { numer: 24000, denom: 1001 }
    } else {
        URational { numer: 30000, denom: 1001 }
    }
}

/// Random clips of this container always have a constant rate; others
/// have one when the draw says so.
pub open spec fn drawn_cfr(container: Container, cfr_draw: bool) -> bool {
    container == Container::MpegTs || cfr_draw
}

/// `s` is random clip `i` of `seed` made from the values drawn for it, as
/// `spec_from_draws` describes them.
pub open spec fn made_from(
    s: Spec,
    seed: u64,
    i: u32,
    codec: Codec,
    container: Container,
    pix_fmt: PixFmt,
    half_w: u32,
    half_h: u32,
    frames: u32,
    cfr_draw: bool,
    fps_pick: usize,
    vfr_millis: Seq<u64>,
    offset_draw: bool,
    offset_millis: i64,
    bframes: u32,
    gop: u32,
) -> bool {
    &&& s.name@ == random_name(seed, i)
    &&& s.codec == codec
    &&& s.container == container
    &&& s.pix_fmt == pix_fmt
    &&& s.resolution == (Resolution { width: (2 * half_w) as u32, height: (2 * half_h) as u32 })
    &&& s.frames == frames
    &&& s.gop == gop
    &&& drawn_cfr(container, cfr_draw) ==> s.timing == (Timing::Cfr { fps: rate_at(fps_pick as int) })
    &&& !drawn_cfr(container, cfr_draw) ==> (s.timing matches Timing::Vfr { durations } && durations@.len()
                == vfr_millis.len() && forall|j: int|
                0 <= j < durations@.len() ==> (#[trigger] durations@[j]).wf() && coprime(
                    durations@[j].numer as int,
                    durations@[j].denom as int,
                ) && frac_eq(durations@[j].frac(), (vfr_millis[j] as int, 1000)))
    &&& if drawn_cfr(container, cfr_draw) && (container == Container::Mp4 || container == Container::MpegTs)
                && offset_draw {
                s.start_offset.0.canonical() && frac_eq(s.start_offset.frac(), (offset_millis as int, 1000))
            } else {
                s.start_offset.0 == integer(0)
            }
    &&& s.bframes == if drawn_cfr(container, cfr_draw) && (codec == Codec::H264 || codec == Codec::Hevc) {
                bframes
            } else {
                0
            }
}

/// Random clip `i` of `seed` from the values drawn for it: `codec`,
/// `container` and `pix_fmt`; half the width and height; the frame count;
/// whether it has a constant rate (MPEG-TS always does), the rate's position
/// in `random_rates` or else each frame's duration in milliseconds; whether
/// a constant-rate MP4 or MPEG-TS clip starts late and by how many
/// milliseconds; the B-frames of a constant-rate H.264 or HEVC clip; the GOP.
pub fn spec_from_draws(
    seed: u64,
    i: u32,
    codec: Codec,
    container: Container,
    pix_fmt: PixFmt,
    half_w: u32,
    half_h: u32,
    frames: u32,
    cfr_draw: bool,
    fps_pick: usize,
    vfr_millis: &Vec<u64>,
    offset_draw: bool,
    offset_millis: i64,
    bframes: u32,
    gop: u32,
) -> (s: Spec)
    requires
        fps_pick < 6,
        half_w <= u32::MAX / 2,
        half_h <= u32::MAX / 2,
    ensures
        made_from(
            s,
            seed,
            i,
            codec,
            container,
            pix_fmt,
            half_w,
            half_h,
            frames,
            cfr_draw,
            fps_pick,
            vfr_millis@,
            offset_draw,
            offset_millis,
            bframes,
            gop,
        ),
{
    let cfr = container == Container::MpegTs || cfr_draw;
    let timing = if cfr {
        let rates = [
            URational { numer: 30, denom: 1 },
            URational { numer: 25, denom: 1 },
            URational { numer: 60, denom: 1 },
            URational { numer: 15, denom: 1 },
            URational { numer: 24000, denom: 1001 },
            URational { numer: 30000, denom: 1001 },
        ];
        assert(rates@[fps_pick as int] == rate_at(fps_pick as int));
        Timing::Cfr { fps: rates[fps_pick] }
    } else {
        let mut durations: Vec<URational> = Vec::new();
        let mut j: usize = 0;
        while j < vfr_millis.len()
            invariant
                j <= vfr_millis@.len(),
                durations@.len() == j,
                forall|q: int|
                    0 <= q < j ==> (#[trigger] durations@[q]).wf() && coprime(
                        durations@[q].numer as int,
                        durations@[q].denom as int,
                    ) && frac_eq(durations@[q].frac(), (vfr_millis@[q] as int, 1000)),
            decreases vfr_millis@.len() - j,
        {
            durations.push(urational_new(vfr_millis[j], 1000));
            j = j + 1;
        }
        Timing::Vfr { durations }
    };
    let start_offset = if cfr && (container == Container::Mp4 || container == Container::MpegTs) && offset_draw {
        MediaTime(rational_new(offset_millis, 1000))
    } else {
        MediaTime(Rational::from_integer(0))
    };
    let b = match codec {
        Codec::H264 | Codec::Hevc => if cfr {
            bframes
        } else {
            0
        },
        _ => 0,
    };
    Spec {
        name: random_name_of(seed, i),
        codec,
        container,
        pix_fmt,
        timing,
        frames,
        resolution: Resolution { width: half_w * 2, height: half_h * 2 },
        gop,
        bframes: b,
        start_offset,
    }
}

/// The codecs a random clip is picked from, in order.
pub open spec fn codec_at(k: int) -> Codec {
    if k == 0 {
        Codec::H264
    } else if k == 1 {
        Codec::Hevc
    } else if k == 2 {
        Codec::Vp9
    } else {
        Codec::Ffv1
    }
}

/// The pixel formats a random clip is picked from, in order.
pub open spec fn pix_at(k: int) -> PixFmt {
    if k == 0 {
        PixFmt::Yuv420p
    } else {
        PixFmt::Yuv444p
    }
}

/// The draws random clip makes, in order, given what each gave: the codec
/// (one of 4), its container (one of those `allowed`), the pixel format (one
/// of 2); half the width in `16..=160`, half the height in `12..=120`, the
/// frame count in `10..=120`; unless the container is MPEG-TS, a constant
/// rate with chance 7 in 10; the rate (one of 6), or each frame's duration
/// in `10..=100` milliseconds; for a constant-rate MP4 or MPEG-TS clip, a
/// late start with chance 3 in 10 and then its milliseconds in `100..=2000`;
/// for a constant-rate H.264 or HEVC clip, B-frames in `0..=3`; the GOP in
/// `1..=250`.
pub open spec fn clip_draws(
    codec_k: usize,
    container_k: usize,
    pix_k: usize,
    half_w: u32,
    half_h: u32,
    frames: u32,
    cfr_draw: bool,
    fps_pick: usize,
    vfr_millis: Seq<u64>,
    offset_draw: bool,
    offset_millis: i64,
    bframes: u32,
    gop: u32,
) -> Seq<Draw> {
    let codec = codec_at(codec_k as int);
    let container = allowed(codec)[container_k as int];
    let cfr = drawn_cfr(container, cfr_draw);
    let offset_ok = cfr && (container == Container::Mp4 || container == Container::MpegTs);
    seq![
        Draw::Pick { count: 4, got: codec_k },
        Draw::Pick { count: allowed(codec).len() as usize, got: container_k },
        Draw::Pick { count: 2, got: pix_k },
        Draw::U32 { lo: 16, hi: 160, got: half_w },
        Draw::U32 { lo: 12, hi: 120, got: half_h },
        Draw::U32 { lo: 10, hi: 120, got: frames },
    ] + (if container == Container::MpegTs {
        Seq::empty()
    } else {
        seq![Draw::Chance { numer: 7, denom: 10, got: cfr_draw }]
    }) + (if cfr {
        seq![Draw::Pick { count: 6, got: fps_pick }]
    } else {
        vfr_millis.map_values(|m: u64| Draw::U64 { lo: 10, hi: 100, got: m })
    }) + (if offset_ok {
        seq![Draw::Chance { numer: 3, denom: 10, got: offset_draw }]
    } else {
        Seq::empty()
    }) + (if offset_ok && offset_draw {
        seq![Draw::I64 { lo: 100, hi: 2000, got: offset_millis }]
    } else {
        Seq::empty()
    }) + (if cfr && (codec == Codec::H264 || codec == Codec::Hevc) {
        seq![Draw::U32 { lo: 0, hi: 3, got: bframes }]
    } else {
        Seq::empty()
    }) + seq![Draw::U32 { lo: 1, hi: 250, got: gop }]
}

/// `s` is random clip `i` of `seed` made by the draws `d`: `d` is the draw
/// sequence of `clip_draws` for some values, and `s` is what those values
/// make.
pub open spec fn clip_made(d: Seq<Draw>, seed: u64, i: u32, s: Spec) -> bool {
    exists|
        codec_k: usize,
        container_k: usize,
        pix_k: usize,
        half_w: u32,
        half_h: u32,
        frames: u32,
        cfr_draw: bool,
        fps_pick: usize,
        vfr_millis: Seq<u64>,
        offset_draw: bool,
        offset_millis: i64,
        bframes: u32,
        gop: u32,
    |
        #![trigger clip_draws(codec_k, container_k, pix_k, half_w, half_h, frames, cfr_draw, fps_pick, vfr_millis, offset_draw, offset_millis, bframes, gop)]
        {
            &&& d == clip_draws(
                codec_k,
                container_k,
                pix_k,
                half_w,
                half_h,
                frames,
                cfr_draw,
                fps_pick,
                vfr_millis,
                offset_draw,
                offset_millis,
                bframes,
                gop,
            )
            &&& made_from(
                s,
                seed,
                i,
                codec_at(codec_k as int),
                allowed(codec_at(codec_k as int))[container_k as int],
                pix_at(pix_k as int),
                half_w,
                half_h,
                frames,
                cfr_draw,
                fps_pick,
                vfr_millis,
                offset_draw,
                offset_millis,
                bframes,
                gop,
            )
        }
}

/// `s` is random clip `i` of `seed` as some run of its draws makes it.
pub open spec fn drawn_clip(seed: u64, i: u32, s: Spec) -> bool {
    exists|d: Seq<Draw>| #[trigger] clip_made(d, seed, i, s)
}

/// The seed of the generator random clip `i` of `seed` is drawn from.
pub fn clip_seed(seed: u64, i: u32) -> (r: u64)
    ensures
        r == seed ^ (i as u64),
{
    seed ^ (i as u64)
}

fn indices(count: usize) -> (r: Vec<usize>)
    ensures
        r@.len() == count,
        forall|k: int| 0 <= k < count ==> r@[k] == k,
{
    let mut v: Vec<usize> = Vec::new();
    let mut k: usize = 0;
    while k < count
        invariant
            k <= count,
            v@.len() == k,
            forall|q: int| 0 <= q < k ==> v@[q] == q,
        decreases count - k,
    {
        v.push(k);
        k = k + 1;
    }
    v
}

fn pick(rng: &mut Generator, count: usize) -> (r: usize)
    requires
        count > 0,
    ensures
        r < count,
        final(rng).seed_of() == old(rng).seed_of(),
        final(rng).draws_of() == old(rng).draws_of().push(Draw::Pick { count, got: r }),
{
    let items = indices(count);
    let r = choose_index(rng, items.as_slice());
    proof {
        let k = choose|k: int| 0 <= k < items@.len() && items@[k] == r;
    }
    r
}

/// The six draws every clip starts with.
spec fn head_draws(codec_k: usize, container_k: usize, pix_k: usize, half_w: u32, half_h: u32, frames: u32) -> Seq<
    Draw,
> {
    seq![
        Draw::Pick { count: 4, got: codec_k },
        Draw::Pick { count: allowed(codec_at(codec_k as int)).len() as usize, got: container_k },
        Draw::Pick { count: 2, got: pix_k },
        Draw::U32 { lo: 16, hi: 160, got: half_w },
        Draw::U32 { lo: 12, hi: 120, got: half_h },
        Draw::U32 { lo: 10, hi: 120, got: frames },
    ]
}

proof fn lemma_clip_made(
    d: Seq<Draw>,
    s: Spec,
    seed: u64,
    i: u32,
    codec_k: usize,
    container_k: usize,
    pix_k: usize,
    half_w: u32,
    half_h: u32,
    frames: u32,
    cfr_draw: bool,
    fps_pick: usize,
    vfr_millis: Seq<u64>,
    offset_draw: bool,
    offset_millis: i64,
    bframes: u32,
    gop: u32,
    p1: Seq<Draw>,
    p2: Seq<Draw>,
    p3: Seq<Draw>,
    p4: Seq<Draw>,
    p5: Seq<Draw>,
)
    requires
        ({
            let codec = codec_at(codec_k as int);
            let container = allowed(codec)[container_k as int];
            let cfr = drawn_cfr(container, cfr_draw);
            let offset_ok = cfr && (container == Container::Mp4 || container == Container::MpegTs);
            &&& p1 == (if container == Container::MpegTs {
                Seq::empty()
            } else {
                seq![Draw::Chance { numer: 7, denom: 10, got: cfr_draw }]
            })
            &&& p2 == (if cfr {
                seq![Draw::Pick { count: 6, got: fps_pick }]
            } else {
                vfr_millis.map_values(|m: u64| Draw::U64 { lo: 10, hi: 100, got: m })
            })
            &&& p3 == (if offset_ok {
                seq![Draw::Chance { numer: 3, denom: 10, got: offset_draw }]
            } else {
                Seq::empty()
            })
            &&& p4 == (if offset_ok && offset_draw {
                seq![Draw::I64 { lo: 100, hi: 2000, got: offset_millis }]
            } else {
                Seq::empty()
            })
            &&& p5 == (if cfr && (codec == Codec::H264 || codec == Codec::Hevc) {
                seq![Draw::U32 { lo: 0, hi: 3, got: bframes }]
            } else {
                Seq::empty()
            })
            &&& made_from(
                s,
                seed,
                i,
                codec,
                container,
                pix_at(pix_k as int),
                half_w,
                half_h,
                frames,
                cfr_draw,
                fps_pick,
                vfr_millis,
                offset_draw,
                offset_millis,
                bframes,
                gop,
            )
        }),
        d == head_draws(codec_k, container_k, pix_k, half_w, half_h, frames) + p1 + p2 + p3 + p4 + p5 + seq![
            Draw::U32 { lo: 1, hi: 250, got: gop },
        ],
    ensures
        clip_made(d, seed, i, s),
{
    let c = clip_draws(
        codec_k,
        container_k,
        pix_k,
        half_w,
        half_h,
        frames,
        cfr_draw,
        fps_pick,
        vfr_millis,
        offset_draw,
        offset_millis,
        bframes,
        gop,
    );
    assert(c =~= d);
}

/// What holds of a random clip follows from the ranges its values were
/// drawn from.
proof fn lemma_drawn_ok(
    s: Spec,
    seed: u64,
    i: u32,
    codec_k: usize,
    container_k: usize,
    pix_k: usize,
    half_w: u32,
    half_h: u32,
    frames: u32,
    cfr_draw: bool,
    fps_pick: usize,
    vfr_millis: Seq<u64>,
    offset_draw: bool,
    offset_millis: i64,
    bframes: u32,
    gop: u32,
)
    requires
        codec_k < 4,
        container_k < allowed(codec_at(codec_k as int)).len(),
        16 <= half_w <= 160,
        12 <= half_h <= 120,
        10 <= frames <= 120,
        fps_pick < 6,
        !drawn_cfr(allowed(codec_at(codec_k as int))[container_k as int], cfr_draw) ==> vfr_millis.len() == frames,
        forall|q: int| 0 <= q < vfr_millis.len() ==> 10 <= #[trigger] vfr_millis[q] <= 100,
        100 <= offset_millis <= 2000,
        bframes <= 3,
        1 <= gop <= 250,
        made_from(
            s,
            seed,
            i,
            codec_at(codec_k as int),
            allowed(codec_at(codec_k as int))[container_k as int],
            pix_at(pix_k as int),
            half_w,
            half_h,
            frames,
            cfr_draw,
            fps_pick,
            vfr_millis,
            offset_draw,
            offset_millis,
            bframes,
            gop,
        ),
    ensures
        random_spec_ok(s, seed, i),
{
    let container = allowed(codec_at(codec_k as int))[container_k as int];
    assert(allowed(s.codec).contains(s.container));
    if drawn_cfr(container, cfr_draw) {
        assert(frac_eq(rate_at(fps_pick as int).frac(), random_rates()[fps_pick as int]));
        let fps = s.timing->fps;
        assert(fps.wf());
        assert(frac_eq(fps.frac(), random_rates()[fps_pick as int]));
    } else {
        let durations = s.timing->durations;
        assert forall|j: int| 0 <= j < durations@.len() implies millis_in(#[trigger] durations@[j], 10, 100) by {
            assert(frac_eq(durations@[j].frac(), (vfr_millis[j] as int, 1000)));
        }
    }
    if drawn_cfr(container, cfr_draw) && (container == Container::Mp4 || container == Container::MpegTs)
        && offset_draw {
        assert(frac_eq(s.start_offset.frac(), (offset_millis as int, 1000)));
    }
}

/// Random clip `i` of `seed`, drawn from `rng`, the generator made from
/// `clip_seed(seed, i)`: the draws of `clip_draws`, in that order, and the
/// clip they make.
#[verifier::spinoff_prover]
#[verifier::rlimit(60)]
fn random_spec(rng: &mut Generator, seed: u64, i: u32) -> (s: Spec)
    requires
        old(rng).seed_of() == seed ^ (i as u64),
        old(rng).draws_of() == Seq::<Draw>::empty(),
    ensures
        random_spec_ok(s, seed, i),
        final(rng).seed_of() == old(rng).seed_of(),
        clip_made(final(rng).draws_of(), seed, i, s),
{
    let codec_k = pick(rng, 4);
    let codecs = [Codec::H264, Codec::Hevc, Codec::Vp9, Codec::Ffv1];
    let codec = codecs[codec_k];
    assert(codec == codec_at(codec_k as int));
    let containers = allowed_containers(codec);
    let container_k = pick(rng, containers.len());
    let container = containers[container_k];
    assert(container == allowed(codec_at(codec_k as int))[container_k as int]);
    let pix_k = pick(rng, 2);
    let pix_fmt = if pix_k == 0 {
        PixFmt::Yuv420p
    } else {
        PixFmt::Yuv444p
    };
    let half_w = range_u32(rng, 16, 160);
    let half_h = range_u32(rng, 12, 120);
    let frames = range_u32(rng, 10, 120);
    let ghost d0 = rng.draws_of();
    assert(d0 =~= head_draws(codec_k, container_k, pix_k, half_w, half_h, frames));
    let cfr_draw = container == Container::MpegTs || chance(rng, 7, 10);
    let ghost d1 = rng.draws_of();
    let ghost p1 = d1.skip(d0.len() as int);
    assert(d1 =~= d0 + p1);
    assert(p1 =~= (if container == Container::MpegTs {
        Seq::empty()
    } else {
        seq![Draw::Chance { numer: 7, denom: 10, got: cfr_draw }]
    }));
    assert(drawn_cfr(container, cfr_draw) == cfr_draw);
    let mut fps_pick: usize = 0;
    let mut vfr_millis: Vec<u64> = Vec::new();
    if cfr_draw {
        fps_pick = pick(rng, 6);
    } else {
        let mut j: u32 = 0;
        while j < frames
            invariant
                j <= frames,
                vfr_millis@.len() == j,
                forall|q: int| 0 <= q < j ==> 10 <= #[trigger] vfr_millis@[q] <= 100,
                rng.seed_of() == old(rng).seed_of(),
                rng.draws_of() == d1 + vfr_millis@.map_values(|m: u64| Draw::U64 { lo: 10, hi: 100, got: m }),
            decreases frames - j,
        {
            let m = range_u64(rng, 10, 100);
            vfr_millis.push(m);
            j = j + 1;
            proof {
                assert(rng.draws_of() =~= d1 + vfr_millis@.map_values(
                    |m: u64| Draw::U64 { lo: 10, hi: 100, got: m },
                ));
            }
        }
    }
    let ghost d2 = rng.draws_of();
    let ghost p2 = d2.skip(d1.len() as int);
    assert(d2 =~= d1 + p2);
    assert(p2 =~= (if cfr_draw {
        seq![Draw::Pick { count: 6, got: fps_pick }]
    } else {
        vfr_millis@.map_values(|m: u64| Draw::U64 { lo: 10, hi: 100, got: m })
    }));
    let offset_ok = cfr_draw && (container == Container::Mp4 || container == Container::MpegTs);
    let offset_draw = offset_ok && chance(rng, 3, 10);
    let ghost d3 = rng.draws_of();
    let ghost p3 = d3.skip(d2.len() as int);
    assert(d3 =~= d2 + p3);
    assert(p3 =~= (if offset_ok {
        seq![Draw::Chance { numer: 3, denom: 10, got: offset_draw }]
    } else {
        Seq::empty()
    }));
    let offset_millis: i64 = if offset_draw {
        range_i64(rng, 100, 2000)
    } else {
        100
    };
    let ghost d4 = rng.draws_of();
    let ghost p4 = d4.skip(d3.len() as int);
    assert(d4 =~= d3 + p4);
    assert(p4 =~= (if offset_ok && offset_draw {
        seq![Draw::I64 { lo: 100, hi: 2000, got: offset_millis }]
    } else {
        Seq::empty()
    }));
    let bframes = match codec {
        Codec::H264 | Codec::Hevc => if cfr_draw {
            range_u32(rng, 0, 3)
        } else {
            0
        },
        _ => 0,
    };
    let ghost d5 = rng.draws_of();
    let ghost p5 = d5.skip(d4.len() as int);
    assert(d5 =~= d4 + p5);
    assert(p5 =~= (if cfr_draw && (codec == Codec::H264 || codec == Codec::Hevc) {
        seq![Draw::U32 { lo: 0, hi: 3, got: bframes }]
    } else {
        Seq::empty()
    }));
    let gop = range_u32(rng, 1, 250);
    let s = spec_from_draws(
        seed,
        i,
        codec,
        container,
        pix_fmt,
        half_w,
        half_h,
        frames,
        cfr_draw,
        fps_pick,
        &vfr_millis,
        offset_draw,
        offset_millis,
        bframes,
        gop,
    );
    proof {
        assert(drawn_cfr(container, cfr_draw) == cfr_draw);
        assert(pix_fmt == pix_at(pix_k as int));
        assert(rng.draws_of() =~= head_draws(codec_k, container_k, pix_k, half_w, half_h, frames) + p1 + p2 + p3
            + p4 + p5 + seq![Draw::U32 { lo: 1, hi: 250, got: gop }]);
        lemma_clip_made(
            rng.draws_of(),
            s,
            seed,
            i,
            codec_k,
            container_k,
            pix_k,
            half_w,
            half_h,
            frames,
            cfr_draw,
            fps_pick,
            vfr_millis@,
            offset_draw,
            offset_millis,
            bframes,
            gop,
            p1,
            p2,
            p3,
            p4,
            p5,
        );
        lemma_drawn_ok(
            s,
            seed,
            i,
            codec_k,
            container_k,
            pix_k,
            half_w,
            half_h,
            frames,
            cfr_draw,
            fps_pick,
            vfr_millis@,
            offset_draw,
            offset_millis,
            bframes,
            gop,
        );
    }
    s
}

/// `count` random clips of `seed`. Clip `i` is drawn from its own generator,
/// made from `clip_seed(seed, i)` (`seed ^ i`), so the count does not change
/// earlier clips.
pub fn random_specs(seed: u64, count: u32) -> (r: Vec<Spec>)
    ensures
        r@.len() == count,
        forall|i: int| 0 <= i < count ==> random_spec_ok(#[trigger] r@[i], seed, i as u32),
        forall|i: int| 0 <= i < count ==> drawn_clip(seed, i as u32, #[trigger] r@[i]),
{
    let mut r: Vec<Spec> = Vec::new();
    let mut i: u32 = 0;
    while i < count
        invariant
            i <= count,
            r@.len() == i,
            forall|q: int| 0 <= q < i ==> random_spec_ok(#[trigger] r@[q], seed, q as u32),
            forall|q: int| 0 <= q < i ==> drawn_clip(seed, q as u32, #[trigger] r@[q]),
        decreases count - i,
    {
        let mut rng = seeded(clip_seed(seed, i));
        let s = random_spec(&mut rng, seed, i);
        r.push(s);
        i = i + 1;
    }
    r
}

// === Names are unique ======================================================

/// Clips of one seed are named apart by their index.
pub proof fn lemma_random_names_distinct(seed: u64, i: u32, j: u32)
    requires
        i != j,
    ensures
        random_name(seed, i) != random_name(seed, j),
{
    let head = "rand_"@ + padded(digits_in(seed as nat, 16), 16, '0') + "_"@;
    let ti = padded(digits_in(i as nat, 10), 2, '0');
    let tj = padded(digits_in(j as nat, 10), 2, '0');
    assert(random_name(seed, i) =~= head + ti);
    assert(random_name(seed, j) =~= head + tj);
    if random_name(seed, i) == random_name(seed, j) {
        assert(ti =~= (head + ti).skip(head.len() as int));
        assert(tj =~= (head + tj).skip(head.len() as int));
        lemma_padded_decimal_value(i as nat, 2);
        lemma_padded_decimal_value(j as nat, 2);
    }
}

/// No random clip takes the name of a clip of the fixed matrix: theirs all
/// start with `rand_`.
pub proof fn lemma_random_name_not_matrix(seed: u64, i: u32, m: Seq<Spec>, k: int)
    requires
        matrix(m),
        0 <= k < m.len(),
    ensures
        random_name(seed, i) != m[k].name@,
{
    reveal_strlit("rand_");
    reveal_strlit("h264");
    reveal_strlit("hevc");
    reveal_strlit("vp9");
    reveal_strlit("ffv1");
    reveal_strlit("vfr_h264");
    reveal_strlit("h264_bf2");
    reveal_strlit("h264_bf2_offset");
    reveal_strlit("h264_bf2_ts");
    let r = random_name(seed, i);
    assert(r[0] == 'r');
    if k < 40 {
        let (c, p, g, n) = matrix_key(k);
        assert(m[k].name@ == base_name(c, p, g, n));
        assert(base_name(c, p, g, n)[0] == codec_tag(c)[0]);
    } else {
        assert(m[40].name@ == "vfr_h264"@);
        assert(m[41].name@ == "h264_bf2"@);
        assert(m[42].name@ == "h264_bf2_offset"@);
        assert(m[43].name@ == "h264_bf2_ts"@);
    }
}

/// The fixed matrix followed by `count` random clips of one seed: every clip
/// has its own name.
pub proof fn lemma_generated_names_distinct(m: Seq<Spec>, r: Seq<Spec>, seed: u64)
    requires
        matrix(m),
        r.len() <= u32::MAX,
        forall|i: int| 0 <= i < r.len() ==> random_spec_ok(#[trigger] r[i], seed, i as u32),
    ensures
        forall|i: int, j: int| 0 <= i < j < (m + r).len() ==> (m + r)[i].name@ != (m + r)[j].name@,
{
    lemma_matrix_names_distinct(m);
    assert forall|i: int, j: int| 0 <= i < j < (m + r).len() implies (m + r)[i].name@ != (m + r)[j].name@ by {
        if j < m.len() {
            assert((m + r)[i] == m[i] && (m + r)[j] == m[j]);
        } else if i < m.len() {
            assert(random_spec_ok(r[j - m.len()], seed, (j - m.len()) as u32));
            lemma_random_name_not_matrix(seed, (j - m.len()) as u32, m, i);
            assert((m + r)[i] == m[i] && (m + r)[j] == r[j - m.len()]);
        } else {
            assert(random_spec_ok(r[i - m.len()], seed, (i - m.len()) as u32));
            assert(random_spec_ok(r[j - m.len()], seed, (j - m.len()) as u32));
            lemma_random_names_distinct(seed, (i - m.len()) as u32, (j - m.len()) as u32);
            assert((m + r)[i] == r[i - m.len()] && (m + r)[j] == r[j - m.len()]);
        }
    }
}

} // verus!
