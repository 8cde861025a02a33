//! Media metadata: exact timing of video streams, assembled from the per-stream
//! and per-packet records a prober reports.
use crate::text::str_eq;
use crate::rational::{
    as_signed, difference_of, integer, product_of, quotient_of, sum_of, uproduct_of, checked_add, checked_div, checked_mul, checked_sub, checked_umul, frac_add, frac_eq, frac_int,
    frac_le, frac_mul, frac_neg, frac_sub, lemma_frac_congruence, lemma_frac_eq_le,
    lemma_frac_eq_trans, lemma_frac_pos_ops, rational_le, rational_new, to_signed, urecip, Frac, Rational,
    URational,
};
use vstd::prelude::*;

verus! {

/// Width and height of a picture, in pixels.
#[derive(Debug, Clone, Copy, PartialEq, Eq, Hash, Structural)]
pub struct Resolution {
    pub width: u32,
    pub height: u32,
}

/// Media-local time in seconds, exact.
#[derive(Debug, Clone, Copy)]
pub struct MediaTime(pub Rational);

/// Frame rate in frames per second, as an exact rational.
#[derive(Debug, Clone, Copy)]
pub struct Fps(pub URational);

/// A rational result taken as a time.
pub open spec fn time_of(v: Option<Rational>) -> Option<MediaTime> {
    match v {
        Some(v) => Some(MediaTime(v)),
        None => None,
    }
}

impl MediaTime {
    pub open spec fn frac(self) -> Frac {
        self.0.frac()
    }

    pub open spec fn wf(self) -> bool {
        self.0.wf()
    }

    /// `numer / denom` seconds, in lowest terms with a positive denominator.
    pub fn from_secs(secs: (i64, i64)) -> (r: MediaTime)
        requires
            secs.1 != 0,
            secs.1 < 0 ==> secs.0 != i64::MIN && secs.1 != i64::MIN,
        ensures
            r.0.canonical(),
            frac_eq(r.frac(), (secs.0 as int, secs.1 as int)),
    {
        let (n, d) = secs;
        if d < 0 {
            let v = rational_new(-n, -d);
            proof {
                assert(v.numer * d == n * v.denom) by (nonlinear_arith)
                    requires
                        v.numer * (-d) == (-n) * v.denom,
                ;
            }
            MediaTime(v)
        } else {
            MediaTime(rational_new(n, d))
        }
    }

    /// This time moved forward by `delta` seconds; `None` when the exact sum
    /// overflows. The numerator of `delta` is taken as an `i64` by casting.
    pub fn advance_secs(&self, delta: URational) -> (r: Option<MediaTime>)
        requires
            self.wf(),
            delta.wf(),
            delta.denom <= i64::MAX,
        ensures
            r == time_of(sum_of(self.0, as_signed(delta))),
            r matches Some(t) ==> t.wf() && frac_eq(
                t.frac(),
                frac_add(self.frac(), ((delta.numer as i64) as int, delta.denom as int)),
            ),
    {
        let d = to_signed(delta);
        match checked_add(self.0, d) {
            Some(v) => Some(MediaTime(v)),
            None => None,
        }
    }
}

impl Fps {
    pub open spec fn wf(self) -> bool {
        self.0.wf() && self.0.numer > 0
    }

    /// The exact rate.
    pub fn value(&self) -> (r: URational)
        ensures
            r == self.0,
    {
        self.0
    }

    /// Exact display duration of one frame.
    pub fn frame_length(self) -> (r: URational)
        requires
            self.0.numer != 0,
        ensures
            r.numer == self.0.denom,
            r.denom == self.0.numer,
    {
        urecip(self.0)
    }
}

/// The way frames are presented: constant rate, or an exact timestamp per frame.
#[derive(Debug, Clone)]
pub enum Timing {
    Constant(Fps),
    Variable(Vec<MediaTime>),
}

/// One video packet's timing, in `time_base` units.
#[derive(Debug, Clone, Copy, PartialEq, Eq, Structural)]
pub struct TimingPacket {
    pub pts: i64,
    pub duration: Option<i64>,
    pub key_frame: bool,
}

// === Timing specification ==================================================

/// `ticks * time_base`, in seconds.
pub open spec fn tick_frac(ticks: int, tb: URational) -> Frac {
    frac_mul(frac_int(ticks), (tb.numer as int, tb.denom as int))
}

/// Seconds per frame at `fps`.
pub open spec fn period_frac(fps: URational) -> Frac {
    (fps.denom as int, fps.numer as int)
}

/// Half a frame at `fps`.
pub open spec fn tolerance_frac(fps: URational) -> Frac {
    (fps.denom as int, fps.numer as int * 2)
}

/// Where frame `i` sits on the constant-rate grid anchored at `start`.
pub open spec fn grid_frac(i: int, start: Frac, fps: URational) -> Frac {
    frac_add(start, frac_mul(frac_int(i), period_frac(fps)))
}

/// How far a packet at `pts` is from grid position `i`.
pub open spec fn offset_frac(pts: int, i: int, tb: URational, start: Frac, fps: URational) -> Frac {
    frac_sub(tick_frac(pts, tb), grid_frac(i, start, fps))
}

/// The packet at `pts` lies within half a frame of grid position `i`.
pub open spec fn on_grid(pts: int, i: int, tb: URational, start: Frac, fps: URational) -> bool {
    let d = offset_frac(pts, i, tb, start, fps);
    frac_le(frac_neg(tolerance_frac(fps)), d) && frac_le(d, tolerance_frac(fps))
}

/// Every packet lies within half a frame of the constant-rate grid.
pub open spec fn fits_rate(
    packets: Seq<TimingPacket>,
    tb: URational,
    start: Frac,
    fps: URational,
) -> bool {
    forall|i: int| 0 <= i < packets.len() ==> on_grid(#[trigger] packets[i].pts as int, i, tb, start, fps)
}

/// The end of a variable-rate stream: the last packet's timestamp plus its
/// duration when present.
pub open spec fn variable_end_ticks(last: TimingPacket) -> int {
    match last.duration {
        Some(d) => last.pts + d,
        None => last.pts as int,
    }
}

/// The timing decision for `packets`, and the stream's end.
pub open spec fn timing_spec(
    packets: Seq<TimingPacket>,
    tb: URational,
    r_frame_rate: Option<Fps>,
    start: Frac,
    timing: Timing,
    end: MediaTime,
) -> bool {
    &&& end.wf()
    &&& match timing {
        Timing::Constant(f) => {
            &&& r_frame_rate == Some(f)
            &&& fits_rate(packets, tb, start, f.0)
            &&& frac_eq(
                end.frac(),
                frac_add(start, frac_mul(frac_int((packets.len() as u32) as int), period_frac(f.0))),
            )
        },
        Timing::Variable(ts) => {
            &&& !(r_frame_rate matches Some(f) && fits_rate(packets, tb, start, f.0))
            &&& ts@.len() == packets.len()
            &&& forall|i: int|
                0 <= i < ts@.len() ==> (#[trigger] ts@[i]).wf() && frac_eq(
                    ts@[i].frac(),
                    tick_frac(packets[i].pts as int, tb),
                )
            &&& frac_eq(end.frac(), tick_frac(variable_end_ticks(packets.last()), tb))
        },
    }
}

/// The period `1 / fps` as the signed ratio the grid is computed with.
pub open spec fn signed_period(fps: URational) -> Rational {
    as_signed(URational { numer: fps.denom, denom: fps.numer })
}

/// The offset of a packet at `pts` from grid position `i`, as computed with
/// `num_rational`: its time, less `start + i / fps`; `None` when a step
/// overflows.
pub open spec fn computed_offset(pts: i64, i: i64, tb: URational, start: MediaTime, fps: URational) -> Option<
    Rational,
> {
    match product_of(integer(pts), as_signed(tb)) {
        None => None,
        Some(ta) => match product_of(integer(i), signed_period(fps)) {
            None => None,
            Some(m) => match sum_of(start.0, m) {
                None => None,
                Some(e) => difference_of(ta, e),
            },
        },
    }
}

/// Packet `j` was placed on the grid: its offset computed and within half a
/// frame.
pub open spec fn placed(packets: Seq<TimingPacket>, j: int, tb: URational, start: MediaTime, fps: URational) -> bool {
    &&& computed_offset(packets[j].pts, j as i64, tb, start, fps) is Some
    &&& on_grid(packets[j].pts as int, j, tb, start.frac(), fps)
}

/// Every packet before `i` was placed on the grid.
pub open spec fn placed_before(
    packets: Seq<TimingPacket>,
    i: int,
    tb: URational,
    start: MediaTime,
    fps: URational,
) -> bool {
    forall|j: int| 0 <= j < i ==> #[trigger] placed(packets, j, tb, start, fps)
}

/// Checking the grid stops at a packet whose offset overflows.
pub open spec fn grid_overflows(packets: Seq<TimingPacket>, tb: URational, start: MediaTime, fps: URational) -> bool {
    exists|i: int|
        0 <= i < packets.len() && placed_before(packets, i, tb, start, fps) && #[trigger] computed_offset(
            packets[i].pts,
            i as i64,
            tb,
            start,
            fps,
        ) is None
}

/// Checking the grid stops at a packet off the grid.
pub open spec fn grid_misses(packets: Seq<TimingPacket>, tb: URational, start: MediaTime, fps: URational) -> bool {
    exists|i: int|
        0 <= i < packets.len() && placed_before(packets, i, tb, start, fps) && #[trigger] computed_offset(
            packets[i].pts,
            i as i64,
            tb,
            start,
            fps,
        ) is Some && !on_grid(packets[i].pts as int, i, tb, start.frac(), fps)
}

/// The constant-rate end, `start` plus `n` frames, overflows.
pub open spec fn constant_end_overflows(n: int, start: MediaTime, fps: URational) -> bool {
    match uproduct_of(
        URational { numer: (n as u32) as u64, denom: 1 },
        URational { numer: fps.denom, denom: fps.numer },
    ) {
        None => true,
        Some(p) => p.numer > i64::MAX || p.denom > i64::MAX || sum_of(start.0, as_signed(p)) is None,
    }
}

/// Some packet's exact time, or the end of the last one, overflows.
pub open spec fn variable_overflows(packets: Seq<TimingPacket>, tb: URational) -> bool {
    let end = variable_end_ticks(packets.last());
    ||| exists|j: int| 0 <= j < packets.len() && #[trigger] product_of(integer(packets[j].pts), as_signed(tb)) is None
    ||| end < i64::MIN || end > i64::MAX
    ||| product_of(integer(end as i64), as_signed(tb)) is None
}

/// Where deciding the timing of `packets` gives up on an overflow: computing
/// half a frame, placing a packet on the grid, the constant-rate end when
/// every packet fits, or the exact times when one does not.
pub open spec fn timing_overflows(
    packets: Seq<TimingPacket>,
    tb: URational,
    r_frame_rate: Option<Fps>,
    start: MediaTime,
) -> bool {
    match r_frame_rate {
        None => variable_overflows(packets, tb),
        Some(f) => {
            ||| quotient_of(signed_period(f.0), integer(2)) is None
            ||| grid_overflows(packets, tb, start, f.0)
            ||| placed_before(packets, packets.len() as int, tb, start, f.0) && constant_end_overflows(
                packets.len() as int,
                start,
                f.0,
            )
            ||| grid_misses(packets, tb, start, f.0) && variable_overflows(packets, tb)
        },
    }
}

/// Time bases and rates small enough to be read as signed rationals.
pub open spec fn signed_ok(r: URational) -> bool {
    r.wf() && r.numer <= i64::MAX && r.denom <= i64::MAX
}

// === Timing computation ====================================================

/// `ticks * time_base` as exact seconds; `None` on overflow.
pub fn time_at(ticks: i64, time_base: URational) -> (r: Option<MediaTime>)
    requires
        signed_ok(time_base),
    ensures
        r == time_of(product_of(integer(ticks), as_signed(time_base))),
        r matches Some(t) ==> t.wf() && frac_eq(t.frac(), tick_frac(ticks as int, time_base)),
{
    match checked_mul(Rational::from_integer(ticks), to_signed(time_base)) {
        Some(v) => Some(MediaTime(v)),
        None => None,
    }
}

/// `-a`, for a numerator other than `i64::MIN`.
pub fn rational_neg(a: Rational) -> (r: Rational)
    requires
        a.numer != i64::MIN,
    ensures
        r.numer == -a.numer,
        r.denom == a.denom,
{
    Rational { numer: -a.numer, denom: a.denom }
}

/// How far a packet at `pts` is from the `i`th grid position; `None` on overflow.
fn grid_offset(pts: i64, i: i64, time_base: URational, start: MediaTime, fps: URational) -> (r:
    Option<Rational>)
    requires
        signed_ok(time_base),
        signed_ok(fps),
        fps.numer > 0,
        start.wf(),
        i >= 0,
    ensures
        r == computed_offset(pts, i, time_base, start, fps),
        r matches Some(d) ==> d.wf() && frac_eq(
            d.frac(),
            offset_frac(pts as int, i as int, time_base, start.frac(), fps),
        ),
{
    let ta = match time_at(pts, time_base) {
        Some(t) => t,
        None => return None,
    };
    let period = to_signed(urecip(fps));
    let m = match checked_mul(Rational::from_integer(i), period) {
        Some(m) => m,
        None => return None,
    };
    let e = match checked_add(start.0, m) {
        Some(e) => e,
        None => return None,
    };
    let d = match checked_sub(ta.0, e) {
        Some(d) => d,
        None => return None,
    };
    proof {
        let mul_spec = frac_mul(frac_int(i as int), period_frac(fps));
        lemma_frac_pos_ops(frac_int(i as int), period_frac(fps));
        lemma_frac_congruence(start.frac(), m.frac(), start.frac(), mul_spec);
        lemma_frac_pos_ops(start.frac(), m.frac());
        lemma_frac_pos_ops(start.frac(), mul_spec);
        lemma_frac_eq_trans(e.frac(), frac_add(start.frac(), m.frac()), frac_add(start.frac(), mul_spec));
        let grid = grid_frac(i as int, start.frac(), fps);
        let tick = tick_frac(pts as int, time_base);
        lemma_frac_pos_ops(frac_int(pts as int), (time_base.numer as int, time_base.denom as int));
        lemma_frac_congruence(ta.frac(), e.frac(), tick, grid);
        lemma_frac_pos_ops(ta.frac(), e.frac());
        lemma_frac_pos_ops(tick, grid);
        lemma_frac_eq_trans(d.frac(), frac_sub(ta.frac(), e.frac()), frac_sub(tick, grid));
    }
    Some(d)
}

proof fn lemma_positive_numer(t: Frac, a: int, b: int)
    requires
        t.1 > 0,
        a > 0,
        b > 0,
        t.0 * b == a * t.1,
    ensures
        t.0 > 0,
{
    assert(t.0 > 0) by (nonlinear_arith)
        requires
            t.1 > 0,
            a > 0,
            b > 0,
            t.0 * b == a * t.1,
    ;
}

proof fn lemma_neg_eq(t: Frac, u: Frac)
    requires
        frac_eq(t, u),
    ensures
        frac_eq(frac_neg(t), frac_neg(u)),
{
    assert((-t.0) * u.1 == (-u.0) * t.1) by (nonlinear_arith)
        requires
            t.0 * u.1 == u.0 * t.1,
    ;
}

/// Decide the [`Timing`] for `packets` (non-empty, in presentation order) and
/// the stream's end. Constant when the declared rate fits every timestamp to
/// within half a frame, otherwise variable with every timestamp kept exact.
/// `None` when exact arithmetic overflows `i64`.
pub fn classify_timing(
    packets: &Vec<TimingPacket>,
    time_base: URational,
    r_frame_rate: Option<Fps>,
    start: MediaTime,
) -> (r: Option<(Timing, MediaTime)>)
    requires
        packets@.len() > 0,
        packets@.len() <= i64::MAX,
        signed_ok(time_base),
        start.wf(),
        r_frame_rate matches Some(f) ==> signed_ok(f.0) && f.0.numer > 0,
    ensures
        r is None <==> timing_overflows(packets@, time_base, r_frame_rate, start),
        r matches Some((timing, end)) ==> timing_spec(
            packets@,
            time_base,
            r_frame_rate,
            start.frac(),
            timing,
            end,
        ),
{
    let n = packets.len();
    if let Some(fps) = r_frame_rate {
        let period = to_signed(urecip(fps.0));
        assert(period == signed_period(fps.0));
        let tolerance = match checked_div(period, Rational::from_integer(2)) {
            Some(t) => t,
            None => return None,
        };
        proof {
            lemma_positive_numer(tolerance.frac(), fps.0.denom as int, fps.0.numer as int * 2);
        }
        let neg_tolerance = rational_neg(tolerance);
        proof {
            assert(frac_eq(tolerance.frac(), tolerance_frac(fps.0)));
            lemma_neg_eq(tolerance.frac(), tolerance_frac(fps.0));
        }
        let mut fits = true;
        let mut i: usize = 0;
        let ghost mut miss: int = 0;
        while i < n && fits
            invariant
                n == packets@.len(),
                n <= i64::MAX,
                i <= n,
                r_frame_rate == Some(fps),
                quotient_of(signed_period(fps.0), integer(2)) is Some,
                signed_ok(time_base),
                signed_ok(fps.0),
                fps.0.numer > 0,
                start.wf(),
                tolerance.wf(),
                neg_tolerance.wf(),
                frac_eq(tolerance.frac(), tolerance_frac(fps.0)),
                frac_eq(neg_tolerance.frac(), frac_neg(tolerance_frac(fps.0))),
                fits ==> placed_before(packets@, i as int, time_base, start, fps.0),
                !fits ==> {
                    &&& 0 <= miss < n
                    &&& placed_before(packets@, miss, time_base, start, fps.0)
                    &&& computed_offset(packets@[miss].pts, miss as i64, time_base, start, fps.0) is Some
                    &&& !on_grid(packets@[miss].pts as int, miss, time_base, start.frac(), fps.0)
                },
            decreases n - i,
        {
            let p = packets[i];
            let d = match grid_offset(p.pts, i as i64, time_base, start, fps.0) {
                Some(d) => d,
                None => {
                    proof {
                        assert(computed_offset(packets@[i as int].pts, i as i64, time_base, start, fps.0)
                            is None);
                        assert(grid_overflows(packets@, time_base, start, fps.0));
                    }
                    return None;
                },
            };
            let above = rational_le(neg_tolerance, d);
            let below = rational_le(d, tolerance);
            proof {
                let od = offset_frac(p.pts as int, i as int, time_base, start.frac(), fps.0);
                let tol = tolerance_frac(fps.0);
                lemma_frac_pos_ops(frac_int(p.pts as int), (time_base.numer as int, time_base.denom as int));
                lemma_frac_pos_ops(frac_int(i as int), period_frac(fps.0));
                lemma_frac_pos_ops(start.frac(), frac_mul(frac_int(i as int), period_frac(fps.0)));
                lemma_frac_pos_ops(tick_frac(p.pts as int, time_base), grid_frac(i as int, start.frac(), fps.0));
                lemma_frac_eq_le(neg_tolerance.frac(), d.frac(), frac_neg(tol), od);
                lemma_frac_eq_le(d.frac(), tolerance.frac(), od, tol);
            }
            if !(above && below) {
                fits = false;
                proof {
                    miss = i as int;
                }
            } else {
                proof {
                    assert(placed(packets@, i as int, time_base, start, fps.0));
                    assert forall|j: int| 0 <= j < i + 1 implies #[trigger] placed(
                        packets@,
                        j,
                        time_base,
                        start,
                        fps.0,
                    ) by {
                        if j < i {
                            assert(placed_before(packets@, i as int, time_base, start, fps.0));
                        }
                    }
                }
            }
            i = i + 1;
        }
        if fits {
            proof {
                assert forall|k: int| 0 <= k < packets@.len() implies on_grid(
                    #[trigger] packets@[k].pts as int,
                    k,
                    time_base,
                    start.frac(),
                    fps.0,
                ) by {
                    assert(placed(packets@, k, time_base, start, fps.0));
                }
                assert(!grid_overflows(packets@, time_base, start, fps.0)) by {
                    if grid_overflows(packets@, time_base, start, fps.0) {
                        let k = choose|k: int|
                            0 <= k < packets@.len() && placed_before(packets@, k, time_base, start, fps.0)
                                && #[trigger] computed_offset(packets@[k].pts, k as i64, time_base, start, fps.0)
                                is None;
                        assert(placed(packets@, k, time_base, start, fps.0));
                    }
                }
                assert(!grid_misses(packets@, time_base, start, fps.0)) by {
                    if grid_misses(packets@, time_base, start, fps.0) {
                        let k = choose|k: int|
                            0 <= k < packets@.len() && placed_before(packets@, k, time_base, start, fps.0)
                                && #[trigger] computed_offset(packets@[k].pts, k as i64, time_base, start, fps.0)
                                is Some && !on_grid(packets@[k].pts as int, k, time_base, start.frac(), fps.0);
                        assert(placed(packets@, k, time_base, start, fps.0));
                    }
                }
            }
            let frames = URational::from_integer(#[verifier::truncate] (n as u32) as u64);
            let length = fps.frame_length();
            assert(length == URational { numer: fps.0.denom, denom: fps.0.numer });
            let prod = match checked_umul(frames, length) {
                Some(p) => p,
                None => return None,
            };
            if prod.numer > i64::MAX as u64 || prod.denom > i64::MAX as u64 {
                return None;
            }
            let end = match start.advance_secs(prod) {
                Some(e) => e,
                None => return None,
            };
            proof {
                let want = frac_mul(frac_int((n as u32) as int), period_frac(fps.0));
                lemma_frac_pos_ops(frac_int((n as u32) as int), period_frac(fps.0));
                lemma_frac_congruence(start.frac(), prod.frac(), start.frac(), want);
                lemma_frac_pos_ops(start.frac(), prod.frac());
                lemma_frac_pos_ops(start.frac(), want);
                lemma_frac_eq_trans(end.frac(), frac_add(start.frac(), prod.frac()), frac_add(start.frac(), want));
            }
            return Some((Timing::Constant(fps), end));
        }
        proof {
            assert(grid_misses(packets@, time_base, start, fps.0));
            assert(!fits_rate(packets@, time_base, start.frac(), fps.0));
            assert(!placed_before(packets@, packets@.len() as int, time_base, start, fps.0)) by {
                assert(!placed(packets@, miss, time_base, start, fps.0));
            }
            assert(!grid_overflows(packets@, time_base, start, fps.0)) by {
                if grid_overflows(packets@, time_base, start, fps.0) {
                    let k = choose|k: int|
                        0 <= k < packets@.len() && placed_before(packets@, k, time_base, start, fps.0)
                            && #[trigger] computed_offset(packets@[k].pts, k as i64, time_base, start, fps.0)
                            is None;
                    if k < miss {
                        assert(placed(packets@, k, time_base, start, fps.0));
                    } else if k > miss {
                        assert(placed(packets@, miss, time_base, start, fps.0));
                    }
                }
            }
        }
    }
    // Not constant, or no declared rate: keep every timestamp exactly.
    assert(timing_overflows(packets@, time_base, r_frame_rate, start) == variable_overflows(packets@, time_base));
    let mut timestamps: Vec<MediaTime> = Vec::new();
    let mut i: usize = 0;
    while i < n
        invariant
            n == packets@.len(),
            i <= n,
            signed_ok(time_base),
            timestamps@.len() == i,
            forall|j: int|
                0 <= j < i ==> (#[trigger] timestamps@[j]).wf() && frac_eq(
                    timestamps@[j].frac(),
                    tick_frac(packets@[j].pts as int, time_base),
                ),
            forall|j: int|
                0 <= j < i ==> #[trigger] product_of(integer(packets@[j].pts), as_signed(time_base)) is Some,
            timing_overflows(packets@, time_base, r_frame_rate, start) == variable_overflows(packets@, time_base),
        decreases n - i,
    {
        let t = match time_at(packets[i].pts, time_base) {
            Some(t) => t,
            None => {
                assert(product_of(integer(packets@[i as int].pts), as_signed(time_base)) is None);
                return None;
            },
        };
        timestamps.push(t);
        i = i + 1;
    }
    let last = packets[n - 1];
    let end_ticks = match last.duration {
        Some(d) => match last.pts.checked_add(d) {
            Some(e) => e,
            None => return None,
        },
        None => last.pts,
    };
    let end = match time_at(end_ticks, time_base) {
        Some(e) => e,
        None => return None,
    };
    proof {
        assert(!variable_overflows(packets@, time_base));
    }
    Some((Timing::Variable(timestamps), end))
}

// === Presentation order ====================================================

/// Some packet of `s` has timestamp `t`.
pub open spec fn has_pts(s: Seq<TimingPacket>, t: i64) -> bool {
    exists|j: int| 0 <= j < s.len() && (#[trigger] s[j]).pts == t
}

/// Some packet of `s` with timestamp `t` is a keyframe.
pub open spec fn has_key(s: Seq<TimingPacket>, t: i64) -> bool {
    exists|j: int| 0 <= j < s.len() && (#[trigger] s[j]).pts == t && s[j].key_frame
}

/// `d` is the duration of the last packet of `s` with timestamp `t`.
pub open spec fn last_duration(s: Seq<TimingPacket>, t: i64, d: Option<i64>) -> bool {
    exists|j: int|
        0 <= j < s.len() && (#[trigger] s[j]).pts == t && s[j].duration == d && forall|m: int|
            j < m < s.len() ==> (#[trigger] s[m]).pts != t
}

/// `out` is `input` in presentation order with each run of equal timestamps
/// collapsed to one packet: strictly ascending timestamps, the same set of
/// timestamps, a keyframe wherever any packet of the run was one, and the
/// duration of the run's last packet (in input order).
pub open spec fn presentation_order(input: Seq<TimingPacket>, out: Seq<TimingPacket>) -> bool {
    &&& forall|i: int, j: int| 0 <= i < j < out.len() ==> (#[trigger] out[i]).pts < (#[trigger] out[j]).pts
    &&& forall|j: int| 0 <= j < input.len() ==> has_pts(out, (#[trigger] input[j]).pts)
    &&& forall|k: int|
        0 <= k < out.len() ==> {
            &&& has_pts(input, (#[trigger] out[k]).pts)
            &&& out[k].key_frame == has_key(input, out[k].pts)
            &&& last_duration(input, out[k].pts, out[k].duration)
        }
}

proof fn lemma_same_pts_prefix(a: Seq<TimingPacket>, b: Seq<TimingPacket>, k: int)
    requires
        forall|i: int, j: int| 0 <= i < j < a.len() ==> (#[trigger] a[i]).pts < (#[trigger] a[j]).pts,
        forall|i: int, j: int| 0 <= i < j < b.len() ==> (#[trigger] b[i]).pts < (#[trigger] b[j]).pts,
        forall|t: i64| #[trigger] has_pts(a, t) <==> has_pts(b, t),
        0 <= k < a.len(),
        k < b.len(),
    ensures
        forall|j: int| 0 <= j <= k ==> (#[trigger] a[j]).pts == b[j].pts,
    decreases k,
{
    if k > 0 {
        lemma_same_pts_prefix(a, b, k - 1);
    }
    assert(has_pts(a, a[k].pts));
    assert(has_pts(b, a[k].pts));
    let m = choose|m: int| 0 <= m < b.len() && (#[trigger] b[m]).pts == a[k].pts;
    if m < k {
        assert(a[m].pts == b[m].pts);
        assert(a[m].pts < a[k].pts);
    }
    assert(has_pts(b, b[k].pts));
    assert(has_pts(a, b[k].pts));
    let q = choose|q: int| 0 <= q < a.len() && (#[trigger] a[q]).pts == b[k].pts;
    if q < k {
        assert(a[q].pts == b[q].pts);
        assert(b[q].pts < b[k].pts);
    }
}

proof fn lemma_longer_sorted(a: Seq<TimingPacket>, b: Seq<TimingPacket>)
    requires
        forall|i: int, j: int| 0 <= i < j < a.len() ==> (#[trigger] a[i]).pts < (#[trigger] a[j]).pts,
        forall|i: int, j: int| 0 <= i < j < b.len() ==> (#[trigger] b[i]).pts < (#[trigger] b[j]).pts,
        forall|t: i64| #[trigger] has_pts(a, t) <==> has_pts(b, t),
    ensures
        a.len() <= b.len(),
{
    if a.len() > b.len() {
        let k = b.len() as int;
        assert(has_pts(a, a[k].pts));
        assert(has_pts(b, a[k].pts));
        let m = choose|m: int| 0 <= m < b.len() && (#[trigger] b[m]).pts == a[k].pts;
        lemma_same_pts_prefix(a, b, k - 1);
        assert(a[m].pts == b[m].pts);
        assert(a[m].pts < a[k].pts);
    }
}

/// Putting packets in presentation order has one outcome: two orderings of
/// the same packets are the same sequence.
pub proof fn lemma_presentation_order_unique(input: Seq<TimingPacket>, a: Seq<TimingPacket>, b: Seq<TimingPacket>)
    requires
        presentation_order(input, a),
        presentation_order(input, b),
    ensures
        a == b,
{
    assert forall|t: i64| #[trigger] has_pts(a, t) <==> has_pts(b, t) by {
        if has_pts(a, t) {
            let k = choose|k: int| 0 <= k < a.len() && (#[trigger] a[k]).pts == t;
            assert(has_pts(input, a[k].pts));
            let j = choose|j: int| 0 <= j < input.len() && (#[trigger] input[j]).pts == a[k].pts;
            assert(has_pts(b, input[j].pts));
        }
        if has_pts(b, t) {
            let k = choose|k: int| 0 <= k < b.len() && (#[trigger] b[k]).pts == t;
            assert(has_pts(input, b[k].pts));
            let j = choose|j: int| 0 <= j < input.len() && (#[trigger] input[j]).pts == b[k].pts;
            assert(has_pts(a, input[j].pts));
        }
    }
    lemma_longer_sorted(a, b);
    lemma_longer_sorted(b, a);
    if a.len() > 0 {
        lemma_same_pts_prefix(a, b, a.len() - 1);
    }
    assert forall|k: int| 0 <= k < a.len() implies #[trigger] a[k] == b[k] by {
        let t = a[k].pts;
        assert(b[k].pts == t);
        assert(a[k].key_frame == has_key(input, t));
        assert(b[k].key_frame == has_key(input, t));
        assert(last_duration(input, t, a[k].duration));
        assert(last_duration(input, t, b[k].duration));
        let j1 = choose|j: int|
            0 <= j < input.len() && (#[trigger] input[j]).pts == t && input[j].duration == a[k].duration
                && forall|m: int| j < m < input.len() ==> (#[trigger] input[m]).pts != t;
        let j2 = choose|j: int|
            0 <= j < input.len() && (#[trigger] input[j]).pts == t && input[j].duration == b[k].duration
                && forall|m: int| j < m < input.len() ==> (#[trigger] input[m]).pts != t;
        if j1 < j2 {
            assert(input[j2].pts != t);
        } else if j2 < j1 {
            assert(input[j1].pts != t);
        }
    }
    assert(a =~= b);
}

/// Sort packets by timestamp (stably) and collapse each run of equal
/// timestamps to its last packet, keeping any keyframe flag. Alt-ref frames
/// share a timestamp with the frame they precede, but only one frame per
/// timestamp is displayed.
pub fn presentation_packets(packets: &Vec<TimingPacket>) -> (out: Vec<TimingPacket>)
    ensures
        presentation_order(packets@, out@),
{
    let mut out: Vec<TimingPacket> = Vec::new();
    let mut i: usize = 0;
    while i < packets.len()
        invariant
            i <= packets@.len(),
            presentation_order(packets@.take(i as int), out@),
        decreases packets@.len() - i,
    {
        let p = packets[i];
        let ghost before = out@;
        let ghost prefix = packets@.take(i as int);
        let ghost next = packets@.take(i + 1);
        proof {
            assert(next =~= prefix.push(p));
        }
        let mut pos = out.len();
        while pos > 0 && out[pos - 1].pts > p.pts
            invariant
                out@ == before,
                pos <= out@.len(),
                forall|k: int| pos <= k < out@.len() ==> (#[trigger] out@[k]).pts > p.pts,
            decreases pos,
        {
            pos = pos - 1;
        }
        if pos > 0 && out[pos - 1].pts == p.pts {
            let old = out[pos - 1];
            let merged = TimingPacket {
                pts: p.pts,
                duration: p.duration,
                key_frame: old.key_frame || p.key_frame,
            };
            out.set(pos - 1, merged);
            proof {
                lemma_merge_keeps_order(prefix, p, before, out@, (pos - 1) as int);
            }
        } else {
            out.insert(pos, p);
            proof {
                lemma_insert_keeps_order(prefix, p, before, out@, pos as int);
            }
        }
        i = i + 1;
    }
    proof {
        assert(packets@.take(packets@.len() as int) =~= packets@);
    }
    out
}

proof fn lemma_merge_keeps_order(
    prefix: Seq<TimingPacket>,
    p: TimingPacket,
    before: Seq<TimingPacket>,
    after: Seq<TimingPacket>,
    at: int,
)
    requires
        presentation_order(prefix, before),
        0 <= at < before.len(),
        before[at].pts == p.pts,
        after == before.update(
            at,
            TimingPacket {
                pts: p.pts,
                duration: p.duration,
                key_frame: before[at].key_frame || p.key_frame,
            },
        ),
    ensures
        presentation_order(prefix.push(p), after),
{
    let next = prefix.push(p);
    let n = prefix.len() as int;
    assert(next[n] == p);
    assert forall|i: int, j: int| 0 <= i < j < after.len() implies (#[trigger] after[i]).pts < (
    #[trigger] after[j]).pts by {
        assert(before[i].pts < before[j].pts);
    }
    assert forall|j: int| 0 <= j < next.len() implies has_pts(after, (#[trigger] next[j]).pts) by {
        if j < n {
            assert(next[j] == prefix[j]);
            let t = prefix[j].pts;
            assert(has_pts(before, t));
            let w = choose|w: int| 0 <= w < before.len() && (#[trigger] before[w]).pts == t;
            assert(after[w].pts == t);
        } else {
            assert(after[at].pts == p.pts);
        }
    }
    assert forall|k: int| 0 <= k < after.len() implies {
        &&& has_pts(next, (#[trigger] after[k]).pts)
        &&& after[k].key_frame == has_key(next, after[k].pts)
        &&& last_duration(next, after[k].pts, after[k].duration)
    } by {
        let t = after[k].pts;
        if k == at {
            assert(next[n].pts == t);
            // key frame: any in prefix with t, or p.
            if before[at].key_frame {
                let w = choose|w: int|
                    0 <= w < prefix.len() && (#[trigger] prefix[w]).pts == t && prefix[w].key_frame;
                assert(next[w] == prefix[w]);
            }
            if has_key(next, t) {
                let w = choose|w: int|
                    0 <= w < next.len() && (#[trigger] next[w]).pts == t && next[w].key_frame;
                if w < n {
                    assert(next[w] == prefix[w]);
                    assert(has_key(prefix, t));
                }
            }
            assert(last_duration(next, t, p.duration)) by {
                assert(next[n].duration == p.duration);
            }
        } else {
            assert(after[k] == before[k]);
            assert(t != p.pts) by {
                if k < at {
                    assert(before[k].pts < before[at].pts);
                } else {
                    assert(before[at].pts < before[k].pts);
                }
            }
            let w = choose|w: int| 0 <= w < prefix.len() && (#[trigger] prefix[w]).pts == t;
            assert(next[w] == prefix[w]);
            if before[k].key_frame {
                let v = choose|v: int|
                    0 <= v < prefix.len() && (#[trigger] prefix[v]).pts == t && prefix[v].key_frame;
                assert(next[v] == prefix[v]);
            }
            if has_key(next, t) {
                let v = choose|v: int|
                    0 <= v < next.len() && (#[trigger] next[v]).pts == t && next[v].key_frame;
                assert(v < n);
                assert(next[v] == prefix[v]);
            }
            let d = choose|d: int|
                0 <= d < prefix.len() && (#[trigger] prefix[d]).pts == t && prefix[d].duration
                    == before[k].duration && forall|m: int|
                    d < m < prefix.len() ==> (#[trigger] prefix[m]).pts != t;
            assert(next[d] == prefix[d]);
            assert forall|m: int| d < m < next.len() implies (#[trigger] next[m]).pts != t by {
                if m < n {
                    assert(next[m] == prefix[m]);
                }
            }
        }
    }
}

proof fn lemma_insert_keeps_order(
    prefix: Seq<TimingPacket>,
    p: TimingPacket,
    before: Seq<TimingPacket>,
    after: Seq<TimingPacket>,
    at: int,
)
    requires
        presentation_order(prefix, before),
        0 <= at <= before.len(),
        forall|k: int| at <= k < before.len() ==> (#[trigger] before[k]).pts > p.pts,
        at > 0 ==> before[at - 1].pts < p.pts,
        after == before.insert(at, p),
    ensures
        presentation_order(prefix.push(p), after),
{
    let next = prefix.push(p);
    let n = prefix.len() as int;
    assert(next[n] == p);
    assert(after.len() == before.len() + 1);
    assert(after[at] == p);
    assert forall|k: int| 0 <= k < after.len() && k != at implies (#[trigger] after[k]) == (if k
        < at {
        before[k]
    } else {
        before[k - 1]
    }) by {}
    assert forall|i: int, j: int| 0 <= i < j < after.len() implies (#[trigger] after[i]).pts < (
    #[trigger] after[j]).pts by {
        if i < at && j < at {
            assert(before[i].pts < before[j].pts);
        } else if i < at && j == at {
            if i < at - 1 {
                assert(before[i].pts < before[at - 1].pts);
            }
        } else if i < at && j > at {
            assert(before[i].pts < before[j - 1].pts);
        } else if i == at {
            assert(before[j - 1].pts > p.pts);
        } else {
            assert(before[i - 1].pts < before[j - 1].pts);
        }
    }
    // p's timestamp was not present before.
    assert(!has_pts(prefix, p.pts)) by {
        if has_pts(prefix, p.pts) {
            let w = choose|w: int| 0 <= w < prefix.len() && (#[trigger] prefix[w]).pts == p.pts;
            assert(has_pts(before, prefix[w].pts));
            let v = choose|v: int| 0 <= v < before.len() && (#[trigger] before[v]).pts == p.pts;
            if v >= at {
                assert(before[v].pts > p.pts);
            } else if v < at - 1 {
                assert(before[v].pts < before[at - 1].pts);
            }
        }
    }
    assert forall|j: int| 0 <= j < next.len() implies has_pts(after, (#[trigger] next[j]).pts) by {
        if j < n {
            assert(next[j] == prefix[j]);
            let t = prefix[j].pts;
            assert(has_pts(before, t));
            let w = choose|w: int| 0 <= w < before.len() && (#[trigger] before[w]).pts == t;
            if w < at {
                assert(after[w] == before[w]);
            } else {
                assert(after[w + 1] == before[w]);
            }
        } else {
            assert(after[at] == p);
        }
    }
    assert forall|k: int| 0 <= k < after.len() implies {
        &&& has_pts(next, (#[trigger] after[k]).pts)
        &&& after[k].key_frame == has_key(next, after[k].pts)
        &&& last_duration(next, after[k].pts, after[k].duration)
    } by {
        let t = after[k].pts;
        if k == at {
            assert(has_pts(next, t)) by {
                assert(next[n].pts == t);
            }
            if p.key_frame {
                assert(next[n].key_frame);
            }
            if has_key(next, t) {
                let v = choose|v: int|
                    0 <= v < next.len() && (#[trigger] next[v]).pts == t && next[v].key_frame;
                if v < n {
                    assert(next[v] == prefix[v]);
                    assert(has_pts(prefix, p.pts));
                }
            }
            assert(last_duration(next, t, p.duration)) by {
                assert(next[n].duration == p.duration);
            }
        } else {
            let b = if k < at {
                k
            } else {
                k - 1
            };
            assert(after[k] == before[b]);
            assert(t != p.pts) by {
                if k < at {
                    if b < at - 1 {
                        assert(before[b].pts < before[at - 1].pts);
                    }
                } else {
                    assert(before[b].pts > p.pts);
                }
            }
            let w = choose|w: int| 0 <= w < prefix.len() && (#[trigger] prefix[w]).pts == t;
            assert(next[w] == prefix[w]);
            if before[b].key_frame {
                let v = choose|v: int|
                    0 <= v < prefix.len() && (#[trigger] prefix[v]).pts == t && prefix[v].key_frame;
                assert(next[v] == prefix[v]);
            }
            if has_key(next, t) {
                let v = choose|v: int|
                    0 <= v < next.len() && (#[trigger] next[v]).pts == t && next[v].key_frame;
                assert(v < n);
                assert(next[v] == prefix[v]);
            }
            let d = choose|d: int|
                0 <= d < prefix.len() && (#[trigger] prefix[d]).pts == t && prefix[d].duration
                    == before[b].duration && forall|m: int|
                    d < m < prefix.len() ==> (#[trigger] prefix[m]).pts != t;
            assert(next[d] == prefix[d]);
            assert forall|m: int| d < m < next.len() implies (#[trigger] next[m]).pts != t by {
                if m < n {
                    assert(next[m] == prefix[m]);
                }
            }
        }
    }
}

// === Per-stream metadata ===================================================

/// What a prober reports about one video stream.
#[derive(Debug, Clone)]
pub struct VideoStreamInfo {
    pub index: u8,
    pub codec_name: String,
    pub width: u32,
    pub height: u32,
    /// The container's base frame rate, when it declares one.
    pub r_frame_rate: Option<Fps>,
    pub time_base: URational,
    /// Cover art or a thumbnail: a single embedded still, not a track.
    pub attached_pic: bool,
}

/// What a prober reports about one audio stream. The duration is kept as the
/// prober wrote it (seconds, decimal).
#[derive(Debug, Clone)]
pub struct AudioStreamInfo {
    pub index: u8,
    pub sample_rate: u32,
    pub duration: String,
}

/// One stream of a container, as probed.
#[derive(Debug, Clone)]
pub enum StreamInfo {
    Video(VideoStreamInfo),
    Audio(AudioStreamInfo),
    /// A stream that is not modelled; it holds a slot in the stream map only.
    Other,
}

#[derive(Debug, Clone, Copy, PartialEq, Eq)]
pub enum CodecType {
    Video,
    Audio,
    /// Data, subtitle and attachment streams.
    Other,
}

/// Data around a video stream. Timing is exact and reflects what plays:
/// samples the container discards are excluded and decode order is
/// normalized to presentation order.
#[derive(Debug, Clone)]
pub struct VideoMetadata {
    pub resolution: Resolution,
    pub timing: Timing,
    /// Presentation timestamp of the first frame.
    pub start: MediaTime,
    pub frame_count: u32,
    /// End of the last frame's display window: the stream covers `start..end`.
    pub end: MediaTime,
    pub time_base: URational,
    /// Keyframe indices, ascending, never empty.
    pub keyframes: Vec<u32>,
    pub stream_index: u8,
    pub parent_stream_index: Option<u8>,
    pub attached_pic: bool,
}

impl VideoMetadata {
    /// The time range this stream covers.
    pub fn extent(&self) -> (r: (MediaTime, MediaTime))
        ensures
            r.0 == self.start,
            r.1 == self.end,
    {
        (self.start, self.end)
    }
}

/// Why metadata could not be assembled.
#[derive(Debug, Clone, Copy, PartialEq, Eq)]
pub enum MetadataError {
    /// The video stream with this container index has no packets.
    NoPackets(u8),
    /// More frames than fit a `u32`.
    FrameCountOverflow,
    /// Exact time arithmetic overflowed `i64`.
    Overflow,
    /// A time base or frame rate too large to be read as a signed rational.
    OutOfRange,
}

/// The keyframe indices of `packets`: ascending, exactly the flagged packets,
/// or just frame 0 when none is flagged.
pub open spec fn keyframes_spec(packets: Seq<TimingPacket>, ks: Seq<u32>) -> bool {
    if exists|i: int| 0 <= i < packets.len() && (#[trigger] packets[i]).key_frame {
        &&& forall|a: int, b: int| 0 <= a < b < ks.len() ==> (#[trigger] ks[a]) < (#[trigger] ks[b])
        &&& forall|a: int|
            0 <= a < ks.len() ==> (#[trigger] ks[a]) < packets.len() && packets[ks[a] as int].key_frame
        &&& forall|i: int|
            0 <= i < packets.len() && (#[trigger] packets[i]).key_frame ==> ks.contains(i as u32)
    } else {
        ks == seq![0u32]
    }
}

/// Keyframe indices of `packets`. The first frame counts as a seek point even
/// when no packet is flagged.
pub fn keyframe_indices(packets: &Vec<TimingPacket>) -> (ks: Vec<u32>)
    requires
        packets@.len() <= u32::MAX,
    ensures
        keyframes_spec(packets@, ks@),
{
    let mut ks: Vec<u32> = Vec::new();
    let mut i: usize = 0;
    while i < packets.len()
        invariant
            i <= packets@.len() <= u32::MAX,
            forall|a: int, b: int| 0 <= a < b < ks@.len() ==> (#[trigger] ks@[a]) < (#[trigger] ks@[b]),
            forall|a: int| 0 <= a < ks@.len() ==> (#[trigger] ks@[a]) < i && packets@[ks@[a] as int].key_frame,
            forall|j: int| 0 <= j < i && (#[trigger] packets@[j]).key_frame ==> ks@.contains(j as u32),
            (ks@.len() == 0) == (forall|j: int| 0 <= j < i ==> !(#[trigger] packets@[j]).key_frame),
        decreases packets@.len() - i,
    {
        if packets[i].key_frame {
            let ghost old_ks = ks@;
            ks.push(i as u32);
            proof {
                assert forall|j: int| 0 <= j < i + 1 && (#[trigger] packets@[j]).key_frame implies ks@.contains(
                    j as u32,
                ) by {
                    if j < i {
                        let w = choose|w: int| 0 <= w < old_ks.len() && old_ks[w] == j as u32;
                        assert(ks@[w] == j as u32);
                    } else {
                        assert(ks@[old_ks.len() as int] == j as u32);
                    }
                }
            }
        }
        i = i + 1;
    }
    if ks.len() == 0 {
        ks.push(0);
        proof {
            assert(ks@ =~= seq![0u32]);
        }
    }
    ks
}

/// The metadata of `stream` given its packets in presentation order.
pub open spec fn video_meta_spec(
    stream: VideoStreamInfo,
    packets: Seq<TimingPacket>,
    m: VideoMetadata,
) -> bool {
    &&& packets.len() > 0
    &&& m.resolution == Resolution { width: stream.width, height: stream.height }
    &&& m.frame_count == packets.len()
    &&& m.start.wf()
    &&& frac_eq(m.start.frac(), tick_frac(packets[0].pts as int, stream.time_base))
    &&& keyframes_spec(packets, m.keyframes@)
    &&& timing_spec(packets, stream.time_base, stream.r_frame_rate, m.start.frac(), m.timing, m.end)
    &&& m.time_base == stream.time_base
    &&& m.stream_index == stream.index
    &&& m.parent_stream_index is None
    &&& m.attached_pic == stream.attached_pic
}

/// Declared rates other than zero frames per second (the frame length of a
/// zero rate does not exist: taking it panics).
pub open spec fn rate_nonzero(stream: VideoStreamInfo) -> bool {
    stream.r_frame_rate matches Some(f) ==> f.0.numer != 0
}

/// The error making the metadata of `stream` from `packets` ends in, if any,
/// checked in this order: no packets, more frames than a `u32` holds, a time
/// base or rate beyond `i64`, then an overflow of the start time or of the
/// timing decision.
pub open spec fn video_meta_error(stream: VideoStreamInfo, packets: Seq<TimingPacket>) -> Option<MetadataError> {
    let tb = stream.time_base;
    if packets.len() == 0 {
        Some(MetadataError::NoPackets(stream.index))
    } else if packets.len() > u32::MAX {
        Some(MetadataError::FrameCountOverflow)
    } else if tb.numer > i64::MAX || tb.denom > i64::MAX {
        Some(MetadataError::OutOfRange)
    } else if stream.r_frame_rate matches Some(f) && (f.0.numer > i64::MAX || f.0.denom > i64::MAX) {
        Some(MetadataError::OutOfRange)
    } else {
        match time_of(product_of(integer(packets[0].pts), as_signed(tb))) {
            None => Some(MetadataError::Overflow),
            Some(start) => if timing_overflows(packets, tb, stream.r_frame_rate, start) {
                Some(MetadataError::Overflow)
            } else {
                None
            },
        }
    }
}

/// Metadata of one video stream from its packets, already in presentation order.
pub fn video_metadata(stream: &VideoStreamInfo, packets: &Vec<TimingPacket>) -> (r: Result<
    VideoMetadata,
    MetadataError,
>)
    requires
        rate_nonzero(*stream),
        stream.time_base.wf(),
        stream.r_frame_rate matches Some(f) ==> f.0.wf(),
    ensures
        match video_meta_error(*stream, packets@) {
            Some(e) => r == Err::<VideoMetadata, MetadataError>(e),
            None => r matches Ok(m) && video_meta_spec(*stream, packets@, m),
        },
{
    if packets.len() == 0 {
        return Err(MetadataError::NoPackets(stream.index));
    }
    if packets.len() > u32::MAX as usize {
        return Err(MetadataError::FrameCountOverflow);
    }
    let time_base = stream.time_base;
    if time_base.numer > i64::MAX as u64 || time_base.denom > i64::MAX as u64 {
        return Err(MetadataError::OutOfRange);
    }
    if let Some(f) = stream.r_frame_rate {
        if f.0.numer > i64::MAX as u64 || f.0.denom > i64::MAX as u64 {
            return Err(MetadataError::OutOfRange);
        }
    }
    let start = match time_at(packets[0].pts, time_base) {
        Some(t) => t,
        None => return Err(MetadataError::Overflow),
    };
    let keyframes = keyframe_indices(packets);
    let (timing, end) = match classify_timing(packets, time_base, stream.r_frame_rate, start) {
        Some(te) => te,
        None => return Err(MetadataError::Overflow),
    };
    Ok(
        VideoMetadata {
            resolution: Resolution { width: stream.width, height: stream.height },
            timing,
            start,
            frame_count: packets.len() as u32,
            end,
            time_base,
            keyframes,
            stream_index: stream.index,
            parent_stream_index: None,
            attached_pic: stream.attached_pic,
        },
    )
}

// === Assembling a container's metadata ====================================

/// Data around an audio stream. The length is in seconds, as the prober
/// wrote it.
#[derive(Debug, Clone)]
pub struct AudioMetadata {
    pub sample_rate: u32,
    pub length: String,
    pub stream_index: u8,
    pub parent_stream_index: Option<u8>,
}

impl AudioMetadata {
    pub open spec fn of_info(self, info: AudioStreamInfo) -> bool {
        &&& self.sample_rate == info.sample_rate
        &&& self.length@ == info.duration@
        &&& self.stream_index == info.index
        &&& self.parent_stream_index is None
    }

    fn from_ffprobe_info(info: AudioStreamInfo) -> (r: AudioMetadata)
        ensures
            r.of_info(info),
    {
        AudioMetadata {
            sample_rate: info.sample_rate,
            length: info.duration,
            stream_index: info.index,
            parent_stream_index: None,
        }
    }
}

/// Metadata of a whole container.
#[derive(Debug, Clone)]
pub struct MediaMetadata {
    pub video: Vec<VideoMetadata>,
    pub audio: Vec<AudioMetadata>,
    /// For each container stream: its kind and its position among the streams
    /// of that kind.
    pub stream_map: Vec<(CodecType, u8)>,
}

/// Number of video streams among `streams[0..upto]`.
pub open spec fn count_video(streams: Seq<StreamInfo>, upto: int) -> int
    decreases upto,
{
    if upto <= 0 {
        0
    } else {
        count_video(streams, upto - 1) + if streams[upto - 1] is Video {
            1int
        } else {
            0int
        }
    }
}

/// Number of audio streams among `streams[0..upto]`.
pub open spec fn count_audio(streams: Seq<StreamInfo>, upto: int) -> int
    decreases upto,
{
    if upto <= 0 {
        0
    } else {
        count_audio(streams, upto - 1) + if streams[upto - 1] is Audio {
            1int
        } else {
            0int
        }
    }
}

/// The stream-map entry of stream `i`.
pub open spec fn stream_slot(streams: Seq<StreamInfo>, i: int) -> (CodecType, u8) {
    match streams[i] {
        StreamInfo::Video(_) => (CodecType::Video, count_video(streams, i) as u8),
        StreamInfo::Audio(_) => (CodecType::Audio, count_audio(streams, i) as u8),
        StreamInfo::Other => (CodecType::Other, 0u8),
    }
}

/// The video streams, in container order.
pub open spec fn video_infos(streams: Seq<StreamInfo>) -> Seq<VideoStreamInfo>
    decreases streams.len(),
{
    if streams.len() == 0 {
        Seq::empty()
    } else {
        let r = video_infos(streams.drop_last());
        match streams.last() {
            StreamInfo::Video(v) => r.push(v),
            _ => r,
        }
    }
}

/// The audio streams, in container order.
pub open spec fn audio_infos(streams: Seq<StreamInfo>) -> Seq<AudioStreamInfo>
    decreases streams.len(),
{
    if streams.len() == 0 {
        Seq::empty()
    } else {
        let r = audio_infos(streams.drop_last());
        match streams.last() {
            StreamInfo::Audio(a) => r.push(a),
            _ => r,
        }
    }
}

/// The packets routed to video slot `k`, in the order they came.
pub open spec fn routed(tp: Seq<(u8, TimingPacket)>, streams: Seq<StreamInfo>, k: int) -> Seq<
    TimingPacket,
>
    decreases tp.len(),
{
    if tp.len() == 0 {
        Seq::empty()
    } else {
        let r = routed(tp.drop_last(), streams, k);
        if stream_slot(streams, tp.last().0 as int).1 as int == k {
            r.push(tp.last().1)
        } else {
            r
        }
    }
}

/// Positions (among the video streams) of those that are real tracks, not
/// attached pictures.
pub open spec fn track_slots(vs: Seq<VideoStreamInfo>) -> Seq<int>
    decreases vs.len(),
{
    if vs.len() == 0 {
        Seq::empty()
    } else {
        let r = track_slots(vs.drop_last());
        if vs.last().attached_pic {
            r
        } else {
            r.push(vs.len() - 1)
        }
    }
}

/// Every packet names a stream whose stream-map slot is a video position.
pub open spec fn packets_routable(tp: Seq<(u8, TimingPacket)>, streams: Seq<StreamInfo>) -> bool {
    forall|j: int|
        0 <= j < tp.len() ==> (#[trigger] tp[j]).0 < streams.len() && (stream_slot(
            streams,
            tp[j].0 as int,
        ).1 as int) < video_infos(streams).len()
}

/// Video tracks whose numbers the timing computation can take: a declared
/// rate of zero frames per second has no frame length. Attached pictures are
/// never timed.
pub open spec fn streams_ok(streams: Seq<StreamInfo>) -> bool {
    forall|j: int|
        0 <= j < video_infos(streams).len() ==> {
            let v = #[trigger] video_infos(streams)[j];
            !v.attached_pic ==> rate_nonzero(v) && v.time_base.wf() && (v.r_frame_rate matches Some(
                f,
            ) ==> f.0.wf())
        }
}

proof fn lemma_video_infos_step(streams: Seq<StreamInfo>, i: int)
    requires
        0 <= i < streams.len(),
    ensures
        video_infos(streams.take(i + 1)) == (match streams[i] {
            StreamInfo::Video(v) => video_infos(streams.take(i)).push(v),
            _ => video_infos(streams.take(i)),
        }),
        audio_infos(streams.take(i + 1)) == (match streams[i] {
            StreamInfo::Audio(a) => audio_infos(streams.take(i)).push(a),
            _ => audio_infos(streams.take(i)),
        }),
{
    assert(streams.take(i + 1).drop_last() =~= streams.take(i));
}

proof fn lemma_counts(streams: Seq<StreamInfo>, i: int)
    requires
        0 <= i <= streams.len(),
    ensures
        count_video(streams, i) == video_infos(streams.take(i)).len(),
        count_audio(streams, i) == audio_infos(streams.take(i)).len(),
    decreases i,
{
    if i > 0 {
        lemma_counts(streams, i - 1);
        lemma_video_infos_step(streams, i - 1);
    } else {
        assert(streams.take(0) =~= Seq::<StreamInfo>::empty());
    }
}

/// The stream map, and the video and audio streams in container order.
fn stream_map_of(streams: Vec<StreamInfo>) -> (r: (
    Vec<(CodecType, u8)>,
    Vec<VideoStreamInfo>,
    Vec<AudioStreamInfo>,
))
    ensures
        r.0@.len() == streams@.len(),
        forall|i: int| 0 <= i < streams@.len() ==> (#[trigger] r.0@[i]) == stream_slot(streams@, i),
        r.1@ == video_infos(streams@),
        r.2@ == audio_infos(streams@),
{
    let ghost all = streams@;
    let mut map: Vec<(CodecType, u8)> = Vec::new();
    let mut video: Vec<VideoStreamInfo> = Vec::new();
    let mut audio: Vec<AudioStreamInfo> = Vec::new();
    for s in it: streams
        invariant
            it.seq() == all,
            map@.len() == it.index(),
            forall|j: int| 0 <= j < it.index() ==> (#[trigger] map@[j]) == stream_slot(all, j),
            video@ == video_infos(all.take(it.index() as int)),
            audio@ == audio_infos(all.take(it.index() as int)),
    {
        let ghost i = it.index();
        proof {
            lemma_video_infos_step(all, i as int);
            lemma_counts(all, i as int);
        }
        match s {
            StreamInfo::Video(info) => {
                map.push((CodecType::Video, #[verifier::truncate] (video.len() as u8)));
                video.push(info);
            },
            StreamInfo::Audio(info) => {
                map.push((CodecType::Audio, #[verifier::truncate] (audio.len() as u8)));
                audio.push(info);
            },
            StreamInfo::Other => {
                map.push((CodecType::Other, 0));
            },
        }
    }
    proof {
        assert(all.take(all.len() as int) =~= all);
    }
    (map, video, audio)
}

/// Video slot `slot` yields `m`: its routed packets, put in presentation
/// order, end in no error and give exactly this metadata.
pub open spec fn track_ok(
    streams: Seq<StreamInfo>,
    tp: Seq<(u8, TimingPacket)>,
    slot: int,
    m: VideoMetadata,
) -> bool {
    exists|ps: Seq<TimingPacket>|
        #[trigger] presentation_order(routed(tp, streams, slot), ps) && video_meta_error(
            video_infos(streams)[slot],
            ps,
        ) is None && video_meta_spec(video_infos(streams)[slot], ps, m)
}

/// Video slot `slot` yields some metadata.
pub open spec fn track_fine(streams: Seq<StreamInfo>, tp: Seq<(u8, TimingPacket)>, slot: int) -> bool {
    exists|m: VideoMetadata| #[trigger] track_ok(streams, tp, slot, m)
}

/// Video slot `slot` fails with `e`: the error its routed packets, put in
/// presentation order, end in (`video_meta_error`).
pub open spec fn track_err(
    streams: Seq<StreamInfo>,
    tp: Seq<(u8, TimingPacket)>,
    slot: int,
    e: MetadataError,
) -> bool {
    exists|ps: Seq<TimingPacket>|
        #[trigger] presentation_order(routed(tp, streams, slot), ps) && video_meta_error(
            video_infos(streams)[slot],
            ps,
        ) == Some(e)
}

/// A video slot never both yields metadata and fails.
pub proof fn lemma_track_outcome_unique(
    streams: Seq<StreamInfo>,
    tp: Seq<(u8, TimingPacket)>,
    slot: int,
    m: VideoMetadata,
    e: MetadataError,
)
    ensures
        !(track_ok(streams, tp, slot, m) && track_err(streams, tp, slot, e)),
{
    if track_ok(streams, tp, slot, m) && track_err(streams, tp, slot, e) {
        let input = routed(tp, streams, slot);
        let info = video_infos(streams)[slot];
        let a = choose|ps: Seq<TimingPacket>|
            #[trigger] presentation_order(input, ps) && video_meta_error(info, ps) is None && video_meta_spec(
                info,
                ps,
                m,
            );
        let b = choose|ps: Seq<TimingPacket>|
            #[trigger] presentation_order(input, ps) && video_meta_error(info, ps) == Some(e);
        lemma_presentation_order_unique(input, a, b);
    }
}

/// `m` is the metadata of a container with `streams` whose video packets are `tp`.
pub open spec fn assembled(
    streams: Seq<StreamInfo>,
    tp: Seq<(u8, TimingPacket)>,
    m: MediaMetadata,
) -> bool {
    let slots = track_slots(video_infos(streams));
    &&& m.stream_map@.len() == streams.len()
    &&& forall|i: int| 0 <= i < streams.len() ==> (#[trigger] m.stream_map@[i]) == stream_slot(streams, i)
    &&& m.audio@.len() == audio_infos(streams).len()
    &&& forall|i: int| 0 <= i < m.audio@.len() ==> (#[trigger] m.audio@[i]).of_info(audio_infos(streams)[i])
    &&& m.video@.len() == slots.len()
    &&& forall|k: int| 0 <= k < slots.len() ==> track_ok(streams, tp, slots[k], #[trigger] m.video@[k])
}

proof fn lemma_routed_step(tp: Seq<(u8, TimingPacket)>, streams: Seq<StreamInfo>, i: int, k: int)
    requires
        0 <= i < tp.len(),
    ensures
        routed(tp.take(i + 1), streams, k) == if stream_slot(streams, tp[i].0 as int).1 as int == k {
            routed(tp.take(i), streams, k).push(tp[i].1)
        } else {
            routed(tp.take(i), streams, k)
        },
{
    assert(tp.take(i + 1).drop_last() =~= tp.take(i));
}

proof fn lemma_track_slots_step(vs: Seq<VideoStreamInfo>, j: int)
    requires
        0 <= j < vs.len(),
    ensures
        track_slots(vs.take(j + 1)) == if vs[j].attached_pic {
            track_slots(vs.take(j))
        } else {
            track_slots(vs.take(j)).push(j)
        },
{
    assert(vs.take(j + 1).drop_last() =~= vs.take(j));
}

/// The slots of a prefix are a prefix of the slots.
proof fn lemma_track_slots_prefix(vs: Seq<VideoStreamInfo>, j: int)
    requires
        0 <= j <= vs.len(),
    ensures
        track_slots(vs.take(j)).len() <= track_slots(vs).len(),
        forall|k: int|
            0 <= k < track_slots(vs.take(j)).len() ==> #[trigger] track_slots(vs.take(j))[k]
                == track_slots(vs)[k],
    decreases vs.len() - j,
{
    if j == vs.len() {
        assert(vs.take(j) =~= vs);
    } else {
        lemma_track_slots_prefix(vs, j + 1);
        lemma_track_slots_step(vs, j);
        assert forall|k: int| 0 <= k < track_slots(vs.take(j)).len() implies #[trigger] track_slots(
            vs.take(j),
        )[k] == track_slots(vs)[k] by {
            assert(track_slots(vs.take(j))[k] == track_slots(vs.take(j + 1))[k]);
        }
    }
}

/// Every slot names a video stream.
proof fn lemma_track_slots_bound(vs: Seq<VideoStreamInfo>)
    ensures
        forall|k: int|
            0 <= k < track_slots(vs).len() ==> 0 <= #[trigger] track_slots(vs)[k] < vs.len(),
    decreases vs.len(),
{
    if vs.len() > 0 {
        lemma_track_slots_bound(vs.drop_last());
        assert forall|k: int| 0 <= k < track_slots(vs).len() implies 0 <= #[trigger] track_slots(vs)[k]
            < vs.len() by {
            if k < track_slots(vs.drop_last()).len() {
                assert(track_slots(vs)[k] == track_slots(vs.drop_last())[k]);
            }
        }
    }
}

/// Put the packets routed to one video stream in presentation order and
/// compute its metadata.
fn track_metadata(
    info: &VideoStreamInfo,
    packets: &Vec<TimingPacket>,
    Ghost(streams): Ghost<Seq<StreamInfo>>,
    Ghost(tp): Ghost<Seq<(u8, TimingPacket)>>,
    Ghost(slot): Ghost<int>,
) -> (r: Result<VideoMetadata, MetadataError>)
    requires
        0 <= slot < video_infos(streams).len(),
        *info == video_infos(streams)[slot],
        packets@ == routed(tp, streams, slot),
        rate_nonzero(*info),
        info.time_base.wf(),
        info.r_frame_rate matches Some(f) ==> f.0.wf(),
    ensures
        r matches Ok(m) ==> track_ok(streams, tp, slot, m),
        r matches Err(e) ==> track_err(streams, tp, slot, e),
{
    let ps = presentation_packets(packets);
    proof {
        if packets@.len() > 0 {
            assert(has_pts(ps@, packets@[0].pts));
        }
        if ps@.len() > 0 {
            assert(has_pts(packets@, ps@[0].pts));
        }
    }
    let r = video_metadata(info, &ps);
    proof {
        assert(presentation_order(routed(tp, streams, slot), ps@));
    }
    r
}

impl MediaMetadata {
    /// The metadata of a container from its probed streams and the timing of
    /// its video packets (each tagged with its container stream index).
    ///
    /// Packets go to the video stream their index names; attached pictures
    /// (cover art) keep their slot but yield no video metadata; each track's
    /// packets are put in presentation order before timing is computed. The
    /// first track that fails decides the error.
    pub fn assemble(streams: Vec<StreamInfo>, timing_packets: Vec<(u8, TimingPacket)>) -> (r: Result<
        MediaMetadata,
        MetadataError,
    >)
        requires
            packets_routable(timing_packets@, streams@),
            streams_ok(streams@),
        ensures
            r matches Ok(m) ==> assembled(streams@, timing_packets@, m),
            r matches Err(e) ==> {
                let slots = track_slots(video_infos(streams@));
                exists|k: int|
                    0 <= k < slots.len() && track_err(streams@, timing_packets@, #[trigger] slots[k], e)
                        && forall|j: int|
                        0 <= j < k ==> track_fine(streams@, timing_packets@, #[trigger] slots[j])
            },
    {
        let ghost all = streams@;
        let ghost tp = timing_packets@;
        let (stream_map, video, audio_infos_v) = stream_map_of(streams);
        let mut routes: Vec<Vec<TimingPacket>> = Vec::new();
        let mut k: usize = 0;
        while k < video.len()
            invariant
                k <= video@.len(),
                routes@.len() == k,
                forall|s: int| 0 <= s < k ==> (#[trigger] routes@[s])@ == Seq::<TimingPacket>::empty(),
            decreases video@.len() - k,
        {
            routes.push(Vec::new());
            k = k + 1;
        }
        proof {
            assert forall|s: int| 0 <= s < routes@.len() implies (#[trigger] routes@[s])@ == routed(
                tp.take(0),
                all,
                s,
            ) by {
                assert(tp.take(0) =~= Seq::<(u8, TimingPacket)>::empty());
            }
        }
        let mut i: usize = 0;
        while i < timing_packets.len()
            invariant
                i <= tp.len(),
                tp == timing_packets@,
                packets_routable(tp, all),
                stream_map@.len() == all.len(),
                forall|j: int| 0 <= j < all.len() ==> (#[trigger] stream_map@[j]) == stream_slot(all, j),
                video@ == video_infos(all),
                routes@.len() == video@.len(),
                forall|s: int|
                    0 <= s < routes@.len() ==> (#[trigger] routes@[s])@ == routed(
                        tp.take(i as int),
                        all,
                        s,
                    ),
            decreases tp.len() - i,
        {
            let (idx, p) = timing_packets[i];
            proof {
                assert(tp[i as int].0 < all.len());
            }
            let slot = stream_map[idx as usize].1 as usize;
            let ghost before = routes@;
            routes[slot].push(p);
            proof {
                assert forall|s: int| 0 <= s < routes@.len() implies (#[trigger] routes@[s])@ == routed(
                    tp.take(i + 1),
                    all,
                    s,
                ) by {
                    lemma_routed_step(tp, all, i as int, s);
                    if s != slot {
                        assert(routes@[s] == before[s]);
                    }
                }
            }
            i = i + 1;
        }
        proof {
            assert(tp.take(tp.len() as int) =~= tp);
        }
        let ghost vs = video@;
        let mut out: Vec<VideoMetadata> = Vec::new();
        let mut j: usize = 0;
        while j < video.len()
            invariant
                j <= vs.len(),
                all == streams@,
                tp == timing_packets@,
                vs == video@,
                vs == video_infos(all),
                streams_ok(all),
                routes@.len() == vs.len(),
                forall|s: int| 0 <= s < routes@.len() ==> (#[trigger] routes@[s])@ == routed(tp, all, s),
                out@.len() == track_slots(vs.take(j as int)).len(),
                forall|q: int|
                    0 <= q < out@.len() ==> track_ok(
                        all,
                        tp,
                        track_slots(vs.take(j as int))[q],
                        #[trigger] out@[q],
                    ),
            decreases vs.len() - j,
        {
            proof {
                lemma_track_slots_step(vs, j as int);
            }
            if !video[j].attached_pic {
                proof {
                    let v = video_infos(all)[j as int];
                    assert(!v.attached_pic ==> rate_nonzero(v) && v.time_base.wf());
                }
                match track_metadata(&video[j], &routes[j], Ghost(all), Ghost(tp), Ghost(j as int)) {
                    Ok(m) => {
                        out.push(m);
                    },
                    Err(e) => {
                        proof {
                            let pre = track_slots(vs.take(j as int));
                            lemma_track_slots_prefix(vs, j + 1);
                            let slots = track_slots(vs);
                            let kk = out@.len() as int;
                            assert(track_slots(vs.take(j + 1)) == pre.push(j as int));
                            assert(track_slots(vs.take(j + 1))[kk] == j);
                            assert(slots[kk] == j);
                            assert forall|q: int| 0 <= q < kk implies track_fine(all, tp, #[trigger] slots[q]) by {
                                assert(pre[q] == track_slots(vs.take(j + 1))[q]);
                                assert(track_ok(all, tp, pre[q], out@[q]));
                            }
                            assert(track_err(all, tp, slots[kk], e));
                            assert(0 <= kk < slots.len());
                            assert(slots == track_slots(video_infos(all)));
                            assert(track_err(all, tp, track_slots(video_infos(all))[kk], e));
                            assert(forall|q: int|
                                0 <= q < kk ==> track_fine(all, tp, #[trigger] track_slots(video_infos(all))[q]));
                        }
                        return Err(e);
                    },
                }
            }
            j = j + 1;
        }
        proof {
            assert(vs.take(vs.len() as int) =~= vs);
        }
        let mut audio: Vec<AudioMetadata> = Vec::new();
        let ghost ais = audio_infos_v@;
        for info in it: audio_infos_v
            invariant
                it.seq() == ais,
                audio@.len() == it.index(),
                forall|q: int| 0 <= q < it.index() ==> (#[trigger] audio@[q]).of_info(ais[q]),
        {
            audio.push(AudioMetadata::from_ffprobe_info(info));
        }
        Ok(MediaMetadata { video: out, audio, stream_map })
    }
}

// === Invisible frames ======================================================

/// Codecs that can store invisible (alt-ref) frames.
pub open spec fn risky_codec(name: Seq<char>) -> bool {
    name == seq!['v', 'p', '8'] || name == seq!['v', 'p', '9'] || name == seq!['a', 'v', '1']
}

/// Stream `idx` is a video stream of such a codec.
pub open spec fn risky_stream(streams: Seq<StreamInfo>, idx: u8) -> bool {
    exists|i: int|
        0 <= i < streams.len() && (#[trigger] streams[i] matches StreamInfo::Video(v) && v.index == idx
            && risky_codec(v.codec_name@))
}

/// Timestamp of the last packet of stream `idx` among `tp[0..upto]`.
pub open spec fn previous_pts(tp: Seq<(u8, TimingPacket)>, idx: u8, upto: int) -> Option<i64>
    decreases upto,
{
    if upto <= 0 {
        None
    } else if tp[upto - 1].0 == idx {
        Some(tp[upto - 1].1.pts)
    } else {
        previous_pts(tp, idx, upto - 1)
    }
}

/// Packet `j` is stamped one tick after the previous packet of its stream, on
/// a stream that can hold invisible frames.
pub open spec fn alt_ref_at(streams: Seq<StreamInfo>, tp: Seq<(u8, TimingPacket)>, j: int) -> bool {
    &&& risky_stream(streams, tp[j].0)
    &&& previous_pts(tp, tp[j].0, j) matches Some(p) && tp[j].1.pts == p + 1
}

/// A packet stamped one tick after the packet just before it, of the same
/// stream, is taken for an alt-ref when that stream is a VP8, VP9 or AV1
/// video stream; on a stream whose codec is none of these, no packet ever is.
pub proof fn lemma_alt_ref_codecs(streams: Seq<StreamInfo>, tp: Seq<(u8, TimingPacket)>, j: int, s: int)
    requires
        1 <= j < tp.len(),
        0 <= s < streams.len(),
    ensures
        (streams[s] matches StreamInfo::Video(v) && v.index == tp[j].0 && (v.codec_name@ == "vp8"@
            || v.codec_name@ == "vp9"@ || v.codec_name@ == "av1"@) && tp[j - 1].0 == tp[j].0 && tp[j].1.pts
            == tp[j - 1].1.pts + 1) ==> alt_ref_at(streams, tp, j),
        (forall|i: int|
            0 <= i < streams.len() ==> !(#[trigger] streams[i] matches StreamInfo::Video(v) && v.index
                == tp[j].0 && (v.codec_name@ == "vp8"@ || v.codec_name@ == "vp9"@ || v.codec_name@
                == "av1"@))) ==> !alt_ref_at(streams, tp, j),
{
    reveal_strlit("vp8");
    reveal_strlit("vp9");
    reveal_strlit("av1");
    assert("vp8"@ =~= seq!['v', 'p', '8']);
    assert("vp9"@ =~= seq!['v', 'p', '9']);
    assert("av1"@ =~= seq!['a', 'v', '1']);
    if streams[s] matches StreamInfo::Video(v) && v.index == tp[j].0 && (v.codec_name@ == "vp8"@
        || v.codec_name@ == "vp9"@ || v.codec_name@ == "av1"@) && tp[j - 1].0 == tp[j].0 {
        assert(previous_pts(tp, tp[j].0, j) == Some(tp[j - 1].1.pts));
        assert(risky_stream(streams, tp[j].0));
    }
}

fn is_risky_codec(name: &str) -> (r: bool)
    ensures
        r == risky_codec(name@),
{
    proof {
        reveal_strlit("vp8");
        reveal_strlit("vp9");
        reveal_strlit("av1");
        assert("vp8"@ =~= seq!['v', 'p', '8']);
        assert("vp9"@ =~= seq!['v', 'p', '9']);
        assert("av1"@ =~= seq!['a', 'v', '1']);
    }
    str_eq(name, "vp8") || str_eq(name, "vp9") || str_eq(name, "av1")
}

/// Whether the packets look like they hold invisible alt-ref frames: frames
/// that decode but never display. The container gives them ordinary timing,
/// so demuxing alone cannot count displayed frames; the tell is the libvpx
/// habit of stamping an alt-ref with the previous frame's timestamp plus one
/// tick, on a codec that can hold such frames.
pub fn invisible_frames_suspected(streams: &Vec<StreamInfo>, packets: &Vec<(u8, TimingPacket)>) -> (r:
    bool)
    ensures
        r == exists|j: int| 0 <= j < packets@.len() && #[trigger] alt_ref_at(streams@, packets@, j),
{
    let mut risky: Vec<bool> = Vec::new();
    let mut k: usize = 0;
    while k < 256
        invariant
            k <= 256,
            risky@.len() == k,
            forall|q: int| 0 <= q < k ==> !(#[trigger] risky@[q]),
        decreases 256 - k,
    {
        risky.push(false);
        k = k + 1;
    }
    let mut i: usize = 0;
    while i < streams.len()
        invariant
            i <= streams@.len(),
            risky@.len() == 256,
            forall|q: int|
                0 <= q < 256 ==> (#[trigger] risky@[q]) == exists|s: int|
                    0 <= s < i && (#[trigger] streams@[s] matches StreamInfo::Video(v) && v.index == q
                        && risky_codec(v.codec_name@)),
        decreases streams@.len() - i,
    {
        match &streams[i] {
            StreamInfo::Video(v) => {
                if is_risky_codec(v.codec_name.as_str()) {
                    risky.set(v.index as usize, true);
                }
            },
            _ => {},
        }
        proof {
            assert forall|q: int| 0 <= q < 256 implies (#[trigger] risky@[q]) == exists|s: int|
                0 <= s < i + 1 && (#[trigger] streams@[s] matches StreamInfo::Video(v) && v.index == q
                    && risky_codec(v.codec_name@)) by {
                if risky@[q] {
                    if !(streams@[i as int] matches StreamInfo::Video(v) && v.index == q && risky_codec(
                        v.codec_name@,
                    )) {
                        let s = choose|s: int|
                            0 <= s < i && (#[trigger] streams@[s] matches StreamInfo::Video(v) && v.index
                                == q && risky_codec(v.codec_name@));
                    }
                }
            }
        }
        i = i + 1;
    }
    let mut previous: Vec<Option<i64>> = Vec::new();
    let mut k: usize = 0;
    while k < 256
        invariant
            k <= 256,
            previous@.len() == k,
            forall|q: int| 0 <= q < k ==> (#[trigger] previous@[q]) is None,
        decreases 256 - k,
    {
        previous.push(None);
        k = k + 1;
    }
    let mut j: usize = 0;
    while j < packets.len()
        invariant
            j <= packets@.len(),
            risky@.len() == 256,
            previous@.len() == 256,
            forall|q: int| 0 <= q < 256 ==> (#[trigger] risky@[q]) == risky_stream(streams@, q as u8),
            forall|q: int| 0 <= q < 256 ==> (#[trigger] previous@[q]) == previous_pts(packets@, q as u8, j as int),
            forall|q: int| 0 <= q < j ==> !#[trigger] alt_ref_at(streams@, packets@, q),
        decreases packets@.len() - j,
    {
        let (idx, p) = packets[j];
        if risky[idx as usize] {
            if let Some(prev) = previous[idx as usize] {
                if p.pts as i128 == prev as i128 + 1 {
                    proof {
                        assert(alt_ref_at(streams@, packets@, j as int));
                    }
                    return true;
                }
            }
        }
        previous.set(idx as usize, Some(p.pts));
        proof {
            assert forall|q: int| 0 <= q < 256 implies (#[trigger] previous@[q]) == previous_pts(
                packets@,
                q as u8,
                j + 1,
            ) by {
                if q != idx as int {
                    assert(q as u8 != idx);
                }
            }
        }
        j = j + 1;
    }
    false
}

} // verus!
