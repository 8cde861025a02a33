//! Synthetic test clips: the description of each clip (codec, container,
//! timing, size, GOP), the exact times it promises, and the fixed matrix of
//! clips the reader is checked against.
use crate::media::metadata::{time_of, MediaTime, Resolution};
use crate::rational::{
    as_signed, sum_of, uquotient_of, usum_of, checked_uadd, checked_udiv, coprime, frac_add, frac_eq, frac_int, lemma_frac_congruence,
    lemma_frac_eq_trans, lemma_frac_pos_ops, urational_eq, urational_new, urecip, Frac, Rational,
    URational,
};
use crate::text::{chars_of, digit_char, digits_in, format_unsigned, string_of};
use vstd::prelude::*;

verus! {

/// Frames per clip of the fixed matrix.
pub const FRAMES: u32 = 60;

/// Name of the plain-vanilla clip: H.264, yuv420p, GOP 12, 30 fps, mp4.
pub const BASELINE: &'static str = "h264_420p_g12_30";

#[derive(Debug, Clone, Copy, PartialEq, Eq, Structural)]
pub enum Codec {
    H264,
    Hevc,
    Vp9,
    Ffv1,
}

#[derive(Debug, Clone, Copy, PartialEq, Eq, Structural)]
pub enum PixFmt {
    Yuv420p,
    Yuv444p,
}

#[derive(Debug, Clone, Copy, PartialEq, Eq, Structural)]
pub enum Container {
    Mp4,
    Mkv,
    WebM,
    MpegTs,
}

pub open spec fn encoder_name(c: Codec) -> Seq<char> {
    match c {
        Codec::H264 => "libx264"@,
        Codec::Hevc => "libx265"@,
        Codec::Vp9 => "libvpx-vp9"@,
        Codec::Ffv1 => "ffv1"@,
    }
}

pub open spec fn codec_tag(c: Codec) -> Seq<char> {
    match c {
        Codec::H264 => "h264"@,
        Codec::Hevc => "hevc"@,
        Codec::Vp9 => "vp9"@,
        Codec::Ffv1 => "ffv1"@,
    }
}

pub open spec fn default_container(c: Codec) -> Container {
    match c {
        Codec::H264 | Codec::Hevc => Container::Mp4,
        Codec::Vp9 => Container::WebM,
        Codec::Ffv1 => Container::Mkv,
    }
}

pub open spec fn pix_name(p: PixFmt) -> Seq<char> {
    match p {
        PixFmt::Yuv420p => "yuv420p"@,
        PixFmt::Yuv444p => "yuv444p"@,
    }
}

pub open spec fn pix_tag(p: PixFmt) -> Seq<char> {
    match p {
        PixFmt::Yuv420p => "420p"@,
        PixFmt::Yuv444p => "444p"@,
    }
}

pub open spec fn container_ext(c: Container) -> Seq<char> {
    match c {
        Container::Mp4 => "mp4"@,
        Container::Mkv => "mkv"@,
        Container::WebM => "webm"@,
        Container::MpegTs => "ts"@,
    }
}

impl Codec {
    /// The ffmpeg encoder for this codec.
    pub fn encoder(self) -> (r: &'static str)
        ensures
            r@ == encoder_name(self),
    {
        match self {
            Codec::H264 => "libx264",
            Codec::Hevc => "libx265",
            Codec::Vp9 => "libvpx-vp9",
            Codec::Ffv1 => "ffv1",
        }
    }

    pub fn tag(self) -> (r: &'static str)
        ensures
            r@ == codec_tag(self),
    {
        match self {
            Codec::H264 => "h264",
            Codec::Hevc => "hevc",
            Codec::Vp9 => "vp9",
            Codec::Ffv1 => "ffv1",
        }
    }

    pub fn default_container(self) -> (r: Container)
        ensures
            r == default_container(self),
    {
        match self {
            Codec::H264 | Codec::Hevc => Container::Mp4,
            Codec::Vp9 => Container::WebM,
            Codec::Ffv1 => Container::Mkv,
        }
    }
}

impl PixFmt {
    /// The ffmpeg name of this pixel format.
    pub fn ffmpeg_name(self) -> (r: &'static str)
        ensures
            r@ == pix_name(self),
    {
        match self {
            PixFmt::Yuv420p => "yuv420p",
            PixFmt::Yuv444p => "yuv444p",
        }
    }

    pub fn tag(self) -> (r: &'static str)
        ensures
            r@ == pix_tag(self),
    {
        match self {
            PixFmt::Yuv420p => "420p",
            PixFmt::Yuv444p => "444p",
        }
    }
}

impl Container {
    /// The file extension of this container.
    pub fn ext(self) -> (r: &'static str)
        ensures
            r@ == container_ext(self),
    {
        match self {
            Container::Mp4 => "mp4",
            Container::Mkv => "mkv",
            Container::WebM => "webm",
            Container::MpegTs => "ts",
        }
    }
}

/// Frame timing of a clip: a constant rate, or an exact duration per frame
/// (timestamps are their prefix sums).
#[derive(Debug, Clone)]
pub enum Timing {
    Cfr { fps: URational },
    Vfr { durations: Vec<URational> },
}

/// The sum of the first `n` durations.
pub open spec fn prefix_sum(ds: Seq<URational>, n: int) -> Frac
    decreases n,
{
    if n <= 0 {
        (0, 1)
    } else {
        frac_add(prefix_sum(ds, n - 1), ds[n - 1].frac())
    }
}

/// Every duration has a positive denominator.
pub open spec fn durations_wf(ds: Seq<URational>) -> bool {
    forall|i: int| 0 <= i < ds.len() ==> (#[trigger] ds[i]).wf()
}

proof fn lemma_prefix_pos(ds: Seq<URational>, n: int)
    requires
        durations_wf(ds),
        n <= ds.len(),
    ensures
        prefix_sum(ds, n).1 > 0,
    decreases n,
{
    if n > 0 {
        lemma_prefix_pos(ds, n - 1);
        lemma_frac_pos_ops(prefix_sum(ds, n - 1), ds[n - 1].frac());
    }
}

proof fn lemma_offset_pos(t: Timing, k: int)
    requires
        t.wf(),
        k >= 0,
    ensures
        t.offset(k).1 > 0,
{
    match t {
        Timing::Cfr { fps } => {},
        Timing::Vfr { durations } => {
            let n = if k < durations@.len() {
                k
            } else {
                durations@.len() as int
            };
            lemma_prefix_pos(durations@, n);
        },
    }
}

/// The first `i` durations added up one by one as `num_rational` does it;
/// `None` once a partial sum overflows.
pub open spec fn computed_prefix(durations: Seq<URational>, i: int) -> Option<URational>
    decreases i,
{
    if i <= 0 {
        Some(URational { numer: 0, denom: 1 })
    } else {
        match computed_prefix(durations, i - 1) {
            None => None,
            Some(acc) => usum_of(acc, durations[i - 1]),
        }
    }
}

/// Once a partial sum overflows, every longer one does.
proof fn lemma_prefix_stuck(durations: Seq<URational>, i: int, j: int)
    requires
        0 < i <= j,
        computed_prefix(durations, i) is None,
    ensures
        computed_prefix(durations, j) is None,
    decreases j - i,
{
    if i < j {
        lemma_prefix_stuck(durations, i, j - 1);
    }
}

impl Timing {
    pub open spec fn wf(self) -> bool {
        match self {
            Timing::Cfr { fps } => fps.wf() && fps.numer > 0,
            Timing::Vfr { durations } => durations_wf(durations@),
        }
    }

    /// Where frame `frame_index` starts, relative to the clip's start:
    /// `index / fps`, or the sum of the durations before it.
    pub open spec fn offset(self, frame_index: int) -> Frac {
        match self {
            Timing::Cfr { fps } => (frame_index * fps.denom, fps.numer as int),
            Timing::Vfr { durations } => prefix_sum(
                durations@,
                if frame_index < durations@.len() {
                    frame_index
                } else {
                    durations@.len() as int
                },
            ),
        }
    }

    /// The offset of frame `frame_index` as computed: `index / fps`, or the
    /// durations before it added up one by one; `None` on an overflow.
    pub open spec fn computed_offset(self, frame_index: int) -> Option<URational> {
        match self {
            Timing::Cfr { fps } => uquotient_of(URational { numer: frame_index as u64, denom: 1 }, fps),
            Timing::Vfr { durations } => computed_prefix(
                durations@,
                if frame_index < durations@.len() {
                    frame_index
                } else {
                    durations@.len() as int
                },
            ),
        }
    }

    /// The offset of frame `frame_index` from the clip's start; `None` when
    /// the exact sum overflows.
    pub fn frame_length(&self, frame_index: u32) -> (r: Option<URational>)
        requires
            self.wf(),
        ensures
            r == self.computed_offset(frame_index as int),
            r matches Some(t) ==> t.wf() && frac_eq(t.frac(), self.offset(frame_index as int)),
    {
        match self {
            Timing::Cfr { fps } => checked_udiv(URational::from_integer(frame_index as u64), *fps),
            Timing::Vfr { durations } => {
                let n = if (frame_index as usize) < durations.len() {
                    frame_index as usize
                } else {
                    durations.len()
                };
                let mut acc = URational::from_integer(0);
                let mut i: usize = 0;
                while i < n
                    invariant
                        i <= n <= durations@.len(),
                        durations_wf(durations@),
                        acc.wf(),
                        frac_eq(acc.frac(), prefix_sum(durations@, i as int)),
                        computed_prefix(durations@, i as int) == Some(acc),
                        computed_prefix(durations@, n as int) == self.computed_offset(frame_index as int),
                    decreases n - i,
                {
                    let d = durations[i];
                    let next = match checked_uadd(acc, d) {
                        Some(s) => s,
                        None => {
                            proof {
                                lemma_prefix_stuck(durations@, i + 1, n as int);
                            }
                            return None;
                        },
                    };
                    proof {
                        lemma_prefix_pos(durations@, i as int);
                        lemma_frac_congruence(acc.frac(), d.frac(), prefix_sum(durations@, i as int), d.frac());
                        lemma_frac_pos_ops(acc.frac(), d.frac());
                        lemma_frac_pos_ops(prefix_sum(durations@, i as int), d.frac());
                        lemma_frac_eq_trans(
                            next.frac(),
                            frac_add(acc.frac(), d.frac()),
                            prefix_sum(durations@, i + 1),
                        );
                    }
                    acc = next;
                    i = i + 1;
                }
                Some(acc)
            },
        }
    }
}

proof fn lemma_frac_add_assoc(s: Frac, x: Frac, y: Frac)
    ensures
        frac_add(s, frac_add(x, y)) == frac_add(frac_add(s, x), y),
{
    let (a, b, c, d, e, f) = (s.0, s.1, x.0, x.1, y.0, y.1);
    assert((c * f + e * d) * b == c * f * b + e * d * b) by (nonlinear_arith);
    assert((a * d + c * b) * f == a * d * f + c * b * f) by (nonlinear_arith);
    assert(a * (d * f) == a * d * f) by (nonlinear_arith);
    assert(e * (b * d) == e * d * b) by (nonlinear_arith);
    assert(c * f * b == c * b * f) by (nonlinear_arith);
    assert(b * (d * f) == (b * d) * f) by (nonlinear_arith);
}

/// Frame 0 starts at the clip's start, and frame `i + 1` starts where frame
/// `i` ends: at frame `i`'s timestamp plus frame `i`'s duration.
pub proof fn lemma_frames_follow(spec: Spec, i: int)
    requires
        spec.wf(),
        0 <= i,
        i + 1 < spec.frames,
        spec.timing matches Timing::Vfr { durations } ==> spec.frames <= durations@.len(),
    ensures
        frac_eq(frac_add(spec.start_offset.frac(), spec.timing.offset(0)), spec.start_offset.frac()),
        frac_eq(
            frac_add(spec.start_offset.frac(), spec.timing.offset(i + 1)),
            frac_add(frac_add(spec.start_offset.frac(), spec.timing.offset(i)), spec.timing.duration(i)),
        ),
{
    let st = spec.start_offset.frac();
    let t = spec.timing;
    assert(st.1 > 0);
    lemma_offset_pos(t, 0);
    lemma_offset_pos(t, i);
    lemma_offset_pos(t, i + 1);
    match t {
        Timing::Cfr { fps } => {
            let n = fps.numer as int;
            assert(t.offset(0) == (0int, n));
            assert((st.0 * n + 0 * st.1) * st.1 == st.0 * (st.1 * n)) by (nonlinear_arith);
            let step = frac_add(t.offset(i), t.duration(i));
            assert(frac_eq(t.offset(i + 1), step)) by (nonlinear_arith)
                requires
                    t.offset(i + 1) == ((i + 1) * fps.denom, fps.numer as int),
                    t.offset(i) == (i * fps.denom, fps.numer as int),
                    t.duration(i) == (fps.denom as int, fps.numer as int),
                    step == frac_add(t.offset(i), t.duration(i)),
            ;
            lemma_frac_pos_ops(t.offset(i), t.duration(i));
            lemma_frac_congruence(st, t.offset(i + 1), st, step);
            lemma_frac_add_assoc(st, t.offset(i), t.duration(i));
        },
        Timing::Vfr { durations } => {
            assert(t.offset(i + 1) == frac_add(t.offset(i), t.duration(i)));
            lemma_frac_add_assoc(st, t.offset(i), t.duration(i));
        },
    }
}

/// The timestamps `timestamp_of` gives follow one another: the one of frame
/// `i + 1` is the one of frame `i` plus frame `i`'s duration (`duration_of`);
/// and frame 0's is the clip's start.
pub proof fn lemma_timestamps_follow(spec: Spec, i: int, t0: MediaTime, ti: MediaTime, tn: MediaTime)
    requires
        spec.wf(),
        0 <= i,
        i + 1 < spec.frames,
        spec.timing matches Timing::Vfr { durations } ==> spec.frames <= durations@.len(),
        t0.wf() && frac_eq(t0.frac(), frac_add(spec.start_offset.frac(), spec.timing.offset(0))),
        ti.wf() && frac_eq(ti.frac(), frac_add(spec.start_offset.frac(), spec.timing.offset(i))),
        tn.wf() && frac_eq(tn.frac(), frac_add(spec.start_offset.frac(), spec.timing.offset(i + 1))),
    ensures
        frac_eq(t0.frac(), spec.start_offset.frac()),
        frac_eq(tn.frac(), frac_add(ti.frac(), spec.timing.duration(i))),
{
    let st = spec.start_offset.frac();
    lemma_frames_follow(spec, i);
    lemma_offset_pos(spec.timing, 0);
    lemma_offset_pos(spec.timing, i);
    lemma_offset_pos(spec.timing, i + 1);
    lemma_frac_pos_ops(st, spec.timing.offset(0));
    lemma_frac_pos_ops(st, spec.timing.offset(i));
    lemma_frac_pos_ops(st, spec.timing.offset(i + 1));
    lemma_frac_eq_trans(t0.frac(), frac_add(st, spec.timing.offset(0)), st);
    let d = spec.timing.duration(i);
    assert(d.1 > 0) by {
        match spec.timing {
            Timing::Cfr { fps } => {},
            Timing::Vfr { durations } => {
                assert(durations@[i].wf());
            },
        }
    }
    lemma_frac_congruence(ti.frac(), d, frac_add(st, spec.timing.offset(i)), d);
    lemma_frac_pos_ops(ti.frac(), d);
    lemma_frac_pos_ops(frac_add(st, spec.timing.offset(i)), d);
    lemma_frac_eq_trans(tn.frac(), frac_add(st, spec.timing.offset(i + 1)), frac_add(frac_add(st, spec.timing.offset(i)), d));
    crate::rational::lemma_frac_eq_symm(frac_add(ti.frac(), d), frac_add(frac_add(st, spec.timing.offset(i)), d));
    lemma_frac_eq_trans(tn.frac(), frac_add(frac_add(st, spec.timing.offset(i)), d), frac_add(ti.frac(), d));
}

/// Full description of one synthetic clip: everything a test needs to
/// predict what the reader returns.
#[derive(Debug, Clone)]
pub struct Spec {
    pub name: String,
    pub codec: Codec,
    pub container: Container,
    pub pix_fmt: PixFmt,
    pub timing: Timing,
    pub frames: u32,
    pub resolution: Resolution,
    /// Forced keyframe interval; 1 means every frame is a keyframe.
    pub gop: u32,
    /// Most consecutive B-frames (H.264 and HEVC only).
    pub bframes: u32,
    /// Timestamp of the first frame.
    pub start_offset: MediaTime,
}

impl Spec {
    pub open spec fn wf(self) -> bool {
        &&& self.timing.wf()
        &&& self.start_offset.wf()
    }

    /// The timestamp of frame `index` as computed: the start offset plus the
    /// frame's offset; `None` on an overflow.
    pub open spec fn computed_timestamp(self, index: int) -> Option<MediaTime> {
        match self.timing.computed_offset(index) {
            None => None,
            Some(d) => if d.numer > i64::MAX || d.denom > i64::MAX {
                None
            } else {
                time_of(sum_of(self.start_offset.0, as_signed(d)))
            },
        }
    }

    /// The end of the clip as computed: the last frame's timestamp plus its
    /// duration; `None` on an overflow.
    pub open spec fn computed_end(self) -> Option<MediaTime> {
        let last = self.frames - 1;
        let d = match self.timing {
            Timing::Cfr { fps } => URational { numer: fps.denom, denom: fps.numer },
            Timing::Vfr { durations } => durations@[last],
        };
        match self.computed_timestamp(last) {
            None => None,
            Some(t) => if d.numer > i64::MAX || d.denom > i64::MAX {
                None
            } else {
                time_of(sum_of(t.0, as_signed(d)))
            },
        }
    }

    /// Exact presentation timestamp of frame `index` (the start offset
    /// included); `None` when exact arithmetic overflows.
    pub fn timestamp_of(&self, index: u32) -> (r: Option<MediaTime>)
        requires
            self.wf(),
            index < self.frames,
        ensures
            r == self.computed_timestamp(index as int),
            r matches Some(t) ==> t.wf() && frac_eq(
                t.frac(),
                frac_add(self.start_offset.frac(), self.timing.offset(index as int)),
            ),
    {
        let d = match self.timing.frame_length(index) {
            Some(d) => d,
            None => return None,
        };
        if d.numer > i64::MAX as u64 || d.denom > i64::MAX as u64 {
            return None;
        }
        let r = self.start_offset.advance_secs(d);
        proof {
            if let Some(t) = r {
                lemma_offset_pos(self.timing, index as int);
                assert((d.numer as i64) as int == d.numer as int);
                lemma_frac_congruence(
                    self.start_offset.frac(),
                    d.frac(),
                    self.start_offset.frac(),
                    self.timing.offset(index as int),
                );
                lemma_frac_pos_ops(self.start_offset.frac(), d.frac());
                lemma_frac_pos_ops(self.start_offset.frac(), self.timing.offset(index as int));
                lemma_frac_eq_trans(
                    t.frac(),
                    frac_add(self.start_offset.frac(), d.frac()),
                    frac_add(self.start_offset.frac(), self.timing.offset(index as int)),
                );
            }
        }
        r
    }
}

impl Spec {
    /// Exact display duration of frame `index`.
    pub fn duration_of(&self, index: u32) -> (r: URational)
        requires
            self.wf(),
            index < self.frames,
            self.timing matches Timing::Vfr { durations } ==> index < durations@.len(),
        ensures
            match self.timing {
                Timing::Cfr { fps } => r.numer == fps.denom && r.denom == fps.numer,
                Timing::Vfr { durations } => r == durations@[index as int],
            },
    {
        match &self.timing {
            Timing::Cfr { fps } => urecip(*fps),
            Timing::Vfr { durations } => durations[index as usize],
        }
    }

    /// The time range the clip covers: from its first timestamp to the end of
    /// its last frame; `None` when exact arithmetic overflows.
    pub fn extent(&self) -> (r: Option<(MediaTime, MediaTime)>)
        requires
            self.wf(),
            self.frames > 0,
            self.timing matches Timing::Vfr { durations } ==> self.frames <= durations@.len(),
        ensures
            r is None <==> self.computed_end() is None,
            r matches Some((a, b)) ==> Some(b) == self.computed_end(),
            r matches Some((a, b)) ==> a == self.start_offset && b.wf() && frac_eq(
                b.frac(),
                frac_add(
                    frac_add(self.start_offset.frac(), self.timing.offset(self.frames - 1)),
                    self.timing.duration(self.frames - 1),
                ),
            ),
    {
        let last = self.frames - 1;
        let t = match self.timestamp_of(last) {
            Some(t) => t,
            None => return None,
        };
        let d = self.duration_of(last);
        if d.numer > i64::MAX as u64 || d.denom > i64::MAX as u64 {
            return None;
        }
        let end = match t.advance_secs(d) {
            Some(e) => e,
            None => return None,
        };
        proof {
            let want_t = frac_add(self.start_offset.frac(), self.timing.offset(last as int));
            let want_d = self.timing.duration(last as int);
            lemma_offset_pos(self.timing, last as int);
            lemma_frac_pos_ops(self.start_offset.frac(), self.timing.offset(last as int));
            assert(frac_eq(d.frac(), want_d));
            assert((d.numer as i64) as int == d.numer as int);
            lemma_frac_congruence(t.frac(), d.frac(), want_t, want_d);
            lemma_frac_pos_ops(t.frac(), d.frac());
            lemma_frac_pos_ops(want_t, want_d);
            lemma_frac_eq_trans(end.frac(), frac_add(t.frac(), d.frac()), frac_add(want_t, want_d));
        }
        Some((self.start_offset, end))
    }

    /// The clip's file name: its name and its container's extension.
    pub fn file_name(&self) -> (r: String)
        ensures
            r@ == self.name@ + "."@ + container_ext(self.container),
    {
        let mut c = chars_of(self.name.as_str());
        let mut dot = chars_of(".");
        let mut ext = chars_of(self.container.ext());
        c.append(&mut dot);
        c.append(&mut ext);
        string_of(c.as_slice())
    }
}

impl Timing {
    /// Display duration of frame `index`: one period, or its own duration.
    pub open spec fn duration(self, index: int) -> Frac {
        match self {
            Timing::Cfr { fps } => (fps.denom as int, fps.numer as int),
            Timing::Vfr { durations } => durations@[index].frac(),
        }
    }
}

// === The fixed matrix ======================================================

/// The label of a frame rate in a clip name: the integer rate, `ntsc` for
/// 24000/1001, or `numer-denom`.
pub open spec fn fps_label(fps: URational) -> Seq<char> {
    if fps.denom == 1 {
        digits_in(fps.numer as nat, 10)
    } else if frac_eq(fps.frac(), (24000, 1001)) {
        "ntsc"@
    } else {
        digits_in(fps.numer as nat, 10) + "-"@ + digits_in(fps.denom as nat, 10)
    }
}

fn chars_append(v: &mut Vec<char>, s: &str)
    ensures
        final(v)@ == old(v)@ + s@,
{
    let mut c = chars_of(s);
    v.append(&mut c);
}

/// The label of `fps` in clip names.
pub fn fps_tag(fps: URational) -> (r: String)
    requires
        fps.wf(),
    ensures
        r@ == fps_label(fps),
{
    if fps.denom == 1 {
        return format_unsigned(fps.numer, 10, 0);
    }
    let ntsc = urational_new(24000, 1001);
    if urational_eq(fps, ntsc) {
        proof {
            lemma_frac_eq_trans(fps.frac(), ntsc.frac(), (24000, 1001));
        }
        let c = chars_of("ntsc");
        return string_of(c.as_slice());
    }
    proof {
        if frac_eq(fps.frac(), (24000, 1001)) {
            crate::rational::lemma_frac_eq_symm(ntsc.frac(), (24000, 1001));
            lemma_frac_eq_trans(fps.frac(), (24000, 1001), ntsc.frac());
        }
    }
    let n = format_unsigned(fps.numer, 10, 0);
    let d = format_unsigned(fps.denom, 10, 0);
    let mut c = chars_of(n.as_str());
    chars_append(&mut c, "-");
    chars_append(&mut c, d.as_str());
    string_of(c.as_slice())
}

/// The matrix rate: NTSC's 24000/1001, or 30.
pub open spec fn rate_value(ntsc: bool) -> Frac {
    if ntsc {
        (24000, 1001)
    } else {
        (30, 1)
    }
}

pub open spec fn rate_label(ntsc: bool) -> Seq<char> {
    if ntsc {
        "ntsc"@
    } else {
        "30"@
    }
}

/// `t` is the constant matrix rate, in lowest terms.
pub open spec fn cfr_at(t: Timing, ntsc: bool) -> bool {
    t matches Timing::Cfr { fps } && fps.wf() && coprime(fps.numer as int, fps.denom as int) && frac_eq(
        fps.frac(),
        rate_value(ntsc),
    )
}

/// The name of a matrix clip.
pub open spec fn base_name(c: Codec, p: PixFmt, gop: u32, ntsc: bool) -> Seq<char> {
    codec_tag(c) + "_"@ + pix_tag(p) + "_g"@ + digits_in(gop as nat, 10) + "_"@ + rate_label(ntsc)
}

/// The fields every clip of the matrix shares: 60 frames of 160x120 without
/// B-frames.
pub open spec fn matrix_shape(s: Spec) -> bool {
    &&& s.frames == FRAMES
    &&& s.resolution == (Resolution { width: 160, height: 120 })
    &&& s.start_offset.wf()
}

/// `s` is the matrix clip of codec `c`, GOP `gop`, the 30 fps or NTSC rate
/// and pixel format `p`, in its codec's usual container.
pub open spec fn is_base(s: Spec, c: Codec, gop: u32, ntsc: bool, p: PixFmt) -> bool {
    &&& s.name@ == base_name(c, p, gop, ntsc)
    &&& s.codec == c
    &&& s.container == default_container(c)
    &&& s.pix_fmt == p
    &&& cfr_at(s.timing, ntsc)
    &&& matrix_shape(s)
    &&& s.gop == gop
    &&& s.bframes == 0
    &&& frac_eq(s.start_offset.frac(), (0, 1))
}

proof fn lemma_ntsc_not_integer(q: URational)
    requires
        q.wf(),
        frac_eq(q.frac(), (24000, 1001)),
    ensures
        q.denom != 1,
{
    if q.denom == 1 {
        assert(q.numer * 1001 == 24000);
        assert(false) by (nonlinear_arith)
            requires
                q.numer * 1001 == 24000,
        ;
    }
}

/// The matrix rate as a ratio.
fn rate(ntsc: bool) -> (r: URational)
    ensures
        r.wf(),
        coprime(r.numer as int, r.denom as int),
        frac_eq(r.frac(), rate_value(ntsc)),
        fps_label(r) == rate_label(ntsc),
{
    if ntsc {
        let r = urational_new(24000, 1001);
        proof {
            lemma_ntsc_not_integer(r);
        }
        r
    } else {
        let r = URational::from_integer(30);
        proof {
            reveal_with_fuel(digits_in, 3);
            assert(coprime(30, 1)) by {
                assert forall|k: int| k > 1 implies !(#[trigger] (30int % k) == 0 && 1int % k == 0) by {
                    assert(1int % k == 1) by (nonlinear_arith)
                        requires
                            k > 1,
                    ;
                }
            }
            reveal_strlit("30");
            assert(digit_char(3) == '3');
            assert(digit_char(0) == '0');
            assert(digits_in(3, 10) == seq!['3']);
            assert(digits_in(30, 10) =~= "30"@);
        }
        r
    }
}

/// The matrix clip of codec `codec`, GOP `gop`, the NTSC or 30 fps rate and
/// pixel format `pix_fmt`.
pub fn base(codec: Codec, gop: u32, ntsc: bool, pix_fmt: PixFmt) -> (s: Spec)
    ensures
        is_base(s, codec, gop, ntsc, pix_fmt),
{
    let fps = rate(ntsc);
    let tag = fps_tag(fps);
    let g = format_unsigned(gop as u64, 10, 0);
    let mut name = chars_of(codec.tag());
    chars_append(&mut name, "_");
    chars_append(&mut name, pix_fmt.tag());
    chars_append(&mut name, "_g");
    chars_append(&mut name, g.as_str());
    chars_append(&mut name, "_");
    chars_append(&mut name, tag.as_str());
    proof {
        assert(name@ =~= base_name(codec, pix_fmt, gop, ntsc));
    }
    Spec {
        name: string_of(name.as_slice()),
        codec,
        container: codec.default_container(),
        pix_fmt,
        timing: Timing::Cfr { fps },
        frames: FRAMES,
        resolution: Resolution { width: 160, height: 120 },
        gop,
        bframes: 0,
        start_offset: MediaTime(Rational::from_integer(0)),
    }
}

pub open spec fn inter_codec(i: int) -> Codec {
    if i == 0 {
        Codec::H264
    } else if i == 1 {
        Codec::Hevc
    } else {
        Codec::Vp9
    }
}

pub open spec fn sweep_gop(i: int) -> u32 {
    if i == 0 {
        1
    } else if i == 1 {
        12
    } else {
        250
    }
}

pub open spec fn pix_at(i: int) -> PixFmt {
    if i == 0 {
        PixFmt::Yuv420p
    } else {
        PixFmt::Yuv444p
    }
}

/// Milliseconds per frame of the variable-rate clip, repeating.
pub open spec fn vfr_pattern() -> Seq<int> {
    seq![33, 21, 100, 40, 15, 67]
}

/// `t` gives frame `i` a duration of `vfr_pattern()[i % 6]` milliseconds, in
/// lowest terms, for each of the 60 frames.
pub open spec fn vfr_timing(t: Timing) -> bool {
    t matches Timing::Vfr { durations } && durations@.len() == FRAMES && forall|i: int|
        0 <= i < FRAMES ==> (#[trigger] durations@[i]).wf() && coprime(
            durations@[i].numer as int,
            durations@[i].denom as int,
        ) && frac_eq(durations@[i].frac(), (vfr_pattern()[i % 6], 1000))
}

/// `s` is the H.264 4:2:0 GOP-12 matrix clip with a different name,
/// container, B-frame count or start.
pub open spec fn base_variant(s: Spec, name: Seq<char>, container: Container, bframes: u32, start: Frac) -> bool {
    &&& s.name@ == name
    &&& s.codec == Codec::H264
    &&& s.container == container
    &&& s.pix_fmt == PixFmt::Yuv420p
    &&& matrix_shape(s)
    &&& s.gop == 12
    &&& s.bframes == bframes
    &&& frac_eq(s.start_offset.frac(), start)
}

/// The clips of the fixed matrix, in order: every inter codec by GOP 1, 12
/// and 250 by 30 fps and NTSC by 4:2:0 and 4:4:4; FFV1 (all-intra) by rate
/// and pixel format; then a variable-rate clip, and H.264 with B-frames,
/// with B-frames and a 0.7 s start, and in MPEG-TS starting at 1.4 s.
pub open spec fn matrix(r: Seq<Spec>) -> bool {
    &&& r.len() == 44
    &&& forall|k: int|
        0 <= k < 36 ==> is_base(
            #[trigger] r[k],
            inter_codec(k / 12),
            sweep_gop((k / 4) % 3),
            (k / 2) % 2 == 1,
            pix_at(k % 2),
        )
    &&& forall|k: int| 36 <= k < 40 ==> is_base(#[trigger] r[k], Codec::Ffv1, 1, (k - 36) / 2 == 1, pix_at((k - 36) % 2))
    &&& base_variant(r[40], "vfr_h264"@, Container::Mp4, 0, (0, 1)) && vfr_timing(r[40].timing)
    &&& base_variant(r[41], "h264_bf2"@, Container::Mp4, 2, (0, 1)) && cfr_at(r[41].timing, false)
    &&& base_variant(r[42], "h264_bf2_offset"@, Container::Mp4, 2, (7, 10)) && cfr_at(r[42].timing, false)
    &&& base_variant(r[43], "h264_bf2_ts"@, Container::MpegTs, 2, (7, 5)) && cfr_at(r[43].timing, false)
}

fn owned_name(s: &str) -> (r: String)
    ensures
        r@ == s@,
{
    let c = chars_of(s);
    string_of(c.as_slice())
}

/// The whole fixed matrix of clips.
pub fn all_specs() -> (r: Vec<Spec>)
    ensures
        matrix(r@),
{
    let mut specs: Vec<Spec> = Vec::new();
    let codecs = [Codec::H264, Codec::Hevc, Codec::Vp9];
    let gops = [1u32, 12, 250];
    let pixs = [PixFmt::Yuv420p, PixFmt::Yuv444p];
    let mut k: usize = 0;
    while k < 36
        invariant
            k <= 36,
            codecs@ == seq![Codec::H264, Codec::Hevc, Codec::Vp9],
            gops@ == seq![1u32, 12, 250],
            pixs@ == seq![PixFmt::Yuv420p, PixFmt::Yuv444p],
            specs@.len() == k,
            forall|j: int|
                0 <= j < k ==> is_base(
                    #[trigger] specs@[j],
                    inter_codec(j / 12),
                    sweep_gop((j / 4) % 3),
                    (j / 2) % 2 == 1,
                    pix_at(j % 2),
                ),
        decreases 36 - k,
    {
        specs.push(base(codecs[k / 12], gops[(k / 4) % 3], (k / 2) % 2 == 1, pixs[k % 2]));
        k = k + 1;
    }
    let mut j: usize = 0;
    while j < 4
        invariant
            j <= 4,
            pixs@ == seq![PixFmt::Yuv420p, PixFmt::Yuv444p],
            specs@.len() == 36 + j,
            forall|q: int|
                0 <= q < 36 ==> is_base(
                    #[trigger] specs@[q],
                    inter_codec(q / 12),
                    sweep_gop((q / 4) % 3),
                    (q / 2) % 2 == 1,
                    pix_at(q % 2),
                ),
            forall|q: int|
                36 <= q < 36 + j ==> is_base(#[trigger] specs@[q], Codec::Ffv1, 1, (q - 36) / 2 == 1, pix_at((q - 36) % 2)),
        decreases 4 - j,
    {
        specs.push(base(Codec::Ffv1, 1, j / 2 == 1, pixs[j % 2]));
        j = j + 1;
    }
    let pattern = [33u64, 21, 100, 40, 15, 67];
    let mut durations: Vec<URational> = Vec::new();
    let mut i: u32 = 0;
    while i < FRAMES
        invariant
            i <= FRAMES,
            pattern@ == seq![33u64, 21, 100, 40, 15, 67],
            durations@.len() == i,
            forall|q: int|
                0 <= q < i ==> (#[trigger] durations@[q]).wf() && coprime(
                    durations@[q].numer as int,
                    durations@[q].denom as int,
                ) && frac_eq(durations@[q].frac(), (vfr_pattern()[q % 6], 1000)),
        decreases FRAMES - i,
    {
        durations.push(urational_new(pattern[(i % 6) as usize], 1000));
        i = i + 1;
    }
    let vfr = Spec {
        name: owned_name("vfr_h264"),
        timing: Timing::Vfr { durations },
        ..base(Codec::H264, 12, false, PixFmt::Yuv420p)
    };
    specs.push(vfr);
    let bf2 = Spec { name: owned_name("h264_bf2"), bframes: 2, ..base(Codec::H264, 12, false, PixFmt::Yuv420p) };
    specs.push(bf2);
    let bf2_offset = Spec {
        name: owned_name("h264_bf2_offset"),
        bframes: 2,
        start_offset: MediaTime(crate::rational::rational_new(7, 10)),
        ..base(Codec::H264, 12, false, PixFmt::Yuv420p)
    };
    specs.push(bf2_offset);
    let bf2_ts = Spec {
        name: owned_name("h264_bf2_ts"),
        container: Container::MpegTs,
        bframes: 2,
        start_offset: MediaTime(crate::rational::rational_new(7, 5)),
        ..base(Codec::H264, 12, false, PixFmt::Yuv420p)
    };
    specs.push(bf2_ts);
    specs
}

// === Names are unique ======================================================

/// The GOPs of the matrix.
pub open spec fn matrix_gop(g: u32) -> bool {
    g == 1 || g == 12 || g == 250
}

proof fn lemma_matrix_gop_digits(g: u32)
    requires
        matrix_gop(g),
    ensures
        g == 1 ==> digits_in(g as nat, 10) == seq!['1'],
        g == 12 ==> digits_in(g as nat, 10) == seq!['1', '2'],
        g == 250 ==> digits_in(g as nat, 10) == seq!['2', '5', '0'],
{
    reveal_with_fuel(digits_in, 4);
    assert(digit_char(0) == '0');
    assert(digit_char(1) == '1');
    assert(digit_char(2) == '2');
    assert(digit_char(5) == '5');
    assert(digits_in(1, 10) =~= seq!['1']);
    assert(digits_in(12, 10) =~= seq!['1', '2']);
    assert(digits_in(25, 10) =~= seq!['2', '5']);
    assert(digits_in(250, 10) =~= seq!['2', '5', '0']);
}

/// The characters of a matrix name that tell its parameters apart.
proof fn lemma_base_name_chars(c: Codec, p: PixFmt, g: u32, n: bool)
    requires
        matrix_gop(g),
    ensures
        ({
            let s = base_name(c, p, g, n);
            let l = codec_tag(c).len() as int;
            let d = digits_in(g as nat, 10).len() as int;
            &&& s[0] == codec_tag(c)[0]
            &&& s[1] == codec_tag(c)[1]
            &&& s[l + 2] == pix_tag(p)[1]
            &&& s[l + 8] == (if g == 1 {
                '_'
            } else if g == 12 {
                '2'
            } else {
                '5'
            })
            &&& s[l + 8 + d] == rate_label(n)[0]
            &&& l + 8 + d < s.len()
        }),
{
    reveal_strlit("h264");
    reveal_strlit("hevc");
    reveal_strlit("vp9");
    reveal_strlit("ffv1");
    reveal_strlit("420p");
    reveal_strlit("444p");
    reveal_strlit("_");
    reveal_strlit("_g");
    reveal_strlit("ntsc");
    reveal_strlit("30");
    lemma_matrix_gop_digits(g);
    let tag = codec_tag(c);
    let digits = digits_in(g as nat, 10);
    let s = base_name(c, p, g, n);
    let l = tag.len() as int;
    let d = digits.len() as int;
    assert(s =~= tag + seq!['_'] + pix_tag(p) + seq!['_', 'g'] + digits + seq!['_'] + rate_label(n));
    assert(s[l + 2] == pix_tag(p)[1]);
    assert(s[l + 7] == digits[0]);
    assert(s[l + 8] == if d > 1 {
        digits[1]
    } else {
        '_'
    });
    assert(s[l + 8 + d] == rate_label(n)[0]);
}

/// Two matrix names are equal only for equal parameters.
proof fn lemma_base_name_injective(
    c1: Codec,
    p1: PixFmt,
    g1: u32,
    n1: bool,
    c2: Codec,
    p2: PixFmt,
    g2: u32,
    n2: bool,
)
    requires
        matrix_gop(g1),
        matrix_gop(g2),
        base_name(c1, p1, g1, n1) == base_name(c2, p2, g2, n2),
    ensures
        c1 == c2 && p1 == p2 && g1 == g2 && n1 == n2,
{
    reveal_strlit("h264");
    reveal_strlit("hevc");
    reveal_strlit("vp9");
    reveal_strlit("ffv1");
    reveal_strlit("420p");
    reveal_strlit("444p");
    reveal_strlit("ntsc");
    reveal_strlit("30");
    lemma_base_name_chars(c1, p1, g1, n1);
    lemma_base_name_chars(c2, p2, g2, n2);
    lemma_matrix_gop_digits(g1);
    lemma_matrix_gop_digits(g2);
}

/// A matrix name is none of the named extra clips.
proof fn lemma_base_name_not_extra(c: Codec, p: PixFmt, g: u32, n: bool)
    requires
        matrix_gop(g),
    ensures
        base_name(c, p, g, n) != "vfr_h264"@,
        base_name(c, p, g, n) != "h264_bf2"@,
        base_name(c, p, g, n) != "h264_bf2_offset"@,
        base_name(c, p, g, n) != "h264_bf2_ts"@,
{
    reveal_strlit("h264");
    reveal_strlit("hevc");
    reveal_strlit("vp9");
    reveal_strlit("ffv1");
    reveal_strlit("420p");
    reveal_strlit("444p");
    reveal_strlit("vfr_h264");
    reveal_strlit("h264_bf2");
    reveal_strlit("h264_bf2_offset");
    reveal_strlit("h264_bf2_ts");
    lemma_base_name_chars(c, p, g, n);
}

/// The parameters of matrix clip `k` (below 40).
pub open spec fn matrix_key(k: int) -> (Codec, PixFmt, u32, bool) {
    if k < 36 {
        (inter_codec(k / 12), pix_at(k % 2), sweep_gop((k / 4) % 3), (k / 2) % 2 == 1)
    } else {
        (Codec::Ffv1, pix_at((k - 36) % 2), 1, (k - 36) / 2 == 1)
    }
}

proof fn lemma_matrix_key_injective(i: int, j: int)
    requires
        0 <= i < j < 40,
    ensures
        matrix_key(i) != matrix_key(j),
        matrix_gop(matrix_key(i).2),
        matrix_gop(matrix_key(j).2),
{
}

proof fn lemma_matrix_key_gop(k: int)
    requires
        0 <= k < 40,
    ensures
        matrix_gop(matrix_key(k).2),
{
}

/// Every clip of the fixed matrix has its own name.
pub proof fn lemma_matrix_names_distinct(r: Seq<Spec>)
    requires
        matrix(r),
    ensures
        forall|i: int, j: int| 0 <= i < j < r.len() ==> r[i].name@ != r[j].name@,
{
    reveal_strlit("vfr_h264");
    reveal_strlit("h264_bf2");
    reveal_strlit("h264_bf2_offset");
    reveal_strlit("h264_bf2_ts");
    assert forall|i: int, j: int| 0 <= i < j < r.len() implies r[i].name@ != r[j].name@ by {
        if j < 40 {
            lemma_matrix_key_injective(i, j);
            let (c1, p1, g1, n1) = matrix_key(i);
            let (c2, p2, g2, n2) = matrix_key(j);
            assert(r[i].name@ == base_name(c1, p1, g1, n1));
            assert(r[j].name@ == base_name(c2, p2, g2, n2));
            if r[i].name@ == r[j].name@ {
                lemma_base_name_injective(c1, p1, g1, n1, c2, p2, g2, n2);
            }
        } else if i < 40 {
            lemma_matrix_key_gop(i);
            let (c1, p1, g1, n1) = matrix_key(i);
            assert(r[i].name@ == base_name(c1, p1, g1, n1));
            lemma_base_name_not_extra(c1, p1, g1, n1);
        } else {
            assert(r[40].name@ == "vfr_h264"@);
            assert(r[41].name@ == "h264_bf2"@);
            assert(r[42].name@ == "h264_bf2_offset"@);
            assert(r[43].name@ == "h264_bf2_ts"@);
            assert("vfr_h264"@[0] != "h264_bf2"@[0]);
            assert("vfr_h264"@.len() != "h264_bf2_offset"@.len());
            assert("vfr_h264"@.len() != "h264_bf2_ts"@.len());
            assert("h264_bf2"@.len() != "h264_bf2_offset"@.len());
            assert("h264_bf2"@.len() != "h264_bf2_ts"@.len());
            assert("h264_bf2_offset"@.len() != "h264_bf2_ts"@.len());
        }
    }
}

} // verus!
