//! Reading frames: which stream and resolution a request resolves to, and
//! the cursor a sequential reader moves through a stream's display windows.
//! The decoder itself is driven by the caller.
use crate::data::Frame;
use crate::media::metadata::{signed_period, time_of, MediaMetadata, MediaTime, Resolution, Timing, VideoMetadata};
use crate::rational::{
    as_signed, sum_of, uproduct_of, checked_umul, frac_add, frac_eq, frac_le, lemma_frac_congruence, lemma_frac_eq_trans, lemma_frac_pos_ops, rational_le, Frac, URational,
};
use crate::text::str_eq;
use vstd::prelude::*;

verus! {

/// How frames will be requested.
#[derive(Debug, Clone, Copy, PartialEq, Eq, Structural)]
pub enum AccessPattern {
    Sequential,
    Random,
}

/// The resolution to decode at: the native one divided by a factor (for
/// previews), or a given one.
#[derive(Debug, Clone, Copy, PartialEq, Eq, Structural)]
pub enum ResolutionRequest {
    /// Native resolution divided by `downsample`, which is never zero.
    Auto { downsample: u8 },
    Manual(Resolution),
}

/// `a / d`, but at least 1.
pub open spec fn scaled_down(a: u32, d: u8) -> u32 {
    if a / (d as u32) >= 1 {
        (a / (d as u32)) as u32
    } else {
        1
    }
}

impl ResolutionRequest {
    pub open spec fn wf(self) -> bool {
        self matches ResolutionRequest::Auto { downsample } ==> downsample > 0
    }

    /// The native resolution.
    pub fn auto() -> (r: ResolutionRequest)
        ensures
            r == (ResolutionRequest::Auto { downsample: 1 }),
    {
        ResolutionRequest::Auto { downsample: 1 }
    }

    /// The resolution to decode at, given the stream's native one.
    pub fn resolve(self, native: Resolution) -> (r: Resolution)
        requires
            self.wf(),
        ensures
            match self {
                ResolutionRequest::Auto { downsample } => r == (Resolution {
                    width: scaled_down(native.width, downsample),
                    height: scaled_down(native.height, downsample),
                }),
                ResolutionRequest::Manual(res) => r == res,
            },
    {
        match self {
            ResolutionRequest::Auto { downsample } => {
                let d = downsample as u32;
                let w = native.width / d;
                let h = native.height / d;
                Resolution {
                    width: if w >= 1 {
                        w
                    } else {
                        1
                    },
                    height: if h >= 1 {
                        h
                    } else {
                        1
                    },
                }
            },
            ResolutionRequest::Manual(resolution) => resolution,
        }
    }
}

// === Choosing the stream ===================================================

/// Why a frame cannot be read.
#[derive(Debug, Clone, Copy, PartialEq, Eq, Structural)]
pub enum ReadError {
    NoVideoStreams,
    /// No video stream has this container index.
    NoStreamAt(u8),
    /// The time lies outside the stream's extent.
    OutsideExtent,
}

/// `t` lies in `start..end`.
pub open spec fn in_window(start: Frac, end: Frac, t: Frac) -> bool {
    frac_le(start, t) && !frac_le(end, t)
}

/// The video stream a request reads: the first one, or the first with
/// container index `index`.
pub open spec fn chosen_stream(video: Seq<VideoMetadata>, index: Option<u8>, k: int) -> bool {
    &&& 0 <= k < video.len()
    &&& match index {
        None => k == 0,
        Some(i) => video[k].stream_index == i && forall|j: int| 0 <= j < k ==> (#[trigger] video[j]).stream_index != i,
    }
}

/// Which of `meta`'s video streams a frame at `time` is read from: the first
/// stream, or the one at container index `stream_index`; `time` must lie in
/// that stream's extent.
pub fn frame_stream(meta: &MediaMetadata, time: MediaTime, stream_index: Option<u8>) -> (r: Result<
    usize,
    ReadError,
>)
    requires
        time.wf(),
        forall|j: int| 0 <= j < meta.video@.len() ==> (#[trigger] meta.video@[j]).start.wf() && meta.video@[j].end.wf(),
    ensures
        match r {
            Ok(k) => chosen_stream(meta.video@, stream_index, k as int) && in_window(
                meta.video@[k as int].start.frac(),
                meta.video@[k as int].end.frac(),
                time.frac(),
            ),
            Err(ReadError::NoVideoStreams) => stream_index is None && meta.video@.len() == 0,
            Err(ReadError::NoStreamAt(i)) => stream_index == Some(i) && forall|j: int|
                0 <= j < meta.video@.len() ==> (#[trigger] meta.video@[j]).stream_index != i,
            Err(ReadError::OutsideExtent) => exists|k: int|
                chosen_stream(meta.video@, stream_index, k) && !in_window(
                    meta.video@[k].start.frac(),
                    meta.video@[k].end.frac(),
                    time.frac(),
                ),
        },
{
    let k = match stream_index {
        None => {
            if meta.video.len() == 0 {
                return Err(ReadError::NoVideoStreams);
            }
            0
        },
        Some(index) => {
            let mut j: usize = 0;
            while j < meta.video.len() && meta.video[j].stream_index != index
                invariant
                    j <= meta.video@.len(),
                    forall|q: int| 0 <= q < j ==> (#[trigger] meta.video@[q]).stream_index != index,
                decreases meta.video@.len() - j,
            {
                j = j + 1;
            }
            if j == meta.video.len() {
                return Err(ReadError::NoStreamAt(index));
            }
            j
        },
    };
    let v = &meta.video[k];
    if rational_le(v.start.0, time.0) && !rational_le(v.end.0, time.0) {
        Ok(k)
    } else {
        proof {
            assert(chosen_stream(meta.video@, stream_index, k as int));
        }
        Err(ReadError::OutsideExtent)
    }
}

// === Sequential cursor =====================================================

/// Where a sequential reader stands in a stream: the index of the frame it
/// last decoded and that frame's display window.
#[derive(Debug, Clone)]
pub struct Cursor {
    pub frame_index: i64,
    pub window_start: MediaTime,
    pub window_end: MediaTime,
    pub path: String,
    pub resolution: Resolution,
}

impl Cursor {
    /// A cursor before the first frame of the stream `meta` describes: its
    /// window is empty, at the stream's start.
    pub fn new(path: String, meta: &VideoMetadata, resolution: Resolution) -> (r: Cursor)
        ensures
            r.frame_index == -1,
            r.window_start == meta.start,
            r.window_end == meta.start,
            r.path@ == path@,
            r.resolution == resolution,
    {
        Cursor { frame_index: -1, window_start: meta.start, window_end: meta.start, path, resolution }
    }

    /// Whether a request for `time` at `resolution` from `path` can continue
    /// from this cursor: same file and resolution, and not behind it.
    pub fn reusable(&self, time: MediaTime, resolution: Resolution, path: &str) -> (r: bool)
        requires
            self.window_end.wf(),
            time.wf(),
        ensures
            r == (frac_le(self.window_end.frac(), time.frac()) && self.resolution == resolution && self.path@
                == path@),
    {
        let behind = !rational_le(self.window_end.0, time.0);
        !behind && self.resolution.width == resolution.width && self.resolution.height == resolution.height
            && str_eq(self.path.as_str(), path)
    }

    /// Whether the last decoded frame is the one displayed at `time`.
    pub fn covers(&self, time: MediaTime) -> (r: bool)
        requires
            self.window_start.wf(),
            self.window_end.wf(),
            time.wf(),
        ensures
            r == in_window(self.window_start.frac(), self.window_end.frac(), time.frac()),
    {
        rational_le(self.window_start.0, time.0) && !rational_le(self.window_end.0, time.0)
    }

    /// Move to the next frame: its window starts where the previous one
    /// ended and lasts one period, or up to the next timestamp (the stream's
    /// end after the last). `false` when exact arithmetic overflows.
    pub fn advance(&mut self, meta: &VideoMetadata) -> (ok: bool)
        requires
            old(self).window_end.wf(),
            old(self).frame_index < i64::MAX - 1,
            old(self).frame_index >= -1,
            meta.timing matches Timing::Constant(f) ==> f.0.wf() && f.0.numer > 0 && f.0.numer <= i64::MAX,
        ensures
            ok <==> !(meta.timing matches Timing::Constant(fps) && sum_of(
                old(self).window_end.0,
                signed_period(fps.0),
            ) is None),
            !ok ==> *final(self) == *old(self),
            ok ==> {
                &&& final(self).frame_index == old(self).frame_index + 1
                &&& final(self).window_start == old(self).window_end
                &&& final(self).path == old(self).path
                &&& final(self).resolution == old(self).resolution
                &&& match meta.timing {
                    Timing::Constant(fps) => final(self).window_end.wf() && frac_eq(
                        final(self).window_end.frac(),
                        frac_add(old(self).window_end.frac(), ((fps.0.denom as i64) as int, fps.0.numer as int)),
                    ),
                    Timing::Variable(ts) => {
                        let next = old(self).frame_index + 2;
                        final(self).window_end == if next < ts@.len() {
                            ts@[next]
                        } else {
                            meta.end
                        }
                    },
                }
            },
    {
        let end = match &meta.timing {
            Timing::Constant(fps) => {
                let len = fps.frame_length();
                match self.window_end.advance_secs(len) {
                    Some(e) => e,
                    None => return false,
                }
            },
            Timing::Variable(timestamps) => {
                let next = self.frame_index + 2;
                if (next as u64) < (timestamps.len() as u64) {
                    timestamps[next as usize]
                } else {
                    meta.end
                }
            },
        };
        self.frame_index = self.frame_index + 1;
        self.window_start = self.window_end;
        self.window_end = end;
        true
    }
}

// === Frame times from metadata =============================================

/// How many frame times of `video` there are below `limit`.
pub open spec fn listed_frames(video: VideoMetadata, limit: usize) -> int {
    let count = match video.timing {
        Timing::Constant(_) => video.frame_count as int,
        Timing::Variable(ts) => ts@.len() as int,
    };
    if limit < count {
        limit as int
    } else {
        count
    }
}

/// The time of frame `i` at a constant rate, as computed: `start` plus `i`
/// periods; `None` when a step overflows.
pub open spec fn computed_frame_time(start: MediaTime, i: int, fps: URational) -> Option<MediaTime> {
    match uproduct_of(URational { numer: i as u64, denom: 1 }, URational { numer: fps.denom, denom: fps.numer }) {
        None => None,
        Some(d) => if d.numer > i64::MAX || d.denom > i64::MAX {
            None
        } else {
            time_of(sum_of(start.0, as_signed(d)))
        },
    }
}

/// The first `limit` frame times `video`'s metadata gives: the start plus a
/// whole number of frame periods at a constant rate, the stored timestamps
/// at a variable one. `None` when exact arithmetic overflows.
pub fn probed_timestamps(video: &VideoMetadata, limit: usize) -> (r: Option<Vec<MediaTime>>)
    requires
        video.start.wf(),
        video.timing matches Timing::Constant(f) ==> f.0.wf() && f.0.numer > 0,
    ensures
        r matches Some(v) ==> v@.len() == listed_frames(*video, limit),
        match video.timing {
            Timing::Constant(f) => r is None <==> exists|i: int|
                0 <= i < listed_frames(*video, limit) && #[trigger] computed_frame_time(video.start, i, f.0) is None,
            Timing::Variable(_) => r is Some,
        },
        match video.timing {
            Timing::Constant(f) => r matches Some(v) ==> forall|i: int|
                0 <= i < v@.len() ==> (#[trigger] v@[i]).wf() && frac_eq(
                    v@[i].frac(),
                    frac_add(video.start.frac(), (i * f.0.denom, f.0.numer as int)),
                ),
            Timing::Variable(ts) => r matches Some(v) && v@ == ts@.take(listed_frames(*video, limit)),
        },
{
    match &video.timing {
        Timing::Constant(fps) => {
            let n: usize = if (limit as u64) < (video.frame_count as u64) {
                limit
            } else {
                video.frame_count as usize
            };
            let period = URational { numer: fps.0.denom, denom: fps.0.numer };
            let mut out: Vec<MediaTime> = Vec::new();
            let mut i: usize = 0;
            while i < n
                invariant
                    n == listed_frames(*video, limit),
                    i <= n,
                    out@.len() == i,
                    video.start.wf(),
                    video.timing == Timing::Constant(*fps),
                    fps.0.wf(),
                    fps.0.numer > 0,
                    period.numer == fps.0.denom && period.denom == fps.0.numer,
                    forall|k: int|
                        0 <= k < i ==> (#[trigger] out@[k]).wf() && frac_eq(
                            out@[k].frac(),
                            frac_add(video.start.frac(), (k * fps.0.denom, fps.0.numer as int)),
                        ),
                    forall|k: int| 0 <= k < i ==> #[trigger] computed_frame_time(video.start, k, fps.0) is Some,
                decreases n - i,
            {
                let d = match checked_umul(URational::from_integer(i as u64), period) {
                    Some(d) => d,
                    None => {
                        assert(computed_frame_time(video.start, i as int, fps.0) is None);
                        return None;
                    },
                };
                if d.numer > i64::MAX as u64 || d.denom > i64::MAX as u64 {
                    assert(computed_frame_time(video.start, i as int, fps.0) is None);
                    return None;
                }
                let t = match video.start.advance_secs(d) {
                    Some(t) => t,
                    None => {
                        assert(computed_frame_time(video.start, i as int, fps.0) is None);
                        return None;
                    },
                };
                assert(computed_frame_time(video.start, i as int, fps.0) is Some);
                proof {
                    let want: Frac = (i * fps.0.denom, fps.0.numer as int);
                    assert(frac_eq(d.frac(), want));
                    assert(((d.numer as i64) as int, d.denom as int) == d.frac());
                    lemma_frac_congruence(video.start.frac(), d.frac(), video.start.frac(), want);
                    lemma_frac_pos_ops(video.start.frac(), d.frac());
                    lemma_frac_pos_ops(video.start.frac(), want);
                    lemma_frac_eq_trans(
                        t.frac(),
                        frac_add(video.start.frac(), d.frac()),
                        frac_add(video.start.frac(), want),
                    );
                }
                out.push(t);
                i = i + 1;
            }
            Some(out)
        },
        Timing::Variable(ts) => {
            let n: usize = if limit < ts.len() {
                limit
            } else {
                ts.len()
            };
            let mut out: Vec<MediaTime> = Vec::new();
            let mut i: usize = 0;
            while i < n
                invariant
                    n == listed_frames(*video, limit),
                    video.timing == Timing::Variable(*ts),
                    n <= ts@.len(),
                    i <= n,
                    out@ == ts@.take(i as int),
                decreases n - i,
            {
                out.push(ts[i]);
                i = i + 1;
                proof {
                    assert(out@ =~= ts@.take(i as int));
                }
            }
            Some(out)
        },
    }
}

// === Raw frames ============================================================

/// Bytes of one packed RGBA frame of `resolution`.
pub open spec fn rgba_size(resolution: Resolution) -> int {
    4 * resolution.width * resolution.height
}

/// Decoded RGBA bytes cut into frames of `resolution`, in order; `None` when
/// they are not a whole number of frames.
pub fn split_frames(bytes: &Vec<u8>, resolution: Resolution) -> (r: Option<Vec<Frame>>)
    requires
        0 < rgba_size(resolution) <= u32::MAX,
    ensures
        r is Some <==> (bytes@.len() as int) % rgba_size(resolution) == 0,
        r matches Some(fs) ==> {
            &&& fs@.len() == (bytes@.len() as int) / rgba_size(resolution)
            &&& forall|k: int|
                0 <= k < fs@.len() ==> {
                    &&& (#[trigger] fs@[k]).width == resolution.width
                    &&& fs@[k].height == resolution.height
                    &&& fs@[k].data@ == bytes@.subrange(
                        k * rgba_size(resolution),
                        (k + 1) * rgba_size(resolution),
                    )
                }
        },
{
    let w: u64 = resolution.width as u64;
    let h: u64 = resolution.height as u64;
    assert(w * h <= u32::MAX && (w * h) * 4 <= u32::MAX) by (nonlinear_arith)
        requires
            0 < 4 * w * h <= u32::MAX,
    ;
    let area: u64 = w * h;
    let size: usize = (area * 4) as usize;
    assert(size as int == rgba_size(resolution)) by (nonlinear_arith)
        requires
            area == w * h,
            size as int == area * 4,
            w == resolution.width,
            h == resolution.height,
    ;
    let total: usize = bytes.len();
    if total % size != 0 {
        return None;
    }
    let count: usize = total / size;
    let mut frames: Vec<Frame> = Vec::new();
    let mut k: usize = 0;
    while k < count
        invariant
            size as int == rgba_size(resolution),
            size > 0,
            total == bytes@.len(),
            count as int == (bytes@.len() as int) / (size as int),
            (bytes@.len() as int) % (size as int) == 0,
            k <= count,
            frames@.len() == k,
            forall|q: int|
                0 <= q < k ==> {
                    &&& (#[trigger] frames@[q]).width == resolution.width
                    &&& frames@[q].height == resolution.height
                    &&& frames@[q].data@ == bytes@.subrange(q * size, (q + 1) * size)
                },
        decreases count - k,
    {
        assert((k + 1) * size <= total) by (nonlinear_arith)
            requires
                k < count,
                count as int == (total as int) / (size as int),
                size > 0,
        ;
        assert(k * size + size == (k + 1) * size) by (nonlinear_arith);
        let start: usize = k * size;
        let mut data: Vec<u8> = Vec::new();
        let mut j: usize = 0;
        while j < size
            invariant
                size > 0,
                total == bytes@.len(),
                start + size <= total,
                j <= size,
                data@ == bytes@.subrange(start as int, start + j),
            decreases size - j,
        {
            data.push(bytes[start + j]);
            j = j + 1;
            proof {
                assert(data@ =~= bytes@.subrange(start as int, start + j));
            }
        }
        frames.push(Frame { width: resolution.width, height: resolution.height, data });
        k = k + 1;
    }
    Some(frames)
}

} // verus!
