//! The registry of test videos across all kinds, and which of them a run
//! iterates: every video, or a seeded sample that always keeps the pinned
//! clips and the user's own files.
use crate::media::fixtures::{Spec, BASELINE};
use crate::media::random::{seeded, shuffle, Draw, Generator};
use crate::text::{
    ascii_lower_text, chars_is, chars_of, extension_of, parse_int_spec, parse_u64, parse_usize,
    path_extension, path_stem, split_chars, split_spec, stem_of, str_eq, string_of, to_ascii_lower,
};
use vstd::prelude::*;

verus! {

/// Where a test video comes from.
#[derive(Debug, Clone, Copy, PartialEq, Eq, Structural)]
pub enum Kind {
    /// The fixed spec matrix.
    Synthetic,
    /// Seeded randomly-parameterized specs.
    Random,
    /// Edge-case files derived from the baseline (trim, audio, cover art).
    Derived,
    /// The downloaded Chromium media test corpus.
    Chromium,
    /// The user's own files.
    RealWorld,
}

/// One video available to tests. `spec` is set when the clip was generated
/// through the stamping pipeline, so every frame carries its index.
#[derive(Debug)]
pub struct TestVideo {
    pub name: String,
    pub path: String,
    pub spec: Option<Spec>,
    pub kind: Kind,
}

impl TestVideo {
    /// The path, as the reader takes it.
    pub fn path_str(&self) -> (r: &str)
        ensures
            r@ == self.path@,
    {
        self.path.as_str()
    }

    /// The spec of a spec-backed video.
    pub fn expect_spec(&self) -> (r: &Spec)
        requires
            self.spec is Some,
        ensures
            Some(*r) == self.spec,
    {
        match &self.spec {
            Some(s) => s,
            None => vstd::pervasive::unreached(),
        }
    }
}

// === Names =================================================================

/// Clips always generated and always part of any sample, baseline first.
pub open spec fn pinned_names() -> Seq<Seq<char>> {
    seq![
        "h264_420p_g12_30"@,
        "h264_420p_g250_30"@,
        "vfr_h264"@,
        "h264_bf2"@,
        "h264_bf2_offset"@,
        "h264_bf2_ts"@,
    ]
}

/// Whether `name` is one of the pinned clips.
pub fn is_pinned(name: &str) -> (r: bool)
    ensures
        r == pinned_names().contains(name@),
{
    let c = chars_of(name);
    let names = ["h264_420p_g12_30", "h264_420p_g250_30", "vfr_h264", "h264_bf2", "h264_bf2_offset", "h264_bf2_ts"];
    proof {
        reveal_strlit("h264_420p_g12_30");
        reveal_strlit("h264_420p_g250_30");
        reveal_strlit("vfr_h264");
        reveal_strlit("h264_bf2");
        reveal_strlit("h264_bf2_offset");
        reveal_strlit("h264_bf2_ts");
        assert(forall|k: int| 0 <= k < 6 ==> (#[trigger] names@[k])@ == pinned_names()[k]);
    }
    let mut k: usize = 0;
    while k < 6
        invariant
            k <= 6,
            c@ == name@,
            names@.len() == 6,
            forall|m: int| 0 <= m < 6 ==> (#[trigger] names@[m])@ == pinned_names()[m],
            forall|m: int| 0 <= m < k ==> pinned_names()[m] != name@,
        decreases 6 - k,
    {
        if chars_is(c.as_slice(), names[k]) {
            proof {
                assert(pinned_names()[k as int] == name@);
            }
            return true;
        }
        k = k + 1;
    }
    false
}

/// File extensions treated as videos, in lower case.
pub open spec fn real_extensions() -> Seq<Seq<char>> {
    seq!["mp4"@, "mkv"@, "webm"@, "mov"@, "ts"@, "m4v"@, "avi"@, "ogv"@]
}

/// A path names a video file: its extension, in ASCII lower case, is one of
/// [`real_extensions`].
pub open spec fn video_path(path: Seq<char>) -> bool {
    match path_extension(path) {
        Some(e) => real_extensions().contains(ascii_lower_text(e)),
        None => false,
    }
}

/// Whether `path` names a video file by its extension.
pub fn is_video_path(path: &str) -> (r: bool)
    ensures
        r == video_path(path@),
{
    let ext = match extension_of(path) {
        Some(e) => e,
        None => return false,
    };
    let e = chars_of(ext.as_str());
    let lower = to_ascii_lower(e.as_slice());
    let exts = ["mp4", "mkv", "webm", "mov", "ts", "m4v", "avi", "ogv"];
    proof {
        reveal_strlit("mp4");
        reveal_strlit("mkv");
        reveal_strlit("webm");
        reveal_strlit("mov");
        reveal_strlit("ts");
        reveal_strlit("m4v");
        reveal_strlit("avi");
        reveal_strlit("ogv");
        assert(forall|k: int| 0 <= k < 8 ==> (#[trigger] exts@[k])@ == real_extensions()[k]);
    }
    let mut k: usize = 0;
    while k < 8
        invariant
            k <= 8,
            lower@ == ascii_lower_text(ext@),
            path_extension(path@) == Some(ext@),
            exts@.len() == 8,
            forall|m: int| 0 <= m < 8 ==> (#[trigger] exts@[m])@ == real_extensions()[m],
            forall|m: int| 0 <= m < k ==> real_extensions()[m] != lower@,
        decreases 8 - k,
    {
        if chars_is(lower.as_slice(), exts[k]) {
            proof {
                assert(real_extensions()[k as int] == lower@);
            }
            return true;
        }
        k = k + 1;
    }
    false
}

// === Sampling ==============================================================

/// Which videos a run iterates, as `GAZPACHO_TEST_VIDEOS` asks.
#[derive(Debug, Clone, Copy, PartialEq, Eq, Structural)]
pub enum SampleRequest {
    /// Every video.
    Full,
    /// `n` videos drawn with `seed`, besides those always kept.
    Sample { n: usize, seed: u64 },
}

/// The variable does not read `full`, `sample:<N>` or `sample:<N>:<seed>`.
#[derive(Debug, Clone, Copy, PartialEq, Eq, Structural)]
pub struct InvalidSampleRequest;

/// What `var` asks for: `full`, `sample:<N>` (seed 0) or
/// `sample:<N>:<seed>`, with `N` read as a `usize` and the seed as a `u64`;
/// anything else is invalid. An unset variable asks for every video.
pub open spec fn sample_request(var: Option<Seq<char>>) -> Option<SampleRequest> {
    match var {
        None => Some(SampleRequest::Full),
        Some(s) => {
            let parts = split_spec(s, ':');
            if parts == seq!["full"@] {
                Some(SampleRequest::Full)
            } else if parts.len() == 2 && parts[0] == "sample"@ {
                match parse_int_spec(parts[1], false, 0, usize::MAX as int) {
                    Some(n) => Some(SampleRequest::Sample { n: n as usize, seed: 0 }),
                    None => None,
                }
            } else if parts.len() == 3 && parts[0] == "sample"@ {
                match (
                    parse_int_spec(parts[1], false, 0, usize::MAX as int),
                    parse_int_spec(parts[2], false, 0, u64::MAX as int),
                ) {
                    (Some(n), Some(seed)) => Some(SampleRequest::Sample { n: n as usize, seed: seed as u64 }),
                    _ => None,
                }
            } else {
                None
            }
        },
    }
}

/// Read the value of `GAZPACHO_TEST_VIDEOS` (`None` when unset).
pub fn parse_sample_request(var: Option<&str>) -> (r: Result<SampleRequest, InvalidSampleRequest>)
    ensures
        match sample_request(
            match var {
                Some(s) => Some(s@),
                None => None,
            },
        ) {
            Some(q) => r == Ok::<SampleRequest, InvalidSampleRequest>(q),
            None => r is Err,
        },
{
    let s = match var {
        None => return Ok(SampleRequest::Full),
        Some(s) => s,
    };
    let c = chars_of(s);
    let parts = split_chars(c.as_slice(), ':');
    proof {
        reveal_strlit("full");
        reveal_strlit("sample");
        assert(parts@.len() == split_spec(s@, ':').len());
        assert(forall|k: int| 0 <= k < parts@.len() ==> (#[trigger] parts@[k])@ == split_spec(s@, ':')[k]);
    }
    if parts.len() == 1 && chars_is(parts[0].as_slice(), "full") {
        proof {
            assert(split_spec(s@, ':') =~= seq!["full"@]);
        }
        return Ok(SampleRequest::Full);
    }
    proof {
        if split_spec(s@, ':') == seq!["full"@] {
            assert(parts@.len() == 1);
            assert(parts@[0]@ == "full"@);
        }
    }
    if (parts.len() == 2 || parts.len() == 3) && chars_is(parts[0].as_slice(), "sample") {
        let n = match parse_usize(parts[1].as_slice()) {
            Some(n) => n,
            None => return Err(InvalidSampleRequest),
        };
        if parts.len() == 2 {
            return Ok(SampleRequest::Sample { n, seed: 0 });
        }
        let seed = match parse_u64(parts[2].as_slice()) {
            Some(v) => v,
            None => return Err(InvalidSampleRequest),
        };
        return Ok(SampleRequest::Sample { n, seed });
    }
    Err(InvalidSampleRequest)
}

/// Kept in every sample: a pinned clip, or one of the user's own files.
pub open spec fn always_sampled(v: TestVideo) -> bool {
    pinned_names().contains(v.name@) || v.kind == Kind::RealWorld
}

/// Position `i` may be drawn: a video that is not kept anyway.
pub open spec fn drawable(videos: Seq<TestVideo>, i: int) -> bool {
    0 <= i < videos.len() && !always_sampled(videos[i])
}

/// How many drawable videos the first `j` positions of `order` name.
pub open spec fn drawn_before(videos: Seq<TestVideo>, order: Seq<usize>, j: int) -> nat
    decreases j,
{
    if j <= 0 {
        0
    } else {
        drawn_before(videos, order, j - 1) + if drawable(videos, order[j - 1] as int) {
            1nat
        } else {
            0nat
        }
    }
}

/// Video `i` is among the first `n` drawable videos of `order`, looking at its
/// first `m` positions.
pub open spec fn drawn_within(videos: Seq<TestVideo>, order: Seq<usize>, n: usize, i: int, m: int) -> bool {
    exists|j: int|
        0 <= j < m && #[trigger] order[j] == i && drawable(videos, i) && drawn_before(videos, order, j) < n
}

/// Video `i` is in the sample of `n` drawn in `order`.
pub open spec fn in_sample(videos: Seq<TestVideo>, order: Seq<usize>, n: usize, i: int) -> bool {
    always_sampled(videos[i]) || drawn_within(videos, order, n, i, order.len() as int)
}

/// `r` lists, in ascending order, exactly the videos `in_sample` keeps.
pub open spec fn sample_of(videos: Seq<TestVideo>, order: Seq<usize>, n: usize, r: Seq<usize>) -> bool {
    &&& forall|a: int, b: int| 0 <= a < b < r.len() ==> r[a] < r[b]
    &&& forall|k: int| 0 <= k < r.len() ==> r[k] < videos.len() && in_sample(videos, order, n, r[k] as int)
    &&& forall|i: int| 0 <= i < videos.len() && in_sample(videos, order, n, i) ==> r.contains(i as usize)
}

/// A sample always keeps the pinned clips and the user's own files.
pub proof fn lemma_sample_keeps_pinned_and_real(videos: Seq<TestVideo>, order: Seq<usize>, n: usize, r: Seq<usize>)
    requires
        sample_of(videos, order, n, r),
    ensures
        forall|i: int| 0 <= i < videos.len() && #[trigger] always_sampled(videos[i]) ==> r.contains(i as usize),
{
    assert forall|i: int| 0 <= i < videos.len() && #[trigger] always_sampled(videos[i]) implies r.contains(
        i as usize,
    ) by {
        assert(in_sample(videos, order, n, i));
    }
}

/// `order` names each video once.
pub open spec fn permutes(order: Seq<usize>, len: int) -> bool {
    &&& order.len() == len
    &&& order.no_duplicates()
    &&& forall|k: int| 0 <= k < order.len() ==> order[k] < len
}

fn always_sampled_exec(v: &TestVideo) -> (r: bool)
    ensures
        r == always_sampled(*v),
{
    is_pinned(v.name.as_str()) || v.kind == Kind::RealWorld
}

/// The sample of `n` videos drawn in `order` (a shuffle of the positions):
/// the first `n` of `order` that are not kept anyway, with the pinned clips
/// and the user's files, in ascending order.
pub fn select_sample(videos: &Vec<TestVideo>, order: &Vec<usize>, n: usize) -> (r: Vec<usize>)
    requires
        permutes(order@, videos@.len() as int),
    ensures
        sample_of(videos@, order@, n, r@),
{
    let len = videos.len();
    let mut chosen: Vec<bool> = Vec::new();
    let mut i: usize = 0;
    while i < len
        invariant
            len == videos@.len(),
            i <= len,
            chosen@.len() == i,
            forall|k: int| 0 <= k < i ==> !chosen@[k],
        decreases len - i,
    {
        chosen.push(false);
        i = i + 1;
    }
    let mut taken: usize = 0;
    let mut j: usize = 0;
    while j < order.len()
        invariant
            len == videos@.len(),
            permutes(order@, len as int),
            j <= order@.len(),
            chosen@.len() == len,
            taken == drawn_before(videos@, order@, j as int),
            taken <= j,
            forall|k: int| 0 <= k < len ==> chosen@[k] == drawn_within(videos@, order@, n, k, j as int),
        decreases order@.len() - j,
    {
        let k = order[j];
        let ghost before = chosen@;
        if !always_sampled_exec(&videos[k]) {
            if taken < n {
                chosen.set(k, true);
            }
            taken = taken + 1;
        }
        proof {
            assert forall|m: int| 0 <= m < len implies chosen@[m] == drawn_within(
                videos@,
                order@,
                n,
                m,
                j + 1,
            ) by {
                if drawn_within(videos@, order@, n, m, j as int) {
                    let w = choose|w: int|
                        0 <= w < j && #[trigger] order@[w] == m && drawable(videos@, m) && drawn_before(
                            videos@,
                            order@,
                            w,
                        ) < n;
                    assert(order@[w] == m);
                }
                if drawn_within(videos@, order@, n, m, j + 1) && m != k {
                    let w = choose|w: int|
                        0 <= w < j + 1 && #[trigger] order@[w] == m && drawable(videos@, m) && drawn_before(
                            videos@,
                            order@,
                            w,
                        ) < n;
                    assert(order@[w] == m);
                    assert(w < j);
                }
                if m == k && drawable(videos@, m) && drawn_before(videos@, order@, j as int) < n {
                    assert(order@[j as int] == m);
                }
                if m == k && drawn_within(videos@, order@, n, m, j + 1) && !drawn_within(
                    videos@,
                    order@,
                    n,
                    m,
                    j as int,
                ) {
                    let w = choose|w: int|
                        0 <= w < j + 1 && #[trigger] order@[w] == m && drawable(videos@, m) && drawn_before(
                            videos@,
                            order@,
                            w,
                        ) < n;
                    assert(order@[w] == m);
                    if w < j {
                        assert(drawn_within(videos@, order@, n, m, j as int));
                    }
                }
            }
        }
        j = j + 1;
    }
    let mut out: Vec<usize> = Vec::new();
    let mut i: usize = 0;
    while i < len
        invariant
            len == videos@.len(),
            order@.len() == len,
            chosen@.len() == len,
            i <= len,
            forall|k: int| 0 <= k < len ==> chosen@[k] == drawn_within(videos@, order@, n, k, len as int),
            forall|a: int, b: int| 0 <= a < b < out@.len() ==> out@[a] < out@[b],
            forall|k: int| 0 <= k < out@.len() ==> out@[k] < i && in_sample(videos@, order@, n, out@[k] as int),
            forall|m: int| 0 <= m < i && in_sample(videos@, order@, n, m) ==> out@.contains(m as usize),
        decreases len - i,
    {
        let keep = always_sampled_exec(&videos[i]) || chosen[i];
        let ghost before = out@;
        if keep {
            out.push(i);
            proof {
                assert(out@[out@.len() - 1] == i);
            }
        }
        proof {
            assert forall|m: int| 0 <= m < i + 1 && in_sample(videos@, order@, n, m) implies out@.contains(
                m as usize,
            ) by {
                if m < i {
                    assert(before.contains(m as usize));
                    let w = choose|w: int| 0 <= w < before.len() && before[w] == m as usize;
                    assert(out@[w] == m as usize);
                } else {
                    assert(out@[out@.len() - 1] == i);
                }
            }
        }
        i = i + 1;
    }
    out
}

/// Positions `0..len` in the order a shuffle drawn from `rng` gives.
fn shuffled_positions(len: usize, rng: &mut Generator) -> (r: Vec<usize>)
    ensures
        permutes(r@, len as int),
        final(rng).seed_of() == old(rng).seed_of(),
        final(rng).draws_of() == old(rng).draws_of().push(Draw::Shuffle { len }),
        final(rng).orders_of() == old(rng).orders_of().push(r@),
{
    let mut v: Vec<usize> = Vec::new();
    let mut i: usize = 0;
    while i < len
        invariant
            i <= len,
            v@.len() == i,
            forall|k: int| 0 <= k < i ==> v@[k] == k,
        decreases len - i,
    {
        v.push(i);
        i = i + 1;
    }
    let ghost initial = v@;
    proof {
        assert(initial.no_duplicates());
        initial.lemma_multiset_has_no_duplicates();
    }
    shuffle(rng, &mut v);
    proof {
        broadcast use vstd::seq_lib::group_to_multiset_ensures;

        assert(v@.to_multiset() == initial.to_multiset());
        assert forall|x: usize| v@.to_multiset().contains(x) implies v@.to_multiset().count(x) == 1 by {
            assert(initial.to_multiset().contains(x));
        }
        v@.lemma_multiset_has_no_duplicates_conv();
        vstd::seq_lib::to_multiset_len(v@);
        vstd::seq_lib::to_multiset_len(initial);
        assert forall|k: int| 0 <= k < v@.len() implies v@[k] < len by {
            let x = v@[k];
            assert(v@.contains(x));
            vstd::seq_lib::to_multiset_contains(v@, x);
            vstd::seq_lib::to_multiset_contains(initial, x);
            assert(initial.contains(x));
            let w = choose|w: int| 0 <= w < initial.len() && initial[w] == x;
            assert(initial[w] == w);
        }
    }
    v
}

/// How a sample was drawn: the seed of the generator, its draws, and the
/// orders its shuffles gave.
pub type SampleDraw = (u64, Seq<Draw>, Seq<Seq<usize>>);

/// The positions a run iterates: all of them for [`SampleRequest::Full`];
/// otherwise a sample taken in the order one shuffle of a generator made
/// from the request's seed gives; and, for a sample, how it was drawn.
pub fn sample_indices(videos: &Vec<TestVideo>, request: SampleRequest) -> (r: (Vec<usize>, Ghost<Option<SampleDraw>>))
    ensures
        match request {
            SampleRequest::Full => r.1@ is None && r.0@.len() == videos@.len() && forall|k: int|
                0 <= k < r.0@.len() ==> r.0@[k] == k,
            SampleRequest::Sample { n, seed } => r.1@ matches Some((s, d, o)) && s == seed && d == seq![
                Draw::Shuffle { len: videos@.len() as usize },
            ] && o.len() == 1 && permutes(o[0], videos@.len() as int) && sample_of(videos@, o[0], n, r.0@),
        },
{
    match request {
        SampleRequest::Full => {
            let mut v: Vec<usize> = Vec::new();
            let mut i: usize = 0;
            while i < videos.len()
                invariant
                    i <= videos@.len(),
                    v@.len() == i,
                    forall|k: int| 0 <= k < i ==> v@[k] == k,
                decreases videos@.len() - i,
            {
                v.push(i);
                i = i + 1;
            }
            (v, Ghost(None))
        },
        SampleRequest::Sample { n, seed } => {
            let mut rng = seeded(seed);
            let order = shuffled_positions(videos.len(), &mut rng);
            let r = select_sample(videos, &order, n);
            proof {
                assert(rng.draws_of() =~= seq![Draw::Shuffle { len: videos@.len() as usize }]);
                assert(rng.orders_of() =~= seq![order@]);
            }
            (r, Ghost(Some((rng.seed_of(), rng.draws_of(), rng.orders_of()))))
        },
    }
}

// === The registry ==========================================================

/// Every registered video, and the positions of those a run iterates.
pub struct Registry {
    dir: String,
    videos: Vec<TestVideo>,
    sampled: Vec<usize>,
    drawn: Ghost<Option<SampleDraw>>,
}

impl Registry {
    /// The directory the generated videos are kept in.
    pub closed spec fn dir_view(&self) -> Seq<char> {
        self.dir@
    }

    /// The directory the generated videos are kept in.
    pub fn dir(&self) -> (r: &str)
        ensures
            r@ == self.dir_view(),
    {
        self.dir.as_str()
    }

    /// The registered videos.
    pub closed spec fn videos_view(&self) -> Seq<TestVideo> {
        self.videos@
    }

    /// The positions of the sampled videos.
    pub closed spec fn sampled_view(&self) -> Seq<usize> {
        self.sampled@
    }

    /// How the sample was drawn, for a sampled registry.
    pub closed spec fn sample_drawn(&self) -> Option<SampleDraw> {
        self.drawn@
    }

    /// Every sampled position names a video.
    pub closed spec fn wf(&self) -> bool {
        forall|k: int| 0 <= k < self.sampled@.len() ==> self.sampled@[k] < self.videos@.len()
    }

    /// The registry of `videos` in `dir`, sampled as `request` asks.
    pub fn new(dir: String, videos: Vec<TestVideo>, request: SampleRequest) -> (r: Registry)
        ensures
            r.wf(),
            r.dir_view() == dir@,
            r.videos_view() == videos@,
            match request {
                SampleRequest::Full => r.sampled_view().len() == videos@.len() && forall|k: int|
                    0 <= k < r.sampled_view().len() ==> r.sampled_view()[k] == k,
                SampleRequest::Sample { n, seed } => r.sample_drawn() matches Some((s, d, o)) && s == seed && d
                    == seq![Draw::Shuffle { len: videos@.len() as usize }] && o.len() == 1 && permutes(
                    o[0],
                    videos@.len() as int,
                ) && sample_of(videos@, o[0], n, r.sampled_view()),
            },
    {
        let (sampled, drawn) = sample_indices(&videos, request);
        Registry { dir, videos, sampled, drawn }
    }

    /// The sampled videos, in order: what property tests iterate.
    pub fn all(&self) -> (r: Vec<&TestVideo>)
        requires
            self.wf(),
        ensures
            r@.len() == self.sampled_view().len(),
            forall|k: int| 0 <= k < r@.len() ==> *r@[k] == self.videos_view()[self.sampled_view()[k] as int],
    {
        let mut out: Vec<&TestVideo> = Vec::new();
        let mut k: usize = 0;
        while k < self.sampled.len()
            invariant
                self.wf(),
                k <= self.sampled@.len(),
                out@.len() == k,
                forall|m: int| 0 <= m < k ==> *out@[m] == self.videos@[self.sampled@[m] as int],
            decreases self.sampled@.len() - k,
        {
            out.push(&self.videos[self.sampled[k]]);
            k = k + 1;
        }
        out
    }

    /// Every registered video, ignoring sampling.
    pub fn all_full(&self) -> (r: &[TestVideo])
        ensures
            r@ == self.videos_view(),
    {
        self.videos.as_slice()
    }

    /// The sampled videos that carry a spec, with their spec, in order.
    pub fn spec_backed(&self) -> (r: Vec<(&TestVideo, &Spec)>)
        requires
            self.wf(),
        ensures
            forall|k: int| 0 <= k < r@.len() ==> Some(*r@[k].1) == r@[k].0.spec,
            r@.map_values(|p: (&TestVideo, &Spec)| *p.0) == self.sampled_view().map_values(
                |i: usize| self.videos_view()[i as int],
            ).filter(|v: TestVideo| v.spec is Some),
    {
        let ghost all = self.sampled@.map_values(|i: usize| self.videos@[i as int]);
        let mut out: Vec<(&TestVideo, &Spec)> = Vec::new();
        let mut k: usize = 0;
        while k < self.sampled.len()
            invariant
                self.wf(),
                all == self.sampled@.map_values(|i: usize| self.videos@[i as int]),
                k <= self.sampled@.len(),
                forall|m: int| 0 <= m < out@.len() ==> Some(*out@[m].1) == out@[m].0.spec,
                out@.map_values(|p: (&TestVideo, &Spec)| *p.0) == all.take(k as int).filter(
                    |v: TestVideo| v.spec is Some,
                ),
            decreases self.sampled@.len() - k,
        {
            let v = &self.videos[self.sampled[k]];
            proof {
                assert(all.take(k + 1).drop_last() =~= all.take(k as int));
                assert(all.take(k + 1).last() == *v);
                reveal(Seq::filter);
            }
            match &v.spec {
                Some(s) => {
                    out.push((v, s));
                    proof {
                        assert(out@.map_values(|p: (&TestVideo, &Spec)| *p.0) =~= all.take(k as int).filter(
                            |v: TestVideo| v.spec is Some,
                        ).push(*v));
                    }
                },
                None => {},
            }
            k = k + 1;
        }
        proof {
            assert(all.take(self.sampled@.len() as int) =~= all);
        }
        out
    }

    /// The first video called `name`, sampled or not.
    pub fn get(&self, name: &str) -> (r: Option<&TestVideo>)
        ensures
            match r {
                Some(v) => exists|k: int|
                    0 <= k < self.videos_view().len() && self.videos_view()[k] == *v && v.name@ == name@
                        && forall|m: int| 0 <= m < k ==> (#[trigger] self.videos_view()[m]).name@ != name@,
                None => forall|m: int|
                    0 <= m < self.videos_view().len() ==> (#[trigger] self.videos_view()[m]).name@ != name@,
            },
    {
        let mut k: usize = 0;
        while k < self.videos.len()
            invariant
                k <= self.videos@.len(),
                forall|m: int| 0 <= m < k ==> (#[trigger] self.videos@[m]).name@ != name@,
            decreases self.videos@.len() - k,
        {
            if str_eq(self.videos[k].name.as_str(), name) {
                return Some(&self.videos[k]);
            }
            k = k + 1;
        }
        None
    }

    /// The video called `name`, which must be registered.
    pub fn expect(&self, name: &str) -> (r: &TestVideo)
        requires
            exists|m: int| 0 <= m < self.videos_view().len() && (#[trigger] self.videos_view()[m]).name@ == name@,
        ensures
            r.name@ == name@,
            exists|k: int|
                0 <= k < self.videos_view().len() && self.videos_view()[k] == *r && forall|m: int|
                    0 <= m < k ==> (#[trigger] self.videos_view()[m]).name@ != name@,
    {
        match self.get(name) {
            Some(v) => v,
            None => {
                proof {
                    let m = choose|m: int|
                        0 <= m < self.videos_view().len() && (#[trigger] self.videos_view()[m]).name@ == name@;
                    assert(self.videos_view()[m].name@ != name@);
                }
                vstd::pervasive::unreached()
            },
        }
    }

    /// The baseline clip.
    pub fn baseline(&self) -> (r: &TestVideo)
        requires
            exists|m: int|
                0 <= m < self.videos_view().len() && (#[trigger] self.videos_view()[m]).name@ == BASELINE@,
        ensures
            r.name@ == BASELINE@,
    {
        self.expect(BASELINE)
    }
}

/// The path of the registered video `name`, which must be registered.
fn expect_path(registry: &Registry, name: &str) -> (r: String)
    requires
        exists|m: int|
            0 <= m < registry.videos_view().len() && (#[trigger] registry.videos_view()[m]).name@ == name@,
    ensures
        exists|k: int|
            0 <= k < registry.videos_view().len() && registry.videos_view()[k].name@ == name@
                && registry.videos_view()[k].path@ == r@ && forall|m: int|
                0 <= m < k ==> (#[trigger] registry.videos_view()[m]).name@ != name@,
{
    let v = registry.expect(name);
    v.path.clone()
}

/// The baseline trimmed to start on a non-keyframe (a trimming edit list).
pub fn trimmed_baseline(registry: &Registry) -> (r: String)
    requires
        exists|m: int|
            0 <= m < registry.videos_view().len() && (#[trigger] registry.videos_view()[m]).name@ == "trimmed"@,
    ensures
        exists|k: int|
            0 <= k < registry.videos_view().len() && registry.videos_view()[k].name@ == "trimmed"@
                && registry.videos_view()[k].path@ == r@,
{
    expect_path(registry, "trimmed")
}

/// The baseline with a silent audio track.
pub fn baseline_with_audio(registry: &Registry) -> (r: String)
    requires
        exists|m: int|
            0 <= m < registry.videos_view().len() && (#[trigger] registry.videos_view()[m]).name@
                == "with_audio"@,
    ensures
        exists|k: int|
            0 <= k < registry.videos_view().len() && registry.videos_view()[k].name@ == "with_audio"@
                && registry.videos_view()[k].path@ == r@,
{
    expect_path(registry, "with_audio")
}

/// The baseline with a still image attached as cover art.
pub fn baseline_with_cover_art(registry: &Registry) -> (r: String)
    requires
        exists|m: int|
            0 <= m < registry.videos_view().len() && (#[trigger] registry.videos_view()[m]).name@
                == "with_cover"@,
    ensures
        exists|k: int|
            0 <= k < registry.videos_view().len() && registry.videos_view()[k].name@ == "with_cover"@
                && registry.videos_view()[k].path@ == r@,
{
    expect_path(registry, "with_cover")
}

// === Names of found files ==================================================

/// The stem of `path`, or `unnamed` when it has none.
pub open spec fn stem_or_unnamed(path: Seq<char>) -> Seq<char> {
    match path_stem(path) {
        Some(s) => s,
        None => "unnamed"@,
    }
}

fn stem_text(path: &str) -> (r: Vec<char>)
    ensures
        r@ == stem_or_unnamed(path@),
{
    proof {
        reveal_strlit("unnamed");
    }
    match stem_of(path) {
        Some(s) => chars_of(s.as_str()),
        None => chars_of("unnamed"),
    }
}

/// The registry name of one of the user's own files: `real_` and its stem.
pub fn real_video_name(path: &str) -> (r: String)
    ensures
        r@ == "real_"@ + stem_or_unnamed(path@),
{
    let mut n = chars_of("real_");
    let mut s = stem_text(path);
    n.append(&mut s);
    string_of(n.as_slice())
}

/// The registry name of a corpus file: `chromium_`, its stem, `_` and its
/// extension (`bin` when it has none), so files differing only in extension
/// stay distinct.
pub open spec fn corpus_name(file: Seq<char>) -> Seq<char> {
    "chromium_"@ + stem_or_unnamed(file) + "_"@ + match path_extension(file) {
        Some(e) => e,
        None => "bin"@,
    }
}

/// The registry name of the corpus file `file`.
pub fn corpus_video_name(file: &str) -> (r: String)
    ensures
        r@ == corpus_name(file@),
{
    proof {
        reveal_strlit("bin");
    }
    let mut n = chars_of("chromium_");
    let mut s = stem_text(file);
    let mut u = chars_of("_");
    let mut e = match extension_of(file) {
        Some(e) => chars_of(e.as_str()),
        None => chars_of("bin"),
    };
    n.append(&mut s);
    n.append(&mut u);
    n.append(&mut e);
    string_of(n.as_slice())
}

/// The accepted corpus files listed in a manifest: its non-empty lines, in
/// order, each with its registry name.
pub fn corpus_entries(lines: &Vec<String>) -> (r: Vec<(String, String)>)
    ensures
        r@.map_values(|p: (String, String)| p.1@) == lines@.map_values(|l: String| l@).filter(
            |l: Seq<char>| l.len() > 0,
        ),
        forall|k: int| 0 <= k < r@.len() ==> (#[trigger] r@[k]).0@ == corpus_name(r@[k].1@),
{
    let ghost all = lines@.map_values(|l: String| l@);
    let mut out: Vec<(String, String)> = Vec::new();
    let mut k: usize = 0;
    while k < lines.len()
        invariant
            all == lines@.map_values(|l: String| l@),
            k <= lines@.len(),
            out@.map_values(|p: (String, String)| p.1@) == all.take(k as int).filter(|l: Seq<char>| l.len() > 0),
            forall|m: int| 0 <= m < out@.len() ==> (#[trigger] out@[m]).0@ == corpus_name(out@[m].1@),
        decreases lines@.len() - k,
    {
        let line = lines[k].as_str();
        let c = chars_of(line);
        proof {
            assert(all.take(k + 1).drop_last() =~= all.take(k as int));
            assert(all.take(k + 1).last() == line@);
            reveal(Seq::filter);
        }
        if c.len() > 0 {
            let name = corpus_video_name(line);
            let file = lines[k].clone();
            let ghost before = out@;
            out.push((name, file));
            proof {
                assert(out@.map_values(|p: (String, String)| p.1@) =~= before.map_values(
                    |p: (String, String)| p.1@,
                ).push(line@));
            }
        }
        k = k + 1;
    }
    proof {
        assert(all.take(lines@.len() as int) =~= all);
    }
    out
}

/// `GAZPACHO_CHROMIUM_VIDEOS` reads neither `0` nor `1`.
#[derive(Debug, Clone, Copy, PartialEq, Eq, Structural)]
pub struct InvalidCorpusSetting;

/// Whether the corpus is used: not when the variable reads `0`; when it
/// reads `1` or is unset; anything else is invalid.
pub fn corpus_enabled(var: Option<&str>) -> (r: Result<bool, InvalidCorpusSetting>)
    ensures
        match var {
            None => r == Ok::<bool, InvalidCorpusSetting>(true),
            Some(s) => if s@ == "0"@ {
                r == Ok::<bool, InvalidCorpusSetting>(false)
            } else if s@ == "1"@ {
                r == Ok::<bool, InvalidCorpusSetting>(true)
            } else {
                r is Err
            },
        },
{
    match var {
        None => Ok(true),
        Some(s) => {
            if str_eq(s, "0") {
                Ok(false)
            } else if str_eq(s, "1") {
                Ok(true)
            } else {
                Err(InvalidCorpusSetting)
            }
        },
    }
}

} // verus!
