//! What an encoder is told to make a synthetic clip: the codec options of a
//! spec, its container and timestamp options, the exact per-frame
//! timestamps of a variable-rate clip, and the grayscale images it is fed.
use crate::data::Frame;
use crate::media::fixtures::{
    encoder_name, pix_name, Codec, Container, Spec, Timing,
};
use crate::media::generation::{
    millis_error, duration_millis, format_seconds_signed, gcd, gcd_spec, mp4_timescale, seconds_text, GenerationError,
};
use crate::rational::{frac_eq, integer, product_of, URational};
use crate::text::{chars_eq, chars_of, digits_in, format_unsigned, string_of, words, words_of};
use vstd::prelude::*;

verus! {

/// The texts of a list of strings.
pub open spec fn texts(v: Seq<String>) -> Seq<Seq<char>> {
    v.map_values(|s: String| s@)
}

/// `n` in decimal, as `to_string` writes it.
pub open spec fn decimal(n: nat) -> Seq<char> {
    digits_in(n, 10)
}

fn push_text(v: &mut Vec<String>, s: &str)
    ensures
        texts(final(v)@) == texts(old(v)@).push(s@),
{
    let c = chars_of(s);
    v.push(string_of(c.as_slice()));
    proof {
        assert(texts(v@) =~= texts(old(v)@).push(s@));
    }
}

fn push_decimal(v: &mut Vec<String>, n: u64)
    ensures
        texts(final(v)@) == texts(old(v)@).push(decimal(n as nat)),
{
    v.push(format_unsigned(n, 10, 0));
    proof {
        assert(texts(v@) =~= texts(old(v)@).push(decimal(n as nat)));
    }
}

// === Codec options =========================================================

/// The `-x265-params` value for a GOP and a B-frame count.
pub open spec fn x265_params(gop: u32, bframes: u32) -> Seq<char> {
    "keyint="@ + decimal(gop as nat) + ":min-keyint="@ + decimal(gop as nat) + ":scenecut=0:bframes="@ + decimal(
        bframes as nat,
    ) + ":log-level=error"@
}

/// The encoder options of a spec: codec, rate control, exact GOP placement
/// (no scene-cut keyframes), B-frames where the codec has them, and the pixel
/// format.
pub open spec fn codec_options(s: Spec) -> Seq<Seq<char>> {
    let gop = decimal(s.gop as nat);
    let codec = match s.codec {
        Codec::H264 => seq![
            "-c:v"@,
            "libx264"@,
            "-preset"@,
            "ultrafast"@,
            "-crf"@,
            "18"@,
            "-g"@,
            gop,
            "-keyint_min"@,
            gop,
            "-bf"@,
            decimal(s.bframes as nat),
            "-x264-params"@,
            "scenecut=0"@,
        ],
        Codec::Hevc => seq![
            "-c:v"@,
            "libx265"@,
            "-preset"@,
            "fast"@,
            "-crf"@,
            "12"@,
            "-x265-params"@,
            x265_params(s.gop, s.bframes),
        ],
        Codec::Vp9 => seq![
            "-c:v"@,
            "libvpx-vp9"@,
            "-deadline"@,
            "realtime"@,
            "-cpu-used"@,
            "8"@,
            "-crf"@,
            "32"@,
            "-b:v"@,
            "0"@,
            "-g"@,
            gop,
        ],
        Codec::Ffv1 => seq!["-c:v"@, "ffv1"@, "-level"@, "3"@, "-g"@, "1"@],
    };
    codec + seq!["-pix_fmt"@, pix_name(s.pix_fmt)]
}

fn decimal_text(n: u32) -> (r: Vec<char>)
    ensures
        r@ == decimal(n as nat),
{
    let s = format_unsigned(n as u64, 10, 0);
    chars_of(s.as_str())
}

/// The encoder options for `spec`.
pub fn codec_args(spec: &Spec) -> (r: Vec<String>)
    ensures
        texts(r@) == codec_options(*spec),
{
    proof {
        reveal_strlit("-c:v");
        reveal_strlit("libx264");
        reveal_strlit("-preset");
        reveal_strlit("ultrafast");
        reveal_strlit("-crf");
        reveal_strlit("18");
        reveal_strlit("-g");
        reveal_strlit("-keyint_min");
        reveal_strlit("-bf");
        reveal_strlit("-x264-params");
        reveal_strlit("scenecut=0");
        reveal_strlit("libx265");
        reveal_strlit("fast");
        reveal_strlit("12");
        reveal_strlit("-x265-params");
        reveal_strlit("libvpx-vp9");
        reveal_strlit("-deadline");
        reveal_strlit("realtime");
        reveal_strlit("-cpu-used");
        reveal_strlit("8");
        reveal_strlit("32");
        reveal_strlit("-b:v");
        reveal_strlit("0");
        reveal_strlit("ffv1");
        reveal_strlit("-level");
        reveal_strlit("3");
        reveal_strlit("1");
        reveal_strlit("-pix_fmt");
    }
    let mut v: Vec<String> = Vec::new();
    push_text(&mut v, "-c:v");
    match spec.codec {
        Codec::H264 => {
            push_text(&mut v, "libx264");
            push_text(&mut v, "-preset");
            push_text(&mut v, "ultrafast");
            push_text(&mut v, "-crf");
            push_text(&mut v, "18");
            push_text(&mut v, "-g");
            push_decimal(&mut v, spec.gop as u64);
            push_text(&mut v, "-keyint_min");
            push_decimal(&mut v, spec.gop as u64);
            push_text(&mut v, "-bf");
            push_decimal(&mut v, spec.bframes as u64);
            push_text(&mut v, "-x264-params");
            push_text(&mut v, "scenecut=0");
        },
        Codec::Hevc => {
            push_text(&mut v, "libx265");
            push_text(&mut v, "-preset");
            push_text(&mut v, "fast");
            push_text(&mut v, "-crf");
            push_text(&mut v, "12");
            push_text(&mut v, "-x265-params");
            let mut p = chars_of("keyint=");
            let mut g1 = decimal_text(spec.gop);
            let mut m = chars_of(":min-keyint=");
            let mut g2 = decimal_text(spec.gop);
            let mut b = chars_of(":scenecut=0:bframes=");
            let mut bf = decimal_text(spec.bframes);
            let mut tail = chars_of(":log-level=error");
            p.append(&mut g1);
            p.append(&mut m);
            p.append(&mut g2);
            p.append(&mut b);
            p.append(&mut bf);
            p.append(&mut tail);
            let ghost before = texts(v@);
            v.push(string_of(p.as_slice()));
            proof {
                assert(p@ =~= x265_params(spec.gop, spec.bframes));
                assert(texts(v@) =~= before.push(x265_params(spec.gop, spec.bframes)));
            }
        },
        Codec::Vp9 => {
            push_text(&mut v, "libvpx-vp9");
            push_text(&mut v, "-deadline");
            push_text(&mut v, "realtime");
            push_text(&mut v, "-cpu-used");
            push_text(&mut v, "8");
            push_text(&mut v, "-crf");
            push_text(&mut v, "32");
            push_text(&mut v, "-b:v");
            push_text(&mut v, "0");
            push_text(&mut v, "-g");
            push_decimal(&mut v, spec.gop as u64);
        },
        Codec::Ffv1 => {
            push_text(&mut v, "ffv1");
            push_text(&mut v, "-level");
            push_text(&mut v, "3");
            push_text(&mut v, "-g");
            push_text(&mut v, "1");
        },
    }
    push_text(&mut v, "-pix_fmt");
    push_text(&mut v, spec.pix_fmt.ffmpeg_name());
    proof {
        assert(texts(v@) =~= codec_options(*spec));
    }
    v
}

// === Container and timestamp options =======================================

/// The track timescale of a constant-rate mp4 at `numer / _` frames per
/// second: `1000 / gcd(1000, numer) * numer`.
pub open spec fn timescale_of(numer: u64) -> nat {
    (1000nat / gcd_spec(1000, numer as nat)) * (numer as nat)
}

/// The container options of `s` that do not depend on its start: no mux
/// delay for MPEG-TS, and for a constant-rate mp4 a timescale in which both
/// a frame and any whole millisecond are exact.
pub open spec fn container_options(s: Spec) -> Seq<Seq<char>> {
    let mux: Seq<Seq<char>> = if s.container == Container::MpegTs {
        seq!["-muxdelay"@, "0"@, "-muxpreload"@, "0"@]
    } else {
        seq![]
    };
    let scale: Seq<Seq<char>> = match s.timing {
        Timing::Cfr { fps } => if s.container == Container::Mp4 {
            seq!["-video_track_timescale"@, decimal(timescale_of(fps.numer))]
        } else {
            seq![]
        },
        Timing::Vfr { .. } => seq![],
    };
    mux + scale
}

/// The timescale of a constant-rate mp4 fits a `u64`.
pub open spec fn timescale_fits(s: Spec) -> bool {
    match s.timing {
        Timing::Cfr { fps } => s.container == Container::Mp4 ==> timescale_of(fps.numer) <= u64::MAX,
        Timing::Vfr { .. } => true,
    }
}

/// The container and timestamp options for `spec`: [`container_options`],
/// then, for a nonzero start, the start offset written as decimal seconds.
/// An error when the start is not a whole number of microseconds.
pub fn output_args(spec: &Spec) -> (r: Result<Vec<String>, GenerationError>)
    requires
        spec.start_offset.wf(),
        timescale_fits(*spec),
    ensures
        spec.start_offset.0.numer == 0 ==> (r matches Ok(v) && texts(v@) == container_options(*spec)),
        match r {
            Ok(v) => spec.start_offset.0.numer != 0 ==> exists|micros: int|
                #[trigger] frac_eq(spec.start_offset.frac(), (micros, 1_000_000)) && texts(v@)
                    == container_options(*spec) + seq!["-output_ts_offset"@, seconds_text(micros)],
            Err(_) => true,
        },
        r == Err::<Vec<String>, GenerationError>(GenerationError::Overflow) <==> (spec.start_offset.0.numer != 0
            && product_of(spec.start_offset.0, integer(1_000_000)) is None),
        r == Err::<Vec<String>, GenerationError>(GenerationError::NotWholeMicrosecond) <==> (
        spec.start_offset.0.numer != 0 && product_of(spec.start_offset.0, integer(1_000_000)) is Some && (
        spec.start_offset.0.numer * 1_000_000) % (spec.start_offset.0.denom as int) != 0),
        r matches Err(e) ==> spec.start_offset.0.numer != 0 && (e == GenerationError::NotWholeMicrosecond || e
            == GenerationError::Overflow),
{
    let mut v: Vec<String> = Vec::new();
    if spec.container == Container::MpegTs {
        push_text(&mut v, "-muxdelay");
        push_text(&mut v, "0");
        push_text(&mut v, "-muxpreload");
        push_text(&mut v, "0");
    }
    match &spec.timing {
        Timing::Cfr { fps } => {
            if spec.container == Container::Mp4 {
                push_text(&mut v, "-video_track_timescale");
                let numer = fps.numer;
                if numer == 0 {
                    proof {
                        assert(gcd_spec(1000, 0) == 1000);
                        assert(timescale_of(0) == 0);
                    }
                    push_decimal(&mut v, 0);
                } else {
                    match mp4_timescale(numer) {
                        Some(t) => push_decimal(&mut v, t),
                        None => {
                            proof {
                                assert(false);
                            }
                            return Err(GenerationError::Overflow);
                        },
                    }
                }
            }
        },
        Timing::Vfr { .. } => {},
    }
    proof {
        reveal_strlit("-muxdelay");
        reveal_strlit("0");
        reveal_strlit("-muxpreload");
        reveal_strlit("-video_track_timescale");
        assert(texts(v@) =~= container_options(*spec));
    }
    if spec.start_offset.0.numer != 0 {
        let ghost base = texts(v@);
        let t = match format_seconds_signed(spec.start_offset.0) {
            Ok(t) => t,
            Err(e) => return Err(e),
        };
        let ghost tv = t@;
        push_text(&mut v, "-output_ts_offset");
        let ghost mid = texts(v@);
        v.push(t);
        proof {
            reveal_strlit("-output_ts_offset");
            assert(texts(v@) =~= mid.push(tv));
            let micros = choose|micros: int|
                #[trigger] frac_eq(spec.start_offset.0.frac(), (micros, 1_000_000)) && tv == seconds_text(micros);
            assert(texts(v@) =~= base + seq!["-output_ts_offset"@, seconds_text(micros)]);
            assert(frac_eq(spec.start_offset.frac(), (micros, 1_000_000)));
        }
    }
    Ok(v)
}

// === Variable-rate clips ===================================================

/// Sum of the first `n` of `millis`.
pub open spec fn millis_sum(millis: Seq<u64>, n: int) -> int
    decreases n,
{
    if n <= 0 {
        0
    } else {
        millis_sum(millis, n - 1) + millis[n - 1]
    }
}

/// Each duration as whole milliseconds.
pub open spec fn as_millis(durations: Seq<URational>, millis: Seq<u64>) -> bool {
    &&& millis.len() == durations.len()
    &&& forall|i: int| 0 <= i < durations.len() ==> millis[i] * durations[i].denom == durations[i].numer * 1000
}

/// The first `n` durations in whole milliseconds, added up.
pub open spec fn whole_millis_sum(durations: Seq<URational>, n: int) -> int
    decreases n,
{
    if n <= 0 {
        0
    } else {
        whole_millis_sum(durations, n - 1) + (durations[n - 1].numer * 1000) / (durations[n - 1].denom as int)
    }
}

/// The error taking the first `n` durations to milliseconds ends in, if
/// any: the first duration without a whole-millisecond count, or the first
/// running sum beyond `u64`.
pub open spec fn prefix_millis_error(durations: Seq<URational>, n: int) -> Option<GenerationError>
    decreases n,
{
    if n <= 0 {
        None
    } else {
        match prefix_millis_error(durations, n - 1) {
            Some(e) => Some(e),
            None => match millis_error(durations[n - 1]) {
                Some(e) => Some(e),
                None => if whole_millis_sum(durations, n) > u64::MAX {
                    Some(GenerationError::Overflow)
                } else {
                    None
                },
            },
        }
    }
}

proof fn lemma_prefix_error_stays(durations: Seq<URational>, i: int, n: int)
    requires
        0 <= i <= n,
        prefix_millis_error(durations, i) is Some,
    ensures
        prefix_millis_error(durations, n) == prefix_millis_error(durations, i),
    decreases n - i,
{
    if i < n {
        lemma_prefix_error_stays(durations, i, n - 1);
    }
}

/// The presentation time of every frame, and the end, in whole milliseconds:
/// `r[k]` is the sum of the first `k` durations, so `r` has one more entry
/// than `durations`. An error when a duration is not a whole millisecond or
/// a sum overflows.
pub fn vfr_prefix_millis(durations: &Vec<URational>) -> (r: Result<Vec<u64>, GenerationError>)
    requires
        forall|i: int| 0 <= i < durations@.len() ==> (#[trigger] durations@[i]).wf(),
    ensures
        r matches Ok(p) ==> p@.len() == durations@.len() + 1 && exists|millis: Seq<u64>|
            as_millis(durations@, millis) && forall|k: int| 0 <= k < p@.len() ==> p@[k] == millis_sum(millis, k),
        r == Err::<Vec<u64>, GenerationError>(GenerationError::NotWholeMillisecond) ==> exists|i: int|
            0 <= i < durations@.len() && (durations@[i].numer * 1000) % (durations@[i].denom as int) != 0,
        match prefix_millis_error(durations@, durations@.len() as int) {
            Some(e) => r == Err::<Vec<u64>, GenerationError>(e),
            None => r is Ok,
        },
{
    let mut prefix: Vec<u64> = Vec::new();
    prefix.push(0);
    let ghost mut millis: Seq<u64> = seq![];
    let mut i: usize = 0;
    while i < durations.len()
        invariant
            forall|j: int| 0 <= j < durations@.len() ==> (#[trigger] durations@[j]).wf(),
            i <= durations@.len(),
            prefix@.len() == i + 1,
            millis.len() == i,
            forall|j: int| 0 <= j < i ==> millis[j] * durations@[j].denom == durations@[j].numer * 1000,
            forall|k: int| 0 <= k < prefix@.len() ==> prefix@[k] == millis_sum(millis, k),
            prefix@[i as int] == whole_millis_sum(durations@, i as int),
            prefix_millis_error(durations@, i as int) is None,
        decreases durations@.len() - i,
    {
        let ms = match duration_millis(durations[i]) {
            Ok(ms) => ms,
            Err(e) => {
                proof {
                    lemma_prefix_error_stays(durations@, i + 1, durations@.len() as int);
                }
                return Err(e);
            },
        };
        let last = prefix[i];
        let next = match last.checked_add(ms) {
            Some(n) => n,
            None => {
                proof {
                    lemma_prefix_error_stays(durations@, i + 1, durations@.len() as int);
                }
                return Err(GenerationError::Overflow);
            },
        };
        proof {
            let ghost old_m = millis;
            millis = millis.push(ms);
            assert(millis.drop_last() =~= old_m);
            assert(millis_sum(millis, i + 1) == millis_sum(millis, i as int) + ms);
            assert forall|k: int| 0 <= k <= i implies millis_sum(millis, k) == millis_sum(millis.drop_last(), k) by {
                lemma_millis_sum_prefix(millis, k);
            }
        }
        prefix.push(next);
        i = i + 1;
    }
    proof {
        assert(as_millis(durations@, millis));
    }
    Ok(prefix)
}

proof fn lemma_millis_sum_prefix(m: Seq<u64>, k: int)
    requires
        m.len() > 0,
        0 <= k < m.len(),
    ensures
        millis_sum(m, k) == millis_sum(m.drop_last(), k),
    decreases k,
{
    if k > 0 {
        lemma_millis_sum_prefix(m, k - 1);
    }
}

/// One term of the timestamp rewrite: frame `n` goes to `ms`.
pub open spec fn setpts_term(n: nat, ms: u64) -> Seq<char> {
    "eq(N\\,"@ + decimal(n) + ")*"@ + decimal(ms as nat)
}

/// The terms for the first `k` entries of `prefix`, joined with `+`.
pub open spec fn setpts_terms(prefix: Seq<u64>, k: int) -> Seq<char>
    decreases k,
{
    if k <= 0 {
        seq![]
    } else if k == 1 {
        setpts_term(0, prefix[0])
    } else {
        setpts_terms(prefix, k - 1) + "+"@ + setpts_term((k - 1) as nat, prefix[k - 1])
    }
}

/// The filter that sets frame `n`'s timestamp to `prefix[n]` milliseconds
/// (commas escaped for the filter parser).
pub open spec fn setpts_filter(prefix: Seq<u64>) -> Seq<char> {
    "settb=1/1000,setpts="@ + setpts_terms(prefix, prefix.len() as int)
}

/// The timestamp-rewriting filter for the frame times `prefix`.
pub fn setpts_filter_text(prefix: &Vec<u64>) -> (r: String)
    ensures
        r@ == setpts_filter(prefix@),
{
    let mut out = chars_of("settb=1/1000,setpts=");
    let ghost head = out@;
    let mut n: usize = 0;
    while n < prefix.len()
        invariant
            n <= prefix@.len(),
            out@ == head + setpts_terms(prefix@, n as int),
        decreases prefix@.len() - n,
    {
        if n > 0 {
            let mut plus = chars_of("+");
            out.append(&mut plus);
        }
        let mut open = chars_of("eq(N\\,");
        let s = format_unsigned(n as u64, 10, 0);
        let mut idx = chars_of(s.as_str());
        let mut mid = chars_of(")*");
        let t = format_unsigned(prefix[n], 10, 0);
        let mut ms = chars_of(t.as_str());
        out.append(&mut open);
        out.append(&mut idx);
        out.append(&mut mid);
        out.append(&mut ms);
        n = n + 1;
        proof {
            assert(out@ =~= head + setpts_terms(prefix@, n as int));
        }
    }
    string_of(out.as_slice())
}

/// The header of a binary 8-bit grayscale image (PGM, `P5`).
pub open spec fn pgm_header(width: u32, height: u32) -> Seq<char> {
    "P5\n"@ + decimal(width as nat) + " "@ + decimal(height as nat) + "\n255\n"@
}

/// A stamped RGBA frame as a PGM image: the header, then channel 0 of every
/// pixel.
pub fn pgm_bytes(frame: &Frame) -> (r: (String, Vec<u8>))
    requires
        frame.data@.len() % 4 == 0,
    ensures
        r.0@ == pgm_header(frame.width, frame.height),
        r.1@.len() == frame.data@.len() / 4,
        forall|k: int| 0 <= k < r.1@.len() ==> r.1@[k] == frame.data@[4 * k],
{
    let mut h = chars_of("P5\n");
    let mut w = decimal_text(frame.width);
    let mut sp = chars_of(" ");
    let mut ht = decimal_text(frame.height);
    let mut tail = chars_of("\n255\n");
    h.append(&mut w);
    h.append(&mut sp);
    h.append(&mut ht);
    h.append(&mut tail);
    let mut px: Vec<u8> = Vec::new();
    let mut i: usize = 0;
    while i < frame.data.len()
        invariant
            frame.data@.len() % 4 == 0,
            i % 4 == 0,
            i <= frame.data@.len(),
            px@.len() == i / 4,
            forall|k: int| 0 <= k < px@.len() ==> px@[k] == frame.data@[4 * k],
        decreases frame.data@.len() - i,
    {
        px.push(frame.data[i]);
        i = i + 4;
    }
    proof {
        assert(h@ =~= pgm_header(frame.width, frame.height));
    }
    (string_of(h.as_slice()), px)
}

// === Available encoders ====================================================

/// The encoder list names `name`: some line's second word is `name` (lines
/// read ` V....D libx264  H.264 / ...`).
pub open spec fn lists_encoder(lines: Seq<String>, name: Seq<char>) -> bool {
    exists|i: int| 0 <= i < lines.len() && words(#[trigger] lines[i]@).len() > 1 && words(lines[i]@)[1] == name
}

/// Whether the encoder listing `lines` has the encoder `name`.
pub fn encoder_listed(lines: &Vec<String>, name: &str) -> (r: bool)
    ensures
        r == lists_encoder(lines@, name@),
{
    let want = chars_of(name);
    let mut i: usize = 0;
    while i < lines.len()
        invariant
            i <= lines@.len(),
            want@ == name@,
            forall|j: int|
                0 <= j < i ==> !(words(#[trigger] lines@[j]@).len() > 1 && words(lines@[j]@)[1] == name@),
        decreases lines@.len() - i,
    {
        let c = chars_of(lines[i].as_str());
        let ws = words_of(c.as_slice());
        proof {
            assert(ws@.map_values(|w: Vec<char>| w@).len() == ws@.len());
        }
        if ws.len() > 1 && chars_eq(ws[1].as_slice(), want.as_slice()) {
            proof {
                assert(ws@.map_values(|w: Vec<char>| w@)[1] == ws@[1]@);
                assert(words(lines@[i as int]@).len() > 1 && words(lines@[i as int]@)[1] == name@);
            }
            return true;
        }
        proof {
            if ws@.len() > 1 {
                assert(ws@.map_values(|w: Vec<char>| w@)[1] == ws@[1]@);
            }
        }
        i = i + 1;
    }
    false
}

} // verus!
