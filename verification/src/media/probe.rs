//! Reading what the prober prints: one CSV row per stream, one per demuxed
//! packet and one per decoded frame.
use crate::media::metadata::{
    AudioStreamInfo, CodecType, Fps, StreamInfo, TimingPacket, VideoStreamInfo,
};
use crate::rational::{coprime, frac_eq, URational};
use crate::text::{
    chars_is, chars_of, contains_char, parse_i64, parse_int_spec, parse_u32, parse_u8, split_chars,
    split_spec, string_of, trim_chars, trimmed,
};
use num_rational::Ratio;
use vstd::prelude::*;

verus! {

// === Ratios ================================================================

/// The two halves of `numer/denom` around the first `/`; a text without `/`
/// is a numerator over `1`.
pub open spec fn ratio_parts(s: Seq<char>) -> (Seq<char>, Seq<char>) {
    if s.contains('/') {
        let k = choose|k: int| 0 <= k < s.len() && s[k] == '/' && forall|j: int| 0 <= j < k ==> s[j] != '/';
        (s.take(k), s.skip(k + 1))
    } else {
        (s, seq!['1'])
    }
}

/// Numerator and denominator written in `s`, each as `str::parse::<u64>` reads it.
pub open spec fn ratio_text(s: Seq<char>) -> Option<(int, int)> {
    let (n, d) = ratio_parts(s);
    match (parse_int_spec(n, false, 0, u64::MAX as int), parse_int_spec(d, false, 0, u64::MAX as int)) {
        (Some(a), Some(b)) => Some((a, b)),
        _ => None,
    }
}

/// `s` reads as a ratio with a nonzero denominator.
pub open spec fn ratio_ok(s: Seq<char>) -> bool {
    ratio_text(s) matches Some(nd) && nd.1 != 0
}

/// `q` is the ratio written in `s`, in lowest terms.
pub open spec fn ratio_read(s: Seq<char>, q: URational) -> bool {
    &&& ratio_ok(s)
    &&& q.wf()
    &&& coprime(q.numer as int, q.denom as int)
    &&& frac_eq(q.frac(), ratio_text(s).unwrap())
}

/// `str::parse::<Ratio<u64>>` (the `FromStr` of `num_rational`).
///
/// Claims of its source: the text is split at the first `/`, both halves are
/// read by `u64::from_str` (a missing `/` means a denominator of `1`), a zero
/// denominator is refused, and the result is `Ratio::new(numer, denom)`, which
/// is in lowest terms with the same value.
#[verifier::external_body]
fn parse_ratio(s: &[char]) -> (r: Option<URational>)
    ensures
        r is Some <==> ratio_ok(s@),
        r matches Some(q) ==> ratio_read(s@, q),
{
    let text: String = s.iter().collect();
    match text.parse::<Ratio<u64>>() {
        Ok(v) => Some(URational { numer: *v.numer(), denom: *v.denom() }),
        Err(_) => None,
    }
}

// === Stream rows ===========================================================

/// A column of a stream row.
#[derive(Debug, Clone, Copy, PartialEq, Eq)]
pub enum StreamField {
    CodecName,
    CodecType,
    Width,
    Height,
    RFrameRate,
    TimeBase,
    Duration,
    AttachedPic,
    SampleRate,
}

/// Why a stream row could not be read.
#[derive(Debug, Clone, Copy, PartialEq, Eq)]
pub enum ProbeError {
    /// The row ends before this column.
    Missing(StreamField),
    /// The column holds no value of its type.
    Invalid(StreamField),
}

/// The kind a prober's `codec_type` names.
pub open spec fn codec_kind(s: Seq<char>) -> CodecType {
    if s == seq!['v', 'i', 'd', 'e', 'o'] {
        CodecType::Video
    } else if s == seq!['a', 'u', 'd', 'i', 'o'] {
        CodecType::Audio
    } else {
        CodecType::Other
    }
}

fn codec_kind_of(s: &[char]) -> (r: CodecType)
    ensures
        r == codec_kind(s@),
{
    proof {
        reveal_strlit("video");
        reveal_strlit("audio");
        assert("video"@ =~= seq!['v', 'i', 'd', 'e', 'o']);
        assert("audio"@ =~= seq!['a', 'u', 'd', 'i', 'o']);
    }
    if chars_is(s, "video") {
        CodecType::Video
    } else if chars_is(s, "audio") {
        CodecType::Audio
    } else {
        CodecType::Other
    }
}

impl CodecType {
    /// The kind named by a `codec_type` value; any other name is `Other`.
    pub fn from_str(s: &str) -> (r: CodecType)
        ensures
            r == codec_kind(s@),
    {
        let c = chars_of(s);
        codec_kind_of(c.as_slice())
    }
}

/// A stream row, read: the stream, and the side-data columns that follow a
/// video stream's fixed ones.
#[derive(Debug, Clone)]
pub struct ProbedStream {
    pub info: StreamInfo,
    pub side_data: Vec<String>,
}

pub open spec fn u32_field(f: Seq<Seq<char>>, k: int) -> Option<int> {
    parse_int_spec(f[k], false, 0, u32::MAX as int)
}

/// The first thing wrong with the columns of a video row.
pub open spec fn video_row_error(f: Seq<Seq<char>>) -> Option<ProbeError> {
    if f.len() < 5 {
        Some(ProbeError::Missing(StreamField::Width))
    } else if u32_field(f, 4) is None {
        Some(ProbeError::Invalid(StreamField::Width))
    } else if f.len() < 6 {
        Some(ProbeError::Missing(StreamField::Height))
    } else if u32_field(f, 5) is None {
        Some(ProbeError::Invalid(StreamField::Height))
    } else if f.len() < 7 {
        Some(ProbeError::Missing(StreamField::RFrameRate))
    } else if f.len() < 8 {
        Some(ProbeError::Missing(StreamField::TimeBase))
    } else if !ratio_ok(f[7]) {
        Some(ProbeError::Invalid(StreamField::TimeBase))
    } else if f.len() < 9 {
        Some(ProbeError::Missing(StreamField::Duration))
    } else if f.len() < 10 {
        Some(ProbeError::Missing(StreamField::AttachedPic))
    } else {
        None
    }
}

/// The first thing wrong with the columns of an audio row.
pub open spec fn audio_row_error(f: Seq<Seq<char>>) -> Option<ProbeError> {
    if f.len() < 5 {
        Some(ProbeError::Missing(StreamField::SampleRate))
    } else if u32_field(f, 4) is None {
        Some(ProbeError::Invalid(StreamField::SampleRate))
    } else if f.len() < 6 {
        Some(ProbeError::Missing(StreamField::RFrameRate))
    } else if f.len() < 7 {
        Some(ProbeError::Missing(StreamField::TimeBase))
    } else if f.len() < 8 {
        Some(ProbeError::Missing(StreamField::Duration))
    } else if f.len() < 9 {
        Some(ProbeError::Missing(StreamField::AttachedPic))
    } else {
        None
    }
}

/// The first thing wrong with the columns of a stream row (section, index,
/// codec name, codec type, then columns that depend on the type).
pub open spec fn row_error(f: Seq<Seq<char>>) -> Option<ProbeError> {
    if f.len() < 3 {
        Some(ProbeError::Missing(StreamField::CodecName))
    } else if f.len() < 4 {
        Some(ProbeError::Missing(StreamField::CodecType))
    } else {
        match codec_kind(f[3]) {
            CodecType::Video => video_row_error(f),
            CodecType::Audio => audio_row_error(f),
            CodecType::Other => None,
        }
    }
}

/// `p` is what a well-formed stream row with columns `f` says.
pub open spec fn row_parsed(index: u8, f: Seq<Seq<char>>, p: ProbedStream) -> bool {
    match codec_kind(f[3]) {
        CodecType::Video => {
            &&& p.info matches StreamInfo::Video(v)
            &&& v.index == index
            &&& v.codec_name@ == f[2]
            &&& v.width == u32_field(f, 4).unwrap()
            &&& v.height == u32_field(f, 5).unwrap()
            &&& match v.r_frame_rate {
                Some(fps) => ratio_read(f[6], fps.0),
                None => !ratio_ok(f[6]),
            }
            &&& ratio_read(f[7], v.time_base)
            &&& v.attached_pic == (f[9] == seq!['1'])
            &&& p.side_data@.len() == f.len() - 10
            &&& forall|j: int| 0 <= j < p.side_data@.len() ==> (#[trigger] p.side_data@[j])@ == f[10 + j]
        },
        CodecType::Audio => {
            &&& p.info matches StreamInfo::Audio(a)
            &&& a.index == index
            &&& a.sample_rate == u32_field(f, 4).unwrap()
            &&& a.duration@ == f[7]
            &&& p.side_data@.len() == 0
        },
        CodecType::Other => p.info is Other && p.side_data@.len() == 0,
    }
}

/// Read the stream row `line` of the stream with container index `index`.
///
/// A video row holds width, height, the declared frame rate (kept only when it
/// reads as a ratio), the time base, the duration (not read: some containers
/// print `N/A`), the attached-picture flag, then side data. An audio row holds
/// the sample rate, the frame rate and time base (not read), the duration
/// (kept as written) and the attached-picture flag.
pub fn parse_stream_row(index: u8, line: &str) -> (r: Result<ProbedStream, ProbeError>)
    ensures
        ({
            let f = split_spec(line@, ',');
            match r {
                Ok(p) => row_error(f) is None && row_parsed(index, f, p),
                Err(e) => row_error(f) == Some(e),
            }
        }),
{
    let chars = chars_of(line);
    let f = split_chars(chars.as_slice(), ',');
    let ghost fs = split_spec(line@, ',');
    if f.len() < 3 {
        return Err(ProbeError::Missing(StreamField::CodecName));
    }
    if f.len() < 4 {
        return Err(ProbeError::Missing(StreamField::CodecType));
    }
    let kind = codec_kind_of(f[3].as_slice());
    match kind {
        CodecType::Video => {
            if f.len() < 5 {
                return Err(ProbeError::Missing(StreamField::Width));
            }
            let width = match parse_u32(f[4].as_slice()) {
                Some(w) => w,
                None => return Err(ProbeError::Invalid(StreamField::Width)),
            };
            if f.len() < 6 {
                return Err(ProbeError::Missing(StreamField::Height));
            }
            let height = match parse_u32(f[5].as_slice()) {
                Some(h) => h,
                None => return Err(ProbeError::Invalid(StreamField::Height)),
            };
            if f.len() < 7 {
                return Err(ProbeError::Missing(StreamField::RFrameRate));
            }
            let r_frame_rate = match parse_ratio(f[6].as_slice()) {
                Some(q) => Some(Fps(q)),
                None => None,
            };
            if f.len() < 8 {
                return Err(ProbeError::Missing(StreamField::TimeBase));
            }
            let time_base = match parse_ratio(f[7].as_slice()) {
                Some(q) => q,
                None => return Err(ProbeError::Invalid(StreamField::TimeBase)),
            };
            if f.len() < 9 {
                return Err(ProbeError::Missing(StreamField::Duration));
            }
            if f.len() < 10 {
                return Err(ProbeError::Missing(StreamField::AttachedPic));
            }
            proof {
                reveal_strlit("1");
                assert("1"@ =~= seq!['1']);
            }
            let attached_pic = chars_is(f[9].as_slice(), "1");
            let codec_name = string_of(f[2].as_slice());
            let mut side_data: Vec<String> = Vec::new();
            let mut k: usize = 10;
            while k < f.len()
                invariant
                    10 <= k <= f@.len(),
                    f@.len() == fs.len(),
                    forall|j: int| 0 <= j < f@.len() ==> (#[trigger] f@[j])@ == fs[j],
                    side_data@.len() == k - 10,
                    forall|j: int| 0 <= j < side_data@.len() ==> (#[trigger] side_data@[j])@ == fs[10 + j],
                decreases f@.len() - k,
            {
                side_data.push(string_of(f[k].as_slice()));
                k = k + 1;
            }
            let info = VideoStreamInfo {
                index,
                codec_name,
                width,
                height,
                r_frame_rate,
                time_base,
                attached_pic,
            };
            Ok(ProbedStream { info: StreamInfo::Video(info), side_data })
        },
        CodecType::Audio => {
            if f.len() < 5 {
                return Err(ProbeError::Missing(StreamField::SampleRate));
            }
            let sample_rate = match parse_u32(f[4].as_slice()) {
                Some(s) => s,
                None => return Err(ProbeError::Invalid(StreamField::SampleRate)),
            };
            if f.len() < 6 {
                return Err(ProbeError::Missing(StreamField::RFrameRate));
            }
            if f.len() < 7 {
                return Err(ProbeError::Missing(StreamField::TimeBase));
            }
            if f.len() < 8 {
                return Err(ProbeError::Missing(StreamField::Duration));
            }
            if f.len() < 9 {
                return Err(ProbeError::Missing(StreamField::AttachedPic));
            }
            let duration = string_of(f[7].as_slice());
            let info = AudioStreamInfo { index, sample_rate, duration };
            Ok(ProbedStream { info: StreamInfo::Audio(info), side_data: Vec::new() })
        },
        CodecType::Other => Ok(ProbedStream { info: StreamInfo::Other, side_data: Vec::new() }),
    }
}

impl VideoStreamInfo {
    /// The stream as displayed: decoders apply a display-matrix rotation, so a
    /// quarter turn swaps width and height.
    pub fn displayed(self, quarter_turn: bool) -> (r: VideoStreamInfo)
        ensures
            quarter_turn ==> r.width == self.height && r.height == self.width,
            !quarter_turn ==> r.width == self.width && r.height == self.height,
            r.index == self.index,
            r.codec_name == self.codec_name,
            r.r_frame_rate == self.r_frame_rate,
            r.time_base == self.time_base,
            r.attached_pic == self.attached_pic,
    {
        if quarter_turn {
            VideoStreamInfo { width: self.height, height: self.width, ..self }
        } else {
            self
        }
    }
}

// === Choosing one row per stream ===========================================

/// The stream index of a stream row: its first column is `stream` and its
/// second reads as a `u8`. Other rows (program sections, spacers) have none.
pub open spec fn row_key(line: Seq<char>) -> Option<u8> {
    let f = split_spec(line, ',');
    if f[0] == seq!['s', 't', 'r', 'e', 'a', 'm'] && f.len() >= 2 {
        match parse_int_spec(f[1], false, 0, u8::MAX as int) {
            Some(i) => Some(i as u8),
            None => None,
        }
    } else {
        None
    }
}

/// Line `m` is the last of `lines[0..upto]` that is a row of stream `k`.
pub open spec fn last_row_of(lines: Seq<String>, upto: int, m: int, k: u8) -> bool {
    &&& 0 <= m < upto
    &&& row_key(lines[m]@) == Some(k)
    &&& forall|m2: int| m < m2 < upto ==> row_key(#[trigger] lines[m2]@) != Some(k)
}

/// `row` is the last row of its stream among `lines[0..upto]`.
pub open spec fn row_witnessed(lines: Seq<String>, upto: int, row: (u8, String)) -> bool {
    exists|m: int| #[trigger] last_row_of(lines, upto, m, row.0) && row.1@ == lines[m]@
}

/// Some entry of `rows` is for stream `k`.
pub open spec fn key_listed(rows: Seq<(u8, String)>, k: u8) -> bool {
    exists|a: int| 0 <= a < rows.len() && (#[trigger] rows[a]).0 == k
}

/// `rows` holds, ascending by stream index, the last row of each stream among
/// `lines[0..upto]`.
pub open spec fn last_rows(lines: Seq<String>, upto: int, rows: Seq<(u8, String)>) -> bool {
    &&& forall|a: int, b: int| 0 <= a < b < rows.len() ==> (#[trigger] rows[a]).0 < (#[trigger] rows[b]).0
    &&& forall|a: int| 0 <= a < rows.len() ==> row_witnessed(lines, upto, #[trigger] rows[a])
    &&& forall|m: int|
        0 <= m < upto && (#[trigger] row_key(lines[m]@)) is Some ==> key_listed(
            rows,
            row_key(lines[m]@).unwrap(),
        )
}

fn row_key_of(line: &str) -> (r: Option<u8>)
    ensures
        r == row_key(line@),
{
    let chars = chars_of(line);
    let f = split_chars(chars.as_slice(), ',');
    proof {
        crate::text::lemma_split_nonempty(line@, ',');
        reveal_strlit("stream");
        assert("stream"@ =~= seq!['s', 't', 'r', 'e', 'a', 'm']);
    }
    if chars_is(f[0].as_slice(), "stream") && f.len() >= 2 {
        parse_u8(f[1].as_slice())
    } else {
        None
    }
}

proof fn lemma_rows_skip(lines: Seq<String>, upto: int, rows: Seq<(u8, String)>)
    requires
        0 <= upto < lines.len(),
        last_rows(lines, upto, rows),
        row_key(lines[upto]@) is None,
    ensures
        last_rows(lines, upto + 1, rows),
{
    assert forall|a: int| 0 <= a < rows.len() implies row_witnessed(lines, upto + 1, #[trigger] rows[a]) by {
        assert(row_witnessed(lines, upto, rows[a]));
        let m = choose|m: int| #[trigger] last_row_of(lines, upto, m, rows[a].0) && rows[a].1@ == lines[m]@;
        assert(last_row_of(lines, upto + 1, m, rows[a].0));
    }
}

proof fn lemma_rows_replace(
    lines: Seq<String>,
    upto: int,
    rows: Seq<(u8, String)>,
    pos: int,
    line: String,
)
    requires
        0 <= upto < lines.len(),
        last_rows(lines, upto, rows),
        0 <= pos < rows.len(),
        row_key(lines[upto]@) == Some(rows[pos].0),
        line@ == lines[upto]@,
    ensures
        last_rows(lines, upto + 1, rows.update(pos, (rows[pos].0, line))),
{
    let k = rows[pos].0;
    let new = rows.update(pos, (k, line));
    assert forall|a: int| 0 <= a < new.len() implies row_witnessed(lines, upto + 1, #[trigger] new[a]) by {
        if a == pos {
            assert(new[a] == (k, line));
            assert(last_row_of(lines, upto + 1, upto, new[a].0) && new[a].1@ == lines[upto]@);
        } else {
            assert(row_witnessed(lines, upto, rows[a]));
            let m = choose|m: int| #[trigger] last_row_of(lines, upto, m, rows[a].0) && rows[a].1@ == lines[m]@;
            assert(rows[a].0 != k) by {
                if a < pos {
                    assert(rows[a].0 < rows[pos].0);
                } else {
                    assert(rows[pos].0 < rows[a].0);
                }
            }
            assert(last_row_of(lines, upto + 1, m, new[a].0));
        }
    }
    assert forall|m: int| 0 <= m < upto + 1 && (#[trigger] row_key(lines[m]@)) is Some implies key_listed(
        new,
        row_key(lines[m]@).unwrap(),
    ) by {
        if m == upto {
            assert(new[pos].0 == k);
        } else {
            assert(key_listed(rows, row_key(lines[m]@).unwrap()));
            let a = choose|a: int| 0 <= a < rows.len() && (#[trigger] rows[a]).0 == row_key(lines[m]@).unwrap();
            assert(new[a].0 == rows[a].0);
        }
    }
}

proof fn lemma_rows_insert_sorted(rows: Seq<(u8, String)>, pos: int, k: u8, line: String)
    requires
        forall|a: int, b: int| 0 <= a < b < rows.len() ==> (#[trigger] rows[a]).0 < (#[trigger] rows[b]).0,
        0 <= pos <= rows.len(),
        forall|b: int| 0 <= b < pos ==> (#[trigger] rows[b]).0 < k,
        pos < rows.len() ==> k < rows[pos].0,
    ensures
        forall|b: int| pos <= b < rows.len() ==> k < (#[trigger] rows[b]).0,
        ({
            let new = rows.insert(pos, (k, line));
            forall|a: int, b: int| 0 <= a < b < new.len() ==> (#[trigger] new[a]).0 < (#[trigger] new[b]).0
        }),
{
    assert forall|b: int| pos <= b < rows.len() implies k < (#[trigger] rows[b]).0 by {
        if b > pos {
            assert(rows[pos].0 < rows[b].0);
        }
    }
    let new = rows.insert(pos, (k, line));
    assert forall|a: int, b: int| 0 <= a < b < new.len() implies (#[trigger] new[a]).0 < (#[trigger] new[b]).0 by {
        if b < pos {
            assert(new[a] == rows[a] && new[b] == rows[b]);
        } else if b == pos {
            assert(new[a] == rows[a]);
        } else if a < pos {
            assert(new[a] == rows[a] && new[b] == rows[b - 1]);
        } else if a == pos {
            assert(new[b] == rows[b - 1]);
        } else {
            assert(new[a] == rows[a - 1] && new[b] == rows[b - 1]);
        }
    }
}

proof fn lemma_rows_insert(
    lines: Seq<String>,
    upto: int,
    rows: Seq<(u8, String)>,
    pos: int,
    k: u8,
    line: String,
)
    requires
        0 <= upto < lines.len(),
        last_rows(lines, upto, rows),
        0 <= pos <= rows.len(),
        forall|b: int| 0 <= b < pos ==> (#[trigger] rows[b]).0 < k,
        pos < rows.len() ==> k < rows[pos].0,
        row_key(lines[upto]@) == Some(k),
        line@ == lines[upto]@,
    ensures
        last_rows(lines, upto + 1, rows.insert(pos, (k, line))),
{
    lemma_rows_insert_sorted(rows, pos, k, line);
    let new = rows.insert(pos, (k, line));
    assert forall|a: int| 0 <= a < new.len() implies row_witnessed(lines, upto + 1, #[trigger] new[a]) by {
        if a == pos {
            assert(new[a] == (k, line));
            assert(last_row_of(lines, upto + 1, upto, new[a].0) && new[a].1@ == lines[upto]@);
        } else {
            let old_a = if a < pos {
                a
            } else {
                a - 1
            };
            assert(new[a] == rows[old_a]);
            assert(row_witnessed(lines, upto, rows[old_a]));
            let m = choose|m: int| #[trigger] last_row_of(lines, upto, m, rows[old_a].0) && rows[old_a].1@ == lines[m]@;
            assert(rows[old_a].0 != k);
            assert(last_row_of(lines, upto + 1, m, new[a].0));
        }
    }
    assert forall|m: int| 0 <= m < upto + 1 && (#[trigger] row_key(lines[m]@)) is Some implies key_listed(
        new,
        row_key(lines[m]@).unwrap(),
    ) by {
        if m == upto {
            assert(new[pos].0 == k);
        } else {
            assert(key_listed(rows, row_key(lines[m]@).unwrap()));
            let a = choose|a: int| 0 <= a < rows.len() && (#[trigger] rows[a]).0 == row_key(lines[m]@).unwrap();
            if a < pos {
                assert(new[a] == rows[a]);
            } else {
                assert(new[a + 1] == rows[a]);
            }
        }
    }
}

/// The stream rows among the prober's `lines`, one per stream index (the
/// last printed: sectioned containers print a stream several times, the
/// complete row last), ascending by index.
pub fn select_stream_rows(lines: Vec<String>) -> (rows: Vec<(u8, String)>)
    ensures
        last_rows(lines@, lines@.len() as int, rows@),
{
    let ghost all = lines@;
    let mut rows: Vec<(u8, String)> = Vec::new();
    for line in it: lines
        invariant
            it.seq() == all,
            last_rows(all, it.index() as int, rows@),
    {
        let ghost j = it.index() as int;
        proof {
            assert(all[j] == line);
        }
        match row_key_of(line.as_str()) {
            None => {
                proof {
                    lemma_rows_skip(all, j, rows@);
                }
            },
            Some(k) => {
                let mut pos: usize = 0;
                while pos < rows.len() && rows[pos].0 < k
                    invariant
                        pos <= rows@.len(),
                        forall|b: int| 0 <= b < pos ==> (#[trigger] rows@[b]).0 < k,
                    decreases rows@.len() - pos,
                {
                    pos = pos + 1;
                }
                if pos < rows.len() && rows[pos].0 == k {
                    proof {
                        lemma_rows_replace(all, j, rows@, pos as int, line);
                    }
                    rows.set(pos, (k, line));
                } else {
                    proof {
                        lemma_rows_insert(all, j, rows@, pos as int, k, line);
                    }
                    rows.insert(pos, (k, line));
                }
            },
        }
    }
    rows
}

/// Read every selected row, in order; the first unreadable row decides the error.
pub fn parse_stream_rows(rows: &Vec<(u8, String)>) -> (r: Result<Vec<ProbedStream>, ProbeError>)
    ensures
        match r {
            Ok(ps) => ps@.len() == rows@.len() && forall|i: int|
                0 <= i < rows@.len() ==> {
                    let f = #[trigger] split_spec(rows@[i].1@, ',');
                    row_error(f) is None && row_parsed(rows@[i].0, f, ps@[i])
                },
            Err(e) => exists|i: int|
                0 <= i < rows@.len() && row_error(#[trigger] split_spec(rows@[i].1@, ',')) == Some(e)
                    && forall|j: int|
                    0 <= j < i ==> row_error(#[trigger] split_spec(rows@[j].1@, ',')) is None,
        },
{
    let mut out: Vec<ProbedStream> = Vec::new();
    let mut i: usize = 0;
    while i < rows.len()
        invariant
            i <= rows@.len(),
            out@.len() == i,
            forall|j: int|
                0 <= j < i ==> {
                    let f = #[trigger] split_spec(rows@[j].1@, ',');
                    row_error(f) is None && row_parsed(rows@[j].0, f, out@[j])
                },
        decreases rows@.len() - i,
    {
        match parse_stream_row(rows[i].0, rows[i].1.as_str()) {
            Ok(p) => out.push(p),
            Err(e) => {
                return Err(e);
            },
        }
        i = i + 1;
    }
    Ok(out)
}

// === Packet and frame rows =================================================

/// Column `k` read by `str::parse::<i64>`, when the row has one.
pub open spec fn i64_field(f: Seq<Seq<char>>, k: int) -> Option<i64> {
    if k < f.len() {
        match parse_int_spec(f[k], true, i64::MIN as int, i64::MAX as int) {
            Some(v) => Some(v as i64),
            None => None,
        }
    } else {
        None
    }
}

/// A demuxed-packet row `stream_index,pts,duration,flags`, already trimmed.
/// Rows without a readable stream index or timestamp give nothing, and so do
/// packets the demuxer discards (flag `D`: samples an edit list trims away);
/// flag `K` marks a keyframe.
pub open spec fn packet_row(t: Seq<char>) -> Option<(u8, TimingPacket)> {
    let f = split_spec(t, ',');
    let flags = if f.len() > 3 {
        f[3]
    } else {
        Seq::<char>::empty()
    };
    match (parse_int_spec(f[0], false, 0, u8::MAX as int), i64_field(f, 1)) {
        (Some(idx), Some(pts)) => if flags.contains('D') {
            None
        } else {
            Some((idx as u8, TimingPacket { pts, duration: i64_field(f, 2), key_frame: flags.contains('K') }))
        },
        _ => None,
    }
}

/// A decoded-frame row `stream_index,key_frame,best_effort_timestamp,duration`,
/// already trimmed (the prober prints frame columns in this fixed order).
pub open spec fn frame_row(t: Seq<char>) -> Option<(u8, TimingPacket)> {
    let f = split_spec(t, ',');
    match (parse_int_spec(f[0], false, 0, u8::MAX as int), i64_field(f, 2)) {
        (Some(idx), Some(pts)) => Some(
            (
                idx as u8,
                TimingPacket { pts, duration: i64_field(f, 3), key_frame: f[1] == seq!['1'] },
            ),
        ),
        _ => None,
    }
}

fn i64_field_of(f: &Vec<Vec<char>>, k: usize, Ghost(fs): Ghost<Seq<Seq<char>>>) -> (r: Option<i64>)
    requires
        f@.len() == fs.len(),
        forall|j: int| 0 <= j < f@.len() ==> (#[trigger] f@[j])@ == fs[j],
    ensures
        r == i64_field(fs, k as int),
{
    if k < f.len() {
        parse_i64(f[k].as_slice())
    } else {
        None
    }
}

/// One demuxed-packet row of the prober.
pub fn parse_packet_row(line: &str) -> (r: Option<(u8, TimingPacket)>)
    ensures
        r == packet_row(trimmed(line@)),
{
    let chars = chars_of(line);
    let t = trim_chars(chars.as_slice());
    let f = split_chars(t.as_slice(), ',');
    let ghost fs = split_spec(t@, ',');
    proof {
        crate::text::lemma_split_nonempty(t@, ',');
    }
    let idx = match parse_u8(f[0].as_slice()) {
        Some(i) => i,
        None => return None,
    };
    let pts = match i64_field_of(&f, 1, Ghost(fs)) {
        Some(p) => p,
        None => return None,
    };
    let duration = i64_field_of(&f, 2, Ghost(fs));
    let (discard, key_frame) = if f.len() > 3 {
        (contains_char(f[3].as_slice(), 'D'), contains_char(f[3].as_slice(), 'K'))
    } else {
        (false, false)
    };
    if discard {
        return None;
    }
    Some((idx, TimingPacket { pts, duration, key_frame }))
}

/// One decoded-frame row of the prober.
pub fn parse_frame_row(line: &str) -> (r: Option<(u8, TimingPacket)>)
    ensures
        r == frame_row(trimmed(line@)),
{
    let chars = chars_of(line);
    let t = trim_chars(chars.as_slice());
    let f = split_chars(t.as_slice(), ',');
    let ghost fs = split_spec(t@, ',');
    proof {
        crate::text::lemma_split_nonempty(t@, ',');
        reveal_strlit("1");
        assert("1"@ =~= seq!['1']);
    }
    let idx = match parse_u8(f[0].as_slice()) {
        Some(i) => i,
        None => return None,
    };
    let pts = match i64_field_of(&f, 2, Ghost(fs)) {
        Some(p) => p,
        None => return None,
    };
    let key_frame = chars_is(f[1].as_slice(), "1");
    let duration = i64_field_of(&f, 3, Ghost(fs));
    Some((idx, TimingPacket { pts, duration, key_frame }))
}

/// The packets among demuxed-packet rows, in order.
pub open spec fn demux_timings(lines: Seq<String>) -> Seq<(u8, TimingPacket)>
    decreases lines.len(),
{
    if lines.len() == 0 {
        Seq::empty()
    } else {
        let r = demux_timings(lines.drop_last());
        match packet_row(trimmed(lines.last()@)) {
            Some(p) => r.push(p),
            None => r,
        }
    }
}

/// The frames among decoded-frame rows, in order.
pub open spec fn decode_timings(lines: Seq<String>) -> Seq<(u8, TimingPacket)>
    decreases lines.len(),
{
    if lines.len() == 0 {
        Seq::empty()
    } else {
        let r = decode_timings(lines.drop_last());
        match frame_row(trimmed(lines.last()@)) {
            Some(p) => r.push(p),
            None => r,
        }
    }
}

/// Video timing from demuxed packets, without decoding: the prober's
/// packet rows, read in order, skipping rows that give no packet.
pub fn video_timings_by_demux(lines: &Vec<String>) -> (r: Vec<(u8, TimingPacket)>)
    ensures
        r@ == demux_timings(lines@),
{
    let mut r: Vec<(u8, TimingPacket)> = Vec::new();
    let mut i: usize = 0;
    while i < lines.len()
        invariant
            i <= lines@.len(),
            r@ == demux_timings(lines@.take(i as int)),
        decreases lines@.len() - i,
    {
        proof {
            assert(lines@.take(i + 1).drop_last() =~= lines@.take(i as int));
        }
        match parse_packet_row(lines[i].as_str()) {
            Some(p) => r.push(p),
            None => {},
        }
        i = i + 1;
    }
    proof {
        assert(lines@.take(lines@.len() as int) =~= lines@);
    }
    r
}

/// Video timing from a full decode: the prober's frame rows, read in order,
/// skipping rows that give no frame. Slower to produce, but ground truth.
pub fn video_timings_by_decode(lines: &Vec<String>) -> (r: Vec<(u8, TimingPacket)>)
    ensures
        r@ == decode_timings(lines@),
{
    let mut r: Vec<(u8, TimingPacket)> = Vec::new();
    let mut i: usize = 0;
    while i < lines.len()
        invariant
            i <= lines@.len(),
            r@ == decode_timings(lines@.take(i as int)),
        decreases lines@.len() - i,
    {
        proof {
            assert(lines@.take(i + 1).drop_last() =~= lines@.take(i as int));
        }
        match parse_frame_row(lines[i].as_str()) {
            Some(p) => r.push(p),
            None => {},
        }
        i = i + 1;
    }
    proof {
        assert(lines@.take(lines@.len() as int) =~= lines@);
    }
    r
}

} // verus!
