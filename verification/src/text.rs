//! Text handling for line-oriented tool output: character views, splitting,
//! trimming and decimal integer parsing with the semantics of `str::split`,
//! `str::trim` and `str::parse`.
use vstd::prelude::*;

verus! {

/// The characters of `s`, in order.
pub fn chars_of(s: &str) -> (v: Vec<char>)
    ensures
        v@ == s@,
{
    broadcast use vstd::string::group_string_axioms;

    let mut v: Vec<char> = Vec::new();
    for c in it: s.chars()
        invariant
            v@ == it.seq().take(it.index() as int),
            it.seq() == s@,
    {
        v.push(c);
    }
    v
}

/// A string holding `v`.
#[verifier::external_body]
pub(crate) fn string_of(v: &[char]) -> (s: String)
    ensures
        s@ == v@,
{
    v.iter().collect()
}

/// `str == str` (std): content equality.
#[verifier::external_body]
pub(crate) fn str_eq(a: &str, b: &str) -> (r: bool)
    ensures
        r == (a@ == b@),
{
    a == b
}

/// Whether two character sequences are equal.
pub fn chars_eq(a: &[char], b: &[char]) -> (r: bool)
    ensures
        r == (a@ == b@),
{
    if a.len() != b.len() {
        return false;
    }
    let mut i: usize = 0;
    while i < a.len()
        invariant
            a@.len() == b@.len(),
            i <= a@.len(),
            forall|j: int| 0 <= j < i ==> a@[j] == b@[j],
        decreases a@.len() - i,
    {
        if a[i] != b[i] {
            return false;
        }
        i = i + 1;
    }
    assert(a@ =~= b@);
    true
}

/// Whether `a` holds exactly the characters of `lit`.
pub fn chars_is(a: &[char], lit: &str) -> (r: bool)
    ensures
        r == (a@ == lit@),
{
    let l = chars_of(lit);
    chars_eq(a, l.as_slice())
}

/// Whether `c` occurs in `v`.
pub fn contains_char(v: &[char], c: char) -> (r: bool)
    ensures
        r == v@.contains(c),
{
    let mut i: usize = 0;
    while i < v.len()
        invariant
            i <= v@.len(),
            forall|j: int| 0 <= j < i ==> v@[j] != c,
        decreases v@.len() - i,
    {
        if v[i] == c {
            return true;
        }
        i = i + 1;
    }
    false
}

// === Splitting =============================================================

/// The pieces of `s` between occurrences of `sep`, as `str::split` yields them
/// (an empty string yields one empty piece).
pub open spec fn split_spec(s: Seq<char>, sep: char) -> Seq<Seq<char>>
    decreases s.len(),
{
    if s.len() == 0 {
        seq![Seq::<char>::empty()]
    } else {
        let parts = split_spec(s.drop_last(), sep);
        if s.last() == sep {
            parts.push(Seq::<char>::empty())
        } else {
            parts.update(parts.len() - 1, parts.last().push(s.last()))
        }
    }
}

pub proof fn lemma_split_nonempty(s: Seq<char>, sep: char)
    ensures
        split_spec(s, sep).len() >= 1,
    decreases s.len(),
{
    if s.len() > 0 {
        lemma_split_nonempty(s.drop_last(), sep);
    }
}

/// `str::split(sep)` collected into owned pieces.
pub fn split_chars(s: &[char], sep: char) -> (parts: Vec<Vec<char>>)
    ensures
        parts@.len() == split_spec(s@, sep).len(),
        forall|i: int| 0 <= i < parts@.len() ==> #[trigger] parts@[i]@ == split_spec(s@, sep)[i],
{
    let mut parts: Vec<Vec<char>> = Vec::new();
    let mut current: Vec<char> = Vec::new();
    let mut i: usize = 0;
    while i < s.len()
        invariant
            i <= s@.len(),
            parts@.len() + 1 == split_spec(s@.take(i as int), sep).len(),
            forall|k: int| 0 <= k < parts@.len() ==> #[trigger] parts@[k]@ == split_spec(s@.take(i as int), sep)[k],
            current@ == split_spec(s@.take(i as int), sep).last(),
        decreases s@.len() - i,
    {
        proof {
            lemma_split_nonempty(s@.take(i as int), sep);
            assert(s@.take(i + 1).drop_last() =~= s@.take(i as int));
            assert(s@.take(i + 1).last() == s@[i as int]);
        }
        let c = s[i];
        if c == sep {
            let done = current;
            parts.push(done);
            current = Vec::new();
        } else {
            current.push(c);
        }
        i = i + 1;
    }
    proof {
        lemma_split_nonempty(s@, sep);
        assert(s@.take(s@.len() as int) =~= s@);
    }
    parts.push(current);
    parts
}

// === Trimming ==============================================================

/// The Unicode `White_Space` characters, which `char::is_whitespace` accepts.
pub open spec fn is_whitespace(c: char) -> bool {
    let u = c as u32;
    (0x9 <= u && u <= 0xD) || u == 0x20 || u == 0x85 || u == 0xA0 || u == 0x1680 || (0x2000 <= u
        && u <= 0x200A) || u == 0x2028 || u == 0x2029 || u == 0x202F || u == 0x205F || u == 0x3000
}

pub fn char_is_whitespace(c: char) -> (r: bool)
    ensures
        r == is_whitespace(c),
{
    let u = c as u32;
    (0x9 <= u && u <= 0xD) || u == 0x20 || u == 0x85 || u == 0xA0 || u == 0x1680 || (0x2000 <= u
        && u <= 0x200A) || u == 0x2028 || u == 0x2029 || u == 0x202F || u == 0x205F || u == 0x3000
}

/// The leading run of non-whitespace characters of `s`.
pub open spec fn leading_word(s: Seq<char>) -> Seq<char>
    decreases s.len(),
{
    if s.len() == 0 || is_whitespace(s[0]) {
        seq![]
    } else {
        seq![s[0]] + leading_word(s.drop_first())
    }
}

pub proof fn lemma_leading_word_len(s: Seq<char>)
    ensures
        leading_word(s).len() <= s.len(),
        s.len() > 0 && !is_whitespace(s[0]) ==> leading_word(s).len() >= 1,
    decreases s.len(),
{
    if s.len() > 0 && !is_whitespace(s[0]) {
        lemma_leading_word_len(s.drop_first());
    }
}

/// `str::split_whitespace`: the maximal runs of non-whitespace characters of
/// `s`, in order.
pub open spec fn words(s: Seq<char>) -> Seq<Seq<char>>
    decreases s.len(),
{
    if s.len() == 0 {
        seq![]
    } else if is_whitespace(s[0]) {
        words(s.drop_first())
    } else {
        proof {
            lemma_leading_word_len(s);
        }
        seq![leading_word(s)] + words(s.skip(leading_word(s).len() as int))
    }
}

proof fn lemma_leading_word_is_run(t: Seq<char>, k: int)
    requires
        0 <= k <= t.len(),
        forall|j: int| 0 <= j < k ==> !is_whitespace(#[trigger] t[j]),
        k == t.len() || is_whitespace(t[k]),
    ensures
        leading_word(t) == t.take(k),
    decreases k,
{
    if k > 0 {
        lemma_leading_word_is_run(t.drop_first(), k - 1);
        assert(t.take(k) =~= seq![t[0]] + t.drop_first().take(k - 1));
    } else {
        assert(t.take(0) =~= Seq::<char>::empty());
    }
}

/// The whitespace-separated words of `s`.
pub fn words_of(s: &[char]) -> (r: Vec<Vec<char>>)
    ensures
        r@.map_values(|w: Vec<char>| w@) == words(s@),
{
    let n = s.len();
    let mut out: Vec<Vec<char>> = Vec::new();
    let mut i: usize = 0;
    proof {
        assert(s@.skip(0) =~= s@);
    }
    while i < n
        invariant
            n == s@.len(),
            i <= n,
            words(s@) == out@.map_values(|w: Vec<char>| w@) + words(s@.skip(i as int)),
        decreases n - i,
    {
        let ghost t = s@.skip(i as int);
        if char_is_whitespace(s[i]) {
            proof {
                assert(t.drop_first() =~= s@.skip(i + 1));
            }
            i = i + 1;
        } else {
            let mut j: usize = i;
            let mut w: Vec<char> = Vec::new();
            while j < n && !char_is_whitespace(s[j])
                invariant
                    n == s@.len(),
                    i <= j <= n,
                    w@ == s@.subrange(i as int, j as int),
                    forall|q: int| i <= q < j ==> !is_whitespace(#[trigger] s@[q]),
                decreases n - j,
            {
                w.push(s[j]);
                j = j + 1;
                proof {
                    assert(w@ =~= s@.subrange(i as int, j as int));
                }
            }
            proof {
                let k = (j - i) as int;
                assert forall|q: int| 0 <= q < k implies !is_whitespace(#[trigger] t[q]) by {
                    assert(t[q] == s@[i + q]);
                }
                lemma_leading_word_is_run(t, k);
                assert(t.take(k) =~= s@.subrange(i as int, j as int));
                assert(t.skip(k) =~= s@.skip(j as int));
                assert(words(t) == seq![w@] + words(s@.skip(j as int)));
            }
            let ghost before = out@.map_values(|w: Vec<char>| w@);
            out.push(w);
            proof {
                assert(out@.map_values(|w: Vec<char>| w@) =~= before.push(s@.subrange(i as int, j as int)));
                assert(before + words(t) =~= out@.map_values(|w: Vec<char>| w@) + words(s@.skip(j as int)));
            }
            i = j;
        }
    }
    proof {
        assert(s@.skip(n as int) =~= Seq::<char>::empty());
        assert(out@.map_values(|w: Vec<char>| w@) + Seq::<Seq<char>>::empty() =~= out@.map_values(
            |w: Vec<char>| w@,
        ));
    }
    out
}

/// Whether `s[lo..hi]` is what `str::trim` leaves of `s`.
pub open spec fn is_trim_of(s: Seq<char>, lo: int, hi: int) -> bool {
    &&& 0 <= lo <= hi <= s.len()
    &&& forall|j: int| 0 <= j < lo ==> is_whitespace(#[trigger] s[j])
    &&& forall|j: int| hi <= j < s.len() ==> is_whitespace(#[trigger] s[j])
    &&& lo < hi ==> !is_whitespace(s[lo]) && !is_whitespace(s[hi - 1])
}

/// What `str::trim` leaves of `s`.
pub open spec fn trimmed(s: Seq<char>) -> Seq<char> {
    let (lo, hi) = choose|lo: int, hi: int| is_trim_of(s, lo, hi);
    s.subrange(lo, hi)
}

/// Any two ways of trimming `s` leave the same characters.
pub proof fn lemma_trim_unique(s: Seq<char>, lo: int, hi: int, lo2: int, hi2: int)
    requires
        is_trim_of(s, lo, hi),
        is_trim_of(s, lo2, hi2),
    ensures
        s.subrange(lo, hi) == s.subrange(lo2, hi2),
{
    if lo < hi {
        assert(!is_whitespace(s[lo]));
        assert(!is_whitespace(s[hi - 1]));
        if lo2 < hi2 {
            assert(!is_whitespace(s[lo2]));
            assert(!is_whitespace(s[hi2 - 1]));
            assert(lo == lo2);
            assert(hi == hi2);
        } else {
            if lo < lo2 {
                assert(is_whitespace(s[lo]));
            } else {
                assert(is_whitespace(s[lo]));
            }
        }
    } else if lo2 < hi2 {
        assert(!is_whitespace(s[lo2]));
        if lo2 < lo {
            assert(is_whitespace(s[lo2]));
        } else {
            assert(is_whitespace(s[lo2]));
        }
    } else {
        assert(s.subrange(lo, hi) =~= s.subrange(lo2, hi2));
    }
}

/// `str::trim`: `s` without leading and trailing whitespace.
pub fn trim_chars(s: &[char]) -> (r: Vec<char>)
    ensures
        r@ == trimmed(s@),
{
    let mut lo: usize = 0;
    while lo < s.len() && char_is_whitespace(s[lo])
        invariant
            lo <= s@.len(),
            forall|j: int| 0 <= j < lo ==> is_whitespace(#[trigger] s@[j]),
        decreases s@.len() - lo,
    {
        lo = lo + 1;
    }
    let mut hi: usize = s.len();
    while hi > lo && char_is_whitespace(s[hi - 1])
        invariant
            lo <= hi <= s@.len(),
            forall|j: int| hi <= j < s@.len() ==> is_whitespace(#[trigger] s@[j]),
        decreases hi,
    {
        hi = hi - 1;
    }
    let mut r: Vec<char> = Vec::new();
    let mut k = lo;
    while k < hi
        invariant
            lo <= k <= hi,
            hi <= s@.len(),
            r@ == s@.subrange(lo as int, k as int),
        decreases hi - k,
    {
        r.push(s[k]);
        k = k + 1;
        assert(r@ =~= s@.subrange(lo as int, k as int));
    }
    proof {
        assert(is_trim_of(s@, lo as int, hi as int));
        let (l2, h2) = choose|l2: int, h2: int| is_trim_of(s@, l2, h2);
        lemma_trim_unique(s@, lo as int, hi as int, l2, h2);
    }
    r
}

// === Decimal integers ======================================================

pub open spec fn is_digit(c: char) -> bool {
    '0' <= c && c <= '9'
}

pub open spec fn digit_value(c: char) -> int {
    (c as u32) - ('0' as u32)
}

/// The value of a run of decimal digits.
pub open spec fn digits_value(s: Seq<char>) -> int
    decreases s.len(),
{
    if s.len() == 0 {
        0
    } else {
        digits_value(s.drop_last()) * 10 + digit_value(s.last())
    }
}

pub open spec fn all_digits(s: Seq<char>) -> bool {
    forall|j: int| 0 <= j < s.len() ==> is_digit(#[trigger] s[j])
}

/// What `str::parse` accepts for an integer type: an optional sign (`-` only
/// when `signed`), then one or more ASCII digits. The value is unbounded here.
pub open spec fn int_text(s: Seq<char>, signed: bool) -> Option<int> {
    if s.len() >= 1 && s[0] == '+' && s.len() >= 2 && all_digits(s.drop_first()) {
        Some(digits_value(s.drop_first()))
    } else if signed && s.len() >= 2 && s[0] == '-' && all_digits(s.drop_first()) {
        Some(-digits_value(s.drop_first()))
    } else if s.len() >= 1 && all_digits(s) {
        Some(digits_value(s))
    } else {
        None
    }
}

/// `str::parse::<T>` for an integer type with range `lo..=hi`.
pub open spec fn parse_int_spec(s: Seq<char>, signed: bool, lo: int, hi: int) -> Option<int> {
    match int_text(s, signed) {
        Some(v) => if lo <= v <= hi {
            Some(v)
        } else {
            None
        },
        None => None,
    }
}

proof fn lemma_digits_nonneg(s: Seq<char>)
    requires
        all_digits(s),
    ensures
        digits_value(s) >= 0,
    decreases s.len(),
{
    if s.len() > 0 {
        lemma_digits_nonneg(s.drop_last());
    }
}

/// The digits of `s[from..]` as a number at most `max`; `None` when some
/// character is not a digit or the value exceeds `max`.
fn digits_bounded(s: &[char], from: usize, max: u128) -> (r: Option<u128>)
    requires
        from <= s@.len(),
        max <= u64::MAX as u128 + 1,
    ensures
        r matches Some(v) ==> all_digits(s@.subrange(from as int, s@.len() as int)) && v
            == digits_value(s@.subrange(from as int, s@.len() as int)) && v <= max,
        r is None ==> !all_digits(s@.subrange(from as int, s@.len() as int)) || digits_value(
            s@.subrange(from as int, s@.len() as int),
        ) > max,
{
    let mut acc: u128 = 0;
    let mut i = from;
    while i < s.len()
        invariant
            from <= i <= s@.len(),
            max <= u64::MAX as u128 + 1,
            all_digits(s@.subrange(from as int, i as int)),
            acc == digits_value(s@.subrange(from as int, i as int)),
            acc <= max,
        decreases s@.len() - i,
    {
        let c = s[i];
        proof {
            assert(s@.subrange(from as int, i + 1).drop_last() =~= s@.subrange(
                from as int,
                i as int,
            ));
            assert(s@.subrange(from as int, i + 1).last() == c);
        }
        if !('0' <= c && c <= '9') {
            proof {
                assert(s@.subrange(from as int, s@.len() as int)[i - from] == c);
            }
            return None;
        }
        let d = (c as u32 - '0' as u32) as u128;
        assert(acc * 10 + d <= u128::MAX) by (nonlinear_arith)
            requires
                acc <= u64::MAX as u128 + 1,
                d <= 9,
        ;
        acc = acc * 10 + d;
        i = i + 1;
        proof {
            assert(all_digits(s@.subrange(from as int, i as int))) by {
                assert forall|j: int| 0 <= j < i - from implies is_digit(
                    #[trigger] s@.subrange(from as int, i as int)[j],
                ) by {
                    if j < i - 1 - from {
                        assert(s@.subrange(from as int, i as int)[j] == s@.subrange(
                            from as int,
                            i - 1,
                        )[j]);
                    }
                }
            }
        }
        if acc > max {
            proof {
                lemma_prefix_value_bound(s@, from as int, i as int);
            }
            return None;
        }
    }
    Some(acc)
}

/// If a prefix of the digits already exceeds a value, so does the whole run.
proof fn lemma_prefix_value_bound(s: Seq<char>, from: int, k: int)
    requires
        0 <= from < k <= s.len(),
        all_digits(s.subrange(from, k)),
    ensures
        all_digits(s.subrange(from, s.len() as int)) ==> digits_value(s.subrange(from, s.len() as int))
            >= digits_value(s.subrange(from, k)),
    decreases s.len() - k,
{
    if k < s.len() && all_digits(s.subrange(from, s.len() as int)) {
        assert(all_digits(s.subrange(from, k + 1))) by {
            assert forall|j: int| 0 <= j < k + 1 - from implies is_digit(
                #[trigger] s.subrange(from, k + 1)[j],
            ) by {
                assert(s.subrange(from, k + 1)[j] == s.subrange(from, s.len() as int)[j]);
            }
        }
        lemma_prefix_value_bound(s, from, k + 1);
        assert(s.subrange(from, k + 1).drop_last() =~= s.subrange(from, k));
        lemma_digits_nonneg(s.subrange(from, k));
        let last = s.subrange(from, k + 1).last();
        assert(is_digit(last));
        assert(digits_value(s.subrange(from, k + 1)) >= digits_value(s.subrange(from, k))) by (nonlinear_arith)
            requires
                digits_value(s.subrange(from, k + 1)) == digits_value(s.subrange(from, k)) * 10
                    + digit_value(last),
                digits_value(s.subrange(from, k)) >= 0,
                digit_value(last) >= 0,
        ;
    }
}

/// `str::parse` for an integer type whose range is `lo..=hi`.
fn parse_int(s: &[char], signed: bool, lo: i128, hi: i128) -> (r: Option<i128>)
    requires
        -(u64::MAX as i128 + 1) <= lo <= 0,
        0 <= hi <= u64::MAX as i128,
    ensures
        r matches Some(v) ==> parse_int_spec(s@, signed, lo as int, hi as int) == Some(v as int),
        r is None ==> parse_int_spec(s@, signed, lo as int, hi as int) is None,
{
    let n = s.len();
    if n >= 2 && s[0] == '+' {
        proof {
            assert(s@.subrange(1, n as int) =~= s@.drop_first());
        }
        match digits_bounded(s, 1, hi as u128) {
            Some(v) => Some(v as i128),
            None => {
                proof {
                    lemma_not_both_forms(s@);
                }
                None
            },
        }
    } else if signed && n >= 2 && s[0] == '-' {
        proof {
            assert(s@.subrange(1, n as int) =~= s@.drop_first());
            assert(!is_digit(s@[0]));
        }
        match digits_bounded(s, 1, (-lo) as u128) {
            Some(v) => Some(-(v as i128)),
            None => None,
        }
    } else if n >= 1 {
        proof {
            assert(s@.subrange(0, n as int) =~= s@);
        }
        match digits_bounded(s, 0, hi as u128) {
            Some(v) => {
                proof {
                    assert(!(s@[0] == '+')) by {
                        assert(is_digit(s@[0]));
                    }
                }
                Some(v as i128)
            },
            None => {
                proof {
                    if n == 1 && s@[0] == '+' {
                        assert(!is_digit(s@[0]));
                    }
                }
                None
            },
        }
    } else {
        None
    }
}

proof fn lemma_not_both_forms(s: Seq<char>)
    requires
        s.len() >= 1,
        s[0] == '+',
    ensures
        !all_digits(s),
{
    assert(!is_digit(s[0]));
}

/// `str::parse::<u8>`.
pub fn parse_u8(s: &[char]) -> (r: Option<u8>)
    ensures
        r matches Some(v) ==> parse_int_spec(s@, false, 0, u8::MAX as int) == Some(v as int),
        r is None ==> parse_int_spec(s@, false, 0, u8::MAX as int) is None,
{
    match parse_int(s, false, 0, u8::MAX as i128) {
        Some(v) => Some(v as u8),
        None => None,
    }
}

/// `str::parse::<u32>`.
pub fn parse_u32(s: &[char]) -> (r: Option<u32>)
    ensures
        r matches Some(v) ==> parse_int_spec(s@, false, 0, u32::MAX as int) == Some(v as int),
        r is None ==> parse_int_spec(s@, false, 0, u32::MAX as int) is None,
{
    match parse_int(s, false, 0, u32::MAX as i128) {
        Some(v) => Some(v as u32),
        None => None,
    }
}

/// `str::parse::<u64>`.
pub fn parse_u64(s: &[char]) -> (r: Option<u64>)
    ensures
        r matches Some(v) ==> parse_int_spec(s@, false, 0, u64::MAX as int) == Some(v as int),
        r is None ==> parse_int_spec(s@, false, 0, u64::MAX as int) is None,
{
    match parse_int(s, false, 0, u64::MAX as i128) {
        Some(v) => Some(v as u64),
        None => None,
    }
}

/// `str::parse::<usize>`.
pub fn parse_usize(s: &[char]) -> (r: Option<usize>)
    ensures
        r matches Some(v) ==> parse_int_spec(s@, false, 0, usize::MAX as int) == Some(v as int),
        r is None ==> parse_int_spec(s@, false, 0, usize::MAX as int) is None,
{
    match parse_int(s, false, 0, usize::MAX as i128) {
        Some(v) => Some(v as usize),
        None => None,
    }
}

/// `str::parse::<i64>`.
pub fn parse_i64(s: &[char]) -> (r: Option<i64>)
    ensures
        r matches Some(v) ==> parse_int_spec(s@, true, i64::MIN as int, i64::MAX as int) == Some(
            v as int,
        ),
        r is None ==> parse_int_spec(s@, true, i64::MIN as int, i64::MAX as int) is None,
{
    match parse_int(s, true, i64::MIN as i128, i64::MAX as i128) {
        Some(v) => Some(v as i64),
        None => None,
    }
}

// === Formatting integers ===================================================

/// The digit `d` (below 16) in lower-case hexadecimal.
pub open spec fn digit_char(d: int) -> char {
    if d < 10 {
        ((d + 48) as u8) as char
    } else {
        ((d - 10 + 97) as u8) as char
    }
}

/// `n` written in `base` (10 or 16) without leading zeros.
pub open spec fn digits_in(n: nat, base: nat) -> Seq<char>
    decreases n,
{
    if base < 2 || n < base {
        seq![digit_char(n as int)]
    } else {
        proof {
            assert(n / base < n) by (nonlinear_arith)
                requires
                    base >= 2,
                    n >= base,
            ;
        }
        digits_in(n / base, base).push(digit_char((n % base) as int))
    }
}

proof fn lemma_digit_char_value(d: int)
    requires
        0 <= d < 10,
    ensures
        digit_value(digit_char(d)) == d,
{
    let b = (d + 48) as u8;
    assert(b == d + 48);
    assert((b as char) as u32 == b);
}

/// Decimal digits read back give the number they were written from.
pub proof fn lemma_decimal_value(n: nat)
    ensures
        digits_value(digits_in(n, 10)) == n,
    decreases n,
{
    if n < 10 {
        lemma_digit_char_value(n as int);
        assert(digits_in(n, 10) == seq![digit_char(n as int)]);
        assert(seq![digit_char(n as int)].drop_last() =~= Seq::<char>::empty());
        assert(digits_value(Seq::<char>::empty()) == 0);
        assert(digits_value(digits_in(n, 10)) == digits_value(Seq::<char>::empty()) * 10 + digit_value(
            digit_char(n as int),
        ));
    } else {
        lemma_decimal_value(n / 10);
        lemma_digit_char_value((n % 10) as int);
        let s = digits_in(n, 10);
        assert(s.drop_last() =~= digits_in(n / 10, 10));
        assert(s.last() == digit_char((n % 10) as int));
        assert(digits_value(s) == digits_value(s.drop_last()) * 10 + digit_value(s.last()));
        assert((n / 10) * 10 + n % 10 == n);
    }
}

proof fn lemma_zeros_value(z: Seq<char>)
    requires
        forall|i: int| 0 <= i < z.len() ==> z[i] == '0',
    ensures
        digits_value(z) == 0,
    decreases z.len(),
{
    if z.len() > 0 {
        lemma_zeros_value(z.drop_last());
    }
}

proof fn lemma_leading_zeros_value(z: Seq<char>, s: Seq<char>)
    requires
        forall|i: int| 0 <= i < z.len() ==> z[i] == '0',
    ensures
        digits_value(z + s) == digits_value(s),
    decreases s.len(),
{
    if s.len() == 0 {
        assert(z + s =~= z);
        lemma_zeros_value(z);
    } else {
        lemma_leading_zeros_value(z, s.drop_last());
        assert((z + s).drop_last() =~= z + s.drop_last());
    }
}

/// Zero-padded decimal digits read back give the number they were written
/// from.
pub proof fn lemma_padded_decimal_value(n: nat, width: nat)
    ensures
        digits_value(padded(digits_in(n, 10), width, '0')) == n,
{
    lemma_decimal_value(n);
    let s = digits_in(n, 10);
    if s.len() < width {
        lemma_leading_zeros_value(Seq::new((width - s.len()) as nat, |i: int| '0'), s);
    }
}

/// `s` left-padded with `fill` to at least `width` characters.
pub open spec fn padded(s: Seq<char>, width: nat, fill: char) -> Seq<char> {
    if s.len() >= width {
        s
    } else {
        Seq::new((width - s.len()) as nat, |i: int| fill) + s
    }
}

fn digit_of(d: u64) -> (c: char)
    requires
        d < 16,
    ensures
        c == digit_char(d as int),
{
    if d < 10 {
        ((d + 48) as u8) as char
    } else {
        ((d - 10 + 97) as u8) as char
    }
}

/// `n` written in `base` (10 or 16, lower-case digits), left-padded with
/// zeros to at least `width` characters.
pub fn format_unsigned(n: u64, base: u64, width: usize) -> (r: String)
    requires
        base == 10 || base == 16,
    ensures
        r@ == padded(digits_in(n as nat, base as nat), width as nat, '0'),
{
    let mut acc: Vec<char> = Vec::new();
    let mut m: u64 = n;
    while m >= base
        invariant
            base == 10 || base == 16,
            digits_in(n as nat, base as nat) == digits_in(m as nat, base as nat) + acc@,
        decreases m,
    {
        let d = digit_of(m % base);
        let ghost before = acc@;
        acc.insert(0, d);
        proof {
            assert(digits_in(m as nat, base as nat) == digits_in((m / base) as nat, base as nat).push(d));
            assert(acc@ =~= seq![d] + before);
            assert(digits_in(n as nat, base as nat) =~= digits_in((m / base) as nat, base as nat) + acc@);
        }
        m = m / base;
    }
    let d = digit_of(m);
    let ghost before = acc@;
    acc.insert(0, d);
    proof {
        assert(digits_in(m as nat, base as nat) == seq![d]);
        assert(acc@ =~= digits_in(n as nat, base as nat));
    }
    let mut out: Vec<char> = Vec::new();
    let len = acc.len();
    if len < width {
        let mut k: usize = 0;
        while k < width - len
            invariant
                len < width,
                k <= width - len,
                out@ =~= Seq::new(k as nat, |i: int| '0'),
            decreases width - len - k,
        {
            out.push('0');
            k = k + 1;
        }
    }
    let ghost pad = out@;
    out.append(&mut acc);
    proof {
        assert(out@ =~= padded(digits_in(n as nat, base as nat), width as nat, '0'));
    }
    string_of(out.as_slice())
}


// === Paths =================================================================

/// The extension `std::path::Path::extension` finds in `path`, read as text.
pub uninterp spec fn path_extension(path: Seq<char>) -> Option<Seq<char>>;

/// `Path::extension` (std), converted to text.
///
/// Claims: the result is the extension std finds for this path (the part of
/// the final component after its last `.`, when that component has a `.`
/// that does not begin it). The rule is not restated here; it is named.
#[verifier::external_body]
pub(crate) fn extension_of(path: &str) -> (r: Option<String>)
    ensures
        match r {
            Some(e) => path_extension(path@) == Some(e@),
            None => path_extension(path@) is None,
        },
{
    match std::path::Path::new(path).extension() {
        Some(e) => Some(e.to_string_lossy().into_owned()),
        None => None,
    }
}

/// The stem `std::path::Path::file_stem` finds in `path`, read as text.
pub uninterp spec fn path_stem(path: Seq<char>) -> Option<Seq<char>>;

/// `Path::file_stem` (std), converted to text.
///
/// Claims: the result is the stem std finds for this path (the final
/// component without its extension). The rule is not restated here; it is
/// named.
#[verifier::external_body]
pub(crate) fn stem_of(path: &str) -> (r: Option<String>)
    ensures
        match r {
            Some(e) => path_stem(path@) == Some(e@),
            None => path_stem(path@) is None,
        },
{
    match std::path::Path::new(path).file_stem() {
        Some(e) => Some(e.to_string_lossy().into_owned()),
        None => None,
    }
}

// === Case and search =======================================================

/// `char::to_ascii_lowercase`: `A`..`Z` become `a`..`z`, every other
/// character stays.
pub open spec fn ascii_lower(c: char) -> char {
    if 'A' <= c && c <= 'Z' {
        ((c as u32) + 32) as char
    } else {
        c
    }
}

/// `str::to_ascii_lowercase`, character by character.
pub open spec fn ascii_lower_text(s: Seq<char>) -> Seq<char> {
    s.map_values(|c: char| ascii_lower(c))
}

/// The characters of `s` with ASCII letters made lower case.
pub fn to_ascii_lower(s: &[char]) -> (r: Vec<char>)
    ensures
        r@ == ascii_lower_text(s@),
{
    let mut out: Vec<char> = Vec::new();
    let mut i: usize = 0;
    while i < s.len()
        invariant
            i <= s@.len(),
            out@ == s@.take(i as int).map_values(|c: char| ascii_lower(c)),
        decreases s@.len() - i,
    {
        let c = s[i];
        let l = if 'A' <= c && c <= 'Z' {
            (((c as u32) as u8) + 32) as char
        } else {
            c
        };
        out.push(l);
        i = i + 1;
        proof {
            assert(out@ =~= s@.take(i as int).map_values(|c: char| ascii_lower(c)));
        }
    }
    proof {
        assert(s@.take(s@.len() as int) =~= s@);
    }
    out
}

/// `needle` occurs in `hay` starting at position `i`.
pub open spec fn occurs_at(hay: Seq<char>, needle: Seq<char>, i: int) -> bool {
    0 <= i && i + needle.len() <= hay.len() && hay.subrange(i, i + needle.len()) == needle
}

/// `str::contains` with a string pattern: `needle` occurs somewhere in `hay`.
pub open spec fn contains_text(hay: Seq<char>, needle: Seq<char>) -> bool {
    exists|i: int| #[trigger] occurs_at(hay, needle, i)
}

fn matches_at(hay: &[char], needle: &[char], i: usize) -> (r: bool)
    requires
        i + needle@.len() <= hay@.len(),
    ensures
        r == occurs_at(hay@, needle@, i as int),
{
    let hl = hay.len();
    let mut j: usize = 0;
    while j < needle.len()
        invariant
            hl == hay@.len(),
            i + needle@.len() <= hay@.len(),
            j <= needle@.len(),
            forall|k: int| 0 <= k < j ==> hay@[i + k] == needle@[k],
        decreases needle@.len() - j,
    {
        if hay[i + j] != needle[j] {
            proof {
                assert(hay@.subrange(i as int, i + needle@.len())[j as int] != needle@[j as int]);
            }
            return false;
        }
        j = j + 1;
    }
    proof {
        assert(hay@.subrange(i as int, i + needle@.len()) =~= needle@);
    }
    true
}

/// Whether `needle` occurs in `hay`.
pub fn text_contains(hay: &[char], needle: &[char]) -> (r: bool)
    ensures
        r == contains_text(hay@, needle@),
{
    if needle.len() > hay.len() {
        proof {
            assert forall|i: int| !occurs_at(hay@, needle@, i) by {}
        }
        return false;
    }
    if needle.len() == 0 {
        proof {
            assert(hay@.subrange(0, 0) =~= needle@);
            assert(occurs_at(hay@, needle@, 0));
        }
        return true;
    }
    let hl = hay.len();
    let last = hay.len() - needle.len();
    let mut i: usize = 0;
    while i <= last
        invariant
            hl == hay@.len(),
            needle@.len() > 0,
            last == hay@.len() - needle@.len(),
            i <= last + 1,
            forall|k: int| 0 <= k < i ==> !#[trigger] occurs_at(hay@, needle@, k),
        decreases last + 1 - i,
    {
        if matches_at(hay, needle, i) {
            return true;
        }
        i = i + 1;
    }
    proof {
        assert forall|k: int| !#[trigger] occurs_at(hay@, needle@, k) by {
            if 0 <= k < i {
            }
        }
    }
    false
}

} // verus!
