//! Character-level text helpers shared by the parsers of this crate.
//!
//! Strings are handled as sequences of Unicode scalar values (`Seq<char>`),
//! which is what `str` views as in specifications.

use vstd::prelude::*;

verus! {

broadcast use vstd::string::group_string_axioms;

// ── Conversions between `str` / `String` and `Vec<char>` ─────────────────────

/// The characters of `s`, in order.
pub fn chars_of(s: &str) -> (v: Vec<char>)
    ensures
        v@ == s@,
{
    let mut v: Vec<char> = Vec::new();
    for c in it: s.chars()
        invariant
            v@ == it.seq().take(it.index() as int),
            it.seq() == s@,
    {
        v.push(c);
    }
    v
}

/// `String::push`: appends one character at the end of the string.
#[verifier::external_body]
pub(crate) fn push_char(s: &mut String, c: char)
    ensures
        final(s)@ == old(s)@.push(c),
{
    s.push(c);
}

/// The string made of the characters of `cs`, in order.
pub fn string_of(cs: &[char]) -> (s: String)
    ensures
        s@ == cs@,
{
    let mut s = String::new();
    let mut i: usize = 0;
    while i < cs.len()
        invariant
            i <= cs@.len(),
            s@ == cs@.take(i as int),
        decreases cs@.len() - i,
    {
        push_char(&mut s, cs[i]);
        i = i + 1;
        assert(s@ == cs@.take(i as int));
    }
    assert(cs@.take(cs@.len() as int) == cs@);
    s
}

/// `cs[lo..hi]` as a vector.
pub fn sub_chars(cs: &[char], lo: usize, hi: usize) -> (v: Vec<char>)
    requires
        lo <= hi <= cs@.len(),
    ensures
        v@ == cs@.subrange(lo as int, hi as int),
{
    let mut v: Vec<char> = Vec::new();
    let mut i: usize = lo;
    while i < hi
        invariant
            lo <= i <= hi <= cs@.len(),
            v@ == cs@.subrange(lo as int, i as int),
        decreases hi - i,
    {
        v.push(cs[i]);
        i = i + 1;
    }
    v
}

// ── Whitespace and trimming ───────────────────────────────────────────────────

/// Unicode `White_Space`, the property that `char::is_whitespace` tests.
pub open spec fn is_ws(c: char) -> bool {
    ||| ('\u{9}' <= c && c <= '\u{d}')
    ||| c == ' '
    ||| c == '\u{85}'
    ||| c == '\u{a0}'
    ||| c == '\u{1680}'
    ||| ('\u{2000}' <= c && c <= '\u{200a}')
    ||| c == '\u{2028}'
    ||| c == '\u{2029}'
    ||| c == '\u{202f}'
    ||| c == '\u{205f}'
    ||| c == '\u{3000}'
}

/// Whether `c` is white space.
pub fn is_whitespace(c: char) -> (b: bool)
    ensures
        b == is_ws(c),
{
    ('\u{9}' <= c && c <= '\u{d}') || c == ' ' || c == '\u{85}' || c == '\u{a0}' || c
        == '\u{1680}' || ('\u{2000}' <= c && c <= '\u{200a}') || c == '\u{2028}' || c
        == '\u{2029}' || c == '\u{202f}' || c == '\u{205f}' || c == '\u{3000}'
}

/// `s` without its leading white space.
pub open spec fn trim_start(s: Seq<char>) -> Seq<char>
    decreases s.len(),
{
    if s.len() > 0 && is_ws(s[0]) {
        trim_start(s.drop_first())
    } else {
        s
    }
}

/// `s` without its trailing white space.
pub open spec fn trim_end(s: Seq<char>) -> Seq<char>
    decreases s.len(),
{
    if s.len() > 0 && is_ws(s.last()) {
        trim_end(s.drop_last())
    } else {
        s
    }
}

/// `s` without leading and trailing white space, as `str::trim` gives it.
pub open spec fn trim(s: Seq<char>) -> Seq<char> {
    trim_end(trim_start(s))
}

proof fn lemma_trim_start_skip(s: Seq<char>, i: int)
    requires
        0 <= i <= s.len(),
        forall|k: int| 0 <= k < i ==> is_ws(#[trigger] s[k]),
    ensures
        trim_start(s) == trim_start(s.skip(i)),
    decreases i,
{
    if i > 0 {
        assert(s.skip(1) == s.drop_first());
        lemma_trim_start_skip(s.drop_first(), i - 1);
        assert(s.drop_first().skip(i - 1) == s.skip(i));
    } else {
        assert(s.skip(0) == s);
    }
}

proof fn lemma_trim_end_take(s: Seq<char>, j: int)
    requires
        0 <= j <= s.len(),
        forall|k: int| j <= k < s.len() ==> is_ws(#[trigger] s[k]),
    ensures
        trim_end(s) == trim_end(s.take(j)),
    decreases s.len() - j,
{
    if j < s.len() {
        assert(s.take(s.len() - 1) == s.drop_last());
        lemma_trim_end_take(s.drop_last(), j);
        assert(s.drop_last().take(j) == s.take(j));
    } else {
        assert(s.take(j) == s);
    }
}

/// `s` trimmed of leading and trailing white space.
pub fn trim_chars(s: &[char]) -> (t: Vec<char>)
    ensures
        t@ == trim(s@),
{
    let mut lo: usize = 0;
    while lo < s.len() && is_whitespace(s[lo])
        invariant
            lo <= s@.len(),
            forall|k: int| 0 <= k < lo ==> is_ws(#[trigger] s@[k]),
        decreases s@.len() - lo,
    {
        lo = lo + 1;
    }
    proof {
        lemma_trim_start_skip(s@, lo as int);
    }
    let ghost rest = s@.skip(lo as int);
    assert(trim_start(rest) == rest);
    let mut hi: usize = s.len();
    while hi > lo && is_whitespace(s[hi - 1])
        invariant
            lo <= hi <= s@.len(),
            forall|k: int| hi <= k < s@.len() ==> is_ws(#[trigger] s@[k]),
        decreases hi,
    {
        hi = hi - 1;
    }
    proof {
        let r = s@.skip(lo as int);
        assert forall|k: int| hi - lo <= k < r.len() implies is_ws(#[trigger] r[k]) by {
            assert(r[k] == s@[k + lo]);
        }
        lemma_trim_end_take(r, hi - lo);
        assert(r.take(hi - lo) == s@.subrange(lo as int, hi as int));
    }
    sub_chars(s, lo, hi)
}


// ── Splitting ─────────────────────────────────────────────────────────────────

/// Index of the first occurrence of `c` in `s`, if any.
pub open spec fn find_char(s: Seq<char>, c: char) -> Option<int> {
    if exists|i: int| 0 <= i < s.len() && s[i] == c {
        Some(choose|i: int| 0 <= i < s.len() && s[i] == c && forall|k: int| 0 <= k < i ==> s[k] != c)
    } else {
        None
    }
}

/// `str::split_once` with a character delimiter: the parts before and after
/// the first occurrence of `c`.
pub open spec fn split_once(s: Seq<char>, c: char) -> Option<(Seq<char>, Seq<char>)> {
    match find_char(s, c) {
        Some(i) => Some((s.take(i), s.skip(i + 1))),
        None => None,
    }
}

/// The position of the first `c` in `s`, if there is one.
pub fn position_of(s: &[char], c: char) -> (r: Option<usize>)
    ensures
        match r {
            Some(i) => i < s.len() && s@[i as int] == c && find_char(s@, c) == Some(i as int),
            None => find_char(s@, c) is None,
        },
{
    let mut i: usize = 0;
    while i < s.len()
        invariant
            i <= s@.len(),
            forall|k: int| 0 <= k < i ==> s@[k] != c,
        decreases s@.len() - i,
    {
        if s[i] == c {
            let ghost w = choose|j: int| 0 <= j < s@.len() && s@[j] == c && forall|k: int|
                0 <= k < j ==> s@[k] != c;
            assert(0 <= i < s@.len() && s@[i as int] == c && forall|k: int|
                0 <= k < i ==> s@[k] != c);
            assert(w == i) by {
                if w < i {
                    assert(s@[w] != c);
                } else if w > i {
                    assert(s@[i as int] != c);
                }
            }
            return Some(i);
        }
        i = i + 1;
    }
    None
}

/// The parts of `s` before and after the first `c`, if `c` occurs.
pub fn split_once_chars(s: &[char], c: char) -> (r: Option<(Vec<char>, Vec<char>)>)
    ensures
        match r {
            Some((a, b)) => split_once(s@, c) == Some((a@, b@)),
            None => split_once(s@, c) is None,
        },
{
    match position_of(s, c) {
        Some(i) => {
            let a = sub_chars(s, 0, i);
            let b = sub_chars(s, i + 1, s.len());
            assert(a@ == s@.take(i as int));
            assert(b@ == s@.skip(i + 1));
            Some((a, b))
        },
        None => None,
    }
}


// ── Decimal integers ──────────────────────────────────────────────────────────

/// An ASCII decimal digit.
pub open spec fn is_digit(c: char) -> bool {
    '0' <= c && c <= '9'
}

/// The value of the decimal digit `c`.
pub open spec fn digit_value(c: char) -> int {
    (c as int) - ('0' as int)
}

/// Every character of `s` is a decimal digit.
pub open spec fn all_digits(s: Seq<char>) -> bool {
    forall|i: int| 0 <= i < s.len() ==> is_digit(#[trigger] s[i])
}

/// The number that the decimal digits `s` write, most significant first.
pub open spec fn decimal_value(s: Seq<char>) -> int
    decreases s.len(),
{
    if s.len() == 0 {
        0
    } else {
        decimal_value(s.drop_last()) * 10 + digit_value(s.last())
    }
}

/// The value of an optionally signed decimal numeral: an optional `+` (or,
/// where `signed`, `-`) followed by at least one digit and nothing else.
/// This is the grammar that `str::parse` accepts for the primitive integers.
pub open spec fn numeral_value(s: Seq<char>, signed: bool) -> Option<int> {
    if s.len() > 0 && (s[0] == '+' || (signed && s[0] == '-')) {
        let ds = s.skip(1);
        if ds.len() > 0 && all_digits(ds) {
            Some(
                if s[0] == '-' {
                    -decimal_value(ds)
                } else {
                    decimal_value(ds)
                },
            )
        } else {
            None
        }
    } else if s.len() > 0 && all_digits(s) {
        Some(decimal_value(s))
    } else {
        None
    }
}

/// What `s.parse::<i32>()` gives, with the error collapsed to `None`.
pub open spec fn parse_i32_spec(s: Seq<char>) -> Option<i32> {
    match numeral_value(s, true) {
        Some(v) => if i32::MIN <= v <= i32::MAX {
            Some(v as i32)
        } else {
            None
        },
        None => None,
    }
}

/// What `s.parse::<u32>()` gives, with the error collapsed to `None`.
pub open spec fn parse_u32_spec(s: Seq<char>) -> Option<u32> {
    match numeral_value(s, false) {
        Some(v) => if 0 <= v <= u32::MAX {
            Some(v as u32)
        } else {
            None
        },
        None => None,
    }
}

proof fn lemma_decimal_nonneg(s: Seq<char>)
    requires
        all_digits(s),
    ensures
        decimal_value(s) >= 0,
    decreases s.len(),
{
    if s.len() > 0 {
        assert(is_digit(s[s.len() - 1]));
        lemma_decimal_nonneg(s.drop_last());
    }
}

proof fn lemma_decimal_prefix_le(s: Seq<char>, i: int)
    requires
        all_digits(s),
        0 <= i <= s.len(),
    ensures
        decimal_value(s.take(i)) <= decimal_value(s),
    decreases s.len() - i,
{
    if i < s.len() {
        let t = s.drop_last();
        assert(t.take(i) == s.take(i));
        lemma_decimal_prefix_le(t, i);
        lemma_decimal_nonneg(t);
        assert(is_digit(s[s.len() - 1]));
    } else {
        assert(s.take(i) == s);
    }
}

/// The value of the digits `s[start..]` when they are all decimal digits,
/// there is at least one, and the value is at most `limit`.
fn digits_up_to(s: &[char], start: usize, limit: u64) -> (r: Option<u64>)
    requires
        start <= s@.len(),
        limit <= 0x1_0000_0000,
    ensures
        match r {
            Some(v) => {
                &&& s@.len() > start
                &&& all_digits(s@.skip(start as int))
                &&& v == decimal_value(s@.skip(start as int))
                &&& v <= limit
            },
            None => !(s@.len() > start && all_digits(s@.skip(start as int))) || decimal_value(
                s@.skip(start as int),
            ) > limit,
        },
{
    if start >= s.len() {
        return None;
    }
    let ghost ds = s@.skip(start as int);
    let mut acc: u64 = 0;
    let mut i: usize = start;
    while i < s.len()
        invariant
            start <= i <= s@.len(),
            ds == s@.skip(start as int),
            all_digits(ds.take(i - start)),
            acc == decimal_value(ds.take(i - start)),
            acc <= limit,
            limit <= 0x1_0000_0000,
        decreases s@.len() - i,
    {
        let c = s[i];
        if !('0' <= c && c <= '9') {
            assert(ds[i - start] == c);
            return None;
        }
        let d = (c as u64) - ('0' as u64);
        let next = acc * 10 + d;
        proof {
            let p = ds.take(i + 1 - start);
            assert(p.drop_last() == ds.take(i - start));
            assert(p.last() == c);
            assert(all_digits(p));
        }
        if next > limit {
            proof {
                if all_digits(ds) {
                    lemma_decimal_prefix_le(ds, i + 1 - start);
                }
            }
            return None;
        }
        acc = next;
        i = i + 1;
    }
    assert(ds.take(i - start) == ds);
    Some(acc)
}

/// `s.parse::<i32>()`: the value of an optionally signed decimal numeral, or
/// `None` where `s` is not one or its value does not fit.
pub fn parse_i32(s: &[char]) -> (r: Option<i32>)
    ensures
        r == parse_i32_spec(s@),
{
    if s.len() > 0 && (s[0] == '+' || s[0] == '-') {
        let neg = s[0] == '-';
        let limit: u64 = if neg { 0x8000_0000 } else { 0x7fff_ffff };
        match digits_up_to(s, 1, limit) {
            Some(v) => {
                if neg {
                    Some((0 - (v as i64)) as i32)
                } else {
                    Some(v as i32)
                }
            },
            None => None,
        }
    } else {
        match digits_up_to(s, 0, 0x7fff_ffff) {
            Some(v) => {
                assert(s@.skip(0) == s@);
                Some(v as i32)
            },
            None => {
                assert(s@.skip(0) == s@);
                None
            },
        }
    }
}

/// `s.parse::<u32>()`: the value of a decimal numeral with an optional `+`,
/// or `None` where `s` is not one or its value does not fit.
pub fn parse_u32(s: &[char]) -> (r: Option<u32>)
    ensures
        r == parse_u32_spec(s@),
{
    if s.len() > 0 && s[0] == '+' {
        match digits_up_to(s, 1, 0xffff_ffff) {
            Some(v) => Some(v as u32),
            None => None,
        }
    } else {
        assert(s@.skip(0) == s@);
        match digits_up_to(s, 0, 0xffff_ffff) {
            Some(v) => Some(v as u32),
            None => None,
        }
    }
}


// ── Writing integers ──────────────────────────────────────────────────────────

/// The decimal digit for `d` in `0..10`.
pub open spec fn digit_char(d: int) -> char {
    ('0' as int + d) as char
}

/// The decimal digits of `n`, most significant first, without leading zeros.
pub open spec fn decimal_digits(n: nat) -> Seq<char>
    decreases n,
{
    if n < 10 {
        seq![digit_char(n as int)]
    } else {
        decimal_digits(n / 10).push(digit_char(n as int % 10))
    }
}

/// `v` written in decimal, with a leading `-` when negative: what `{}` prints.
pub open spec fn int_text(v: int) -> Seq<char> {
    if v < 0 {
        seq!['-'] + decimal_digits((-v) as nat)
    } else {
        decimal_digits(v as nat)
    }
}

fn push_digits(s: &mut String, n: u64)
    ensures
        final(s)@ == old(s)@ + decimal_digits(n as nat),
    decreases n,
{
    if n >= 10 {
        push_digits(s, n / 10);
    }
    let d = (n % 10) as u8;
    push_char(s, (48u8 + d) as char);
    assert(n < 10 ==> n % 10 == n);
}

/// Append `v` written in decimal.
pub fn push_int(s: &mut String, v: i64)
    ensures
        final(s)@ == old(s)@ + int_text(v as int),
{
    if v < 0 {
        push_char(s, '-');
        let m: u64 = if v == i64::MIN {
            0x8000_0000_0000_0000u64
        } else {
            (-v) as u64
        };
        push_digits(s, m);
        assert(old(s)@.push('-') + decimal_digits(m as nat) == old(s)@ + (seq!['-'] + decimal_digits(m as nat)));
    } else {
        push_digits(s, v as u64);
    }
}

/// Writing a number and reading it back gives the number: the decimal text
/// of an `i32` parses to it.
pub proof fn lemma_int_text_parses(v: i32)
    ensures
        parse_i32_spec(int_text(v as int)) == Some(v),
{
    let n: nat = if v < 0 {
        (-(v as int)) as nat
    } else {
        v as nat
    };
    lemma_decimal_digits(n);
    let ds = decimal_digits(n);
    if v < 0 {
        let t = seq!['-'] + ds;
        assert(t.skip(1) == ds);
        assert(t[0] == '-');
    } else {
        assert(ds[0] != '-' && ds[0] != '+');
    }
}

/// The decimal text of an integer is not empty, holds digits only but for a
/// leading `-`, and ends with a digit.
pub proof fn lemma_int_text_chars(v: int)
    ensures
        int_text(v).len() > 0,
        forall|k: int|
            0 <= k < int_text(v).len() ==> (k == 0 && #[trigger] int_text(v)[k] == '-') || is_digit(
                int_text(v)[k],
            ),
        is_digit(int_text(v).last()),
{
    let n: nat = if v < 0 {
        (-v) as nat
    } else {
        v as nat
    };
    lemma_decimal_digits(n);
    let ds = decimal_digits(n);
    assert(is_digit(ds[ds.len() - 1]));
    if v < 0 {
        let t = seq!['-'] + ds;
        assert forall|k: int| 0 < k < t.len() implies is_digit(#[trigger] t[k]) by {
            assert(t[k] == ds[k - 1]);
        }
        assert(t.last() == ds.last());
    }
}

/// The decimal text of a non-negative `u32` parses back to it.
pub proof fn lemma_nat_text_parses(v: u32)
    ensures
        parse_u32_spec(int_text(v as int)) == Some(v),
{
    lemma_decimal_digits(v as nat);
    let ds = decimal_digits(v as nat);
    assert(ds[0] != '+' && ds[0] != '-');
}

/// Text without white space at either end is its own trim.
pub proof fn lemma_trim_plain(s: Seq<char>)
    requires
        s.len() > 0,
        !is_ws(s[0]),
        !is_ws(s.last()),
    ensures
        trim(s) == s,
{
}

/// Splitting `a c b` at the first `c`, where `a` holds no `c`, gives `a` and `b`.
pub proof fn lemma_split_once_at(a: Seq<char>, c: char, b: Seq<char>)
    requires
        forall|k: int| 0 <= k < a.len() ==> #[trigger] a[k] != c,
    ensures
        split_once(a + seq![c] + b, c) == Some((a, b)),
{
    let s = a + seq![c] + b;
    let i = a.len() as int;
    assert(s[i] == c);
    assert forall|k: int| 0 <= k < i implies s[k] != c by {
        assert(s[k] == a[k]);
    }
    let j = choose|j: int| 0 <= j < s.len() && s[j] == c && forall|k: int| 0 <= k < j ==> s[k] != c;
    assert(0 <= i < s.len() && s[i] == c && forall|k: int| 0 <= k < i ==> s[k] != c);
    assert(j == i) by {
        if j < i {
            assert(s[j] == a[j]);
        } else if j > i {
            assert(s[i] == c);
        }
    }
    assert(s.take(i) =~= a);
    assert(s.skip(i + 1) =~= b);
}

proof fn lemma_decimal_digits(n: nat)
    ensures
        decimal_digits(n).len() > 0,
        all_digits(decimal_digits(n)),
        decimal_value(decimal_digits(n)) == n,
        is_digit(decimal_digits(n)[0]),
    decreases n,
{
    if n >= 10 {
        lemma_decimal_digits(n / 10);
        let d = decimal_digits(n);
        assert(d.drop_last() == decimal_digits(n / 10));
        assert(d.last() == digit_char(n as int % 10));
        assert(digit_value(d.last()) == n as int % 10);
        assert((n / 10) * 10 + n % 10 == n);
        assert forall|i: int| 0 <= i < d.len() implies is_digit(#[trigger] d[i]) by {
            if i < d.len() - 1 {
                assert(d[i] == decimal_digits(n / 10)[i]);
            }
        }
    } else {
        let d = decimal_digits(n);
        assert(d.drop_last() =~= Seq::<char>::empty());
        assert(decimal_value(d.drop_last()) == 0);
    }
}


// ── Substrings ────────────────────────────────────────────────────────────────

/// `s` begins with `p`.
pub open spec fn starts_with(s: Seq<char>, p: Seq<char>) -> bool {
    p.len() <= s.len() && s.take(p.len() as int) == p
}

/// `s` holds `p` somewhere.
pub open spec fn contains_seq(s: Seq<char>, p: Seq<char>) -> bool {
    exists|i: int| 0 <= i <= s.len() && #[trigger] starts_with(s.skip(i), p)
}

/// `str::replace` for a non-empty pattern: every occurrence of `pat`, taken
/// from the left without overlapping, replaced by `rep`.
pub open spec fn replace_all(s: Seq<char>, pat: Seq<char>, rep: Seq<char>) -> Seq<char>
    decreases s.len(),
{
    if pat.len() == 0 || s.len() == 0 {
        s
    } else if starts_with(s, pat) {
        rep + replace_all(s.skip(pat.len() as int), pat, rep)
    } else {
        seq![s[0]] + replace_all(s.skip(1), pat, rep)
    }
}

/// Replacing a pattern that does not occur leaves the text as it is.
pub proof fn lemma_replace_all_absent(s: Seq<char>, pat: Seq<char>, rep: Seq<char>)
    requires
        !contains_seq(s, pat),
    ensures
        replace_all(s, pat, rep) == s,
    decreases s.len(),
{
    if pat.len() > 0 && s.len() > 0 {
        assert(s.skip(0) == s);
        assert(!starts_with(s.skip(0), pat));
        let t = s.skip(1);
        assert(!contains_seq(t, pat)) by {
            if contains_seq(t, pat) {
                let i = choose|i: int| 0 <= i <= t.len() && #[trigger] starts_with(t.skip(i), pat);
                assert(t.skip(i) == s.skip(i + 1));
                assert(starts_with(s.skip(i + 1), pat));
            }
        }
        lemma_replace_all_absent(t, pat, rep);
        assert(seq![s[0]] + t == s);
    }
}

fn starts_with_at(s: &[char], i: usize, pat: &[char]) -> (b: bool)
    requires
        i <= s@.len(),
    ensures
        b == starts_with(s@.skip(i as int), pat@),
{
    if pat.len() > s.len() - i {
        return false;
    }
    let mut k: usize = 0;
    while k < pat.len()
        invariant
            k <= pat@.len(),
            i + pat@.len() <= s.len(),
            forall|q: int| 0 <= q < k ==> s@[i + q] == pat@[q],
        decreases pat@.len() - k,
    {
        if s[i + k] != pat[k] {
            assert(s@.skip(i as int).take(pat@.len() as int)[k as int] != pat@[k as int]);
            return false;
        }
        k = k + 1;
    }
    assert(s@.skip(i as int).take(pat@.len() as int) =~= pat@);
    true
}

/// Whether `s` holds `pat` somewhere.
pub fn contains_chars(s: &[char], pat: &[char]) -> (b: bool)
    ensures
        b == contains_seq(s@, pat@),
{
    let mut i: usize = 0;
    while i < s.len()
        invariant
            i <= s@.len(),
            forall|q: int| 0 <= q < i ==> !#[trigger] starts_with(s@.skip(q), pat@),
        decreases s@.len() - i,
    {
        if starts_with_at(s, i, pat) {
            return true;
        }
        i = i + 1;
    }
    starts_with_at(s, i, pat)
}

/// `s` with every occurrence of the non-empty `pat` replaced by `rep`.
pub fn replace_chars(s: &[char], pat: &[char], rep: &[char]) -> (r: Vec<char>)
    requires
        pat@.len() > 0,
    ensures
        r@ == replace_all(s@, pat@, rep@),
{
    let mut out: Vec<char> = Vec::new();
    let mut i: usize = 0;
    assert(s@.skip(0) == s@);
    while i < s.len()
        invariant
            i <= s@.len(),
            pat@.len() > 0,
            out@ + replace_all(s@.skip(i as int), pat@, rep@) == replace_all(s@, pat@, rep@),
        decreases s@.len() - i,
    {
        let ghost rest = s@.skip(i as int);
        if starts_with_at(s, i, pat) {
            let mut k: usize = 0;
            let ghost before = out@;
            while k < rep.len()
                invariant
                    k <= rep@.len(),
                    out@ == before + rep@.take(k as int),
                decreases rep@.len() - k,
            {
                out.push(rep[k]);
                k = k + 1;
            }
            assert(rep@.take(rep@.len() as int) == rep@);
            assert(rest.skip(pat@.len() as int) == s@.skip(i + pat@.len()));
            assert(out@ + replace_all(s@.skip(i + pat@.len()), pat@, rep@) == before + (rep@
                + replace_all(rest.skip(pat@.len() as int), pat@, rep@)));
            i = i + pat.len();
        } else {
            let ghost before = out@;
            out.push(s[i]);
            assert(rest.skip(1) == s@.skip(i + 1));
            assert(rest[0] == s@[i as int]);
            assert(out@ + replace_all(s@.skip(i + 1), pat@, rep@) == before + (seq![rest[0]]
                + replace_all(rest.skip(1), pat@, rep@)));
            i = i + 1;
        }
    }
    assert(s@.skip(i as int) =~= Seq::<char>::empty());
    assert(out@ + Seq::<char>::empty() == out@);
    out
}

/// `s.replace(pat, rep)` for a non-empty `pat`.
pub fn replace_str(s: &str, pat: &str, rep: &str) -> (r: String)
    requires
        pat@.len() > 0,
    ensures
        r@ == replace_all(s@, pat@, rep@),
{
    let cs = chars_of(s);
    let ps = chars_of(pat);
    let rs = chars_of(rep);
    let out = replace_chars(cs.as_slice(), ps.as_slice(), rs.as_slice());
    string_of(out.as_slice())
}

} // verus!
