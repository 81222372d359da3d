//! Colours written as CSS-style hex strings.
//!
//! | Format        | Example       | Alpha                          |
//! |-------------- |-------------- |------------------------------- |
//! | `"#RRGGBBAA"` | `"#4585FF8C"` | from last two digits           |
//! | `"#RRGGBB"`   | `"#4585FF"`   | `FF` (fully opaque)            |
//! | `"#RGBA"`     | `"#458F"`     | short form, each digit doubled |
//! | `"#RGB"`      | `"#45F"`      | short form, alpha = `FF`       |
//!
//! Parsing is case-insensitive. Channels are 8-bit values here; their reading
//! as fractions of 255 is left to the user interface.

use vstd::prelude::*;

use crate::text::{chars_of, is_ws, push_char, trim, trim_chars, trim_end, trim_start};

verus! {

broadcast use vstd::string::group_string_axioms;

/// An RGBA colour with 8 bits per channel: `[red, green, blue, alpha]`.
#[derive(Clone, Copy, Debug, PartialEq, Eq)]
pub struct Rgba8(pub [u8; 4]);

/// The text that `{:?}` prints for a string: the string quoted, with
/// escapes. It is what `<str as Debug>::fmt` writes.
pub uninterp spec fn str_debug(s: Seq<char>) -> Seq<char>;

/// The text that `{:?}` prints for a character, as `<char as Debug>::fmt` writes it.
pub uninterp spec fn char_debug(c: char) -> Seq<char>;

/// `format!("{:?}", s)`: the quoted, escaped form of `s`, as
/// `<str as Debug>::fmt` writes it; the contract names that text and says no more of it.
#[verifier::external_body]
fn debug_str(s: &[char]) -> (r: String)
    ensures
        r@ == str_debug(s@),
{
    let text: String = s.iter().collect();
    format!("{:?}", text)
}

/// `format!("{:?}", c)`: the quoted, escaped form of `c`, as
/// `<char as Debug>::fmt` writes it; the contract names that text and says no more of it.
#[verifier::external_body]
fn debug_char(c: char) -> (r: String)
    ensures
        r@ == char_debug(c),
{
    format!("{:?}", c)
}

// ── Hex digits ────────────────────────────────────────────────────────────────

/// A hexadecimal digit, either case: what `char::to_digit(16)` accepts.
pub open spec fn is_hex_digit(c: char) -> bool {
    ||| ('0' <= c && c <= '9')
    ||| ('a' <= c && c <= 'f')
    ||| ('A' <= c && c <= 'F')
}

/// The value of the hexadecimal digit `c`.
pub open spec fn hex_value(c: char) -> int {
    if '0' <= c && c <= '9' {
        c as int - '0' as int
    } else if 'a' <= c && c <= 'f' {
        c as int - 'a' as int + 10
    } else {
        c as int - 'A' as int + 10
    }
}

/// The index of the first character of `s` that is not a hex digit.
pub open spec fn first_non_hex(s: Seq<char>) -> Option<int>
    decreases s.len(),
{
    if s.len() == 0 {
        None
    } else if !is_hex_digit(s[0]) {
        Some(0)
    } else {
        match first_non_hex(s.drop_first()) {
            Some(i) => Some(i + 1),
            None => None,
        }
    }
}

/// `first_non_hex` finds the first character that is not a hex digit, and
/// finds none exactly when every character is one.
pub proof fn lemma_first_non_hex(s: Seq<char>)
    ensures
        first_non_hex(s) is None <==> forall|k: int| 0 <= k < s.len() ==> is_hex_digit(#[trigger] s[k]),
        first_non_hex(s) matches Some(i) ==> 0 <= i < s.len() && !is_hex_digit(s[i]) && forall|k: int|
            0 <= k < i ==> is_hex_digit(#[trigger] s[k]),
    decreases s.len(),
{
    if s.len() > 0 {
        let t = s.drop_first();
        lemma_first_non_hex(t);
        if is_hex_digit(s[0]) {
            assert forall|k: int| 0 <= k < t.len() implies t[k] == s[k + 1] by {}
            if first_non_hex(t) is None {
                assert forall|k: int| 0 <= k < s.len() implies is_hex_digit(#[trigger] s[k]) by {
                    if k > 0 {
                        assert(s[k] == t[k - 1]);
                    }
                }
            } else {
                let i = first_non_hex(t)->0;
                assert(!is_hex_digit(t[i]));
                assert(!is_hex_digit(s[i + 1]));
                assert forall|k: int| 0 <= k < i + 1 implies is_hex_digit(#[trigger] s[k]) by {
                    if k > 0 {
                        assert(s[k] == t[k - 1]);
                    }
                }
            }
        }
    }
}

/// The byte written by two hex digits, high one first.
pub open spec fn hex_pair(hi: char, lo: char) -> u8 {
    (hex_value(hi) * 16 + hex_value(lo)) as u8
}

/// The channels that the digits `h` of a colour denote, where their count is
/// one of 3, 4, 6 or 8.
pub open spec fn channels_of(h: Seq<char>) -> Option<Seq<u8>> {
    if h.len() == 3 {
        Some(seq![hex_pair(h[0], h[0]), hex_pair(h[1], h[1]), hex_pair(h[2], h[2]), 255u8])
    } else if h.len() == 4 {
        Some(seq![hex_pair(h[0], h[0]), hex_pair(h[1], h[1]), hex_pair(h[2], h[2]), hex_pair(h[3], h[3])])
    } else if h.len() == 6 {
        Some(seq![hex_pair(h[0], h[1]), hex_pair(h[2], h[3]), hex_pair(h[4], h[5]), 255u8])
    } else if h.len() == 8 {
        Some(seq![hex_pair(h[0], h[1]), hex_pair(h[2], h[3]), hex_pair(h[4], h[5]), hex_pair(h[6], h[7])])
    } else {
        None
    }
}

/// What a colour string means: its four channels, or the message that says
/// what is wrong with it. Surrounding white space is ignored.
pub open spec fn parse_hex_color_spec(s: Seq<char>) -> Result<Seq<u8>, Seq<char>> {
    let t = trim(s);
    if !(t.len() > 0 && t[0] == '#') {
        Err("color must start with '#', got "@ + str_debug(t))
    } else {
        let h = t.skip(1);
        match first_non_hex(h) {
            Some(i) => Err("invalid hex digit "@ + char_debug(h[i]) + " in "@ + str_debug(t)),
            None => match channels_of(h) {
                Some(c) => Ok(c),
                None => Err("expected #RGB, #RGBA, #RRGGBB, or #RRGGBBAA, got "@ + str_debug(t)),
            },
        }
    }
}

/// The value of a hex digit, if `c` is one.
fn hex_digit(c: char) -> (r: Option<u8>)
    ensures
        match r {
            Some(v) => is_hex_digit(c) && v == hex_value(c),
            None => !is_hex_digit(c),
        },
{
    if '0' <= c && c <= '9' {
        Some(((c as u32) - ('0' as u32)) as u8)
    } else if 'a' <= c && c <= 'f' {
        Some(((c as u32) - ('a' as u32) + 10) as u8)
    } else if 'A' <= c && c <= 'F' {
        Some(((c as u32) - ('A' as u32) + 10) as u8)
    } else {
        None
    }
}

/// Parse a colour string (`#RGB`, `#RGBA`, `#RRGGBB` or `#RRGGBBAA`, either
/// case, surrounding white space ignored) into its channels.
pub fn parse_hex_color(s: &str) -> (r: Result<Rgba8, String>)
    ensures
        match parse_hex_color_spec(s@) {
            Ok(c) => r is Ok && r->Ok_0.0@ == c,
            Err(m) => r is Err && r->Err_0@ == m,
        },
{
    let all = chars_of(s);
    let t = trim_chars(all.as_slice());
    if !(t.len() > 0 && t[0] == '#') {
        let mut m = String::from_str("color must start with '#', got ");
        let d = debug_str(t.as_slice());
        m.append(d.as_str());
        return Err(m);
    }
    let ghost h = t@.skip(1);
    let mut digits: Vec<u8> = Vec::new();
    let mut i: usize = 1;
    while i < t.len()
        invariant
            1 <= i <= t@.len(),
            t@.len() > 0 && t@[0] == '#',
            t@ == trim(s@),
            h == t@.skip(1),
            digits@.len() == i - 1,
            forall|k: int| 0 <= k < i - 1 ==> is_hex_digit(#[trigger] h[k]) && digits@[k]
                == hex_value(h[k]),
        decreases t@.len() - i,
    {
        match hex_digit(t[i]) {
            Some(v) => {
                digits.push(v);
            },
            None => {
                proof {
                    let j = (i - 1) as int;
                    assert(h[j] == t@[i as int]);
                    lemma_first_non_hex(h);
                    if first_non_hex(h) is None {
                        assert(is_hex_digit(h[j]));
                    } else {
                        let w = first_non_hex(h)->0;
                        if w < j {
                            assert(is_hex_digit(h[w]));
                        } else if w > j {
                            assert(is_hex_digit(h[j]));
                        }
                    }
                }
                let mut m = String::from_str("invalid hex digit ");
                let dc = debug_char(t[i]);
                m.append(dc.as_str());
                m.append(" in ");
                let d = debug_str(t.as_slice());
                m.append(d.as_str());
                assert(first_non_hex(h) == Some((i - 1) as int));
                assert(t@.len() > 0 && t@[0] == '#');
                assert(m@ == "invalid hex digit "@ + char_debug(h[(i - 1) as int]) + " in "@ + str_debug(t@));
                return Err(m);
            },
        }
        i = i + 1;
    }
    proof {
        lemma_first_non_hex(h);
    }
    assert(first_non_hex(h) is None);
    let n = digits.len();
    if n == 3 {
        Ok(Rgba8([digits[0] * 17, digits[1] * 17, digits[2] * 17, 255]))
    } else if n == 4 {
        Ok(Rgba8([digits[0] * 17, digits[1] * 17, digits[2] * 17, digits[3] * 17]))
    } else if n == 6 {
        Ok(
            Rgba8(
                [
                    digits[0] * 16 + digits[1],
                    digits[2] * 16 + digits[3],
                    digits[4] * 16 + digits[5],
                    255,
                ],
            ),
        )
    } else if n == 8 {
        Ok(
            Rgba8(
                [
                    digits[0] * 16 + digits[1],
                    digits[2] * 16 + digits[3],
                    digits[4] * 16 + digits[5],
                    digits[6] * 16 + digits[7],
                ],
            ),
        )
    } else {
        let mut m = String::from_str("expected #RGB, #RGBA, #RRGGBB, or #RRGGBBAA, got ");
        let d = debug_str(t.as_slice());
        m.append(d.as_str());
        Err(m)
    }
}


// ── Writing colours ───────────────────────────────────────────────────────────

/// The upper-case hex digit for `n` in `0..16`.
pub open spec fn hex_upper(n: int) -> char {
    if n < 10 {
        ('0' as int + n) as char
    } else {
        ('A' as int + n - 10) as char
    }
}

/// The two upper-case hex digits of the byte `b`.
pub open spec fn hex_byte(b: u8) -> Seq<char> {
    seq![hex_upper(b as int / 16), hex_upper(b as int % 16)]
}

/// `#RRGGBBAA` in upper case: the form colours are written in.
pub open spec fn format_hex_color_spec(c: Seq<u8>) -> Seq<char> {
    seq!['#'] + hex_byte(c[0]) + hex_byte(c[1]) + hex_byte(c[2]) + hex_byte(c[3])
}

fn hex_upper_char(n: u8) -> (c: char)
    requires
        n < 16,
    ensures
        c == hex_upper(n as int),
{
    if n < 10 {
        ((48u8 + n) as char)
    } else {
        ((55u8 + n) as char)
    }
}

/// The colour written as `#RRGGBBAA` with upper-case digits.
pub fn format_hex_color(c: Rgba8) -> (s: String)
    ensures
        s@ == format_hex_color_spec(c.0@),
{
    let mut s = String::new();
    push_char(&mut s, '#');
    let mut i: usize = 0;
    while i < 4
        invariant
            i <= 4,
            s@ == seq!['#'] + (if i >= 1 { hex_byte(c.0@[0]) } else { Seq::empty() }) + (if i
                >= 2 {
                hex_byte(c.0@[1])
            } else {
                Seq::empty()
            }) + (if i >= 3 {
                hex_byte(c.0@[2])
            } else {
                Seq::empty()
            }) + (if i >= 4 {
                hex_byte(c.0@[3])
            } else {
                Seq::empty()
            }),
        decreases 4 - i,
    {
        let b = c.0[i];
        push_char(&mut s, hex_upper_char(b / 16));
        push_char(&mut s, hex_upper_char(b % 16));
        i = i + 1;
    }
    s
}

proof fn lemma_hex_upper_value(n: int)
    requires
        0 <= n < 16,
    ensures
        is_hex_digit(hex_upper(n)),
        hex_value(hex_upper(n)) == n,
        !is_ws(hex_upper(n)),
{
}

proof fn lemma_hex_byte(b: u8)
    ensures
        is_hex_digit(hex_byte(b)[0]),
        is_hex_digit(hex_byte(b)[1]),
        !is_ws(hex_byte(b)[1]),
        hex_pair(hex_byte(b)[0], hex_byte(b)[1]) == b,
{
    lemma_hex_upper_value(b as int / 16);
    lemma_hex_upper_value(b as int % 16);
}

/// Writing a colour and parsing the text back gives the colour again.
pub proof fn lemma_hex_color_round_trip(c: Rgba8)
    ensures
        parse_hex_color_spec(format_hex_color_spec(c.0@)) == Ok::<Seq<u8>, Seq<char>>(c.0@),
{
    let f = format_hex_color_spec(c.0@);
    lemma_hex_byte(c.0@[0]);
    lemma_hex_byte(c.0@[1]);
    lemma_hex_byte(c.0@[2]);
    lemma_hex_byte(c.0@[3]);
    assert(f.len() == 9);
    assert(!is_ws(f[0]));
    assert(trim_start(f) == f);
    assert(f.last() == hex_byte(c.0@[3])[1]);
    assert(trim_end(f) == f);
    let h = f.skip(1);
    assert forall|k: int| 0 <= k < h.len() implies is_hex_digit(h[k]) by {
        assert(h[k] == f[k + 1]);
    }
    lemma_first_non_hex(h);
    assert(first_non_hex(h) is None);
    assert(channels_of(h) == Some(c.0@));
}

// ── Case ──────────────────────────────────────────────────────────────────────

/// `c` in upper case where it is an ASCII letter.
pub open spec fn ascii_upper(c: char) -> char {
    if 'a' <= c && c <= 'z' {
        (c as int - 32) as char
    } else {
        c
    }
}

/// `s` with its ASCII letters in upper case.
pub open spec fn ascii_upper_seq(s: Seq<char>) -> Seq<char> {
    s.map_values(|c: char| ascii_upper(c))
}

/// `c` in lower case where it is an ASCII letter.
pub open spec fn ascii_lower(c: char) -> char {
    if 'A' <= c && c <= 'Z' {
        (c as int + 32) as char
    } else {
        c
    }
}

/// `s` with its ASCII letters in lower case.
pub open spec fn ascii_lower_seq(s: Seq<char>) -> Seq<char> {
    s.map_values(|c: char| ascii_lower(c))
}

/// `a` and `b` differ at most in the case of ASCII letters.
pub open spec fn equal_ignoring_case(a: Seq<char>, b: Seq<char>) -> bool {
    ascii_upper_seq(a) == ascii_upper_seq(b)
}

proof fn lemma_upper_char(c: char)
    ensures
        is_ws(ascii_upper(c)) == is_ws(c),
        is_hex_digit(ascii_upper(c)) == is_hex_digit(c),
        is_hex_digit(c) ==> hex_value(ascii_upper(c)) == hex_value(c),
        (ascii_upper(c) == '#') == (c == '#'),
{
}

proof fn lemma_upper_trim_start(s: Seq<char>)
    ensures
        trim_start(ascii_upper_seq(s)) == ascii_upper_seq(trim_start(s)),
    decreases s.len(),
{
    let u = ascii_upper_seq(s);
    if s.len() > 0 {
        lemma_upper_char(s[0]);
        if is_ws(s[0]) {
            assert(u.drop_first() == ascii_upper_seq(s.drop_first()));
            lemma_upper_trim_start(s.drop_first());
        }
    }
}

proof fn lemma_upper_trim_end(s: Seq<char>)
    ensures
        trim_end(ascii_upper_seq(s)) == ascii_upper_seq(trim_end(s)),
    decreases s.len(),
{
    let u = ascii_upper_seq(s);
    if s.len() > 0 {
        lemma_upper_char(s.last());
        if is_ws(s.last()) {
            assert(u.drop_last() == ascii_upper_seq(s.drop_last()));
            lemma_upper_trim_end(s.drop_last());
        }
    }
}

/// Upper-casing a colour string changes neither whether it parses nor the
/// colour it gives.
proof fn lemma_upper_keeps_parse(s: Seq<char>)
    ensures
        parse_hex_color_spec(ascii_upper_seq(s)) is Ok == parse_hex_color_spec(s) is Ok,
        parse_hex_color_spec(s) is Ok ==> parse_hex_color_spec(ascii_upper_seq(s))
            == parse_hex_color_spec(s),
{
    lemma_upper_trim_start(s);
    lemma_upper_trim_end(trim_start(s));
    let t = trim(s);
    let tu = trim(ascii_upper_seq(s));
    assert(tu == ascii_upper_seq(t));
    if t.len() > 0 {
        lemma_upper_char(t[0]);
    }
    if t.len() > 0 && t[0] == '#' {
        let h = t.skip(1);
        let hu = tu.skip(1);
        assert(hu == ascii_upper_seq(h));
        assert forall|k: int| 0 <= k < h.len() implies is_hex_digit(#[trigger] hu[k])
            == is_hex_digit(h[k]) && (is_hex_digit(h[k]) ==> hex_value(hu[k]) == hex_value(
            h[k],
        )) by {
            lemma_upper_char(h[k]);
        }
        lemma_first_non_hex(h);
        lemma_first_non_hex(hu);
        if first_non_hex(h) is None {
            assert forall|k: int| 0 <= k < hu.len() implies is_hex_digit(hu[k]) by {
                assert(is_hex_digit(h[k]));
            }
            assert(first_non_hex(hu) is None);
            assert(channels_of(hu) == channels_of(h));
        } else {
            let i = first_non_hex(h)->0;
            assert(!is_hex_digit(h[i]));
            assert(!is_hex_digit(hu[i]));
            assert(first_non_hex(hu) is Some);
        }
    }
}

/// Parsing ignores the case of letters: two colour strings that differ only
/// in the case of ASCII letters either both parse, to the same colour, or
/// both fail.
pub proof fn lemma_hex_color_case_insensitive(s: Seq<char>, t: Seq<char>)
    requires
        equal_ignoring_case(s, t),
    ensures
        parse_hex_color_spec(s) is Ok == parse_hex_color_spec(t) is Ok,
        parse_hex_color_spec(s) is Ok ==> parse_hex_color_spec(s) == parse_hex_color_spec(t),
{
    lemma_upper_keeps_parse(s);
    lemma_upper_keeps_parse(t);
}

/// A colour string, its lower-case form and its upper-case form parse alike.
pub proof fn lemma_hex_color_lower_upper(s: Seq<char>)
    ensures
        parse_hex_color_spec(ascii_lower_seq(s)) is Ok == parse_hex_color_spec(s) is Ok,
        parse_hex_color_spec(ascii_upper_seq(s)) is Ok == parse_hex_color_spec(s) is Ok,
        parse_hex_color_spec(s) is Ok ==> parse_hex_color_spec(ascii_lower_seq(s))
            == parse_hex_color_spec(s) && parse_hex_color_spec(ascii_upper_seq(s))
            == parse_hex_color_spec(s),
{
    let l = ascii_lower_seq(s);
    assert forall|k: int| 0 <= k < s.len() implies ascii_upper(#[trigger] l[k]) == ascii_upper(
        s[k],
    ) by {
        let c = s[k];
        assert(l[k] == ascii_lower(c));
    }
    assert(ascii_upper_seq(l) =~= ascii_upper_seq(s));
    lemma_hex_color_case_insensitive(l, s);
    lemma_upper_keeps_parse(s);
}

/// A colour string of `#` and 3, 4, 6 or 8 hex digits gives red, green,
/// blue and alpha in that order: two digits per channel, high digit first;
/// in the short forms each digit stands for a doubled pair, and a missing
/// alpha is 255. Any other count of digits is refused.
pub proof fn lemma_hex_color_channels(s: Seq<char>)
    requires
        trim(s).len() > 0,
        trim(s)[0] == '#',
        forall|k: int| 1 <= k < trim(s).len() ==> is_hex_digit(#[trigger] trim(s)[k]),
    ensures
        ({
            let t = trim(s);
            let d = |k: int| hex_value(t[k]);
            &&& t.len() == 9 ==> parse_hex_color_spec(s) == Ok::<Seq<u8>, Seq<char>>(
                seq![
                    (d(1) * 16 + d(2)) as u8,
                    (d(3) * 16 + d(4)) as u8,
                    (d(5) * 16 + d(6)) as u8,
                    (d(7) * 16 + d(8)) as u8,
                ],
            )
            &&& t.len() == 7 ==> parse_hex_color_spec(s) == Ok::<Seq<u8>, Seq<char>>(
                seq![
                    (d(1) * 16 + d(2)) as u8,
                    (d(3) * 16 + d(4)) as u8,
                    (d(5) * 16 + d(6)) as u8,
                    255u8,
                ],
            )
            &&& t.len() == 5 ==> parse_hex_color_spec(s) == Ok::<Seq<u8>, Seq<char>>(
                seq![
                    (d(1) * 17) as u8,
                    (d(2) * 17) as u8,
                    (d(3) * 17) as u8,
                    (d(4) * 17) as u8,
                ],
            )
            &&& t.len() == 4 ==> parse_hex_color_spec(s) == Ok::<Seq<u8>, Seq<char>>(
                seq![(d(1) * 17) as u8, (d(2) * 17) as u8, (d(3) * 17) as u8, 255u8],
            )
            &&& !(t.len() == 4 || t.len() == 5 || t.len() == 7 || t.len() == 9)
                ==> parse_hex_color_spec(s) is Err
        }),
{
    let t = trim(s);
    let h = t.skip(1);
    assert forall|k: int| 0 <= k < h.len() implies is_hex_digit(#[trigger] h[k]) by {
        assert(h[k] == t[k + 1]);
    }
    lemma_first_non_hex(h);
    assert(first_non_hex(h) is None);
    assert forall|k: int| 0 <= k < h.len() implies #[trigger] h[k] == t[k + 1] by {}
}

} // verus!
