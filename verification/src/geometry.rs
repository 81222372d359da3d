//! Coordinate work: parsing the region that the selector prints, clamping a
//! crop rectangle to an image, and growing a rectangle by a border.

use vstd::prelude::*;

use crate::error::AppError;
use crate::text::{
    chars_of, int_text, is_digit, is_ws, lemma_int_text_chars, lemma_int_text_parses,
    lemma_nat_text_parses, lemma_split_once_at, lemma_trim_plain, parse_i32, parse_i32_spec,
    parse_u32, parse_u32_spec, split_once, split_once_chars, string_of, trim, trim_chars,
};

verus! {

broadcast use vstd::string::group_string_axioms;

/// Screen-space rectangle in logical pixels, as Hyprland reports it.
#[derive(Clone, Copy, Debug, PartialEq, Eq)]
pub struct ScreenRect {
    pub x: i32,
    pub y: i32,
    pub w: i32,
    pub h: i32,
}

// ── Region strings ────────────────────────────────────────────────────────────

/// The message that names a field of a region string that is not a number.
pub open spec fn invalid_field_message(field: Seq<char>, text: Seq<char>) -> Seq<char> {
    "Invalid "@ + field + " in geometry: '"@ + text + "'"@
}

/// What a region string `"X,Y WxH"` means: its four numbers, or the message
/// that says what is wrong with it. Surrounding white space is ignored, and
/// so is white space around each part.
pub open spec fn geometry_spec(g: Seq<char>) -> Result<(i32, i32, u32, u32), Seq<char>> {
    match split_once(trim(g), ' ') {
        None => Err("Invalid geometry string: missing space"@),
        Some((pos, size)) => match split_once(trim(pos), ',') {
            None => Err("Invalid geometry string: missing comma in position"@),
            Some((xs, ys)) => match split_once(trim(size), 'x') {
                None => Err("Invalid geometry string: missing 'x' in size"@),
                Some((ws, hs)) => match parse_i32_spec(trim(xs)) {
                    None => Err(invalid_field_message("x"@, xs)),
                    Some(x) => match parse_i32_spec(trim(ys)) {
                        None => Err(invalid_field_message("y"@, ys)),
                        Some(y) => match parse_u32_spec(trim(ws)) {
                            None => Err(invalid_field_message("w"@, ws)),
                            Some(w) => match parse_u32_spec(trim(hs)) {
                                None => Err(invalid_field_message("h"@, hs)),
                                Some(h) => Ok((x, y, w, h)),
                            },
                        },
                    },
                },
            },
        },
    }
}

/// The region string for `(x, y, w, h)` as the selector prints it: `"X,Y WxH"`.
pub open spec fn geometry_text(x: i32, y: i32, w: u32, h: u32) -> Seq<char> {
    int_text(x as int) + seq![','] + int_text(y as int) + seq![' '] + int_text(w as int) + seq!['x']
        + int_text(h as int)
}

/// The region string of any rectangle parses back to the rectangle.
pub proof fn lemma_geometry_round_trip(x: i32, y: i32, w: u32, h: u32)
    ensures
        geometry_spec(geometry_text(x, y, w, h)) == Ok::<(i32, i32, u32, u32), Seq<char>>((x, y, w, h)),
{
    let tx = int_text(x as int);
    let ty = int_text(y as int);
    let tw = int_text(w as int);
    let th = int_text(h as int);
    lemma_int_text_chars(x as int);
    lemma_int_text_chars(y as int);
    lemma_int_text_chars(w as int);
    lemma_int_text_chars(h as int);
    let pos = tx + seq![','] + ty;
    let size = tw + seq!['x'] + th;
    let g = geometry_text(x, y, w, h);
    assert(g =~= pos + seq![' '] + size);
    // No part of a number is white space, a separator or the letter x.
    assert forall|k: int| 0 <= k < tx.len() implies #[trigger] tx[k] != ',' && tx[k] != ' ' && !is_ws(tx[k]) by {
        assert(tx[k] == '-' || is_digit(tx[k]));
    }
    assert forall|k: int| 0 <= k < ty.len() implies #[trigger] ty[k] != ' ' && !is_ws(ty[k]) by {
        assert(ty[k] == '-' || is_digit(ty[k]));
    }
    assert forall|k: int| 0 <= k < tw.len() implies #[trigger] tw[k] != 'x' && !is_ws(tw[k]) by {
        assert(tw[k] == '-' || is_digit(tw[k]));
    }
    assert forall|k: int| 0 <= k < th.len() implies !is_ws(#[trigger] th[k]) by {
        assert(th[k] == '-' || is_digit(th[k]));
    }
    assert forall|k: int| 0 <= k < pos.len() implies #[trigger] pos[k] != ' ' by {
        if k < tx.len() {
            assert(pos[k] == tx[k]);
        } else if k > tx.len() {
            assert(pos[k] == ty[k - tx.len() - 1]);
        }
    }
    assert(!is_ws(tx[0]));
    assert(!is_ws(th.last()));
    assert(g[0] == tx[0]);
    assert(g.last() == th.last());
    lemma_trim_plain(g);
    lemma_split_once_at(pos, ' ', size);
    assert(pos[0] == tx[0] && pos.last() == ty.last());
    assert(!is_ws(ty.last()));
    lemma_trim_plain(pos);
    lemma_split_once_at(tx, ',', ty);
    assert(size[0] == tw[0] && size.last() == th.last());
    assert(!is_ws(tw[0]));
    lemma_trim_plain(size);
    lemma_split_once_at(tw, 'x', th);
    assert(!is_ws(tx.last()) && !is_ws(ty[0]) && !is_ws(tw.last()) && !is_ws(th[0]));
    lemma_trim_plain(tx);
    lemma_trim_plain(ty);
    lemma_trim_plain(tw);
    lemma_trim_plain(th);
    lemma_int_text_parses(x);
    lemma_int_text_parses(y);
    lemma_nat_text_parses(w);
    lemma_nat_text_parses(h);
}

fn invalid_field(field: &str, text: &[char]) -> (e: AppError)
    ensures
        e == AppError::Other(e->Other_0) && e->Other_0@ == invalid_field_message(field@, text@),
{
    let mut m = String::from_str("Invalid ");
    m.append(field);
    m.append(" in geometry: '");
    let t = string_of(text);
    m.append(t.as_str());
    m.append("'");
    AppError::Other(m)
}

/// Parse a region string (`"X,Y WxH"`) into `(x, y, w, h)`.
///
/// `x` and `y` are signed because multi-monitor setups can place monitors at
/// negative logical coordinates (e.g. a monitor to the left of the primary at `−1920,0`).
pub fn parse_slurp_geometry(geom: &str) -> (r: Result<(i32, i32, u32, u32), AppError>)
    ensures
        match geometry_spec(geom@) {
            Ok(t) => r == Ok::<(i32, i32, u32, u32), AppError>(t),
            Err(m) => r is Err && other_message_is(r->Err_0, m),
        },
{
    let g = chars_of(geom);
    let tg = trim_chars(g.as_slice());
    let (pos, size) = match split_once_chars(tg.as_slice(), ' ') {
        Some(p) => p,
        None => {
            return Err(AppError::Other(String::from_str("Invalid geometry string: missing space")));
        },
    };
    let tpos = trim_chars(pos.as_slice());
    let (xs, ys) = match split_once_chars(tpos.as_slice(), ',') {
        Some(p) => p,
        None => {
            return Err(
                AppError::Other(
                    String::from_str("Invalid geometry string: missing comma in position"),
                ),
            );
        },
    };
    let tsize = trim_chars(size.as_slice());
    let (ws, hs) = match split_once_chars(tsize.as_slice(), 'x') {
        Some(p) => p,
        None => {
            return Err(
                AppError::Other(String::from_str("Invalid geometry string: missing 'x' in size")),
            );
        },
    };
    let x = match parse_i32(trim_chars(xs.as_slice()).as_slice()) {
        Some(v) => v,
        None => {
            return Err(invalid_field("x", xs.as_slice()));
        },
    };
    let y = match parse_i32(trim_chars(ys.as_slice()).as_slice()) {
        Some(v) => v,
        None => {
            return Err(invalid_field("y", ys.as_slice()));
        },
    };
    let w = match parse_u32(trim_chars(ws.as_slice()).as_slice()) {
        Some(v) => v,
        None => {
            return Err(invalid_field("w", ws.as_slice()));
        },
    };
    let h = match parse_u32(trim_chars(hs.as_slice()).as_slice()) {
        Some(v) => v,
        None => {
            return Err(invalid_field("h", hs.as_slice()));
        },
    };
    Ok((x, y, w, h))
}

/// `e` is `AppError::Other` with the text `m`.
pub open spec fn other_message_is(e: AppError, m: Seq<char>) -> bool {
    match e {
        AppError::Other(s) => s@ == m,
        _ => false,
    }
}

// ── Clamping ──────────────────────────────────────────────────────────────────

/// `a - b`, or 0 where that would be negative.
pub open spec fn sat_sub(a: int, b: int) -> int {
    if a >= b {
        a - b
    } else {
        0
    }
}

/// The smaller of `a` and `b`.
pub open spec fn min_int(a: int, b: int) -> int {
    if a <= b {
        a
    } else {
        b
    }
}

/// Clamp a crop rectangle to image bounds.
///
/// Returns `(clamped_w, clamped_h, was_clamped)`.
/// `was_clamped` is `true` when the requested size exceeded the image, which
/// callers should surface as a warning — silent clamping hides crop mistakes.
pub fn clamp_crop(x: u32, y: u32, w: u32, h: u32, img_w: u32, img_h: u32) -> (r: (u32, u32, bool))
    ensures
        r.0 == min_int(w as int, sat_sub(img_w as int, x as int)),
        r.1 == min_int(h as int, sat_sub(img_h as int, y as int)),
        r.2 == (r.0 != w || r.1 != h),
{
    let room_w = if img_w >= x {
        img_w - x
    } else {
        0
    };
    let room_h = if img_h >= y {
        img_h - y
    } else {
        0
    };
    let clamped_w = if w <= room_w {
        w
    } else {
        room_w
    };
    let clamped_h = if h <= room_h {
        h
    } else {
        room_h
    };
    (clamped_w, clamped_h, clamped_w != w || clamped_h != h)
}

/// Along one axis, a crop clamped to an image never grows, stays inside the
/// image when anything is left of it, and keeps its size exactly when it fit.
pub proof fn lemma_clamp_inside(start: int, len: int, size: int)
    requires
        0 <= start,
        0 <= len,
        0 <= size,
    ensures
        0 <= min_int(len, sat_sub(size, start)) <= len,
        min_int(len, sat_sub(size, start)) > 0 ==> start + min_int(len, sat_sub(size, start))
            <= size,
        (min_int(len, sat_sub(size, start)) == len) <==> (len == 0 || start + len <= size),
{
}

// ── Growing a rectangle ───────────────────────────────────────────────────────

/// `border_size as i32`: the same bits read as a signed number.
pub open spec fn border_as_i32(border_size: u32) -> int {
    if border_size <= i32::MAX {
        border_size as int
    } else {
        border_size - 0x1_0000_0000
    }
}

/// The rectangle `r` grown outward by `b` on every side.
pub open spec fn expanded(r: ScreenRect, b: int) -> (int, int, int, int) {
    (r.x - b, r.y - b, r.w + 2 * b, r.h + 2 * b)
}

/// Every coordinate of `r` grown by `b` on each side fits in an `i32`.
pub open spec fn expand_fits(r: ScreenRect, b: int) -> bool {
    let e = expanded(r, b);
    &&& i32::MIN <= e.0 <= i32::MAX
    &&& i32::MIN <= e.1 <= i32::MAX
    &&& i32::MIN <= e.2 <= i32::MAX
    &&& i32::MIN <= 2 * b <= i32::MAX
    &&& i32::MIN <= e.3 <= i32::MAX
}

impl ScreenRect {
    /// Expand the rect outward by `border_size` on every side (in logical pixels).
    pub fn expand(self, border_size: u32) -> (r: Self)
        requires
            expand_fits(self, border_as_i32(border_size)),
        ensures
            (r.x as int, r.y as int, r.w as int, r.h as int) == expanded(
                self,
                border_as_i32(border_size),
            ),
    {
        let b: i32 = if border_size <= 0x7fff_ffff {
            border_size as i32
        } else {
            ((border_size - 0x8000_0000) as i32) - 0x7fff_ffff - 1
        };
        Self { x: self.x - b, y: self.y - b, w: self.w + 2 * b, h: self.h + 2 * b }
    }
}

} // verus!
