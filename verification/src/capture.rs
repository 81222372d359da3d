//! The decisions of the capture commands: reading what the region selector
//! printed, choosing the part of an image to keep, finding the monitor of a
//! window, and the numbers freeze mode starts from.

use vstd::prelude::*;
use vstd::utf8::{decode_utf8, valid_utf8};

use crate::error::AppError;
use crate::geometry::{border_as_i32, clamp_crop, min_int, other_message_is, sat_sub, ScreenRect};
use crate::hyprland::{HyprMonitor, MonitorInfo};
use crate::pixels::{
    image_dims, image_len, image_samples, sample_at, RgbaImage,
};
use crate::text::{chars_of, int_text, push_int, string_of, trim, trim_chars};

verus! {

broadcast use vstd::string::group_string_axioms;

// ── The region selector ───────────────────────────────────────────────────────

/// `String::from_utf8`: the text that `bytes` encode, where they are valid
/// UTF-8, and nothing otherwise.
#[verifier::external_body]
fn utf8_text(bytes: Vec<u8>) -> (r: Option<String>)
    ensures
        r is Some <==> valid_utf8(bytes@),
        r matches Some(s) ==> s@ == decode_utf8(bytes@),
{
    String::from_utf8(bytes).ok()
}

/// The region that the selector printed, from how it ended and what it wrote.
///
/// Exit code 1 means the user cancelled; any other failure is reported with
/// the exit status `status_text`. The output must be UTF-8 and, once trimmed,
/// not empty.
pub fn slurp_region_from(success: bool, exit_code: Option<i32>, status_text: &str, stdout: Vec<
    u8,
>) -> (r: Result<String, AppError>)
    ensures
        !success && exit_code == Some(1i32) ==> r matches Err(AppError::UserCancelled),
        !success && exit_code != Some(1i32) ==> (r matches Err(AppError::CommandFailed(c, t)) && c@
            == "slurp"@ && t@ == status_text@),
        success && !valid_utf8(stdout@) ==> r is Err && other_message_is(
            r->Err_0,
            "slurp output is not valid UTF-8"@,
        ),
        success && valid_utf8(stdout@) && trim(decode_utf8(stdout@)).len() == 0 ==> r matches Err(
            AppError::EmptyGeometry,
        ),
        success && valid_utf8(stdout@) && trim(decode_utf8(stdout@)).len() > 0 ==> r is Ok
            && r->Ok_0@ == trim(decode_utf8(stdout@)),
{
    if !success {
        if exit_code == Some(1i32) {
            return Err(AppError::UserCancelled);
        }
        return Err(AppError::CommandFailed(String::from_str("slurp"), String::from_str(status_text)));
    }
    let text = match utf8_text(stdout) {
        Some(t) => t,
        None => {
            return Err(AppError::Other(String::from_str("slurp output is not valid UTF-8")));
        },
    };
    let cs = chars_of(text.as_str());
    let t = trim_chars(cs.as_slice());
    if t.len() == 0 {
        return Err(AppError::EmptyGeometry);
    }
    Ok(string_of(t.as_slice()))
}

// ── Region crops ──────────────────────────────────────────────────────────────

/// The part of an image to keep.
#[derive(Debug, Clone, Copy)]
pub struct CropPlan {
    pub x: u32,
    pub y: u32,
    pub w: u32,
    pub h: u32,
    /// The requested size had to be shrunk to fit the image.
    pub was_clamped: bool,
}

/// The message for a selected region that lies wholly outside the image.
pub open spec fn crop_outside_message(
    sx: int,
    sy: int,
    rw: int,
    rh: int,
    iw: int,
    ih: int,
) -> Seq<char> {
    "Crop region ("@ + int_text(sx) + ","@ + int_text(sy) + " "@ + int_text(rw) + "x"@ + int_text(
        rh,
    ) + ") is entirely outside the image bounds ("@ + int_text(iw) + "x"@ + int_text(ih) + ")"@
}

/// `v`, or 0 where `v` is negative.
pub open spec fn non_negative(v: int) -> int {
    if v >= 0 {
        v
    } else {
        0
    }
}

/// Where a selected region lands in the composite of all monitors, whose
/// pixel `(0, 0)` is the logical point `origin`, clamped to the composite's
/// `img_w` × `img_h`. A region wholly outside is an error.
pub fn plan_region_crop(origin: (i32, i32), geometry: (i32, i32, u32, u32), img_w: u32, img_h: u32) -> (r:
    Result<CropPlan, AppError>)
    requires
        i32::MIN <= geometry.0 - origin.0 <= i32::MAX,
        i32::MIN <= geometry.1 - origin.1 <= i32::MAX,
    ensures
        ({
            let x = non_negative(geometry.0 - origin.0);
            let y = non_negative(geometry.1 - origin.1);
            let w = min_int(geometry.2 as int, sat_sub(img_w as int, x));
            let h = min_int(geometry.3 as int, sat_sub(img_h as int, y));
            &&& (w == 0 || h == 0) ==> r is Err && other_message_is(
                r->Err_0,
                crop_outside_message(
                    geometry.0 as int,
                    geometry.1 as int,
                    geometry.2 as int,
                    geometry.3 as int,
                    img_w as int,
                    img_h as int,
                ),
            )
            &&& (w != 0 && h != 0) ==> (r matches Ok(p) && p.x == x && p.y == y && p.w == w && p.h
                == h && p.was_clamped == (w != geometry.2 || h != geometry.3))
        }),
{
    let (sx, sy, req_w, req_h) = geometry;
    let dx = sx - origin.0;
    let dy = sy - origin.1;
    let x: u32 = if dx >= 0 {
        dx as u32
    } else {
        0
    };
    let y: u32 = if dy >= 0 {
        dy as u32
    } else {
        0
    };
    let (w, h, was_clamped) = clamp_crop(x, y, req_w, req_h, img_w, img_h);
    if w == 0 || h == 0 {
        let mut m = String::from_str("Crop region (");
        push_int(&mut m, sx as i64);
        m.append(",");
        push_int(&mut m, sy as i64);
        m.append(" ");
        push_int(&mut m, req_w as i64);
        m.append("x");
        push_int(&mut m, req_h as i64);
        m.append(") is entirely outside the image bounds (");
        push_int(&mut m, img_w as i64);
        m.append("x");
        push_int(&mut m, img_h as i64);
        m.append(")");
        return Err(AppError::Other(m));
    }
    Ok(CropPlan { x, y, w, h, was_clamped })
}

// ── Window captures ───────────────────────────────────────────────────────────

/// Whether the logical point `(x, y)` lies on monitor `m`.
pub open spec fn on_monitor(m: MonitorInfo, x: int, y: int) -> bool {
    x >= m.rect.x && y >= m.rect.y && x < m.rect.x + m.rect.w && y < m.rect.y + m.rect.h
}

/// The index of the first monitor that the point `(x, y)` lies on.
pub open spec fn monitor_at(ms: Seq<MonitorInfo>, x: int, y: int) -> Option<int>
    decreases ms.len(),
{
    if ms.len() == 0 {
        None
    } else if on_monitor(ms[0], x, y) {
        Some(0)
    } else {
        match monitor_at(ms.drop_first(), x, y) {
            Some(i) => Some(i + 1),
            None => None,
        }
    }
}

proof fn lemma_monitor_at(ms: Seq<MonitorInfo>, x: int, y: int)
    ensures
        monitor_at(ms, x, y) is None <==> forall|k: int| 0 <= k < ms.len() ==> !on_monitor(#[trigger] ms[k], x, y),
        monitor_at(ms, x, y) matches Some(i) ==> 0 <= i < ms.len() && on_monitor(ms[i], x, y)
            && forall|k: int| 0 <= k < i ==> !on_monitor(#[trigger] ms[k], x, y),
    decreases ms.len(),
{
    if ms.len() > 0 {
        let t = ms.drop_first();
        lemma_monitor_at(t, x, y);
        assert forall|k: int| 0 <= k < t.len() implies t[k] == ms[k + 1] by {}
        if !on_monitor(ms[0], x, y) {
            if monitor_at(t, x, y) is None {
                assert forall|k: int| 0 <= k < ms.len() implies !on_monitor(#[trigger] ms[k], x, y) by {
                    if k > 0 {
                        assert(ms[k] == t[k - 1]);
                    }
                }
            } else {
                assert forall|k: int| 0 <= k < monitor_at(ms, x, y)->0 implies !on_monitor(#[trigger] ms[k], x, y) by {
                    if k > 0 {
                        assert(ms[k] == t[k - 1]);
                    }
                }
            }
        }
    }
}

/// The monitor found for a point holds it on both axes, and no earlier
/// monitor does; where none is found, no monitor holds the point.
pub proof fn lemma_window_monitor_holds_corner(ms: Seq<MonitorInfo>, x: int, y: int)
    ensures
        monitor_at(ms, x, y) matches Some(i) ==> {
            &&& 0 <= i < ms.len()
            &&& ms[i].rect.x <= x < ms[i].rect.x + ms[i].rect.w
            &&& ms[i].rect.y <= y < ms[i].rect.y + ms[i].rect.h
            &&& forall|k: int|
                #![trigger ms[k]]
                0 <= k < i ==> !(ms[k].rect.x <= x < ms[k].rect.x + ms[k].rect.w && ms[k].rect.y
                    <= y < ms[k].rect.y + ms[k].rect.h)
        },
        monitor_at(ms, x, y) is None ==> forall|k: int|
            #![trigger ms[k]]
            0 <= k < ms.len() ==> !(ms[k].rect.x <= x < ms[k].rect.x + ms[k].rect.w && ms[k].rect.y
                <= y < ms[k].rect.y + ms[k].rect.h),
{
    lemma_monitor_at(ms, x, y);
    assert forall|k: int|
        0 <= k < ms.len() && !on_monitor(#[trigger] ms[k], x, y) implies !(ms[k].rect.x <= x
        < ms[k].rect.x + ms[k].rect.w && ms[k].rect.y <= y < ms[k].rect.y + ms[k].rect.h) by {}
}

/// Where the active window lies: the monitor that holds its top-left corner,
/// and, relative to that monitor, the corner and the size of the window
/// (grown by the border when one is to be included).
#[derive(Debug, Clone, Copy)]
pub struct WindowTarget {
    /// Index of the monitor in the list searched.
    pub monitor: usize,
    pub rel_x: u32,
    pub rel_y: u32,
    pub width: u32,
    pub height: u32,
}

/// The window at `at` of size `size`, grown by `border_size` on each side
/// (0 for no border), located on the first monitor that holds its top-left
/// corner. Windows spanning several monitors are captured from that monitor
/// only. A corner on no monitor is an error.
pub fn plan_window_capture(at: [i32; 2], size: [i32; 2], border_size: u32, monitors: &[MonitorInfo]) -> (r:
    Result<WindowTarget, AppError>)
    requires
        ({
            let b = border_as_i32(border_size);
            &&& i32::MIN <= at[0] - b <= i32::MAX
            &&& i32::MIN <= at[1] - b <= i32::MAX
            &&& i32::MIN <= 2 * b <= i32::MAX
            &&& i32::MIN <= size[0] + 2 * b <= i32::MAX
            &&& i32::MIN <= size[1] + 2 * b <= i32::MAX
        }),
    ensures
        ({
            let b = border_as_i32(border_size);
            let wx = at[0] - b;
            let wy = at[1] - b;
            match monitor_at(monitors@, wx, wy) {
                None => r is Err && other_message_is(
                    r->Err_0,
                    "Could not find monitor for active window"@,
                ),
                Some(i) => (r matches Ok(t) && t.monitor == i && t.rel_x == wx - monitors@[i].rect.x
                    && t.rel_y == wy - monitors@[i].rect.y && t.width == non_negative(size[0] + 2 * b)
                    && t.height == non_negative(size[1] + 2 * b)),
            }
        }),
        r matches Ok(t) ==> ({
            let b = border_as_i32(border_size);
            let m = monitors@[t.monitor as int];
            &&& t.monitor < monitors@.len()
            &&& m.rect.x <= at[0] - b < m.rect.x + m.rect.w
            &&& m.rect.y <= at[1] - b < m.rect.y + m.rect.h
            &&& t.rel_x < m.rect.w
            &&& t.rel_y < m.rect.h
            &&& forall|k: int|
                #![trigger monitors@[k]]
                0 <= k < t.monitor ==> !(monitors@[k].rect.x <= at[0] - b < monitors@[k].rect.x
                    + monitors@[k].rect.w && monitors@[k].rect.y <= at[1] - b < monitors@[k].rect.y
                    + monitors@[k].rect.h)
        }),
        r is Err ==> forall|k: int|
            #![trigger monitors@[k]]
            0 <= k < monitors@.len() ==> !(monitors@[k].rect.x <= at[0] - border_as_i32(border_size)
                < monitors@[k].rect.x + monitors@[k].rect.w && monitors@[k].rect.y <= at[1]
                - border_as_i32(border_size) < monitors@[k].rect.y + monitors@[k].rect.h),
{
    proof {
        lemma_window_monitor_holds_corner(
            monitors@,
            at[0] - border_as_i32(border_size),
            at[1] - border_as_i32(border_size),
        );
    }
    let b: i32 = if border_size <= 0x7fff_ffff {
        border_size as i32
    } else {
        ((border_size - 0x8000_0000) as i32) - 0x7fff_ffff - 1
    };
    let win_x = at[0] - b;
    let win_y = at[1] - b;
    let ww = size[0] + 2 * b;
    let wh = size[1] + 2 * b;
    let width: u32 = if ww >= 0 {
        ww as u32
    } else {
        0
    };
    let height: u32 = if wh >= 0 {
        wh as u32
    } else {
        0
    };
    proof {
        lemma_monitor_at(monitors@, win_x as int, win_y as int);
    }
    let mut i: usize = 0;
    while i < monitors.len()
        invariant
            i <= monitors@.len(),
            win_x == at[0] - border_as_i32(border_size),
            win_y == at[1] - border_as_i32(border_size),
            width == non_negative(size[0] + 2 * border_as_i32(border_size)),
            height == non_negative(size[1] + 2 * border_as_i32(border_size)),
            forall|k: int| 0 <= k < i ==> !on_monitor(#[trigger] monitors@[k], win_x as int, win_y as int),
        decreases monitors@.len() - i,
    {
        let m = &monitors[i];
        let right = m.rect.x as i64 + m.rect.w as i64;
        let bottom = m.rect.y as i64 + m.rect.h as i64;
        if win_x >= m.rect.x && win_y >= m.rect.y && (win_x as i64) < right && (win_y as i64)
            < bottom {
            proof {
                lemma_monitor_at(monitors@, win_x as int, win_y as int);
                let f = monitor_at(monitors@, win_x as int, win_y as int);
                if f is None {
                    assert(!on_monitor(monitors@[i as int], win_x as int, win_y as int));
                } else {
                    let w = f->0;
                    if w < i {
                        assert(!on_monitor(monitors@[w], win_x as int, win_y as int));
                    } else if w > i {
                        assert(!on_monitor(monitors@[i as int], win_x as int, win_y as int));
                    }
                }
            }
            return Ok(
                WindowTarget {
                    monitor: i,
                    rel_x: (win_x - m.rect.x) as u32,
                    rel_y: (win_y - m.rect.y) as u32,
                    width,
                    height,
                },
            );
        }
        i = i + 1;
    }
    Err(AppError::Other(String::from_str("Could not find monitor for active window")))
}

/// The message for a monitor that reports a size that is not positive.
pub open spec fn invalid_monitor_message(name: Seq<char>, w: int, h: int) -> Seq<char> {
    "Monitor '"@ + name + "' has invalid dimensions ("@ + int_text(w) + "x"@ + int_text(h)
        + ") in Hyprland IPC data"@
}

/// A monitor whose logical size is not positive cannot be scaled from.
pub fn check_monitor_size(m: &MonitorInfo) -> (r: Result<(), AppError>)
    ensures
        r is Ok <==> m.rect.w > 0 && m.rect.h > 0,
        r is Err ==> other_message_is(
            r->Err_0,
            invalid_monitor_message(m.name@, m.rect.w as int, m.rect.h as int),
        ),
{
    if m.rect.w <= 0 || m.rect.h <= 0 {
        let mut s = String::from_str("Monitor '");
        s.append(m.name.as_str());
        s.append("' has invalid dimensions (");
        push_int(&mut s, m.rect.w as i64);
        s.append("x");
        push_int(&mut s, m.rect.h as i64);
        s.append(") in Hyprland IPC data");
        return Err(AppError::Other(s));
    }
    Ok(())
}

/// The size of the window crop in physical pixels, shrunk to fit the monitor
/// image of `img_w` × `img_h` from the corner `(phys_x, phys_y)`; a crop with
/// nothing left is an error.
pub fn clamp_window_crop(
    phys_x: u32,
    phys_y: u32,
    phys_w: u32,
    phys_h: u32,
    img_w: u32,
    img_h: u32,
) -> (r: Result<(u32, u32), AppError>)
    ensures
        ({
            let w = min_int(phys_w as int, sat_sub(img_w as int, phys_x as int));
            let h = min_int(phys_h as int, sat_sub(img_h as int, phys_y as int));
            &&& (w == 0 || h == 0) ==> r is Err && other_message_is(
                r->Err_0,
                "Window crop region is entirely outside the monitor image bounds"@,
            )
            &&& (w != 0 && h != 0) ==> r == Ok::<(u32, u32), AppError>((w as u32, h as u32))
        }),
{
    let room_w = if img_w >= phys_x {
        img_w - phys_x
    } else {
        0
    };
    let room_h = if img_h >= phys_y {
        img_h - phys_y
    } else {
        0
    };
    let w = if phys_w <= room_w {
        phys_w
    } else {
        room_w
    };
    let h = if phys_h <= room_h {
        phys_h
    } else {
        room_h
    };
    if w == 0 || h == 0 {
        return Err(
            AppError::Other(
                String::from_str("Window crop region is entirely outside the monitor image bounds"),
            ),
        );
    }
    Ok((w, h))
}

/// The name of the focused monitor among Hyprland's monitor entries.
pub fn focused_monitor_name(monitors: &[HyprMonitor]) -> (r: Result<String, AppError>)
    ensures
        match r {
            Ok(n) => exists|i: int|
                0 <= i < monitors@.len() && monitors@[i].focused && n@ == monitors@[i].name@
                    && forall|k: int| 0 <= k < i ==> !(#[trigger] monitors@[k]).focused,
            Err(e) => e is NoFocusedMonitor && forall|k: int|
                0 <= k < monitors@.len() ==> !(#[trigger] monitors@[k]).focused,
        },
{
    let mut i: usize = 0;
    while i < monitors.len()
        invariant
            i <= monitors@.len(),
            forall|k: int| 0 <= k < i ==> !(#[trigger] monitors@[k]).focused,
        decreases monitors@.len() - i,
    {
        if monitors[i].focused {
            let n = monitors[i].name.clone();
            assert(monitors@[i as int].focused);
            return Ok(n);
        }
        i = i + 1;
    }
    Err(AppError::NoFocusedMonitor)
}

// ── Freeze mode ───────────────────────────────────────────────────────────────

/// The active workspace of every monitor, in order.
pub fn active_workspace_ids(monitors: &[MonitorInfo]) -> (ids: Vec<i64>)
    ensures
        ids@.len() == monitors@.len(),
        forall|i: int| 0 <= i < ids@.len() ==> #[trigger] ids@[i] == monitors@[i].active_workspace_id,
{
    let mut ids: Vec<i64> = Vec::new();
    let mut i: usize = 0;
    while i < monitors.len()
        invariant
            i <= monitors@.len(),
            ids@.len() == i,
            forall|k: int| 0 <= k < i ==> #[trigger] ids@[k] == monitors@[k].active_workspace_id,
        decreases monitors@.len() - i,
    {
        ids.push(monitors[i].active_workspace_id);
        i = i + 1;
    }
    ids
}

/// The index of the first focused monitor, or 0 where none is focused.
pub fn focused_index(monitors: &[MonitorInfo]) -> (i: usize)
    ensures
        (exists|k: int| 0 <= k < monitors@.len() && monitors@[k].focused) ==> i < monitors@.len()
            && monitors@[i as int].focused && forall|k: int|
            0 <= k < i ==> !(#[trigger] monitors@[k]).focused,
        !(exists|k: int| 0 <= k < monitors@.len() && monitors@[k].focused) ==> i == 0,
{
    let mut i: usize = 0;
    while i < monitors.len()
        invariant
            i <= monitors@.len(),
            forall|k: int| 0 <= k < i ==> !(#[trigger] monitors@[k]).focused,
        decreases monitors@.len() - i,
    {
        if monitors[i].focused {
            return i;
        }
        i = i + 1;
    }
    assert(!(exists|k: int| 0 <= k < monitors@.len() && monitors@[k].focused)) by {
        if exists|k: int| 0 <= k < monitors@.len() && monitors@[k].focused {
            let k = choose|k: int| 0 <= k < monitors@.len() && monitors@[k].focused;
            assert(!monitors@[k].focused);
        }
    }
    0
}

/// The indices of the monitors that are not focused, in order.
pub open spec fn unfocused_indices(ms: Seq<MonitorInfo>) -> Seq<int>
    decreases ms.len(),
{
    if ms.len() == 0 {
        seq![]
    } else if ms.last().focused {
        unfocused_indices(ms.drop_last())
    } else {
        unfocused_indices(ms.drop_last()).push(ms.len() - 1)
    }
}

/// The monitors that get an overlay of their own are exactly the unfocused
/// ones: each listed index is that of an unfocused monitor, the indices rise
/// strictly (so none is listed twice), and every unfocused monitor is listed.
pub proof fn lemma_unfocused_indices(ms: Seq<MonitorInfo>)
    ensures
        forall|k: int|
            0 <= k < unfocused_indices(ms).len() ==> 0 <= #[trigger] unfocused_indices(ms)[k]
                < ms.len() && !ms[unfocused_indices(ms)[k]].focused,
        forall|k: int, l: int|
            0 <= k < l < unfocused_indices(ms).len() ==> #[trigger] unfocused_indices(ms)[k]
                < #[trigger] unfocused_indices(ms)[l],
        forall|j: int|
            0 <= j < ms.len() && !(#[trigger] ms[j]).focused ==> exists|k: int|
                0 <= k < unfocused_indices(ms).len() && #[trigger] unfocused_indices(ms)[k] == j,
    decreases ms.len(),
{
    if ms.len() > 0 {
        let prev = ms.drop_last();
        lemma_unfocused_indices(prev);
        let p = unfocused_indices(prev);
        let s = unfocused_indices(ms);
        assert forall|j: int| 0 <= j < ms.len() && !(#[trigger] ms[j]).focused implies exists|
            k: int,
        | 0 <= k < s.len() && #[trigger] s[k] == j by {
            if j < ms.len() - 1 {
                assert(prev[j] == ms[j]);
                let k = choose|k: int| 0 <= k < p.len() && #[trigger] p[k] == j;
                assert(s[k] == j);
            } else {
                assert(s[s.len() - 1] == j);
            }
        }
    }
}

/// The monitors that get an overlay surface of their own in freeze mode:
/// every monitor but the focused ones, which the main surface covers.
pub fn overlay_monitor_indices(monitors: &[MonitorInfo]) -> (v: Vec<usize>)
    ensures
        v@.len() == unfocused_indices(monitors@).len(),
        forall|k: int| 0 <= k < v@.len() ==> #[trigger] v@[k] == unfocused_indices(monitors@)[k],
{
    let ghost ms = monitors@;
    let mut v: Vec<usize> = Vec::new();
    let mut i: usize = 0;
    while i < monitors.len()
        invariant
            i <= ms.len(),
            ms == monitors@,
            v@.len() == unfocused_indices(ms.take(i as int)).len(),
            forall|k: int| 0 <= k < v@.len() ==> #[trigger] v@[k] == unfocused_indices(ms.take(i as int))[k],
        decreases ms.len() - i,
    {
        assert(ms.take(i + 1).drop_last() == ms.take(i as int));
        assert(ms.take(i + 1).last() == ms[i as int]);
        if !monitors[i].focused {
            v.push(i);
        }
        i = i + 1;
    }
    assert(ms.take(ms.len() as int) == ms);
    v
}

/// The image to save when freeze mode ends: the whole frozen composite when
/// everything was chosen, else the part that `freeze_crop_rect` gives for the
/// chosen region (in image coordinates).
pub fn crop_frozen_image(img: RgbaImage, region: Option<ScreenRect>) -> (r: RgbaImage)
    requires
        image_samples(img).len() >= image_len(image_dims(img).0 as int, image_dims(img).1 as int),
    ensures
        region is None ==> r == img,
        region matches Some(reg) ==> ({
            let iw = image_dims(img).0 as int;
            let ih = image_dims(img).1 as int;
            let x = non_negative(reg.x as int);
            let y = non_negative(reg.y as int);
            let w = min_int(as_u32_bits(reg.w), sat_sub(iw, x));
            let h = min_int(as_u32_bits(reg.h), sat_sub(ih, y));
            &&& image_dims(r).0 == w
            &&& image_dims(r).1 == h
            &&& image_samples(r).len() == image_len(w, h)
            &&& forall|xx: int, yy: int, k: int|
                0 <= xx < w && 0 <= yy < h && 0 <= k < 4 ==> #[trigger] sample_at(
                    image_samples(r),
                    w,
                    xx,
                    yy,
                    k,
                ) == sample_at(image_samples(img), iw, x + xx, y + yy, k)
        }),
{
    match region {
        None => img,
        Some(reg) => {
            let (x, y, w, h) = freeze_crop_rect(reg, img.width(), img.height());
            img.crop(x, y, w, h)
        },
    }
}

/// `v as u32`: the same bits read as unsigned.
pub open spec fn as_u32_bits(v: i32) -> int {
    if v >= 0 {
        v as int
    } else {
        v + 0x1_0000_0000
    }
}

/// The part of the frozen composite image (`img_w` × `img_h`) to keep for the
/// region `r` given in image coordinates: the corner moved to be non-negative,
/// the size read as unsigned and shrunk to fit from that corner.
pub fn freeze_crop_rect(r: ScreenRect, img_w: u32, img_h: u32) -> (c: (u32, u32, u32, u32))
    ensures
        c.0 == non_negative(r.x as int),
        c.1 == non_negative(r.y as int),
        c.2 == min_int(as_u32_bits(r.w), sat_sub(img_w as int, c.0 as int)),
        c.3 == min_int(as_u32_bits(r.h), sat_sub(img_h as int, c.1 as int)),
{
    let x: u32 = if r.x >= 0 {
        r.x as u32
    } else {
        0
    };
    let y: u32 = if r.y >= 0 {
        r.y as u32
    } else {
        0
    };
    let rw: u32 = if r.w >= 0 {
        r.w as u32
    } else {
        ((r.w as i64) + 0x1_0000_0000i64) as u32
    };
    let rh: u32 = if r.h >= 0 {
        r.h as u32
    } else {
        ((r.h as i64) + 0x1_0000_0000i64) as u32
    };
    let room_w = if img_w >= x {
        img_w - x
    } else {
        0
    };
    let room_h = if img_h >= y {
        img_h - y
    } else {
        0
    };
    let w = if rw <= room_w {
        rw
    } else {
        room_w
    };
    let h = if rh <= room_h {
        rh
    } else {
        room_h
    };
    (x, y, w, h)
}


// ── Commands ──────────────────────────────────────────────────────────────────

/// The outcome of a command that ran: success, or a failure that carries
/// the command and its exit status `status_text`.
pub fn check_command_status(cmd: &str, success: bool, status_text: &str) -> (r: Result<(), AppError>)
    ensures
        success ==> r is Ok,
        !success ==> (r matches Err(AppError::CommandFailed(c, t)) && c@ == cmd@ && t@
            == status_text@),
{
    if !success {
        return Err(AppError::CommandFailed(String::from_str(cmd), String::from_str(status_text)));
    }
    Ok(())
}

/// Whether a default configuration may be written to `path`: not when a file
/// is already there, unless overwriting was asked for.
pub fn check_config_target(path: &str, file_exists: bool, force: bool) -> (r: Result<(), AppError>)
    ensures
        (r is Ok) <==> (!file_exists || force),
        r is Err ==> (r matches Err(AppError::Config(m)) && m@ == "config file already exists: "@
            + path@ + "\nUse --force to overwrite"@),
{
    if file_exists && !force {
        let mut m = String::from_str("config file already exists: ");
        m.append(path);
        m.append("\nUse --force to overwrite");
        return Err(AppError::Config(m));
    }
    Ok(())
}

} // verus!
