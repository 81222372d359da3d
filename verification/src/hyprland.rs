//! The Hyprland data that captures work from: monitors, windows and border
//! options as the compositor reports them, and the plain forms the rest of
//! the crate uses.

use vstd::prelude::*;

use crate::geometry::ScreenRect;

verus! {

/// A window as the capture logic sees it.
#[derive(Clone, Debug)]
pub struct WindowInfo {
    pub rect: ScreenRect,
    pub title: String,
    pub floating: bool,
    /// Lower = more recently focused (0 = topmost floating window).
    pub focus_history_id: i64,
}

/// A monitor as the capture logic sees it.
#[derive(Clone, Debug)]
pub struct MonitorInfo {
    pub rect: ScreenRect,
    pub name: String,
    pub focused: bool,
    pub active_workspace_id: i64,
}

/// One entry of Hyprland's `monitors` reply.
#[derive(Debug)]
pub struct HyprMonitor {
    pub x: i32,
    pub y: i32,
    pub width: i32,
    pub height: i32,
    pub name: String,
    pub focused: bool,
    pub active_workspace: HyprWorkspace,
}

/// A workspace reference inside a Hyprland reply.
#[derive(Debug)]
pub struct HyprWorkspace {
    pub id: i64,
}

/// One entry of Hyprland's `clients` reply.
#[derive(Debug)]
pub struct HyprClient {
    pub hidden: bool,
    pub workspace: HyprWorkspace,
    pub at: [i32; 2],
    pub size: [i32; 2],
    pub title: String,
    pub floating: bool,
    pub focus_history_id: i64,
}

/// Hyprland's `activewindow` reply.
#[derive(Debug)]
pub struct HyprActiveWindow {
    pub at: [i32; 2],
    pub size: [i32; 2],
}

/// Hyprland's reply to `getoption` for an integer option.
#[derive(Debug)]
pub struct HyprOption {
    pub int: i64,
}

/// The border decoration of windows.
#[derive(Clone, Copy, Debug, Default)]
pub struct BorderStyle {
    /// Hyprland `general:border_size` in logical pixels.
    pub border_size: u32,
    /// Hyprland `decoration:rounding` in logical pixels.
    pub rounding: u32,
}

// ── Monitors ──────────────────────────────────────────────────────────────────

/// The monitor that a Hyprland monitor entry describes.
pub open spec fn monitor_info_of(m: HyprMonitor) -> MonitorInfo {
    MonitorInfo {
        rect: ScreenRect { x: m.x, y: m.y, w: m.width, h: m.height },
        name: m.name,
        focused: m.focused,
        active_workspace_id: m.active_workspace.id,
    }
}

/// A monitor keeps its entry's position, size, name, focus and workspace,
/// field for field.
pub proof fn lemma_monitor_info_fields(m: HyprMonitor)
    ensures
        monitor_info_of(m).rect.x == m.x,
        monitor_info_of(m).rect.y == m.y,
        monitor_info_of(m).rect.w == m.width,
        monitor_info_of(m).rect.h == m.height,
        monitor_info_of(m).name == m.name,
        monitor_info_of(m).focused == m.focused,
        monitor_info_of(m).active_workspace_id == m.active_workspace.id,
{
}

/// Turn Hyprland's monitor entries into monitors, one for one, in order.
pub fn parse_monitors(monitors: Vec<HyprMonitor>) -> (r: Vec<MonitorInfo>)
    ensures
        r@.len() == monitors@.len(),
        forall|i: int| 0 <= i < r@.len() ==> #[trigger] r@[i] == monitor_info_of(monitors@[i]),
        forall|i: int|
            0 <= i < r@.len() ==> (#[trigger] r@[i]).rect.x == monitors@[i].x && r@[i].rect.y
                == monitors@[i].y && r@[i].rect.w == monitors@[i].width && r@[i].rect.h
                == monitors@[i].height && r@[i].name == monitors@[i].name && r@[i].focused
                == monitors@[i].focused && r@[i].active_workspace_id
                == monitors@[i].active_workspace.id,
{
    let mut r: Vec<MonitorInfo> = Vec::new();
    let mut i: usize = 0;
    while i < monitors.len()
        invariant
            i <= monitors@.len(),
            r@.len() == i,
            forall|k: int| 0 <= k < i ==> #[trigger] r@[k] == monitor_info_of(monitors@[k]),
        decreases monitors@.len() - i,
    {
        let m = &monitors[i];
        r.push(
            MonitorInfo {
                rect: ScreenRect { x: m.x, y: m.y, w: m.width, h: m.height },
                name: m.name.clone(),
                focused: m.focused,
                active_workspace_id: m.active_workspace.id,
            },
        );
        i = i + 1;
    }
    r
}

// ── Windows ───────────────────────────────────────────────────────────────────

/// Whether a client is shown as a selectable window: it is not hidden, it is
/// on one of the active workspaces, and it has a positive size.
pub open spec fn client_kept(c: HyprClient, active: Seq<i64>) -> bool {
    &&& !c.hidden
    &&& active.contains(c.workspace.id)
    &&& c.size[0] > 0
    &&& c.size[1] > 0
}

/// The window that a kept client describes.
pub open spec fn window_info_of(c: HyprClient) -> WindowInfo {
    WindowInfo {
        rect: ScreenRect { x: c.at[0], y: c.at[1], w: c.size[0], h: c.size[1] },
        title: c.title,
        floating: c.floating,
        focus_history_id: c.focus_history_id,
    }
}

/// The windows of the kept clients among `cs`, in their order.
pub open spec fn kept_windows(cs: Seq<HyprClient>, active: Seq<i64>) -> Seq<WindowInfo>
    decreases cs.len(),
{
    if cs.len() == 0 {
        Seq::empty()
    } else {
        let rest = kept_windows(cs.drop_last(), active);
        if client_kept(cs.last(), active) {
            rest.push(window_info_of(cs.last()))
        } else {
            rest
        }
    }
}

/// Client `c` is listed: it is not hidden, its workspace is one of `active`,
/// and both sides of its size are positive.
pub open spec fn client_listed(c: HyprClient, active: Seq<i64>) -> bool {
    !c.hidden && active.contains(c.workspace.id) && c.size[0] > 0 && c.size[1] > 0
}

/// Window `w` is what client `c` says: its corner, its size, its title, its
/// floating flag and its focus order, field for field.
pub open spec fn window_from_client(c: HyprClient, w: WindowInfo) -> bool {
    &&& w.rect.x == c.at[0]
    &&& w.rect.y == c.at[1]
    &&& w.rect.w == c.size[0]
    &&& w.rect.h == c.size[1]
    &&& w.title == c.title
    &&& w.floating == c.floating
    &&& w.focus_history_id == c.focus_history_id
}

/// Window `w` is what some listed client among `cs` says.
pub open spec fn from_some_client(cs: Seq<HyprClient>, active: Seq<i64>, w: WindowInfo) -> bool {
    exists|j: int|
        #![trigger cs[j]]
        0 <= j < cs.len() && client_listed(cs[j], active) && window_from_client(cs[j], w)
}

proof fn lemma_listed_windows_come_from_clients(cs: Seq<HyprClient>, active: Seq<i64>)
    ensures
        kept_windows(cs, active).len() <= cs.len(),
        forall|i: int|
            0 <= i < kept_windows(cs, active).len() ==> from_some_client(
                cs,
                active,
                #[trigger] kept_windows(cs, active)[i],
            ),
    decreases cs.len(),
{
    if cs.len() > 0 {
        let p = cs.drop_last();
        lemma_listed_windows_come_from_clients(p, active);
        let rp = kept_windows(p, active);
        let rr = kept_windows(cs, active);
        let n = cs.len() - 1;
        assert(cs.last() == cs[n]);
        assert forall|i: int| 0 <= i < rr.len() implies from_some_client(cs, active, #[trigger] rr[i]) by {
            if i < rp.len() {
                assert(rr[i] == rp[i]);
                assert(from_some_client(p, active, rp[i]));
                let j = choose|j: int|
                    #![trigger p[j]]
                    0 <= j < p.len() && client_listed(p[j], active) && window_from_client(p[j], rp[i]);
                assert(p[j] == cs[j]);
            } else {
                assert(client_kept(cs[n], active));
                assert(client_listed(cs[n], active));
                assert(window_from_client(cs[n], rr[i]));
            }
        }
    }
}

proof fn lemma_listed_clients_are_kept(cs: Seq<HyprClient>, active: Seq<i64>)
    ensures
        forall|j: int|
            0 <= j < cs.len() && client_listed(#[trigger] cs[j], active) ==> exists|i: int|
                #![trigger kept_windows(cs, active)[i]]
                0 <= i < kept_windows(cs, active).len() && window_from_client(
                    cs[j],
                    kept_windows(cs, active)[i],
                ),
    decreases cs.len(),
{
    if cs.len() > 0 {
        let p = cs.drop_last();
        lemma_listed_clients_are_kept(p, active);
        let rp = kept_windows(p, active);
        let rr = kept_windows(cs, active);
        let n = cs.len() - 1;
        assert(cs.last() == cs[n]);
        assert forall|j: int| 0 <= j < cs.len() && client_listed(#[trigger] cs[j], active) implies exists|i: int|
            #![trigger rr[i]]
            0 <= i < rr.len() && window_from_client(cs[j], rr[i]) by {
            if j < n {
                assert(p[j] == cs[j]);
                assert(client_listed(p[j], active));
                let i = choose|i: int|
                    #![trigger rp[i]]
                    0 <= i < rp.len() && window_from_client(p[j], rp[i]);
                assert(rr[i] == rp[i]);
            } else {
                assert(client_kept(cs[n], active));
                assert(window_from_client(cs[j], rr[rp.len() as int]));
            }
        }
    }
}

/// Every window listed comes from a client that is not hidden, sits on an
/// active workspace and has a positive size, field for field; and every such
/// client is listed.
pub proof fn lemma_windows_match_clients(cs: Seq<HyprClient>, active: Seq<i64>)
    ensures
        kept_windows(cs, active).len() <= cs.len(),
        forall|i: int|
            0 <= i < kept_windows(cs, active).len() ==> from_some_client(
                cs,
                active,
                #[trigger] kept_windows(cs, active)[i],
            ),
        forall|j: int|
            0 <= j < cs.len() && client_listed(#[trigger] cs[j], active) ==> exists|i: int|
                #![trigger kept_windows(cs, active)[i]]
                0 <= i < kept_windows(cs, active).len() && window_from_client(
                    cs[j],
                    kept_windows(cs, active)[i],
                ),
{
    lemma_listed_windows_come_from_clients(cs, active);
    lemma_listed_clients_are_kept(cs, active);
}

/// Whether `id` occurs in `ids`.
pub fn contains_id(ids: &[i64], id: i64) -> (b: bool)
    ensures
        b == ids@.contains(id),
{
    let mut i: usize = 0;
    while i < ids.len()
        invariant
            i <= ids@.len(),
            forall|k: int| 0 <= k < i ==> ids@[k] != id,
        decreases ids@.len() - i,
    {
        if ids[i] == id {
            assert(ids@[i as int] == id);
            return true;
        }
        i = i + 1;
    }
    false
}

/// The selectable windows among Hyprland's clients: those that are not
/// hidden, sit on one of `active_workspace_ids` and have a positive size,
/// in their order.
pub fn parse_windows(clients: Vec<HyprClient>, active_workspace_ids: &[i64]) -> (r: Vec<
    WindowInfo,
>)
    ensures
        r@ == kept_windows(clients@, active_workspace_ids@),
{
    let mut r: Vec<WindowInfo> = Vec::new();
    let mut i: usize = 0;
    while i < clients.len()
        invariant
            i <= clients@.len(),
            r@ == kept_windows(clients@.take(i as int), active_workspace_ids@),
        decreases clients@.len() - i,
    {
        let c = &clients[i];
        proof {
            let t = clients@.take(i + 1);
            assert(t.drop_last() == clients@.take(i as int));
            assert(t.last() == clients@[i as int]);
        }
        if !c.hidden && contains_id(active_workspace_ids, c.workspace.id) && c.size[0] > 0
            && c.size[1] > 0 {
            r.push(
                WindowInfo {
                    rect: ScreenRect { x: c.at[0], y: c.at[1], w: c.size[0], h: c.size[1] },
                    title: c.title.clone(),
                    floating: c.floating,
                    focus_history_id: c.focus_history_id,
                },
            );
        }
        i = i + 1;
    }
    assert(clients@.take(clients@.len() as int) == clients@);
    r
}


// ── Options and requests ──────────────────────────────────────────────────────

/// An integer option read as a pixel count: `value.max(0) as u32`, so
/// negative values read as 0 and larger ones keep their low 32 bits.
pub open spec fn option_pixels(value: i64) -> int {
    if value <= 0 {
        0
    } else {
        value as int % 0x1_0000_0000
    }
}

/// A positive option that fits in 32 bits is read as itself; zero and
/// negative options are read as 0; every reading fits in a `u32`.
pub proof fn lemma_option_pixels(value: i64)
    ensures
        value <= 0 ==> option_pixels(value) == 0,
        0 < value < 0x1_0000_0000 ==> option_pixels(value) == value,
        0 <= option_pixels(value) < 0x1_0000_0000,
{
}

fn pixels_of(value: i64) -> (r: u32)
    ensures
        r == option_pixels(value),
{
    if value <= 0 {
        0
    } else {
        (value % 0x1_0000_0000) as u32
    }
}

/// The border style from the replies to `getoption general:border_size` and
/// `getoption decoration:rounding`; where either reply is missing, the whole
/// default style (both 0) is used.
pub fn border_style_from(border_size: Option<HyprOption>, rounding: Option<HyprOption>) -> (r:
    BorderStyle)
    ensures
        (border_size is None || rounding is None) ==> r.border_size == 0 && r.rounding == 0,
        border_size matches Some(b) ==> (rounding matches Some(d) ==> r.border_size
            == option_pixels(b.int) && r.rounding == option_pixels(d.int)),
{
    match (border_size, rounding) {
        (Some(b), Some(d)) => BorderStyle { border_size: pixels_of(b.int), rounding: pixels_of(d.int) },
        _ => BorderStyle { border_size: 0, rounding: 0 },
    }
}

/// The text sent on the Hyprland socket for `cmd`: `j/` (ask for JSON) and the command.
pub fn ipc_request(cmd: &str) -> (r: String)
    ensures
        r@ == "j/"@ + cmd@,
{
    let mut r = String::from_str("j/");
    r.append(cmd);
    r
}

} // verus!
