//! The window and monitor lists read from `hyprctl -j`: the fields of each
//! JSON entry that matter, and which entries make a window or a monitor.

use vstd::prelude::*;

use crate::geometry::ScreenRect;

verus! {

/// A window for the overlay: where it is and its title.
#[derive(Debug, Clone)]
pub struct WindowInfo {
    pub rect: ScreenRect,
    pub title: String,
}

/// A monitor for the overlay: where it is, its name and whether it has focus.
#[derive(Debug, Clone)]
pub struct MonitorInfo {
    pub rect: ScreenRect,
    pub name: String,
    pub focused: bool,
}

/// The fields of one `clients` entry: each is present where the JSON holds a
/// value of the expected kind (`at[0]`, `at[1]`, `size[0]`, `size[1]` as
/// integers, `title` as a string).
#[derive(Debug, Clone)]
pub struct ClientFields {
    pub at_x: Option<i64>,
    pub at_y: Option<i64>,
    pub width: Option<i64>,
    pub height: Option<i64>,
    pub title: Option<String>,
}

/// The fields of one `monitors` entry, present where the JSON holds a value of
/// the expected kind (`x`, `y`, `width`, `height` as integers, `name` as a
/// string, `focused` as a boolean).
#[derive(Debug, Clone)]
pub struct MonitorFields {
    pub x: Option<i64>,
    pub y: Option<i64>,
    pub width: Option<i64>,
    pub height: Option<i64>,
    pub name: Option<String>,
    pub focused: Option<bool>,
}

/// The window a client entry gives: none where a coordinate is missing or the
/// size (its low 32 bits, as `as i32` keeps them) is not positive; a missing
/// title reads as empty.
pub open spec fn window_of(c: ClientFields) -> Option<(ScreenRect, Seq<char>)> {
    if c.at_x is None || c.at_y is None || c.width is None || c.height is None {
        None
    } else {
        let w = c.width->0 as i32;
        let h = c.height->0 as i32;
        if w <= 0 || h <= 0 {
            None
        } else {
            Some(
                (
                    ScreenRect { x: c.at_x->0 as i32, y: c.at_y->0 as i32, w, h },
                    match c.title {
                        Some(t) => t@,
                        None => Seq::empty(),
                    },
                ),
            )
        }
    }
}

/// The windows the client entries `cs` give, in order.
pub open spec fn windows_of(cs: Seq<ClientFields>) -> Seq<(ScreenRect, Seq<char>)>
    decreases cs.len(),
{
    if cs.len() == 0 {
        Seq::empty()
    } else {
        let rest = windows_of(cs.drop_last());
        match window_of(cs.last()) {
            Some(w) => rest.push(w),
            None => rest,
        }
    }
}

/// The windows of the `clients` reply, in order, skipping entries that lack
/// a coordinate or have no size.
pub fn windows_from_entries(entries: &[ClientFields]) -> (r: Vec<WindowInfo>)
    ensures
        r@.len() == windows_of(entries@).len(),
        forall|i: int|
            0 <= i < r@.len() ==> (#[trigger] r@[i]).rect == windows_of(entries@)[i].0 && r@[i].title@
                == windows_of(entries@)[i].1,
{
    let mut r: Vec<WindowInfo> = Vec::new();
    let mut i: usize = 0;
    while i < entries.len()
        invariant
            i <= entries@.len(),
            r@.len() == windows_of(entries@.take(i as int)).len(),
            forall|q: int|
                0 <= q < r@.len() ==> (#[trigger] r@[q]).rect == windows_of(entries@.take(i as int))[q].0
                    && r@[q].title@ == windows_of(entries@.take(i as int))[q].1,
        decreases entries@.len() - i,
    {
        proof {
            let t = entries@.take(i + 1);
            assert(t.drop_last() == entries@.take(i as int));
            assert(t.last() == entries@[i as int]);
        }
        let c = &entries[i];
        match (c.at_x, c.at_y, c.width, c.height) {
            (Some(ax), Some(ay), Some(aw), Some(ah)) => {
                let w = aw as i32;
                let h = ah as i32;
                if w > 0 && h > 0 {
                    let title = match &c.title {
                        Some(t) => t.clone(),
                        None => String::new(),
                    };
                    r.push(WindowInfo { rect: ScreenRect { x: ax as i32, y: ay as i32, w, h }, title });
                }
            },
            _ => {},
        }
        i = i + 1;
    }
    assert(entries@.take(entries@.len() as int) == entries@);
    r
}

/// The monitor a monitor entry gives: none where a coordinate, a size or the
/// name is missing; numbers keep their low 32 bits; a missing `focused` reads
/// as false.
pub open spec fn monitor_of(m: MonitorFields) -> Option<(ScreenRect, Seq<char>, bool)> {
    if m.x is None || m.y is None || m.width is None || m.height is None || m.name is None {
        None
    } else {
        Some(
            (
                ScreenRect {
                    x: m.x->0 as i32,
                    y: m.y->0 as i32,
                    w: m.width->0 as i32,
                    h: m.height->0 as i32,
                },
                m.name->0@,
                match m.focused {
                    Some(f) => f,
                    None => false,
                },
            ),
        )
    }
}

/// The monitors the monitor entries `ms` give, in order.
pub open spec fn monitors_of(ms: Seq<MonitorFields>) -> Seq<(ScreenRect, Seq<char>, bool)>
    decreases ms.len(),
{
    if ms.len() == 0 {
        Seq::empty()
    } else {
        let rest = monitors_of(ms.drop_last());
        match monitor_of(ms.last()) {
            Some(m) => rest.push(m),
            None => rest,
        }
    }
}

/// The monitors of the `monitors` reply, in order, skipping incomplete entries.
pub fn monitors_from_entries(entries: &[MonitorFields]) -> (r: Vec<MonitorInfo>)
    ensures
        r@.len() == monitors_of(entries@).len(),
        forall|i: int|
            0 <= i < r@.len() ==> (#[trigger] r@[i]).rect == monitors_of(entries@)[i].0 && r@[i].name@
                == monitors_of(entries@)[i].1 && r@[i].focused == monitors_of(entries@)[i].2,
{
    let mut r: Vec<MonitorInfo> = Vec::new();
    let mut i: usize = 0;
    while i < entries.len()
        invariant
            i <= entries@.len(),
            r@.len() == monitors_of(entries@.take(i as int)).len(),
            forall|q: int|
                0 <= q < r@.len() ==> (#[trigger] r@[q]).rect == monitors_of(entries@.take(i as int))[q].0
                    && r@[q].name@ == monitors_of(entries@.take(i as int))[q].1 && r@[q].focused
                    == monitors_of(entries@.take(i as int))[q].2,
        decreases entries@.len() - i,
    {
        proof {
            let t = entries@.take(i + 1);
            assert(t.drop_last() == entries@.take(i as int));
            assert(t.last() == entries@[i as int]);
        }
        let m = &entries[i];
        match (m.x, m.y, m.width, m.height, &m.name) {
            (Some(x), Some(y), Some(w), Some(h), Some(n)) => {
                let focused = match m.focused {
                    Some(f) => f,
                    None => false,
                };
                r.push(
                    MonitorInfo {
                        rect: ScreenRect { x: x as i32, y: y as i32, w: w as i32, h: h as i32 },
                        name: n.clone(),
                        focused,
                    },
                );
            },
            _ => {},
        }
        i = i + 1;
    }
    assert(entries@.take(entries@.len() as int) == entries@);
    r
}

// ── What the lists hold ──────────────────────────────────────────────────────

/// Monitor entry `e` has a position, a size and a name.
pub open spec fn monitor_entry_complete(e: MonitorFields) -> bool {
    e.x is Some && e.y is Some && e.width is Some && e.height is Some && e.name is Some
}

/// Monitor `m` is what the complete entry `e` says: its `x`, `y`, `width` and
/// `height` (low 32 bits), its name, and whether it is focused.
pub open spec fn monitor_from_entry(e: MonitorFields, m: (ScreenRect, Seq<char>, bool)) -> bool {
    &&& monitor_entry_complete(e)
    &&& m.0.x == e.x->0 as i32
    &&& m.0.y == e.y->0 as i32
    &&& m.0.w == e.width->0 as i32
    &&& m.0.h == e.height->0 as i32
    &&& m.1 == e.name->0@
    &&& m.2 == (e.focused == Some(true))
}

/// Every monitor listed is what some complete entry says, field for field.
proof fn lemma_listed_monitors_come_from_entries(es: Seq<MonitorFields>)
    ensures
        monitors_of(es).len() <= es.len(),
        forall|i: int|
            #![trigger monitors_of(es)[i]]
            0 <= i < monitors_of(es).len() ==> exists|j: int|
                #![trigger es[j]]
                0 <= j < es.len() && monitor_from_entry(es[j], monitors_of(es)[i]),
    decreases es.len(),
{
    if es.len() > 0 {
        let p = es.drop_last();
        lemma_listed_monitors_come_from_entries(p);
        let rp = monitors_of(p);
        let rr = monitors_of(es);
        let n = es.len() - 1;
        assert(es.last() == es[n]);
        assert forall|i: int| #![trigger rr[i]] 0 <= i < rr.len() implies exists|j: int|
            #![trigger es[j]]
            0 <= j < es.len() && monitor_from_entry(es[j], rr[i]) by {
            if i < rp.len() {
                assert(rr[i] == rp[i]);
                let j = choose|j: int| #![trigger p[j]] 0 <= j < p.len() && monitor_from_entry(p[j], rp[i]);
                assert(p[j] == es[j]);
                assert(monitor_from_entry(es[j], rr[i]));
            } else {
                assert(monitor_from_entry(es[n], rr[i]));
            }
        }
    }
}

/// Every complete monitor entry is listed.
proof fn lemma_complete_monitor_entries_are_listed(es: Seq<MonitorFields>)
    ensures
        forall|j: int|
            0 <= j < es.len() && monitor_entry_complete(#[trigger] es[j]) ==> exists|i: int|
                0 <= i < monitors_of(es).len() && monitor_from_entry(es[j], #[trigger] monitors_of(es)[i]),
    decreases es.len(),
{
    if es.len() > 0 {
        let p = es.drop_last();
        lemma_complete_monitor_entries_are_listed(p);
        let rp = monitors_of(p);
        let rr = monitors_of(es);
        let n = es.len() - 1;
        assert(es.last() == es[n]);
        assert forall|j: int| 0 <= j < es.len() && monitor_entry_complete(#[trigger] es[j]) implies exists|i: int|
            0 <= i < rr.len() && monitor_from_entry(es[j], #[trigger] rr[i]) by {
            if j < n {
                assert(p[j] == es[j]);
                let i = choose|i: int| 0 <= i < rp.len() && monitor_from_entry(p[j], #[trigger] rp[i]);
                assert(rr[i] == rp[i]);
                assert(monitor_from_entry(es[j], rr[i]));
            } else {
                assert(monitor_from_entry(es[j], rr[rp.len() as int]));
            }
        }
    }
}

/// Every monitor listed is what some complete entry says, field for field,
/// and every complete entry is listed.
pub proof fn lemma_monitors_match_entries(es: Seq<MonitorFields>)
    ensures
        monitors_of(es).len() <= es.len(),
        forall|i: int|
            #![trigger monitors_of(es)[i]]
            0 <= i < monitors_of(es).len() ==> exists|j: int|
                #![trigger es[j]]
                0 <= j < es.len() && monitor_from_entry(es[j], monitors_of(es)[i]),
        forall|j: int|
            0 <= j < es.len() && monitor_entry_complete(#[trigger] es[j]) ==> exists|i: int|
                0 <= i < monitors_of(es).len() && monitor_from_entry(es[j], #[trigger] monitors_of(es)[i]),
{
    lemma_listed_monitors_come_from_entries(es);
    lemma_complete_monitor_entries_are_listed(es);
}

/// Client entry `e` has a position and a positive size (its low 32 bits).
pub open spec fn client_entry_shown(e: ClientFields) -> bool {
    e.at_x is Some && e.at_y is Some && e.width is Some && e.height is Some && e.width->0 as i32
        > 0 && e.height->0 as i32 > 0
}

/// Window `w` is what the shown entry `e` says: its position and size (low
/// 32 bits) and its title, empty where it has none.
pub open spec fn window_from_entry(e: ClientFields, w: (ScreenRect, Seq<char>)) -> bool {
    &&& client_entry_shown(e)
    &&& w.0.x == e.at_x->0 as i32
    &&& w.0.y == e.at_y->0 as i32
    &&& w.0.w == e.width->0 as i32
    &&& w.0.h == e.height->0 as i32
    &&& w.1 == (if e.title is Some { e.title->0@ } else { Seq::empty() })
}

/// Every window listed is what some shown entry says, field for field.
proof fn lemma_listed_windows_come_from_entries(es: Seq<ClientFields>)
    ensures
        windows_of(es).len() <= es.len(),
        forall|i: int|
            #![trigger windows_of(es)[i]]
            0 <= i < windows_of(es).len() ==> exists|j: int|
                #![trigger es[j]]
                0 <= j < es.len() && window_from_entry(es[j], windows_of(es)[i]),
    decreases es.len(),
{
    if es.len() > 0 {
        let p = es.drop_last();
        lemma_listed_windows_come_from_entries(p);
        let rp = windows_of(p);
        let rr = windows_of(es);
        let n = es.len() - 1;
        assert(es.last() == es[n]);
        assert forall|i: int| #![trigger rr[i]] 0 <= i < rr.len() implies exists|j: int|
            #![trigger es[j]]
            0 <= j < es.len() && window_from_entry(es[j], rr[i]) by {
            if i < rp.len() {
                assert(rr[i] == rp[i]);
                let j = choose|j: int| #![trigger p[j]] 0 <= j < p.len() && window_from_entry(p[j], rp[i]);
                assert(p[j] == es[j]);
                assert(window_from_entry(es[j], rr[i]));
            } else {
                assert(window_from_entry(es[n], rr[i]));
            }
        }
    }
}

/// Every shown client entry is listed.
proof fn lemma_shown_client_entries_are_listed(es: Seq<ClientFields>)
    ensures
        forall|j: int|
            0 <= j < es.len() && client_entry_shown(#[trigger] es[j]) ==> exists|i: int|
                0 <= i < windows_of(es).len() && window_from_entry(es[j], #[trigger] windows_of(es)[i]),
    decreases es.len(),
{
    if es.len() > 0 {
        let p = es.drop_last();
        lemma_shown_client_entries_are_listed(p);
        let rp = windows_of(p);
        let rr = windows_of(es);
        let n = es.len() - 1;
        assert(es.last() == es[n]);
        assert forall|j: int| 0 <= j < es.len() && client_entry_shown(#[trigger] es[j]) implies exists|i: int|
            0 <= i < rr.len() && window_from_entry(es[j], #[trigger] rr[i]) by {
            if j < n {
                assert(p[j] == es[j]);
                let i = choose|i: int| 0 <= i < rp.len() && window_from_entry(p[j], #[trigger] rp[i]);
                assert(rr[i] == rp[i]);
                assert(window_from_entry(es[j], rr[i]));
            } else {
                assert(window_from_entry(es[j], rr[rp.len() as int]));
            }
        }
    }
}

/// Every window listed is what some shown entry says, field for field, and
/// every shown entry is listed.
pub proof fn lemma_windows_match_entries(es: Seq<ClientFields>)
    ensures
        windows_of(es).len() <= es.len(),
        forall|i: int|
            #![trigger windows_of(es)[i]]
            0 <= i < windows_of(es).len() ==> exists|j: int|
                #![trigger es[j]]
                0 <= j < es.len() && window_from_entry(es[j], windows_of(es)[i]),
        forall|j: int|
            0 <= j < es.len() && client_entry_shown(#[trigger] es[j]) ==> exists|i: int|
                0 <= i < windows_of(es).len() && window_from_entry(es[j], #[trigger] windows_of(es)[i]),
{
    lemma_listed_windows_come_from_entries(es);
    lemma_shown_client_entries_are_listed(es);
}

} // verus!
