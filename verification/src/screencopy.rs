//! The decisions of a screen copy session with the compositor: which outputs
//! to copy, what each frame event does to the frame's state, when the session
//! is done, and how failures are reported.
//!
//! The Wayland objects themselves are handled by the caller; here an output
//! is known by its name (if it has announced one) and a frame by its status.

use vstd::prelude::*;

use crate::error::AppError;
use crate::geometry::other_message_is;
use crate::hyprland::MonitorInfo;

verus! {

broadcast use vstd::string::group_string_axioms;

// ── Choosing outputs ──────────────────────────────────────────────────────────

/// Output `o` has announced the name `name`.
pub open spec fn output_named(o: Option<String>, name: Seq<char>) -> bool {
    match o {
        Some(n) => n@ == name,
        None => false,
    }
}

/// The index of the first output named `name`.
pub open spec fn first_output(outs: Seq<Option<String>>, name: Seq<char>) -> Option<int>
    decreases outs.len(),
{
    if outs.len() == 0 {
        None
    } else if output_named(outs[0], name) {
        Some(0)
    } else {
        match first_output(outs.drop_first(), name) {
            Some(j) => Some(j + 1),
            None => None,
        }
    }
}

proof fn lemma_first_output(outs: Seq<Option<String>>, name: Seq<char>)
    ensures
        first_output(outs, name) is None <==> forall|k: int|
            0 <= k < outs.len() ==> !output_named(#[trigger] outs[k], name),
        first_output(outs, name) matches Some(j) ==> 0 <= j < outs.len() && output_named(
            outs[j],
            name,
        ) && forall|k: int| 0 <= k < j ==> !output_named(#[trigger] outs[k], name),
    decreases outs.len(),
{
    if outs.len() > 0 {
        let t = outs.drop_first();
        lemma_first_output(t, name);
        assert forall|k: int| 0 <= k < t.len() implies t[k] == outs[k + 1] by {}
        if !output_named(outs[0], name) {
            if first_output(t, name) is None {
                assert forall|k: int| 0 <= k < outs.len() implies !output_named(
                    #[trigger] outs[k],
                    name,
                ) by {
                    if k > 0 {
                        assert(outs[k] == t[k - 1]);
                    }
                }
            } else {
                assert forall|k: int| 0 <= k < first_output(outs, name)->0 implies !output_named(
                    #[trigger] outs[k],
                    name,
                ) by {
                    if k > 0 {
                        assert(outs[k] == t[k - 1]);
                    }
                }
            }
        }
    }
}

/// The output found for a name has announced exactly that name, and no
/// earlier output has; none is found only when no output has it.
pub proof fn lemma_output_found_by_name(outs: Seq<Option<String>>, name: Seq<char>)
    ensures
        first_output(outs, name) matches Some(j) ==> 0 <= j < outs.len() && outs[j] is Some
            && outs[j]->0@ == name && forall|k: int|
            #![trigger outs[k]]
            0 <= k < j ==> !(outs[k] is Some && outs[k]->0@ == name),
        first_output(outs, name) is None ==> forall|k: int|
            #![trigger outs[k]]
            0 <= k < outs.len() ==> !(outs[k] is Some && outs[k]->0@ == name),
{
    lemma_first_output(outs, name);
    assert forall|k: int| 0 <= k < outs.len() && !output_named(#[trigger] outs[k], name) implies !(
    outs[k] is Some && outs[k]->0@ == name) by {}
}

/// The index of the first output named `name`, if one is.
fn output_index(outputs: &[Option<String>], name: &String) -> (r: Option<usize>)
    ensures
        match r {
            Some(j) => first_output(outputs@, name@) == Some(j as int),
            None => first_output(outputs@, name@) is None,
        },
{
    proof {
        lemma_first_output(outputs@, name@);
    }
    let mut j: usize = 0;
    while j < outputs.len()
        invariant
            j <= outputs@.len(),
            forall|k: int| 0 <= k < j ==> !output_named(#[trigger] outputs@[k], name@),
        decreases outputs@.len() - j,
    {
        let named = match &outputs[j] {
            Some(n) => n.eq(name),
            None => false,
        };
        assert(named == output_named(outputs@[j as int], name@));
        if named {
            proof {
                lemma_first_output(outputs@, name@);
                let f = first_output(outputs@, name@);
                if f is None {
                    assert(output_named(outputs@[j as int], name@));
                } else if f->0 > j {
                    assert(output_named(outputs@[j as int], name@));
                } else if f->0 < j {
                    assert(!output_named(outputs@[f->0], name@));
                }
            }
            return Some(j);
        }
        j = j + 1;
    }
    None
}

/// The output that shows the monitor `name`; not finding one is an error.
pub fn output_for_monitor(outputs: &[Option<String>], name: &String) -> (r: Result<usize, AppError>)
    ensures
        match first_output(outputs@, name@) {
            Some(j) => r == Ok::<usize, AppError>(j as usize),
            None => r is Err && other_message_is(r->Err_0, "Monitor '"@ + name@ + "' not found"@),
        },
{
    match output_index(outputs, name) {
        Some(j) => Ok(j),
        None => {
            let mut m = String::from_str("Monitor '");
            m.append(name.as_str());
            m.append("' not found");
            Err(AppError::Other(m))
        },
    }
}

/// A capture of several monitors needs at least one monitor.
pub fn check_monitors_given(monitors: &[MonitorInfo]) -> (r: Result<(), AppError>)
    ensures
        r is Ok <==> monitors@.len() > 0,
        r is Err ==> other_message_is(r->Err_0, "No monitors provided to capture"@),
{
    if monitors.len() == 0 {
        return Err(AppError::Other(String::from_str("No monitors provided to capture")));
    }
    Ok(())
}

/// For each monitor in order that some output shows, the pair of the
/// monitor's index and the index of the first output with its name.
pub open spec fn capture_picks(ms: Seq<MonitorInfo>, outs: Seq<Option<String>>) -> Seq<(int, int)>
    decreases ms.len(),
{
    if ms.len() == 0 {
        seq![]
    } else {
        let prev = capture_picks(ms.drop_last(), outs);
        match first_output(outs, ms.last().name@) {
            Some(j) => prev.push((ms.len() - 1, j)),
            None => prev,
        }
    }
}

/// Each frame requested pairs a monitor with the first output that has
/// announced the monitor's name; the monitors come in their own order, each
/// once; and every monitor that some output shows is among them.
pub proof fn lemma_capture_picks(ms: Seq<MonitorInfo>, outs: Seq<Option<String>>)
    ensures
        forall|k: int|
            0 <= k < capture_picks(ms, outs).len() ==> {
                let (i, j) = #[trigger] capture_picks(ms, outs)[k];
                &&& 0 <= i < ms.len()
                &&& 0 <= j < outs.len()
                &&& output_named(outs[j], ms[i].name@)
                &&& forall|m: int| 0 <= m < j ==> !output_named(#[trigger] outs[m], ms[i].name@)
            },
        forall|k: int, l: int|
            0 <= k < l < capture_picks(ms, outs).len() ==> (#[trigger] capture_picks(ms, outs)[k]).0
                < (#[trigger] capture_picks(ms, outs)[l]).0,
        forall|i: int, m: int|
            0 <= i < ms.len() && 0 <= m < outs.len() && output_named(
                #[trigger] outs[m],
                (#[trigger] ms[i]).name@,
            ) ==> exists|k: int|
                0 <= k < capture_picks(ms, outs).len() && (#[trigger] capture_picks(ms, outs)[k]).0
                    == i,
    decreases ms.len(),
{
    if ms.len() > 0 {
        let prev = ms.drop_last();
        lemma_capture_picks(prev, outs);
        let p = capture_picks(prev, outs);
        let s = capture_picks(ms, outs);
        let last = ms.len() - 1;
        lemma_first_output(outs, ms[last].name@);
        assert forall|k: int| 0 <= k < p.len() implies #[trigger] s[k] == p[k] && prev[p[k].0]
            == ms[p[k].0] by {}
        assert forall|i: int, m: int|
            0 <= i < ms.len() && 0 <= m < outs.len() && output_named(
                #[trigger] outs[m],
                (#[trigger] ms[i]).name@,
            ) implies exists|k: int| 0 <= k < s.len() && (#[trigger] s[k]).0 == i by {
            if i < last {
                assert(prev[i] == ms[i]);
                let k = choose|k: int| 0 <= k < p.len() && (#[trigger] p[k]).0 == i;
                assert(s[k] == p[k]);
            } else {
                assert(output_named(outs[m], ms[last].name@));
                assert(s[s.len() - 1].0 == i);
            }
        }
    }
}

/// The frames to request: one per monitor that an output shows, as the pair
/// (monitor index, output index). No such monitor at all is an error.
pub fn outputs_to_capture(monitors: &[MonitorInfo], outputs: &[Option<String>]) -> (r: Result<
    Vec<(usize, usize)>,
    AppError,
>)
    ensures
        capture_picks(monitors@, outputs@).len() == 0 ==> r is Err && other_message_is(
            r->Err_0,
            "No matching Wayland outputs found for provided monitors"@,
        ),
        capture_picks(monitors@, outputs@).len() > 0 ==> (r matches Ok(v) && v@.len()
            == capture_picks(monitors@, outputs@).len() && forall|k: int|
            0 <= k < v@.len() ==> (#[trigger] v@[k]).0 == capture_picks(monitors@, outputs@)[k].0
                && v@[k].1 == capture_picks(monitors@, outputs@)[k].1),
{
    let ghost ms = monitors@;
    let ghost outs = outputs@;
    let mut picks: Vec<(usize, usize)> = Vec::new();
    let mut i: usize = 0;
    while i < monitors.len()
        invariant
            i <= ms.len(),
            ms == monitors@,
            outs == outputs@,
            picks@.len() == capture_picks(ms.take(i as int), outs).len(),
            forall|k: int|
                0 <= k < picks@.len() ==> (#[trigger] picks@[k]).0 == capture_picks(
                    ms.take(i as int),
                    outs,
                )[k].0 && picks@[k].1 == capture_picks(ms.take(i as int), outs)[k].1,
        decreases ms.len() - i,
    {
        let ghost before = ms.take(i as int);
        let ghost after = ms.take(i + 1);
        assert(after.drop_last() == before);
        assert(after.last() == ms[i as int]);
        match output_index(outputs, &monitors[i].name) {
            Some(j) => {
                picks.push((i, j));
            },
            None => {},
        }
        i = i + 1;
    }
    assert(ms.take(ms.len() as int) == ms);
    if picks.len() == 0 {
        return Err(
            AppError::Other(String::from_str("No matching Wayland outputs found for provided monitors")),
        );
    }
    Ok(picks)
}

// ── Frames ────────────────────────────────────────────────────────────────────

/// Where one requested frame stands.
#[derive(Debug, Clone)]
pub struct FrameStatus {
    /// The monitor it shows.
    pub name: String,
    /// The compositor has filled the buffer.
    pub ready: bool,
    /// The frame cannot be had.
    pub failed: bool,
    /// Why it failed, where that is known.
    pub error_msg: Option<String>,
}

impl FrameStatus {
    /// A frame just requested for monitor `name`.
    pub fn new(name: String) -> (s: Self)
        ensures
            s.name == name,
            !s.ready,
            !s.failed,
            s.error_msg is None,
    {
        FrameStatus { name, ready: false, failed: false, error_msg: None }
    }
}

/// What can happen to a frame.
#[derive(Debug, Clone)]
pub enum FrameEvent {
    /// The compositor says the buffer holds the frame.
    Ready,
    /// The compositor rejected the request.
    Failed,
    /// Setting up the buffer for the frame failed, for the reason given.
    BufferError(String),
}

/// The state of a frame after `event`.
pub fn apply_frame_event(status: &mut FrameStatus, event: FrameEvent)
    ensures
        final(status).name == old(status).name,
        match event {
            FrameEvent::Ready => final(status).ready && final(status).failed == old(status).failed
                && final(status).error_msg == old(status).error_msg,
            FrameEvent::Failed => final(status).failed && final(status).ready == old(status).ready
                && (final(status).error_msg matches Some(m) && m@
                == "compositor rejected the screencopy request"@),
            FrameEvent::BufferError(msg) => final(status).failed && final(status).ready == old(
                status,
            ).ready && final(status).error_msg == Some(msg),
        },
{
    match event {
        FrameEvent::Ready => {
            status.ready = true;
        },
        FrameEvent::Failed => {
            status.failed = true;
            status.error_msg = Some(String::from_str("compositor rejected the screencopy request"));
        },
        FrameEvent::BufferError(msg) => {
            status.failed = true;
            status.error_msg = Some(msg);
        },
    }
}

/// Every frame is either ready or failed: the session can stop waiting.
pub fn frames_settled(frames: &[FrameStatus]) -> (b: bool)
    ensures
        b == forall|k: int| 0 <= k < frames@.len() ==> (#[trigger] frames@[k]).ready || frames@[k].failed,
{
    let mut i: usize = 0;
    while i < frames.len()
        invariant
            i <= frames@.len(),
            forall|k: int| 0 <= k < i ==> (#[trigger] frames@[k]).ready || frames@[k].failed,
        decreases frames@.len() - i,
    {
        if !(frames[i].ready || frames[i].failed) {
            return false;
        }
        i = i + 1;
    }
    true
}

/// The reason a frame failed, or `unknown error` where none was given.
pub open spec fn failure_reason(f: FrameStatus) -> Seq<char> {
    match f.error_msg {
        Some(m) => m@,
        None => "unknown error"@,
    }
}

/// How one failed frame is reported: `'name': reason`.
pub open spec fn failure_entry(f: FrameStatus) -> Seq<char> {
    "'"@ + f.name@ + "': "@ + failure_reason(f)
}

/// The report of every failed frame, in order.
pub open spec fn failure_entries(fs: Seq<FrameStatus>) -> Seq<Seq<char>>
    decreases fs.len(),
{
    if fs.len() == 0 {
        seq![]
    } else if fs.last().failed {
        failure_entries(fs.drop_last()).push(failure_entry(fs.last()))
    } else {
        failure_entries(fs.drop_last())
    }
}

/// `parts` joined with `sep` between each two.
pub open spec fn join_with(parts: Seq<Seq<char>>, sep: Seq<char>) -> Seq<char>
    decreases parts.len(),
{
    if parts.len() == 0 {
        seq![]
    } else if parts.len() == 1 {
        parts[0]
    } else {
        join_with(parts.drop_last(), sep) + sep + parts.last()
    }
}

/// The capture fails exactly when some frame failed: the report has no
/// entry only when no frame failed, and each failed frame adds an entry.
pub proof fn lemma_failures_reported(fs: Seq<FrameStatus>)
    ensures
        failure_entries(fs).len() == 0 <==> forall|k: int| 0 <= k < fs.len() ==> !(#[trigger] fs[k]).failed,
        failure_entries(fs).len() <= fs.len(),
    decreases fs.len(),
{
    if fs.len() > 0 {
        let prev = fs.drop_last();
        lemma_failures_reported(prev);
        if failure_entries(fs).len() == 0 {
            assert forall|k: int| 0 <= k < fs.len() implies !(#[trigger] fs[k]).failed by {
                if k < fs.len() - 1 {
                    assert(prev[k] == fs[k]);
                }
            }
        } else if !fs.last().failed {
            let k = choose|k: int| 0 <= k < prev.len() && (#[trigger] prev[k]).failed;
            assert(fs[k] == prev[k]);
        }
    }
}

/// Append the reason frame `f` failed.
fn push_reason(s: &mut String, f: &FrameStatus)
    ensures
        final(s)@ == old(s)@ + failure_reason(*f),
{
    match &f.error_msg {
        Some(m) => s.append(m.as_str()),
        None => {
            s.append("unknown error");
        },
    }
}

/// The end of a capture of several monitors: an error naming every frame
/// that failed, with its reason, if any did.
pub fn screencopy_outcome(frames: &[FrameStatus]) -> (r: Result<(), AppError>)
    ensures
        failure_entries(frames@).len() == 0 ==> r is Ok,
        failure_entries(frames@).len() > 0 ==> r is Err && other_message_is(
            r->Err_0,
            "Screencopy failed for: "@ + join_with(failure_entries(frames@), ", "@),
        ),
{
    let ghost fs = frames@;
    let mut msg = String::from_str("Screencopy failed for: ");
    proof {
        reveal_strlit("Screencopy failed for: ");
    }
    let ghost head = msg@;
    let mut count: usize = 0;
    let mut i: usize = 0;
    while i < frames.len()
        invariant
            i <= fs.len(),
            fs == frames@,
            head == "Screencopy failed for: "@,
            count == failure_entries(fs.take(i as int)).len(),
            count <= i,
            msg@ == head + join_with(failure_entries(fs.take(i as int)), ", "@),
        decreases fs.len() - i,
    {
        let ghost before = fs.take(i as int);
        let ghost after = fs.take(i + 1);
        assert(after.drop_last() == before);
        assert(after.last() == fs[i as int]);
        let f = &frames[i];
        if f.failed {
            let ghost prev = msg@;
            if count > 0 {
                msg.append(", ");
            }
            msg.append("'");
            msg.append(f.name.as_str());
            msg.append("': ");
            push_reason(&mut msg, f);
            proof {
                reveal_strlit(", ");
                reveal_strlit("'");
                reveal_strlit("': ");
                let es = failure_entries(after);
                assert(es == failure_entries(before).push(failure_entry(fs[i as int])));
                assert(es.drop_last() == failure_entries(before));
                if count > 0 {
                    assert(join_with(es, ", "@) == join_with(failure_entries(before), ", "@) + ", "@
                        + failure_entry(fs[i as int]));
                } else {
                    assert(join_with(es, ", "@) == failure_entry(fs[i as int]));
                }
                assert(msg@ == head + join_with(es, ", "@));
            }
            count = count + 1;
        }
        i = i + 1;
    }
    assert(fs.take(fs.len() as int) == fs);
    if count > 0 {
        return Err(AppError::Other(msg));
    }
    Ok(())
}

/// The end of a capture of one monitor `name`: an error with the frame's
/// reason where it failed.
pub fn single_frame_outcome(name: &str, frame: &FrameStatus) -> (r: Result<(), AppError>)
    ensures
        r is Ok <==> !frame.failed,
        r is Err ==> other_message_is(
            r->Err_0,
            "Screencopy failed for monitor '"@ + name@ + "': "@ + failure_reason(*frame),
        ),
{
    if frame.failed {
        let mut m = String::from_str("Screencopy failed for monitor '");
        m.append(name);
        m.append("': ");
        push_reason(&mut m, frame);
        return Err(AppError::Other(m));
    }
    Ok(())
}

} // verus!
