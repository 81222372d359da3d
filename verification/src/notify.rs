//! What the desktop notifications say, and the command that the "Open"
//! action runs.

use vstd::prelude::*;

use crate::config::Notifications;
use crate::text::{chars_of, contains_chars, contains_seq, replace_all, replace_str};

verus! {

broadcast use vstd::string::group_string_axioms;

/// The text of a notification.
#[derive(Debug, Clone)]
pub struct NotificationText {
    pub summary: String,
    pub body: String,
}

/// What to show when a capture succeeded.
#[derive(Debug, Clone)]
pub struct SuccessNotification {
    pub text: NotificationText,
    /// Offer an "Open" action and wait for it (up to the configured time).
    pub offer_action: bool,
}

/// What to show after saving the screenshot at `path`: the templates with
/// `{path}` filled in, and whether to offer "Open" (a positive wait time);
/// nothing when notifications are off.
pub fn success_notification(config: &Notifications, path: &str) -> (r: Option<SuccessNotification>)
    ensures
        !config.enabled ==> r is None,
        config.enabled ==> r is Some && r->0.text.summary@ == replace_all(
            config.success_summary@,
            "{path}"@,
            path@,
        ) && r->0.text.body@ == replace_all(config.success_body@, "{path}"@, path@)
            && r->0.offer_action == (config.success_timeout > 0),
{
    if !config.enabled {
        return None;
    }
    proof {
        reveal_strlit("{path}");
    }
    let summary = replace_str(config.success_summary.as_str(), "{path}", path);
    let body = replace_str(config.success_body.as_str(), "{path}", path);
    Some(
        SuccessNotification {
            text: NotificationText { summary, body },
            offer_action: config.success_timeout > 0,
        },
    )
}

/// What to show after a failure with message `msg`: the templates with
/// `{error}` filled in; nothing when notifications are off.
pub fn error_notification(config: &Notifications, msg: &str) -> (r: Option<NotificationText>)
    ensures
        !config.enabled ==> r is None,
        config.enabled ==> r is Some && r->0.summary@ == replace_all(
            config.error_summary@,
            "{error}"@,
            msg@,
        ) && r->0.body@ == replace_all(config.error_body@, "{error}"@, msg@),
{
    if !config.enabled {
        return None;
    }
    proof {
        reveal_strlit("{error}");
    }
    let summary = replace_str(config.error_summary.as_str(), "{error}", msg);
    let body = replace_str(config.error_body.as_str(), "{error}", msg);
    Some(NotificationText { summary, body })
}

// ── The "Open" action ─────────────────────────────────────────────────────────

/// How `shell_words::split` divides a command line into words, or `None`
/// where a quote is left open.
pub uninterp spec fn shell_split(s: Seq<char>) -> Option<Seq<Seq<char>>>;

/// The texts of a list of strings.
pub open spec fn texts(v: Seq<String>) -> Seq<Seq<char>> {
    v.map_values(|s: String| s@)
}

/// `shell_words::split`: the words of a command line, quotes and escapes
/// resolved as a POSIX shell would; `None` where a quote is not closed. The
/// contract names the split and says no more of it.
#[verifier::external_body]
fn split_words(s: &str) -> (r: Option<Vec<String>>)
    ensures
        r is Some <==> shell_split(s@) is Some,
        r matches Some(v) ==> texts(v@) == shell_split(s@)->0,
{
    shell_words::split(s).ok()
}

/// The command that opens a screenshot.
#[derive(Debug, Clone)]
pub enum ActionCommand {
    /// The configured command line leaves a quote open.
    Unparsable,
    /// The configured command line has no words.
    Empty,
    /// Run `program` with `args`.
    Run { program: String, args: Vec<String> },
}

/// The arguments of a command whose words are `words`: the words after the
/// first, with `{path}` filled in, and the path itself at the end where no
/// word mentions `{path}`.
pub open spec fn action_args(words: Seq<Seq<char>>, path: Seq<char>) -> Seq<Seq<char>> {
    let filled = words.skip(1).map_values(|w: Seq<char>| replace_all(w, "{path}"@, path));
    if exists|i: int| 0 <= i < words.len() && contains_seq(#[trigger] words[i], "{path}"@) {
        filled
    } else {
        filled.push(path)
    }
}

/// The command that opens `path`, given the words of the configured command
/// line: the first word is the program; `{path}` in any word is replaced by
/// the path, and where no word holds `{path}` the path is passed last.
pub fn action_command_from_words(words: &Vec<String>, path: &str) -> (r: ActionCommand)
    ensures
        words@.len() == 0 ==> r is Empty,
        words@.len() > 0 ==> (r matches ActionCommand::Run { program, args } && program@
            == replace_all(texts(words@)[0], "{path}"@, path@) && texts(args@) == action_args(
            texts(words@),
            path@,
        )),
{
    if words.len() == 0 {
        return ActionCommand::Empty;
    }
    proof {
        reveal_strlit("{path}");
    }
    let placeholder = chars_of("{path}");
    let ghost ws = texts(words@);
    let mut has_placeholder = false;
    let mut i: usize = 0;
    while i < words.len()
        invariant
            i <= words@.len(),
            ws == texts(words@),
            placeholder@ == "{path}"@,
            has_placeholder == exists|q: int| 0 <= q < i && contains_seq(#[trigger] ws[q], "{path}"@),
        decreases words@.len() - i,
    {
        let w = chars_of(words[i].as_str());
        if contains_chars(w.as_slice(), placeholder.as_slice()) {
            assert(contains_seq(ws[i as int], "{path}"@));
            has_placeholder = true;
        }
        i = i + 1;
    }
    let program = replace_str(words[0].as_str(), "{path}", path);
    let mut args: Vec<String> = Vec::new();
    let mut j: usize = 1;
    while j < words.len()
        invariant
            1 <= j <= words@.len(),
            ws == texts(words@),
            "{path}"@.len() == 6,
            args@.len() == j - 1,
            forall|q: int| 0 <= q < j - 1 ==> #[trigger] args@[q]@ == replace_all(ws[q + 1], "{path}"@, path@),
        decreases words@.len() - j,
    {
        let a = replace_str(words[j].as_str(), "{path}", path);
        args.push(a);
        j = j + 1;
    }
    if !has_placeholder {
        args.push(String::from_str(path));
    }
    proof {
        let filled = ws.skip(1).map_values(|w: Seq<char>| replace_all(w, "{path}"@, path@));
        if has_placeholder {
            assert(texts(args@) =~= filled);
        } else {
            assert(texts(args@) =~= filled.push(path@));
        }
    }
    ActionCommand::Run { program, args }
}

/// The command that opens `path` for the configured command line `action`.
pub fn action_command(action: &str, path: &str) -> (r: ActionCommand)
    ensures
        shell_split(action@) is None ==> r is Unparsable,
        shell_split(action@) matches Some(ws) ==> (ws.len() == 0 ==> r is Empty) && (ws.len() > 0 ==> (
            r matches ActionCommand::Run { program, args } && program@ == replace_all(
                ws[0],
                "{path}"@,
                path@,
            ) && texts(args@) == action_args(ws, path@))),
{
    match split_words(action) {
        None => ActionCommand::Unparsable,
        Some(words) => action_command_from_words(&words, path),
    }
}

} // verus!
