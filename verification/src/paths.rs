//! Filesystem paths as text: joining, `~` expansion and the default locations
//! of the configuration, the screenshots and the saved freeze mode.
//!
//! Paths follow Unix rules: a path is absolute when it starts with `/`.

use vstd::prelude::*;

use crate::text::{chars_of, string_of, sub_chars};

verus! {

broadcast use vstd::string::group_string_axioms;

/// A path is absolute when it starts with the separator.
pub open spec fn is_absolute(p: Seq<char>) -> bool {
    p.len() > 0 && p[0] == '/'
}

/// `Path::join` on Unix: an absolute `p` replaces `base`; otherwise `p` is
/// appended, with a separator in between unless `base` is empty or already
/// ends with one.
pub open spec fn path_join(base: Seq<char>, p: Seq<char>) -> Seq<char> {
    if is_absolute(p) {
        p
    } else if base.len() > 0 && base.last() != '/' {
        base + seq!['/'] + p
    } else {
        base + p
    }
}

/// Whether the text `p` is an absolute path.
pub fn path_is_absolute(p: &str) -> (b: bool)
    ensures
        b == is_absolute(p@),
{
    let cs = chars_of(p);
    cs.len() > 0 && cs[0] == '/'
}

/// `base` joined with `p`, as `Path::join` does it.
pub fn join_path(base: &str, p: &str) -> (r: String)
    ensures
        r@ == path_join(base@, p@),
{
    if path_is_absolute(p) {
        return String::from_str(p);
    }
    let bs = chars_of(base);
    let mut r = String::from_str(base);
    if bs.len() > 0 && bs[bs.len() - 1] != '/' {
        r.append("/");
        proof {
            reveal_strlit("/");
        }
    }
    r.append(p);
    r
}

// ── `~` expansion ─────────────────────────────────────────────────────────────

/// `p` with a leading `~/` or a lone `~` read as the home directory `home`;
/// a path that is still relative afterwards is taken relative to `home`.
pub open spec fn expand_tilde_spec(p: Seq<char>, home: Seq<char>) -> Seq<char> {
    let expanded = if p.len() >= 2 && p[0] == '~' && p[1] == '/' {
        path_join(home, p.skip(2))
    } else if p == seq!['~'] {
        home
    } else {
        p
    };
    if is_absolute(expanded) {
        expanded
    } else {
        path_join(home, expanded)
    }
}

/// Expand `~` in a configured path against the home directory `home`, and
/// anchor a relative path at `home`.
pub fn expand_tilde(path: &str, home: &str) -> (r: String)
    ensures
        r@ == expand_tilde_spec(path@, home@),
{
    let cs = chars_of(path);
    let expanded = if cs.len() >= 2 && cs[0] == '~' && cs[1] == '/' {
        let tail = sub_chars(cs.as_slice(), 2, cs.len());
        let rest = string_of(tail.as_slice());
        assert(tail@ == path@.skip(2));
        join_path(home, rest.as_str())
    } else if cs.len() == 1 && cs[0] == '~' {
        assert(path@ == seq!['~']);
        String::from_str(home)
    } else {
        assert(path@ != seq!['~']);
        String::from_str(path)
    };
    if path_is_absolute(expanded.as_str()) {
        expanded
    } else {
        join_path(home, expanded.as_str())
    }
}


/// Joining onto an absolute base gives an absolute path.
pub proof fn lemma_join_absolute(base: Seq<char>, p: Seq<char>)
    requires
        is_absolute(base),
    ensures
        is_absolute(path_join(base, p)),
{
}

/// With an absolute home directory, every expanded path is absolute.
pub proof fn lemma_expand_tilde_absolute(p: Seq<char>, home: Seq<char>)
    requires
        is_absolute(home),
    ensures
        is_absolute(expand_tilde_spec(p, home)),
{
    lemma_join_absolute(home, p.skip(2));
}

// ── Default locations ─────────────────────────────────────────────────────────

/// `dir`, or `"."` where there is none.
pub open spec fn dir_or_here(dir: Option<Seq<char>>) -> Seq<char> {
    match dir {
        Some(d) => d,
        None => "."@,
    }
}

fn dir_or_here_string(dir: Option<&str>) -> (r: String)
    ensures
        r@ == dir_or_here(
            match dir {
                Some(d) => Some(d@),
                None => None,
            },
        ),
{
    match dir {
        Some(d) => String::from_str(d),
        None => String::from_str("."),
    }
}

/// The configuration file inside the user configuration directory `config_dir`
/// (the working directory where there is none): `crop-hypr/config.toml`.
pub fn config_file_path(config_dir: Option<&str>) -> (r: String)
    ensures
        r@ == path_join(
            path_join(
                dir_or_here(
                    match config_dir {
                        Some(d) => Some(d@),
                        None => None,
                    },
                ),
                "crop-hypr"@,
            ),
            "config.toml"@,
        ),
{
    let base = dir_or_here_string(config_dir);
    let app = join_path(base.as_str(), "crop-hypr");
    join_path(app.as_str(), "config.toml")
}

/// The default screenshot directory: `Screenshots` inside the pictures
/// directory, else inside the home directory, else inside the working directory.
pub fn default_save_path(picture_dir: Option<&str>, home_dir: Option<&str>) -> (r: String)
    ensures
        r@ == path_join(
            match picture_dir {
                Some(p) => p@,
                None => dir_or_here(
                    match home_dir {
                        Some(h) => Some(h@),
                        None => None,
                    },
                ),
            },
            "Screenshots"@,
        ),
{
    let base = match picture_dir {
        Some(p) => String::from_str(p),
        None => dir_or_here_string(home_dir),
    };
    join_path(base.as_str(), "Screenshots")
}

/// The file that keeps the last freeze mode, inside the state directory
/// `state_dir`: `crop-hypr/last_mode`; none where there is no state directory.
pub fn state_file(state_dir: Option<&str>) -> (r: Option<String>)
    ensures
        match state_dir {
            Some(d) => r is Some && r->0@ == path_join(path_join(d@, "crop-hypr"@), "last_mode"@),
            None => r is None,
        },
{
    match state_dir {
        Some(d) => {
            let app = join_path(d, "crop-hypr");
            Some(join_path(app.as_str(), "last_mode"))
        },
        None => None,
    }
}

/// The Hyprland control socket under the runtime directory `runtime_dir` for
/// the instance `signature`: `hypr/<signature>/.socket.sock`.
pub fn runtime_socket_path(runtime_dir: &str, signature: &str) -> (r: String)
    ensures
        r@ == path_join(path_join(path_join(runtime_dir@, "hypr"@), signature@), ".socket.sock"@),
{
    let a = join_path(runtime_dir, "hypr");
    let b = join_path(a.as_str(), signature);
    join_path(b.as_str(), ".socket.sock")
}

/// The Hyprland control socket of the instance `signature` under `/tmp`.
pub fn fallback_socket_path(signature: &str) -> (r: String)
    ensures
        r@ == "/tmp/hypr/"@ + signature@ + "/.socket.sock"@,
{
    let mut r = String::from_str("/tmp/hypr/");
    r.append(signature);
    r.append("/.socket.sock");
    r
}

} // verus!
