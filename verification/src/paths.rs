//! Where settings and bookmarks live, following the XDG Base Directory
//! convention. Paths are strings in the Unix form: `/` separates their parts.

use vstd::prelude::*;
use crate::text::{chars_of, push_all, string_of};

verus! {

/// A path joined onto another as `Path::join` does on Unix: an absolute
/// `rest` replaces `base`; otherwise one `/` goes between them unless `base`
/// is empty or already ends with one.
pub open spec fn join(base: Seq<char>, rest: Seq<char>) -> Seq<char> {
    if rest.len() > 0 && rest[0] == '/' {
        rest
    } else if base.len() == 0 || base.last() == '/' {
        base + rest
    } else {
        base + seq!['/'] + rest
    }
}

/// Whether a path is absolute: it starts at the root.
pub open spec fn absolute(path: Seq<char>) -> bool {
    path.len() > 0 && path[0] == '/'
}

fn joined(base: &[char], rest: &[char]) -> (r: Vec<char>)
    ensures
        r@ == join(base@, rest@),
{
    let mut out: Vec<char> = Vec::new();
    if rest.len() > 0 && rest[0] == '/' {
        push_all(&mut out, rest);
        assert(out@ =~= rest@);
    } else if base.len() == 0 || base[base.len() - 1] == '/' {
        push_all(&mut out, base);
        push_all(&mut out, rest);
        assert(out@ =~= base@ + rest@);
    } else {
        push_all(&mut out, base);
        out.push('/');
        push_all(&mut out, rest);
        assert(out@ =~= base@ + seq!['/'] + rest@);
    }
    out
}

/// An XDG base directory: the variable's value when it is an absolute path,
/// otherwise `home/fallback`; none without a home either.
pub open spec fn xdg(value: Option<Seq<char>>, home: Option<Seq<char>>, fallback: Seq<char>) -> Option<Seq<char>> {
    match value {
        Some(v) if absolute(v) => Some(v),
        _ => match home {
            Some(h) => Some(join(h, fallback)),
            None => None,
        },
    }
}

pub open spec fn opt_seq(v: Option<String>) -> Option<Seq<char>> {
    match v {
        Some(s) => Some(s@),
        None => None,
    }
}

/// Resolves an XDG base directory from the variable's value and `$HOME`.
pub fn xdg_dir(value: Option<String>, home: Option<String>, fallback: &str) -> (r: Option<String>)
    ensures
        opt_seq(r) == xdg(opt_seq(value), opt_seq(home), fallback@),
{
    if let Some(v) = &value {
        let chars = chars_of(v.as_str());
        if chars.len() > 0 && chars[0] == '/' {
            return Some(string_of(&chars));
        }
    }
    match &home {
        Some(h) => {
            let base = chars_of(h.as_str());
            let rest = chars_of(fallback);
            Some(string_of(&joined(&base, &rest)))
        },
        None => None,
    }
}

/// A file of the reader's own under a base directory, or the file of the
/// same role that earlier versions kept in the working directory when there
/// is no base directory.
pub open spec fn app_file(dir: Option<Seq<char>>, name: Seq<char>, legacy: Seq<char>) -> Seq<char> {
    match dir {
        Some(d) => join(join(d, "moosereader"@), name),
        None => legacy,
    }
}

fn file_in(dir: Option<String>, name: &str, legacy: &str) -> (r: String)
    ensures
        r@ == app_file(opt_seq(dir), name@, legacy@),
{
    match &dir {
        Some(d) => {
            let base = chars_of(d.as_str());
            let app = chars_of("moosereader");
            let file = chars_of(name);
            let folder = joined(&base, &app);
            string_of(&joined(&folder, &file))
        },
        None => string_of(&chars_of(legacy)),
    }
}

/// Settings live in `$XDG_CONFIG_HOME/moosereader/config.json` (default
/// `~/.config`), from the values of `XDG_CONFIG_HOME` and `HOME`.
pub fn config_file(xdg_config_home: Option<String>, home: Option<String>) -> (r: String)
    ensures
        r@ == app_file(xdg(opt_seq(xdg_config_home), opt_seq(home), ".config"@), "config.json"@, "reader_config.json"@),
{
    let dir = xdg_dir(xdg_config_home, home, ".config");
    file_in(dir, "config.json", "reader_config.json")
}

/// Bookmarks live in `$XDG_STATE_HOME/moosereader/bookmarks.json` (default
/// `~/.local/state`), from the values of `XDG_STATE_HOME` and `HOME`.
pub fn bookmarks_file(xdg_state_home: Option<String>, home: Option<String>) -> (r: String)
    ensures
        r@ == app_file(xdg(opt_seq(xdg_state_home), opt_seq(home), ".local/state"@), "bookmarks.json"@, "bookmarks.json"@),
{
    let dir = xdg_dir(xdg_state_home, home, ".local/state");
    file_in(dir, "bookmarks.json", "bookmarks.json")
}

/// An absolute base directory always wins, whatever the home.
pub proof fn law_absolute_xdg_wins(value: Seq<char>, home: Option<Seq<char>>, fallback: Seq<char>)
    requires
        absolute(value),
    ensures
        xdg(Some(value), home, fallback) == Some(value),
{
}

/// A relative value is ignored, as the XDG specification asks: it counts as
/// no value at all.
pub proof fn law_relative_xdg_ignored(value: Seq<char>, home: Option<Seq<char>>, fallback: Seq<char>)
    requires
        !absolute(value),
    ensures
        xdg(Some(value), home, fallback) == xdg(None, home, fallback),
{
}

} // verus!
