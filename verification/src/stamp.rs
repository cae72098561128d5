//! The once-a-day rule of the automatic update check: where the stamp of
//! the last check lives, what it holds, and when a new check is due.

use vstd::prelude::*;

use crate::text::{
    append_chars, append_str, chars_of, decimal, decimal_chars, parse_u64, parse_u64_chars,
    string_of, trim, trim_chars,
};

verus! {

/// Seconds in a day.
pub const DAY_SECS: u64 = 86400;

/// A new automatic check is due when there is no readable stamp, when its
/// trimmed text is not a number of seconds, or when a day or more has
/// passed since it (a stamp in the future counts as no time passed).
pub open spec fn spec_due_for_check(stamp: Option<Seq<char>>, now: nat) -> bool {
    match stamp {
        None => true,
        Some(text) => match parse_u64(trim(text)) {
            None => true,
            Some(last) => (if now >= last { now - last } else { 0 }) >= DAY_SECS,
        },
    }
}

/// Whether the startup check should run, given the stamp file's text (if
/// it could be read) and the current time in seconds since the epoch.
pub fn due_for_check(stamp: Option<&str>, now: u64) -> (r: bool)
    ensures
        r == spec_due_for_check(match stamp { Some(s) => Some(s@), None => None }, now as nat),
{
    match stamp {
        None => true,
        Some(text) => {
            let v = chars_of(text);
            let t = trim_chars(&v);
            match parse_u64_chars(&t) {
                None => true,
                Some(last) => now.saturating_sub(last) >= DAY_SECS,
            }
        },
    }
}

/// The stamp's text for a check at `now`: the seconds, then a line feed.
pub fn stamp_text(now: u64) -> (r: String)
    ensures
        r@ == decimal(now as nat) + "\n"@,
{
    let mut out = decimal_chars(now);
    append_str(&mut out, "\n");
    string_of(&out)
}

/// `PathBuf::push` on Unix: an absolute `part` replaces the path; else it
/// is appended, after a `/` unless the path is empty or already ends in
/// one.
pub open spec fn path_join(base: Seq<char>, part: Seq<char>) -> Seq<char> {
    if part.len() > 0 && part[0] == '/' {
        part
    } else if base.len() == 0 || base.last() == '/' {
        base + part
    } else {
        base + "/"@ + part
    }
}

fn join_path(base: &Vec<char>, part: &str) -> (r: Vec<char>)
    ensures
        r@ == path_join(base@, part@),
{
    let p = chars_of(part);
    if p.len() > 0 && p[0] == '/' {
        return p;
    }
    let mut out: Vec<char> = Vec::new();
    append_chars(&mut out, base);
    if !(base.len() == 0 || base[base.len() - 1] == '/') {
        append_str(&mut out, "/");
    }
    append_chars(&mut out, &p);
    out
}

/// Where the stamp lives: under `$XDG_STATE_HOME` when set, else under
/// `~/.local/state` (an unknown home reads as the empty path).
pub open spec fn spec_stamp_path(state_home: Option<Seq<char>>, home: Option<Seq<char>>) -> Seq<char> {
    let base = match state_home {
        Some(s) => s,
        None => path_join(
            match home {
                Some(h) => h,
                None => seq![],
            },
            ".local/state"@,
        ),
    };
    path_join(base, "umbriel-config/last-update-check"@)
}

pub fn stamp_path(state_home: Option<&str>, home: Option<&str>) -> (r: String)
    ensures
        r@ == spec_stamp_path(
            match state_home { Some(s) => Some(s@), None => None },
            match home { Some(h) => Some(h@), None => None },
        ),
{
    let base = match state_home {
        Some(s) => chars_of(s),
        None => {
            let h = match home {
                Some(h) => chars_of(h),
                None => Vec::new(),
            };
            join_path(&h, ".local/state")
        },
    };
    let out = join_path(&base, "umbriel-config/last-update-check");
    string_of(&out)
}

} // verus!
