//! The Settings page: the "latest Umbriel commit" line, the recorded
//! upstream commit of the community shaders, and the page's notes on
//! installing, restarting, viewing a file and syncing the schema.

use vstd::prelude::*;

use crate::shader_preview::{lemma_utf8_len_grows, utf8_len, width_of};
use crate::text::{
    append_chars, append_str, before_char, chars_of, index_of_char, owned, slice_chars, string_of,
    str_eq, string_views, trim, trim_str,
};

verus! {

/// `str::lines().next().unwrap_or_default()`: the text up to the first
/// line feed, without the carriage return of a `"\r\n"` ending.
pub open spec fn spec_first_line(s: Seq<char>) -> Seq<char> {
    let b = before_char(s, '\n') as int;
    if b < s.len() {
        if b > 0 && s[b - 1] == '\r' {
            s.take(b - 1)
        } else {
            s.take(b)
        }
    } else {
        s
    }
}

pub fn first_line(s: &str) -> (r: String)
    ensures
        r@ == spec_first_line(s@),
{
    let v = chars_of(s);
    let b = index_of_char(&v, '\n');
    if b < v.len() {
        if b > 0 && v[b - 1] == '\r' {
            string_of(&slice_chars(&v, 0, b - 1))
        } else {
            string_of(&slice_chars(&v, 0, b))
        }
    } else {
        string_of(&v)
    }
}

/// `str::get(..n)`: the first `n` bytes, when they end between two
/// characters.
pub open spec fn byte_prefix(s: Seq<char>, n: nat) -> Option<Seq<char>> {
    if exists|k: int| 0 <= k <= s.len() && #[trigger] utf8_len(s.take(k)) == n {
        Some(s.take(choose|k: int| 0 <= k <= s.len() && #[trigger] utf8_len(s.take(k)) == n))
    } else {
        None
    }
}

/// The character count of the first `n` bytes of `v`, when they end
/// between two characters.
fn chars_for_bytes(v: &Vec<char>, n: u64) -> (r: Option<usize>)
    requires
        n <= 1024,
    ensures
        match r {
            Some(k) => k <= v.len() && utf8_len(v@.take(k as int)) == n && byte_prefix(v@, n as nat)
                == Some(v@.take(k as int)),
            None => byte_prefix(v@, n as nat) is None,
        },
{
    let mut acc: u64 = 0;
    let mut k: usize = 0;
    while acc < n && k < v.len()
        invariant
            k <= v.len(),
            acc == utf8_len(v@.take(k as int)),
            acc <= n + 4,
            n <= 1024,
            forall|j: int| 0 <= j < k ==> #[trigger] utf8_len(v@.take(j)) < n,
        decreases v.len() - k,
    {
        let w = width_of(v[k]);
        assert(v@.take(k + 1).drop_last() =~= v@.take(k as int));
        acc = acc + w;
        k = k + 1;
    }
    if acc == n {
        proof {
            let nn: nat = n as nat;
            assert(0 <= k <= v@.len() && utf8_len(v@.take(k as int)) == nn);
            let j = choose|k: int| 0 <= k <= v@.len() && #[trigger] utf8_len(v@.take(k)) == nn;
            if j < k {
            } else if j > k {
                lemma_utf8_len_grows(v@, k as int, j);
            }
        }
        Some(k)
    } else {
        proof {
            if exists|j: int| 0 <= j <= v@.len() && #[trigger] utf8_len(v@.take(j)) == n {
                let j = choose|j: int| 0 <= j <= v@.len() && #[trigger] utf8_len(v@.take(j)) == n;
                if j > k {
                    lemma_utf8_len_grows(v@, k as int, j);
                    if k < v.len() {
                    } else {
                    }
                } else if j == k {
                }
            }
        }
        None
    }
}

/// One display line: the short sha, the date part of the author date,
/// and the commit's first message line, separated by `" • "`.
pub open spec fn spec_commit_line(sha: Seq<char>, message: Seq<char>, date: Seq<char>) -> Seq<char> {
    let short = if sha.len() <= 7 { sha } else { sha.take(7) };
    let day = match byte_prefix(date, 10) {
        Some(d) => d,
        None => seq![],
    };
    short + " • "@ + day + " • "@ + message
}

pub fn commit_line(sha: &str, message: &str, date: &str) -> (r: String)
    ensures
        r@ == spec_commit_line(sha@, message@, date@),
{
    let s = chars_of(sha);
    let short = if s.len() <= 7 { slice_chars(&s, 0, s.len()) } else { slice_chars(&s, 0, 7) };
    let d = chars_of(date);
    let day = match chars_for_bytes(&d, 10) {
        Some(k) => slice_chars(&d, 0, k),
        None => Vec::new(),
    };
    let mut out: Vec<char> = Vec::new();
    append_chars(&mut out, &short);
    append_str(&mut out, " • ");
    append_chars(&mut out, &day);
    append_str(&mut out, " • ");
    append_str(&mut out, message);
    string_of(&out)
}

/// One entry of GitHub's commits listing, as the page reads it.
pub struct CommitInfo {
    pub sha: String,
    pub message: String,
    pub date: String,
}

/// The newest commit of a listing (GitHub lists newest first): its full
/// sha, the first line of its message, and its author date; `None` for an
/// empty listing.
pub fn latest_commit(commits: &Vec<CommitInfo>) -> (r: Option<(String, String, String)>)
    ensures
        commits.len() == 0 ==> r is None,
        commits.len() > 0 ==> (r matches Some(t) && t.0@ == commits@[0].sha@ && t.1@ == spec_first_line(
            commits@[0].message@,
        ) && t.2@ == commits@[0].date@),
{
    if commits.len() == 0 {
        return None;
    }
    let c = &commits[0];
    Some((c.sha.clone(), first_line(c.message.as_str()), c.date.clone()))
}

/// The Settings page's note on the newest commit: its display line, or an
/// error when there was none.
pub fn latest_commit_note(found: Option<(String, String, String)>) -> (r: Result<String, String>)
    ensures
        match found {
            Some(t) => r matches Ok(line) && line@ == spec_commit_line(t.0@, t.1@, t.2@),
            None => r matches Err(e) && e@ == "no commits found"@,
        },
{
    match found {
        Some((sha, message, date)) => Ok(commit_line(sha.as_str(), message.as_str(), date.as_str())),
        None => Err(owned("no commits found")),
    }
}

/// The upstream sha a downloaded shader collection recorded: the marker
/// file's text, trimmed; `None` when that leaves nothing.
pub fn marker_sha(text: &str) -> (r: Option<String>)
    ensures
        trim(text@).len() == 0 ==> r is None,
        trim(text@).len() > 0 ==> (r matches Some(sha) && sha@ == trim(text@)),
{
    let t = trim_str(text);
    let v = chars_of(t.as_str());
    if v.len() == 0 {
        None
    } else {
        Some(t)
    }
}

/// The shader page checks once per session for a newer community
/// collection, and only when one is installed: the first call that may
/// check marks the check as done.
pub fn begin_shader_update_check(installed: bool, checked: &mut bool) -> (r: bool)
    ensures
        r == (installed && !*old(checked)),
        *final(checked) == (*old(checked) || installed),
{
    if !installed || *checked {
        return false;
    }
    *checked = true;
    true
}

/// Whether the community collection has updates: its recorded upstream
/// commit differs from GitHub's newest. Without either there is nothing
/// to compare and the hint is left as it is (`None`).
pub fn shader_update_available(marker: Option<&str>, upstream: Option<&str>) -> (r: Option<bool>)
    ensures
        match (marker, upstream) {
            (Some(m), Some(u)) => r == Some(m@ != u@),
            _ => r is None,
        },
{
    match (marker, upstream) {
        (Some(m), Some(u)) => Some(!str_eq(m, u)),
        _ => None,
    }
}

/// The marker file's text for a recorded upstream commit.
pub fn marker_text(sha: &str) -> (r: String)
    ensures
        r@ == sha@ + "\n"@,
{
    let mut v = chars_of(sha);
    append_str(&mut v, "\n");
    string_of(&v)
}

/// The note after the community collection landed.
pub fn download_note(updating: bool) -> (r: String)
    ensures
        r@ == if updating {
            "Community shaders updated."@
        } else {
            "Community shaders downloaded."@
        },
{
    if updating {
        owned("Community shaders updated.")
    } else {
        owned("Community shaders downloaded.")
    }
}

/// The note after installing a release: installed, with what to do next,
/// or why it failed.
pub open spec fn spec_install_note(version: Seq<char>, result: Result<(), Seq<char>>) -> (bool, Seq<char>) {
    match result {
        Ok(()) => (true, "Installed "@ + version + ". Restart to use it."@),
        Err(e) => (false, "Install failed: "@ + e),
    }
}

pub fn install_note(version: &str, result: &Result<(), String>) -> (r: (bool, String))
    ensures
        (r.0, r.1@) == spec_install_note(
            version@,
            match result {
                Ok(()) => Ok(()),
                Err(e) => Err(e@),
            },
        ),
{
    match result {
        Ok(()) => {
            let mut v = chars_of("Installed ");
            append_str(&mut v, version);
            append_str(&mut v, ". Restart to use it.");
            (true, string_of(&v))
        },
        Err(e) => {
            let mut v = chars_of("Install failed: ");
            append_str(&mut v, e.as_str());
            (false, string_of(&v))
        },
    }
}

/// Restarting into a new version: unsaved edits would be lost with the
/// process, so they stop it.
pub fn restart_blocked(dirty: bool) -> (r: Option<String>)
    ensures
        dirty ==> (r matches Some(n) && n@ == "Save or discard your changes first."@),
        !dirty ==> r is None,
{
    if dirty {
        Some(owned("Save or discard your changes first."))
    } else {
        None
    }
}

/// The file viewer's title: the document's label, marked when the text
/// shown holds unsaved edits; nothing past the main file.
pub open spec fn spec_file_title(labels: Seq<Seq<char>>, index: int, main: int, modified: bool) -> Option<Seq<char>> {
    if index < 0 || index > main {
        None
    } else {
        let label = if index < labels.len() {
            labels[index]
        } else {
            Seq::empty()
        };
        Some(label + if modified {
            " \u{b7} unsaved edits included"@
        } else {
            Seq::empty()
        })
    }
}

pub fn file_title(labels: &Vec<String>, index: i32, main: usize, modified: bool) -> (r: Option<String>)
    ensures
        match r {
            Some(t) => spec_file_title(string_views(labels@), index as int, main as int, modified) == Some(t@),
            None => spec_file_title(string_views(labels@), index as int, main as int, modified) is None,
        },
{
    if index < 0 {
        return None;
    }
    let i = index as usize;
    if i > main {
        return None;
    }
    let mut v = if i < labels.len() {
        chars_of(labels[i].as_str())
    } else {
        Vec::new()
    };
    if modified {
        append_str(&mut v, " \u{b7} unsaved edits included");
    }
    Some(string_of(&v))
}

/// The note after re-reading umbriel's packaged default: none found, up
/// to date, or what changed (`summary`), and whether the schema is
/// clean.
pub open spec fn spec_sync_note(fresh_empty: bool, drift_empty: bool, summary: Seq<char>) -> (Seq<char>, bool) {
    if fresh_empty {
        ("No packaged default found; install umbriel and sync again."@, false)
    } else if drift_empty {
        ("Schema is up to date."@, true)
    } else {
        ("Synced from umbriel: "@ + summary + "."@, false)
    }
}

pub fn sync_note(fresh_empty: bool, drift_empty: bool, summary: &str) -> (r: (String, bool))
    ensures
        (r.0@, r.1) == spec_sync_note(fresh_empty, drift_empty, summary@),
{
    if fresh_empty {
        (owned("No packaged default found; install umbriel and sync again."), false)
    } else if drift_empty {
        (owned("Schema is up to date."), true)
    } else {
        let mut v = chars_of("Synced from umbriel: ");
        append_str(&mut v, summary);
        append_str(&mut v, ".");
        (string_of(&v), false)
    }
}

/// The startup notice: what changed in umbriel's schema since the last
/// run. Silent on the first run (no snapshot yet) and when nothing
/// changed.
pub fn startup_drift_note(seen_empty: bool, drift_empty: bool, summary: &str) -> (r: Option<String>)
    ensures
        seen_empty || drift_empty ==> r is None,
        !seen_empty && !drift_empty ==> (r matches Some(n) && n@ == "Umbriel changed since last run: "@
            + summary@ + "."@),
{
    if seen_empty || drift_empty {
        None
    } else {
        let mut v = chars_of("Umbriel changed since last run: ");
        append_str(&mut v, summary);
        append_str(&mut v, ".");
        Some(string_of(&v))
    }
}

/// The release-notes title: the fetched notes are the new release's;
/// without them the bundled notes of the running version are shown.
pub open spec fn spec_notes_title(fetched_empty: bool, version: Seq<char>) -> Seq<char> {
    if fetched_empty {
        "What's new in "@ + version
    } else {
        "What's new in this release"@
    }
}

pub fn notes_title(fetched_notes: &str, version: &str) -> (r: String)
    ensures
        r@ == spec_notes_title(fetched_notes@.len() == 0, version@),
{
    if fetched_notes.unicode_len() == 0 {
        let mut v = chars_of("What's new in ");
        append_str(&mut v, version);
        string_of(&v)
    } else {
        owned("What's new in this release")
    }
}

} // verus!
