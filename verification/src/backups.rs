//! The Backups page: run labels, the restore diff of a run against the
//! live files, and the page's preferences and notes.

use vstd::prelude::*;

use crate::text::{
    append_chars, append_str, before_char, chars_of, decimal, decimal_chars, index_of_char, owned,
    parse_u64, parse_u64_chars, slice_chars, split_char, split_chars, string_of, trim,
    trim_chars,
};

verus! {

/// The clock part of a run id: `hh-mm-ss` as `hh:mm:ss`, a fourth part
/// `n` as ` (#n)`, anything else as it is.
pub open spec fn spec_clock(time: Seq<char>) -> Seq<char> {
    let parts = split_char(time, '-');
    if parts.len() == 3 {
        parts[0] + ":"@ + parts[1] + ":"@ + parts[2]
    } else if parts.len() == 4 {
        parts[0] + ":"@ + parts[1] + ":"@ + parts[2] + " (#"@ + parts[3] + ")"@
    } else {
        time
    }
}

/// Dropdown label for one backup run, e.g.
/// `2026-09-09 18:04:31 UTC · save · 2 files`: the run id split at its
/// first `T` into date and clock.
pub open spec fn spec_backup_choice(id: Seq<char>, trigger: Seq<char>, files: nat) -> Seq<char> {
    let t = before_char(id, 'T') as int;
    let date = if t < id.len() { id.take(t) } else { id };
    let time = if t < id.len() { id.skip(t + 1) } else { seq![] };
    let count = if files == 1 { "1 file"@ } else { decimal(files) + " files"@ };
    date + " "@ + spec_clock(time) + " UTC · "@ + trigger + " · "@ + count
}

pub fn backup_choice(id: &str, trigger: &str, files: usize) -> (r: String)
    ensures
        r@ == spec_backup_choice(id@, trigger@, files as nat),
{
    let v = chars_of(id);
    let t = index_of_char(&v, 'T');
    let (date, time) = if t < v.len() {
        (slice_chars(&v, 0, t), slice_chars(&v, t + 1, v.len()))
    } else {
        (slice_chars(&v, 0, v.len()), Vec::new())
    };
    assert(time@ =~= (if t < v@.len() { v@.skip(t + 1) } else { seq![] }));
    let parts = split_chars(&time, '-');
    let ghost ps = parts@.map_values(|p: Vec<char>| p@);
    let mut clock: Vec<char> = Vec::new();
    if parts.len() == 3 {
        assert(ps[0] == parts@[0]@ && ps[1] == parts@[1]@ && ps[2] == parts@[2]@);
        append_chars(&mut clock, &parts[0]);
        append_str(&mut clock, ":");
        append_chars(&mut clock, &parts[1]);
        append_str(&mut clock, ":");
        append_chars(&mut clock, &parts[2]);
    } else if parts.len() == 4 {
        assert(ps[0] == parts@[0]@ && ps[1] == parts@[1]@ && ps[2] == parts@[2]@ && ps[3] == parts@[3]@);
        append_chars(&mut clock, &parts[0]);
        append_str(&mut clock, ":");
        append_chars(&mut clock, &parts[1]);
        append_str(&mut clock, ":");
        append_chars(&mut clock, &parts[2]);
        append_str(&mut clock, " (#");
        append_chars(&mut clock, &parts[3]);
        append_str(&mut clock, ")");
    } else {
        append_chars(&mut clock, &time);
    }
    assert(clock@ =~= spec_clock(time@));
    let mut out: Vec<char> = Vec::new();
    append_chars(&mut out, &date);
    append_str(&mut out, " ");
    append_chars(&mut out, &clock);
    append_str(&mut out, " UTC · ");
    append_str(&mut out, trigger);
    append_str(&mut out, " · ");
    if files == 1 {
        append_str(&mut out, "1 file");
    } else {
        let digits = decimal_chars(files as u64);
        append_chars(&mut out, &digits);
        append_str(&mut out, " files");
    }
    string_of(&out)
}

/// What `similar` renders as the unified line diff of `old` against
/// `new` with three lines of context: hunk headers and `-`/`+`/` ` lines,
/// empty when no hunk is left.
pub uninterp spec fn unified_line_diff(old: Seq<char>, new: Seq<char>) -> Seq<char>;

/// `similar::TextDiff::from_lines(old, new).unified_diff()
/// .context_radius(3).to_string()`. The text depends on the two inputs
/// alone (the differ runs without a deadline); what it looks like is not
/// stated here beyond that.
#[verifier::external_body]
fn line_diff(old: &str, new: &str) -> (r: String)
    ensures
        r@ == unified_line_diff(old@, new@),
{
    similar::TextDiff::from_lines(old, new).unified_diff().context_radius(3).to_string()
}

/// Where a stored file's name first appears among the chain's file names
/// (main first, then the includes), if it does.
pub fn chain_position(names: &Vec<String>, name: &str) -> (r: Option<usize>)
    ensures
        match r {
            Some(i) => i < names.len() && names@[i as int]@ == name@ && forall|j: int|
                0 <= j < i ==> names@[j]@ != name@,
            None => forall|j: int| 0 <= j < names.len() ==> names@[j]@ != name@,
        },
{
    let mut i: usize = 0;
    while i < names.len()
        invariant
            i <= names.len(),
            forall|j: int| 0 <= j < i ==> names@[j]@ != name@,
        decreases names.len() - i,
    {
        if crate::text::str_eq(names[i].as_str(), name) {
            return Some(i);
        }
        i = i + 1;
    }
    None
}

/// What a file's section shows of its diff: the diff, or a note when it
/// is empty (the stored and the live text match).
pub open spec fn spec_diff_body(diff: Seq<char>) -> Seq<char> {
    if diff.len() == 0 {
        "(identical to the current files)\n"@
    } else {
        diff
    }
}

pub fn diff_body(diff: &str) -> (r: String)
    ensures
        r@ == spec_diff_body(diff@),
{
    let dv = chars_of(diff);
    if dv.len() == 0 {
        owned("(identical to the current files)\n")
    } else {
        owned(diff)
    }
}

/// One file's part of a run's diff: a header with its name, then the
/// unified diff against the live file, or a note when they match or when
/// the file is no longer in the chain; a blank line closes it.
pub open spec fn diff_section(name: Seq<char>, old: Seq<char>, current: Option<Seq<char>>) -> Seq<char> {
    let body = match current {
        Some(c) => spec_diff_body(unified_line_diff(old, c)),
        None => "(not part of the current config chain)\n"@,
    };
    "──── "@ + name + " ────\n"@ + body + "\n"@
}

/// The sections of the first `k` stored files, in order.
pub open spec fn diff_sections(
    files: Seq<(Seq<char>, Seq<char>)>,
    current: Seq<Option<Seq<char>>>,
    k: nat,
) -> Seq<char>
    decreases k,
{
    if k == 0 {
        seq![]
    } else {
        diff_sections(files, current, (k - 1) as nat) + diff_section(
            files[k - 1].0,
            files[k - 1].1,
            current[k - 1],
        )
    }
}

pub open spec fn file_view(f: (String, String)) -> (Seq<char>, Seq<char>) {
    (f.0@, f.1@)
}

pub open spec fn text_view(t: Option<String>) -> Option<Seq<char>> {
    match t {
        Some(s) => Some(s@),
        None => None,
    }
}

/// The restore view of one backup run: for each stored `(name, content)`
/// (or the reason the run could not be read), its section against the
/// live text of the same file, `current[i]` (`None` when no file of the
/// chain has that name).
pub open spec fn spec_backup_diff(
    files: Result<Seq<(Seq<char>, Seq<char>)>, Seq<char>>,
    current: Seq<Option<Seq<char>>>,
) -> Seq<char> {
    match files {
        Ok(fs) => diff_sections(fs, current, fs.len()),
        Err(e) => "Backup unreadable: "@ + e,
    }
}

/// Unified diff (backup vs current content) for every file in a run.
pub fn backup_diff(files: &Result<Vec<(String, String)>, String>, current: &Vec<Option<String>>) -> (r: String)
    requires
        files matches Ok(fs) ==> fs.len() == current.len(),
    ensures
        r@ == spec_backup_diff(
            match files {
                Ok(fs) => Ok(fs@.map_values(|f: (String, String)| file_view(f))),
                Err(e) => Err(e@),
            },
            current@.map_values(|t: Option<String>| text_view(t)),
        ),
{
    let fs = match files {
        Ok(fs) => fs,
        Err(e) => {
            let mut out: Vec<char> = Vec::new();
            append_str(&mut out, "Backup unreadable: ");
            append_str(&mut out, e.as_str());
            return string_of(&out);
        },
    };
    let ghost fv = fs@.map_values(|f: (String, String)| file_view(f));
    let ghost cv = current@.map_values(|t: Option<String>| text_view(t));
    let mut out: Vec<char> = Vec::new();
    let mut i: usize = 0;
    while i < fs.len()
        invariant
            i <= fs.len(),
            fs.len() == current.len(),
            fv == fs@.map_values(|f: (String, String)| file_view(f)),
            cv == current@.map_values(|t: Option<String>| text_view(t)),
            out@ == diff_sections(fv, cv, i as nat),
        decreases fs.len() - i,
    {
        let name = &fs[i].0;
        let old = &fs[i].1;
        assert(fv[i as int] == (name@, old@));
        let ghost before = out@;
        append_str(&mut out, "──── ");
        append_str(&mut out, name.as_str());
        append_str(&mut out, " ────\n");
        match &current[i] {
            Some(live) => {
                assert(cv[i as int] == Some(live@));
                let d = line_diff(old.as_str(), live.as_str());
                let body = diff_body(d.as_str());
                append_str(&mut out, body.as_str());
            },
            None => {
                assert(cv[i as int] == None::<Seq<char>>);
                append_str(&mut out, "(not part of the current config chain)\n");
            },
        }
        append_str(&mut out, "\n");
        assert(out@ =~= before + diff_section(fv[i as int].0, fv[i as int].1, cv[i as int]));
        i = i + 1;
    }
    string_of(&out)
}

/// The keep-count field: a whole number (at most `u32::MAX`), raised to
/// at least 1; `None` when the trimmed text is not one.
pub open spec fn spec_backup_count(text: Seq<char>) -> Option<nat> {
    match parse_u64(trim(text)) {
        Some(n) => if n <= 4294967295 {
            Some(if n == 0 { 1 } else { n })
        } else {
            None
        },
        None => None,
    }
}

pub fn backup_count_choice(text: &str) -> (r: Option<u32>)
    ensures
        match r {
            Some(n) => spec_backup_count(text@) == Some(n as nat),
            None => spec_backup_count(text@) is None,
        },
{
    let v = chars_of(text);
    let t = trim_chars(&v);
    match parse_u64_chars(&t) {
        Some(n) => if n <= 4294967295 {
            Some(if n == 0 { 1 } else { n as u32 })
        } else {
            None
        },
        None => None,
    }
}

/// The page's note after a keep-count entry: the count kept, or why the
/// text was refused.
pub fn backup_count_note(choice: Option<u32>) -> (r: String)
    ensures
        r@ == match choice {
            Some(n) => "Keeping "@ + decimal(n as nat) + " backups."@,
            None => "Keep count must be a number of 1 or more."@,
        },
{
    let mut out: Vec<char> = Vec::new();
    match choice {
        Some(n) => {
            append_str(&mut out, "Keeping ");
            let d = decimal_chars(n as u64);
            append_chars(&mut out, &d);
            append_str(&mut out, " backups.");
        },
        None => append_str(&mut out, "Keep count must be a number of 1 or more."),
    }
    string_of(&out)
}

/// The backup location field (already trimmed): empty means the default
/// location. Returns the stored choice and the note saying where backups
/// go.
pub fn backup_dir_choice(dir: &str) -> (r: (Option<String>, String))
    ensures
        dir@.len() == 0 ==> r.0 is None && r.1@ == "Backups will be saved to the default location."@,
        dir@.len() > 0 ==> (r.0 matches Some(d) && d@ == dir@) && r.1@ == "Backups will be saved to "@ + dir@ + "."@,
{
    let v = chars_of(dir);
    if v.len() == 0 {
        (None, crate::text::owned("Backups will be saved to the default location."))
    } else {
        let mut out: Vec<char> = Vec::new();
        append_str(&mut out, "Backups will be saved to ");
        append_str(&mut out, dir);
        append_str(&mut out, ".");
        (Some(crate::text::owned(dir)), string_of(&out))
    }
}

/// The note after "Back up now": the new run's id, that there was nothing
/// on disk to back up, or the failure.
pub fn backup_now_note(result: &Result<Option<String>, String>) -> (r: String)
    ensures
        r@ == match result {
            Ok(Some(id)) => "Backed up as "@ + id@ + "."@,
            Ok(None) => "Nothing to back up yet, no config on disk."@,
            Err(e) => "Backup failed: "@ + e@,
        },
{
    let mut out: Vec<char> = Vec::new();
    match result {
        Ok(Some(id)) => {
            append_str(&mut out, "Backed up as ");
            append_str(&mut out, id.as_str());
            append_str(&mut out, ".");
        },
        Ok(None) => append_str(&mut out, "Nothing to back up yet, no config on disk."),
        Err(e) => {
            append_str(&mut out, "Backup failed: ");
            append_str(&mut out, e.as_str());
        },
    }
    string_of(&out)
}

/// The page's location line: where runs are saved and how many are kept.
pub fn backup_note(base: &str, count: u32) -> (r: String)
    ensures
        r@ == "Saving to "@ + base@ + " · keeping "@ + decimal(count as nat) + " backups"@,
{
    let mut out: Vec<char> = Vec::new();
    append_str(&mut out, "Saving to ");
    append_str(&mut out, base);
    append_str(&mut out, " · keeping ");
    let d = decimal_chars(count as u64);
    append_chars(&mut out, &d);
    append_str(&mut out, " backups");
    string_of(&out)
}

/// The note after a restore: how many files came back, from which run.
pub fn restore_note(restored: usize, run_id: &str) -> (r: String)
    ensures
        r@ == "Restored "@ + decimal(restored as nat) + " file(s) from "@ + run_id@ + "."@,
{
    let mut out: Vec<char> = Vec::new();
    append_str(&mut out, "Restored ");
    let d = decimal_chars(restored as u64);
    append_chars(&mut out, &d);
    append_str(&mut out, " file(s) from ");
    append_str(&mut out, run_id);
    append_str(&mut out, ".");
    string_of(&out)
}

} // verus!
