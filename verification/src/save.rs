//! The save popup's view of the include chain: per-document labels, the
//! count of changed keys, the list of entries to save and their chosen
//! destinations, the moves those ask for, and the verdict after saving or
//! restoring. The chain is
//! indexed includes first (include `i` is `i`) and the main file last.

use vstd::prelude::*;

use crate::common::{diff_against_saved, diff_view, entry_home, path_file_name, spec_diff, KeySet};
use crate::text::{
    append_chars, append_str, chars_eq, chars_of, decimal, decimal_chars, join, join_chars, join_strings, owned,
    label_index, label_position, str_eq, string_of, string_views,
};
use crate::update::opt_view;
use crate::values::ValueMap;

verus! {

/// Label of the main file: its file name, `config.toml` when it has none.
pub open spec fn main_label(path: Seq<char>) -> Seq<char> {
    match path_file_name(path) {
        Some(n) => n + " (main)"@,
        None => "config.toml (main)"@,
    }
}

/// Sidebar file labels: the includes' labels in chain order, then the
/// main file's name marked `(main)`.
pub fn setting_labels(include_labels: &Vec<String>, main_path: &str) -> (r: Vec<String>)
    ensures
        string_views(r@) == string_views(include_labels@).push(main_label(main_path@)),
{
    let mut r: Vec<String> = Vec::new();
    let mut k: usize = 0;
    while k < include_labels.len()
        invariant
            k <= include_labels.len(),
            string_views(r@) == string_views(include_labels@).take(k as int),
        decreases include_labels.len() - k,
    {
        let l = include_labels[k].clone();
        let ghost before = string_views(r@);
        r.push(l);
        assert(string_views(r@) =~= before.push(include_labels@[k as int]@));
        k = k + 1;
        assert(string_views(r@) =~= string_views(include_labels@).take(k as int));
    }
    let mut main: Vec<char> = Vec::new();
    let name = crate::common::file_name_opt(main_path);
    match name {
        Some(n) => {
            append_str(&mut main, n.as_str());
            append_str(&mut main, " (main)");
            assert(main@ =~= n@ + " (main)"@);
        },
        None => {
            append_str(&mut main, "config.toml");
            append_str(&mut main, " (main)");
            assert(main@ =~= "config.toml (main)"@) by {
                reveal_strlit("config.toml");
                reveal_strlit(" (main)");
                reveal_strlit("config.toml (main)");
            }
        },
    }
    let label = string_of(&main);
    assert(label@ == main_label(main_path@));
    let ghost before = string_views(r@);
    r.push(label);
    assert(string_views(r@) =~= before.push(main_label(main_path@)));
    assert(string_views(include_labels@).take(include_labels.len() as int) =~= string_views(include_labels@));
    r
}

/// The snapshot of document `i`, when there is one.
pub open spec fn saved_at(saved: Seq<ValueMap>, i: int) -> Option<ValueMap> {
    if 0 <= i < saved.len() {
        Some(saved[i])
    } else {
        None
    }
}

/// Changed keys over the first `n` documents of the chain.
pub open spec fn count_changes(current: Seq<ValueMap>, saved: Seq<ValueMap>, n: int) -> int
    decreases n,
{
    if n <= 0 {
        0
    } else {
        count_changes(current, saved, n - 1) + spec_diff(current[n - 1], saved_at(saved, n - 1)).len()
    }
}

/// Number of chain keys whose current state differs from the saved
/// snapshot (newly created keys and deletions count too). `current` holds
/// every document's leaves in chain order, `saved` the snapshots.
pub fn changed_count(current: &Vec<ValueMap>, saved: &Vec<ValueMap>) -> (r: i32)
    requires
        count_changes(current@, saved@, current@.len() as int) <= i32::MAX,
    ensures
        r == count_changes(current@, saved@, current@.len() as int),
{
    let mut count: i32 = 0;
    let mut i: usize = 0;
    while i < current.len()
        invariant
            i <= current.len(),
            count == count_changes(current@, saved@, i as int),
            0 <= count,
            count_changes(current@, saved@, current@.len() as int) <= i32::MAX,
        decreases current.len() - i,
    {
        let d = if i < saved.len() {
            diff_against_saved(&current[i], Some(&saved[i]))
        } else {
            diff_against_saved(&current[i], None)
        };
        proof {
            assert(diff_view(d@).len() == d@.len());
            assert(diff_view(d@) == spec_diff(current@[i as int], saved_at(saved@, i as int)));
            assert(count_changes(current@, saved@, i + 1) == count + d@.len());
            lemma_count_changes_grows(current@, saved@, i as int + 1, current@.len() as int);
            assert(d@.len() <= i32::MAX);
        }
        count = count + d.len() as i32;
        i = i + 1;
    }
    count
}

proof fn lemma_count_changes_grows(current: Seq<ValueMap>, saved: Seq<ValueMap>, m: int, n: int)
    requires
        0 <= m <= n,
    ensures
        count_changes(current, saved, m) <= count_changes(current, saved, n),
    decreases n - m,
{
    if m < n {
        lemma_count_changes_grows(current, saved, m, n - 1);
    }
}

/// One row of the save popup.
#[derive(Debug, Clone, PartialEq, Eq)]
pub struct SaveEntry {
    pub key: String,
    pub label: String,
    /// The new value, or `(removed)` for a deletion.
    pub value: String,
    pub dest_label: String,
    /// Index into the main-first destinations: 0 = main, include i = i + 1.
    pub dest_index: i32,
}

pub struct SaveEntryView {
    pub key: Seq<char>,
    pub label: Seq<char>,
    pub value: Seq<char>,
    pub dest_label: Seq<char>,
    pub dest_index: int,
}

pub open spec fn entry_view(e: SaveEntry) -> SaveEntryView {
    SaveEntryView {
        key: e.key@,
        label: e.label@,
        value: e.value@,
        dest_label: e.dest_label@,
        dest_index: e.dest_index as int,
    }
}

/// The human label of a key: the first schema entry for it, else the key.
pub open spec fn label_of(schema: Seq<(Seq<char>, Seq<char>)>, key: Seq<char>) -> Seq<char>
    decreases schema.len(),
{
    if schema.len() == 0 {
        key
    } else if schema[0].0 == key {
        schema[0].1
    } else {
        label_of(schema.drop_first(), key)
    }
}

/// The popup rows of document `i` (of `main + 1`).
pub open spec fn doc_entries(
    diff: Seq<(Seq<char>, Option<Seq<char>>)>,
    schema: Seq<(Seq<char>, Seq<char>)>,
    labels: Seq<Seq<char>>,
    i: int,
    main: int,
) -> Seq<SaveEntryView> {
    diff.map_values(
        |d: (Seq<char>, Option<Seq<char>>)|
            SaveEntryView {
                key: d.0,
                label: label_of(schema, d.0),
                value: match d.1 {
                    Some(v) => v,
                    None => "(removed)"@,
                },
                dest_label: if 0 <= i < labels.len() {
                    labels[i]
                } else {
                    seq![]
                },
                dest_index: if i == main {
                    0
                } else {
                    i + 1
                },
            },
    )
}

/// The rows of the first `n` documents.
pub open spec fn chain_entries(
    current: Seq<ValueMap>,
    saved: Seq<ValueMap>,
    schema: Seq<(Seq<char>, Seq<char>)>,
    labels: Seq<Seq<char>>,
    n: int,
) -> Seq<SaveEntryView>
    decreases n,
{
    if n <= 0 {
        seq![]
    } else {
        chain_entries(current, saved, schema, labels, n - 1) + doc_entries(
            spec_diff(current[n - 1], saved_at(saved, n - 1)),
            schema,
            labels,
            n - 1,
            current.len() - 1,
        )
    }
}

pub open spec fn pairs_of(v: Seq<(String, String)>) -> Seq<(Seq<char>, Seq<char>)> {
    v.map_values(|e: (String, String)| (e.0@, e.1@))
}

fn label_for(schema: &Vec<(String, String)>, key: &String) -> (r: String)
    ensures
        r@ == label_of(pairs_of(schema@), key@),
{
    let ghost all = pairs_of(schema@);
    let wanted = chars_of(key.as_str());
    let mut k: usize = 0;
    assert(all.skip(0) =~= all);
    while k < schema.len()
        invariant
            all == pairs_of(schema@),
            wanted@ == key@,
            k <= schema.len(),
            label_of(all, key@) == label_of(all.skip(k as int), key@),
        decreases schema.len() - k,
    {
        assert(all.skip(k as int).drop_first() =~= all.skip(k + 1));
        assert(all.skip(k as int)[0] == all[k as int]);
        let here = chars_of(schema[k].0.as_str());
        if chars_eq(&here, &wanted) {
            return schema[k].1.clone();
        }
        k = k + 1;
    }
    assert(all.skip(schema.len() as int) =~= Seq::<(Seq<char>, Seq<char>)>::empty());
    key.clone()
}

/// The current diff across the chain, in save-popup form: documents in
/// chain order, each key labelled from the schema (`(key, label)` pairs),
/// a deletion shown as `(removed)`, and the destination given both as the
/// document's label and as its main-first index.
pub fn build_save_entries(
    current: &Vec<ValueMap>,
    saved: &Vec<ValueMap>,
    labels: &Vec<String>,
    schema: &Vec<(String, String)>,
) -> (r: Vec<SaveEntry>)
    requires
        current@.len() <= i32::MAX,
    ensures
        r@.map_values(|e: SaveEntry| entry_view(e)) == chain_entries(
            current@,
            saved@,
            pairs_of(schema@),
            string_views(labels@),
            current@.len() as int,
        ),
{
    let ghost sch = pairs_of(schema@);
    let ghost labs = string_views(labels@);
    let mut out: Vec<SaveEntry> = Vec::new();
    let mut i: usize = 0;
    while i < current.len()
        invariant
            sch == pairs_of(schema@),
            labs == string_views(labels@),
            current@.len() <= i32::MAX,
            i <= current.len(),
            out@.map_values(|e: SaveEntry| entry_view(e)) == chain_entries(current@, saved@, sch, labs, i as int),
        decreases current.len() - i,
    {
        let d = if i < saved.len() {
            diff_against_saved(&current[i], Some(&saved[i]))
        } else {
            diff_against_saved(&current[i], None)
        };
        let ghost dv = diff_view(d@);
        let ghost want = doc_entries(dv, sch, labs, i as int, current.len() - 1);
        let dest_index: i32 = if i == current.len() - 1 { 0 } else { (i + 1) as i32 };
        let dest_label = if i < labels.len() { labels[i].clone() } else { String::new() };
        let ghost before = out@.map_values(|e: SaveEntry| entry_view(e));
        let mut k: usize = 0;
        while k < d.len()
            invariant
                sch == pairs_of(schema@),
                labs == string_views(labels@),
                dv == diff_view(d@),
                want == doc_entries(dv, sch, labs, i as int, current.len() - 1),
                dest_index == (if i == current.len() - 1 { 0 } else { i + 1 }),
                dest_label@ == (if i < labs.len() { labs[i as int] } else { seq![] }),
                k <= d.len(),
                out@.map_values(|e: SaveEntry| entry_view(e)) == before + want.take(k as int),
            decreases d.len() - k,
        {
            let key = d[k].0.clone();
            let label = label_for(schema, &d[k].0);
            let value = match &d[k].1 {
                Some(v) => v.clone(),
                None => owned("(removed)"),
            };
            let entry = SaveEntry { key, label, value, dest_label: dest_label.clone(), dest_index };
            let ghost prev = out@.map_values(|e: SaveEntry| entry_view(e));
            assert(dv[k as int] == (d@[k as int].0@, opt_view(d@[k as int].1)));
            out.push(entry);
            assert(out@.map_values(|e: SaveEntry| entry_view(e)) =~= prev.push(entry_view(entry)));
            k = k + 1;
            assert(out@.map_values(|e: SaveEntry| entry_view(e)) =~= before + want.take(k as int));
        }
        assert(want.take(d.len() as int) =~= want);
        assert(dv.len() == d@.len());
        i = i + 1;
    }
    out
}

/// The save popup lists exactly as many rows as the Save button counts.
pub proof fn lemma_entries_match_count(
    current: Seq<ValueMap>,
    saved: Seq<ValueMap>,
    schema: Seq<(Seq<char>, Seq<char>)>,
    labels: Seq<Seq<char>>,
    n: int,
)
    requires
        0 <= n <= current.len(),
    ensures
        chain_entries(current, saved, schema, labels, n).len() == count_changes(current, saved, n),
    decreases n,
{
    if n > 0 {
        lemma_entries_match_count(current, saved, schema, labels, n - 1);
    }
}

/// With a snapshot for every document, nothing counts as changed exactly
/// when every document's leaves equal its snapshot.
pub proof fn lemma_no_changes_iff_saved(current: Seq<ValueMap>, saved: Seq<ValueMap>, n: int)
    requires
        0 <= n <= current.len(),
        n <= saved.len(),
        forall|i: int| 0 <= i < n ==> (#[trigger] current[i]).inv() && saved[i].inv(),
    ensures
        count_changes(current, saved, n) == 0 <==> forall|i: int|
            0 <= i < n ==> (#[trigger] current[i])@ == saved[i]@,
    decreases n,
{
    if n > 0 {
        lemma_no_changes_iff_saved(current, saved, n - 1);
        crate::common::lemma_diff_empty_iff_unchanged(current[n - 1], saved[n - 1]);
        lemma_count_changes_grows(current, saved, 0, n - 1);
        if count_changes(current, saved, n) == 0 {
            assert forall|i: int| 0 <= i < n implies (#[trigger] current[i])@ == saved[i]@ by {
                if i < n - 1 {
                    assert(current[i]@ == saved[i]@);
                }
            }
        }
    }
}

/// The keys of a diff.
pub open spec fn diff_keys(d: Seq<(Seq<char>, Option<Seq<char>>)>) -> Seq<Seq<char>> {
    d.map_values(|e: (Seq<char>, Option<Seq<char>>)| e.0)
}

/// Every changed key of the first `n` documents, document by document.
pub open spec fn chain_changed_keys(current: Seq<ValueMap>, saved: Seq<ValueMap>, n: int) -> Seq<Seq<char>>
    decreases n,
{
    if n <= 0 {
        seq![]
    } else {
        chain_changed_keys(current, saved, n - 1) + diff_keys(spec_diff(current[n - 1], saved_at(saved, n - 1)))
    }
}

/// The keys "Discard all" resets: every key of every document's diff
/// against its snapshot, in chain order.
pub fn discard_keys(current: &Vec<ValueMap>, saved: &Vec<ValueMap>) -> (r: Vec<String>)
    ensures
        string_views(r@) == chain_changed_keys(current@, saved@, current@.len() as int),
{
    let mut out: Vec<String> = Vec::new();
    let mut i: usize = 0;
    while i < current.len()
        invariant
            i <= current.len(),
            string_views(out@) == chain_changed_keys(current@, saved@, i as int),
        decreases current.len() - i,
    {
        let d = if i < saved.len() {
            diff_against_saved(&current[i], Some(&saved[i]))
        } else {
            diff_against_saved(&current[i], None)
        };
        let ghost dk = diff_keys(diff_view(d@));
        let ghost before = string_views(out@);
        let mut k: usize = 0;
        while k < d.len()
            invariant
                k <= d.len(),
                dk == diff_keys(diff_view(d@)),
                string_views(out@) == before + dk.take(k as int),
            decreases d.len() - k,
        {
            let ghost prev = string_views(out@);
            out.push(d[k].0.clone());
            assert(dk[k as int] == d@[k as int].0@);
            assert(string_views(out@) =~= prev.push(dk[k as int]));
            assert(dk.take(k + 1) =~= dk.take(k as int).push(dk[k as int]));
            k = k + 1;
        }
        assert(dk.take(d.len() as int) =~= dk);
        i = i + 1;
    }
    out
}

/// "Discard all" resets exactly as many keys as the Save button counts.
pub proof fn lemma_discard_matches_count(current: Seq<ValueMap>, saved: Seq<ValueMap>, n: int)
    requires
        0 <= n <= current.len(),
    ensures
        chain_changed_keys(current, saved, n).len() == count_changes(current, saved, n),
    decreases n,
{
    if n > 0 {
        lemma_discard_matches_count(current, saved, n - 1);
    }
}

/// The document that sets `key` last in chain order (its effective home).
pub open spec fn last_setter(sets: Seq<KeySet>, key: Seq<char>) -> Option<int>
    decreases sets.len(),
{
    if sets.len() == 0 {
        None
    } else if sets.last()@.contains(key) {
        Some(sets.len() - 1)
    } else {
        last_setter(sets.drop_last(), key)
    }
}

/// `entry_home`'s answer is the last document that sets the key.
pub proof fn lemma_last_setter(sets: Seq<KeySet>, key: Seq<char>, r: Option<usize>)
    requires
        r is None <==> forall|i: int| 0 <= i < sets.len() ==> !(#[trigger] sets[i])@.contains(key),
        r matches Some(i) ==> i < sets.len() && sets[i as int]@.contains(key) && forall|j: int|
            i < j < sets.len() ==> !(#[trigger] sets[j])@.contains(key),
    ensures
        last_setter(sets, key) == match r {
            Some(i) => Some(i as int),
            None => None::<int>,
        },
    decreases sets.len(),
{
    if sets.len() > 0 {
        let rest = sets.drop_last();
        if sets.last()@.contains(key) {
            assert(sets[sets.len() - 1]@.contains(key));
        } else {
            assert forall|j: int| 0 <= j < rest.len() implies (#[trigger] rest[j]) == sets[j] by {}
            let r2: Option<usize> = match r {
                Some(i) => if i < sets.len() - 1 { Some(i) } else { None },
                None => None,
            };
            match r {
                Some(i) => {
                    assert(i < sets.len() - 1);
                    assert(rest[i as int] == sets[i as int]);
                    assert(rest[i as int]@.contains(key));
                    assert forall|j: int| i < j < rest.len() implies !(#[trigger] rest[j])@.contains(key) by {
                        assert(rest[j] == sets[j]);
                    }
                },
                None => {
                    assert forall|j: int| 0 <= j < rest.len() implies !(#[trigger] rest[j])@.contains(key) by {
                        assert(rest[j] == sets[j]);
                    }
                },
            }
            lemma_last_setter(rest, key, r2);
        }
    }
}

/// One key to move: write `value` into document `to`, then drop the key
/// from document `from`.
pub struct SaveMove {
    pub key: String,
    pub value: String,
    pub from: usize,
    pub to: usize,
}

pub open spec fn move_view(m: SaveMove) -> (Seq<char>, Seq<char>, int, int) {
    (m.key@, m.value@, m.from as int, m.to as int)
}

/// The move an entry asks for: its chosen destination (found among the
/// documents' labels) differs from the key's effective home.
pub open spec fn entry_move(e: SaveEntryView, labels: Seq<Seq<char>>, sets: Seq<KeySet>) -> Option<(Seq<char>, Seq<char>, int, int)> {
    match label_index(labels, e.dest_label) {
        None => None,
        Some(dest) => match last_setter(sets, e.key) {
            None => None,
            Some(home) => if home == dest {
                None
            } else {
                Some((e.key, e.value, home, dest))
            },
        },
    }
}

/// The moves of the first `n` entries, in entry order.
pub open spec fn save_moves(entries: Seq<SaveEntryView>, labels: Seq<Seq<char>>, sets: Seq<KeySet>, n: int) -> Seq<(Seq<char>, Seq<char>, int, int)>
    decreases n,
{
    if n <= 0 {
        seq![]
    } else {
        save_moves(entries, labels, sets, n - 1) + match entry_move(entries[n - 1], labels, sets) {
            Some(m) => seq![m],
            None => seq![],
        }
    }
}

/// The moves the popup's chosen destinations ask for: each entry whose
/// destination label names a document other than the key's effective
/// home. Moving writes the value into the target first, then removes it
/// from the old document, so a value is never lost mid-move.
pub fn save_moves_for(entries: &Vec<SaveEntry>, labels: &Vec<String>, sets: &Vec<KeySet>) -> (r: Vec<SaveMove>)
    ensures
        r@.map_values(|m: SaveMove| move_view(m)) == save_moves(
            entries@.map_values(|e: SaveEntry| entry_view(e)),
            string_views(labels@),
            sets@,
            entries@.len() as int,
        ),
{
    let ghost ev = entries@.map_values(|e: SaveEntry| entry_view(e));
    let ghost lv = string_views(labels@);
    let mut out: Vec<SaveMove> = Vec::new();
    let mut i: usize = 0;
    while i < entries.len()
        invariant
            i <= entries.len(),
            ev == entries@.map_values(|e: SaveEntry| entry_view(e)),
            lv == string_views(labels@),
            out@.map_values(|m: SaveMove| move_view(m)) == save_moves(ev, lv, sets@, i as int),
        decreases entries.len() - i,
    {
        let e = &entries[i];
        assert(ev[i as int] == entry_view(*e));
        let ghost before = out@.map_values(|m: SaveMove| move_view(m));
        if let Some(dest) = label_position(labels, e.dest_label.as_str()) {
            let home = entry_home(sets.as_slice(), e.key.as_str());
            proof {
                lemma_last_setter(sets@, e.key@, home);
            }
            if let Some(h) = home {
                if h != dest {
                    out.push(SaveMove { key: e.key.clone(), value: e.value.clone(), from: h, to: dest });
                    assert(out@.map_values(|m: SaveMove| move_view(m)) =~= before.push((e.key@, e.value@, h as int, dest as int)));
                }
            }
        }
        i = i + 1;
    }
    out
}

/// What umbriel's validation of the saved chain came back with: its
/// diagnostics (`ok` when none of them is an error), or why it could not
/// run.
pub enum Validation {
    Report { messages: Vec<String>, ok: bool },
    Failed(String),
}

/// The validation banner and the status line after saving `files` files:
/// a clean report clears the banner; diagnostics fill it, and the status
/// says whether they were only warnings; a failed run says the save went
/// unvalidated.
pub open spec fn spec_save_verdict(files: nat, messages: Option<(Seq<Seq<char>>, bool)>, failure: Seq<char>) -> (Seq<char>, Seq<char>) {
    let saved = "Saved "@ + decimal(files) + " file(s)"@;
    match messages {
        Some((ms, ok)) => if ms.len() == 0 {
            (seq![], saved + "; umbriel has validated the config."@)
        } else {
            (
                join(ms, "; "@),
                saved + "; "@ + (if ok { "umbriel noted warnings"@ } else { "umbriel has complaints"@ }) + " — see the banner."@,
            )
        },
        None => ("umbriel could not be run: "@ + failure, saved + " without validation."@),
    }
}

pub fn save_verdict(files: usize, validation: &Validation) -> (r: (String, String))
    ensures
        (r.0@, r.1@) == match validation {
            Validation::Report { messages, ok } => spec_save_verdict(files as nat, Some((string_views(messages@), *ok)), seq![]),
            Validation::Failed(e) => spec_save_verdict(files as nat, None, e@),
        },
{
    let mut status: Vec<char> = Vec::new();
    append_str(&mut status, "Saved ");
    let n = decimal_chars(files as u64);
    append_chars(&mut status, &n);
    append_str(&mut status, " file(s)");
    match validation {
        Validation::Report { messages, ok } => {
            if messages.len() == 0 {
                append_str(&mut status, "; umbriel has validated the config.");
                (String::new(), string_of(&status))
            } else {
                let note = join_strings(messages, "; ");
                append_str(&mut status, "; ");
                if *ok {
                    append_str(&mut status, "umbriel noted warnings");
                } else {
                    append_str(&mut status, "umbriel has complaints");
                }
                append_str(&mut status, " — see the banner.");
                (note, string_of(&status))
            }
        },
        Validation::Failed(e) => {
            let mut note: Vec<char> = Vec::new();
            append_str(&mut note, "umbriel could not be run: ");
            append_str(&mut note, e.as_str());
            append_str(&mut status, " without validation.");
            (string_of(&note), string_of(&status))
        },
    }
}

/// The validation line after restoring a backup: empty for a clean
/// report, the diagnostics otherwise, or why validation was skipped.
pub open spec fn spec_restore_validation(messages: Option<Seq<Seq<char>>>, failure: Seq<char>) -> Seq<char> {
    match messages {
        Some(ms) => if ms.len() == 0 {
            seq![]
        } else {
            "umbriel: "@ + join(ms, "; "@) + "."@
        },
        None => "validation skipped ("@ + failure + ")"@,
    }
}

pub fn restore_validation(validation: &Validation) -> (r: String)
    ensures
        r@ == match validation {
            Validation::Report { messages, ok: _ } => spec_restore_validation(Some(string_views(messages@)), seq![]),
            Validation::Failed(e) => spec_restore_validation(None, e@),
        },
{
    match validation {
        Validation::Report { messages, ok: _ } => {
            if messages.len() == 0 {
                String::new()
            } else {
                let mut v = chars_of("umbriel: ");
                let joined = join_strings(messages, "; ");
                append_str(&mut v, joined.as_str());
                append_str(&mut v, ".");
                string_of(&v)
            }
        },
        Validation::Failed(e) => {
            let mut v = chars_of("validation skipped (");
            append_str(&mut v, e.as_str());
            append_str(&mut v, ")");
            string_of(&v)
        },
    }
}

pub open spec fn entries_view(v: Seq<SaveEntry>) -> Seq<SaveEntryView> {
    v.map_values(|e: SaveEntry| entry_view(e))
}

pub open spec fn entry_keys(v: Seq<SaveEntry>) -> Seq<Seq<char>> {
    v.map_values(|e: SaveEntry| e.key@)
}

/// The popup's destination for `key` was chosen: the first row of that
/// key takes the destination's label; nothing else changes.
pub fn choose_destination(entries: &mut Vec<SaveEntry>, key: &str, destination: &str)
    ensures
        match label_index(entry_keys(old(entries)@), key@) {
            Some(i) => entries_view(final(entries)@) == entries_view(old(entries)@).update(
                i,
                SaveEntryView { dest_label: destination@, ..entry_view(old(entries)@[i]) },
            ),
            None => entries_view(final(entries)@) == entries_view(old(entries)@),
        },
{
    let ghost keys = entry_keys(entries@);
    let mut i: usize = 0;
    assert(keys.skip(0) =~= keys);
    while i < entries.len()
        invariant
            i <= entries.len(),
            entries@ == old(entries)@,
            keys == entry_keys(entries@),
            label_index(keys, key@) == match label_index(keys.skip(i as int), key@) {
                Some(k) => Some(k + i),
                None => None::<int>,
            },
        decreases entries.len() - i,
    {
        assert(keys.skip(i as int).drop_first() =~= keys.skip(i + 1));
        assert(keys.skip(i as int)[0] == entries@[i as int].key@);
        if str_eq(entries[i].key.as_str(), key) {
            let e = &entries[i];
            let updated = SaveEntry {
                key: e.key.clone(),
                label: e.label.clone(),
                value: e.value.clone(),
                dest_label: owned(destination),
                dest_index: e.dest_index,
            };
            let ghost before = entries_view(entries@);
            entries.set(i, updated);
            assert(entries_view(entries@) =~= before.update(
                i as int,
                SaveEntryView { dest_label: destination@, ..entry_view(old(entries)@[i as int]) },
            ));
            return;
        }
        i = i + 1;
    }
    assert(keys.skip(entries.len() as int) =~= Seq::<Seq<char>>::empty());
}

} // verus!
