//! Shader page rules: what a preview stands in for, the assignment
//! dropdowns and the "Use for" checklist, keeping the saved baseline in
//! step with a file the page wrote itself, the editor's status lines, and
//! the builder stack's edits.

use vstd::prelude::*;

use crate::common::{prettify, spec_prettify};
use crate::text::{
    append_chars, append_str, chars_eq, chars_of, join, join_chars, join_strings, label_index,
    label_position, last_index, last_index_of, lemma_last_index, owned, slice_chars, str_eq,
    string_of, string_views,
};
use crate::values::{pairs_view, ValueMap};

verus! {

/// What an event's shader animates, for the stand-in frame.
#[derive(Debug, Clone, Copy, PartialEq, Eq, Structural)]
pub enum Target {
    Window,
    Workspace,
    Overview,
    Scratchpad,
    Layer,
    Border,
}

pub open spec fn spec_preview_target(event: Seq<char>) -> Target {
    if event == "workspaces"@ {
        Target::Workspace
    } else if event == "overview"@ {
        Target::Overview
    } else if event == "scratchpad"@ {
        Target::Scratchpad
    } else if event == "layers"@ {
        Target::Layer
    } else if event == "border"@ {
        Target::Border
    } else {
        Target::Window
    }
}

pub fn preview_target(event: &str) -> (t: Target)
    ensures
        t == spec_preview_target(event@),
{
    if str_eq(event, "workspaces") {
        Target::Workspace
    } else if str_eq(event, "overview") {
        Target::Overview
    } else if str_eq(event, "scratchpad") {
        Target::Scratchpad
    } else if str_eq(event, "layers") {
        Target::Layer
    } else if str_eq(event, "border") {
        Target::Border
    } else {
        Target::Window
    }
}

/// The value of the first leaf with key `k`.
pub open spec fn first_leaf(leaves: Seq<(Seq<char>, Seq<char>)>, k: Seq<char>) -> Option<Seq<char>>
    decreases leaves.len(),
{
    if leaves.len() == 0 {
        None
    } else if leaves[0].0 == k {
        Some(leaves[0].1)
    } else {
        first_leaf(leaves.drop_first(), k)
    }
}

/// The baseline after rebasing `k` on leaves read back from disk.
pub open spec fn rebased(saved: Map<Seq<char>, Seq<char>>, k: Seq<char>, leaves: Seq<(Seq<char>, Seq<char>)>) -> Map<Seq<char>, Seq<char>> {
    match first_leaf(leaves, k) {
        Some(v) => saved.insert(k, v),
        None => saved.remove(k),
    }
}

/// Set one key's saved baseline to its value in the file as read back
/// (`on_disk`, the file's leaves as (dotted key, value text)), dropping
/// it when the file no longer has it, leaving every other key alone.
pub fn rebase_saved_key(saved: &mut ValueMap, dotted: &str, on_disk: &Vec<(String, String)>)
    ensures
        final(saved)@ == rebased(old(saved)@, dotted@, pairs_view(on_disk@)),
{
    let ghost leaves = pairs_view(on_disk@);
    let key = chars_of(dotted);
    let mut i: usize = 0;
    assert(leaves.skip(0) =~= leaves);
    while i < on_disk.len()
        invariant
            leaves == pairs_view(on_disk@),
            key@ == dotted@,
            saved@ == old(saved)@,
            i <= on_disk.len(),
            first_leaf(leaves, dotted@) == first_leaf(leaves.skip(i as int), dotted@),
        decreases on_disk.len() - i,
    {
        assert(leaves.skip(i as int).drop_first() =~= leaves.skip(i + 1));
        assert(leaves.skip(i as int)[0] == leaves[i as int]);
        let path = chars_of(on_disk[i].0.as_str());
        if chars_eq(&path, &key) {
            assert(first_leaf(leaves, dotted@) == Some(leaves[i as int].1));
            saved.insert(owned(dotted), on_disk[i].1.clone());
            return;
        }
        i = i + 1;
    }
    assert(leaves.skip(on_disk.len() as int) =~= Seq::<(Seq<char>, Seq<char>)>::empty());
    saved.remove(dotted);
}

/// After a rebase the key's baseline is what the file holds, and every
/// other key keeps its baseline.
pub proof fn lemma_rebase_touches_one_key(
    saved: Map<Seq<char>, Seq<char>>,
    k: Seq<char>,
    leaves: Seq<(Seq<char>, Seq<char>)>,
    other: Seq<char>,
)
    requires
        other != k,
    ensures
        rebased(saved, k, leaves).contains_key(k) <==> first_leaf(leaves, k) is Some,
        first_leaf(leaves, k) matches Some(v) ==> rebased(saved, k, leaves)[k] == v,
        rebased(saved, k, leaves).contains_key(other) == saved.contains_key(other),
        saved.contains_key(other) ==> rebased(saved, k, leaves)[other] == saved[other],
{
}

/// What a pick in an event's shader dropdown does: clear the assignment
/// (the first entry, "(no shader)"), use the library's shader at an
/// index, or nothing (a stale index past the list).
#[derive(Debug, Clone, Copy, PartialEq, Eq, Structural)]
pub enum Pick {
    Clear,
    Use(usize),
    Nothing,
}

/// The pick behind dropdown entry `index` of a list built from a library
/// of `library` shaders.
pub fn assign_pick(index: i32, library: usize) -> (r: Pick)
    ensures
        index == 0 ==> r == Pick::Clear,
        index > 0 && index - 1 < library ==> r == Pick::Use((index - 1) as usize),
        (index < 0 || index - 1 >= library) ==> r == Pick::Nothing,
{
    if index == 0 {
        Pick::Clear
    } else if index < 0 {
        Pick::Nothing
    } else {
        let i = (index - 1) as usize;
        if i < library {
            Pick::Use(i)
        } else {
            Pick::Nothing
        }
    }
}

/// The selected entry of an event's dropdown, whose list is "(no shader)"
/// then the library's `library` shaders: the assigned shader's library
/// entry, else an extra trailing entry for a value outside the library
/// (marked missing when the assignment has a problem), else "(no shader)".
/// Returns the extra entry's label, if one is needed, and the index.
pub open spec fn spec_current_choice(
    position: Option<nat>,
    value: Option<Seq<char>>,
    missing: bool,
    library: nat,
) -> (Option<Seq<char>>, nat) {
    match (position, value) {
        (Some(p), _) => (None, p + 1),
        (None, Some(v)) => (
            Some(if missing { "⚠ "@ + v + " (missing)"@ } else { v + " (outside the library)"@ }),
            library + 1,
        ),
        (None, None) => (None, 0),
    }
}

pub fn current_choice(position: Option<usize>, value: Option<&str>, missing: bool, library: usize) -> (r: (Option<String>, usize))
    requires
        library < usize::MAX,
        position matches Some(p) ==> p < library,
    ensures
        (match r.0 { Some(s) => Some(s@), None => None }, r.1 as nat) == spec_current_choice(
            match position { Some(p) => Some(p as nat), None => None },
            match value { Some(v) => Some(v@), None => None },
            missing,
            library as nat,
        ),
{
    match (position, value) {
        (Some(p), _) => (None, p + 1),
        (None, Some(v)) => {
            let mut label: Vec<char> = Vec::new();
            if missing {
                append_str(&mut label, "⚠ ");
                append_str(&mut label, v);
                append_str(&mut label, " (missing)");
            } else {
                append_str(&mut label, v);
                append_str(&mut label, " (outside the library)");
            }
            (Some(string_of(&label)), library + 1)
        },
        (None, None) => (None, 0),
    }
}

/// `"Windows out, Overview"`: the prettified events, joined.
pub open spec fn spec_used_by(events: Seq<Seq<char>>) -> Seq<char> {
    join(events.map_values(|e: Seq<char>| spec_prettify(e)), ", "@)
}

pub fn used_by(events: &Vec<String>) -> (r: String)
    ensures
        r@ == spec_used_by(string_views(events@)),
{
    let ghost want = string_views(events@).map_values(|e: Seq<char>| spec_prettify(e));
    let mut parts: Vec<Vec<char>> = Vec::new();
    let mut i: usize = 0;
    while i < events.len()
        invariant
            i <= events.len(),
            want == string_views(events@).map_values(|e: Seq<char>| spec_prettify(e)),
            parts@.map_values(|p: Vec<char>| p@) == want.take(i as int),
        decreases events.len() - i,
    {
        let p = prettify(events[i].as_str());
        let pc = chars_of(p.as_str());
        let ghost prev = parts@;
        parts.push(pc);
        assert(parts@ == prev.push(pc));
        assert(want[i as int] == spec_prettify(events@[i as int]@));
        assert(want.take(i + 1) =~= want.take(i as int).push(want[i as int]));
        assert(parts@.map_values(|p: Vec<char>| p@) =~= prev.map_values(|p: Vec<char>| p@).push(pc@));
        i = i + 1;
    }
    assert(want.take(events.len() as int) =~= want);
    let out = join_chars(&parts, ", ");
    string_of(&out)
}

/// The status after deleting a shader: the path, and the events it was
/// cleared from when there were any.
pub open spec fn spec_delete_status(path: Seq<char>, events: Seq<Seq<char>>) -> Seq<char> {
    if events.len() == 0 {
        "Deleted "@ + path + "."@
    } else {
        "Deleted "@ + path + " and cleared it from "@ + spec_used_by(events) + "."@
    }
}

pub fn delete_status(path: &str, events: &Vec<String>) -> (r: String)
    ensures
        r@ == spec_delete_status(path@, string_views(events@)),
{
    let mut out: Vec<char> = Vec::new();
    append_str(&mut out, "Deleted ");
    append_str(&mut out, path);
    if events.len() == 0 {
        append_str(&mut out, ".");
    } else {
        append_str(&mut out, " and cleared it from ");
        let u = used_by(events);
        append_str(&mut out, u.as_str());
        append_str(&mut out, ".");
    }
    string_of(&out)
}

/// One change the "Use for" checklist asks for: event `event` (an index
/// into the events) switches to the shader being saved (`assign`) or is
/// cleared, with the status line's note.
pub struct UseChange {
    pub event: usize,
    pub assign: bool,
    pub note: String,
}

pub open spec fn change_view(c: UseChange) -> (int, bool, Seq<char>) {
    (c.event as int, c.assign, c.note@)
}

/// The changes for the first `n` events: a ticked event that does not use
/// the shader yet switches to it, an unticked one that does is cleared.
/// An event with no checklist row is left alone.
pub open spec fn use_for_changes_upto(
    events: Seq<Seq<char>>,
    uses: Seq<bool>,
    checked: Seq<bool>,
    n: int,
) -> Seq<(int, bool, Seq<char>)>
    decreases n,
{
    if n <= 0 {
        seq![]
    } else {
        let prev = use_for_changes_upto(events, uses, checked, n - 1);
        let i = n - 1;
        if i < checked.len() && checked[i] && !uses[i] {
            prev.push((i, true, "now used for "@ + spec_prettify(events[i])))
        } else if i < checked.len() && !checked[i] && uses[i] {
            prev.push((i, false, "no longer used for "@ + spec_prettify(events[i])))
        } else {
            prev
        }
    }
}

/// Apply the "Use for" checklist to the shader being saved: `uses[i]` says
/// whether event `i` uses it now, `checked[i]` whether its row is ticked.
pub fn use_for_changes(events: &Vec<String>, uses: &Vec<bool>, checked: &Vec<bool>) -> (r: Vec<UseChange>)
    requires
        uses.len() == events.len(),
    ensures
        r@.map_values(|c: UseChange| change_view(c)) == use_for_changes_upto(
            string_views(events@),
            uses@,
            checked@,
            events.len() as int,
        ),
{
    let ghost ev = string_views(events@);
    let mut out: Vec<UseChange> = Vec::new();
    let mut i: usize = 0;
    while i < events.len()
        invariant
            i <= events.len(),
            uses.len() == events.len(),
            ev == string_views(events@),
            out@.map_values(|c: UseChange| change_view(c)) == use_for_changes_upto(ev, uses@, checked@, i as int),
        decreases events.len() - i,
    {
        assert(ev[i as int] == events@[i as int]@);
        if i < checked.len() {
            let ghost before = out@.map_values(|c: UseChange| change_view(c));
            if checked[i] && !uses[i] {
                let mut note = chars_of("now used for ");
                let name = prettify(events[i].as_str());
                append_str(&mut note, name.as_str());
                let c = UseChange { event: i, assign: true, note: string_of(&note) };
                out.push(c);
                assert(out@.map_values(|c: UseChange| change_view(c)) =~= before.push(change_view(c)));
            } else if !checked[i] && uses[i] {
                let mut note = chars_of("no longer used for ");
                let name = prettify(events[i].as_str());
                append_str(&mut note, name.as_str());
                let c = UseChange { event: i, assign: false, note: string_of(&note) };
                out.push(c);
                assert(out@.map_values(|c: UseChange| change_view(c)) =~= before.push(change_view(c)));
            }
        }
        i = i + 1;
    }
    out
}

/// A line of the "Use for" checklist.
pub struct UseRow {
    pub label: String,
    /// What the event uses now: nothing, this shader, or another one by
    /// its library name (else as written).
    pub current: String,
    pub checked: bool,
}

/// The checklist line of `event`. `assigned` is the value its assignment
/// is written as, `uses_this` whether that is the shader being saved,
/// `library_name` the name of the library shader it points at, `editing`
/// whether the editor holds an existing shader (rather than a new or
/// forked one), and `previewed` whether the event is the one being
/// previewed. The line starts ticked when the event uses the shader; a
/// new or forked shader also has the previewed event ticked.
pub open spec fn use_row_matches(
    r: UseRow,
    event: Seq<char>,
    assigned: Option<Seq<char>>,
    uses_this: bool,
    library_name: Option<Seq<char>>,
    editing: bool,
    previewed: bool,
) -> bool {
    let this = assigned is Some && uses_this;
    &&& r.label@ == spec_prettify(event)
    &&& r.current@ == match assigned {
        None => Seq::empty(),
        Some(v) => if uses_this {
            "uses this shader"@
        } else {
            "uses "@ + match library_name {
                Some(n) => n,
                None => v,
            }
        },
    }
    &&& r.checked == (this || (!editing && previewed))
}

pub fn use_row(
    event: &str,
    assigned: Option<&str>,
    uses_this: bool,
    library_name: Option<&str>,
    editing: bool,
    previewed: bool,
) -> (r: UseRow)
    ensures
        use_row_matches(
            r,
            event@,
            match assigned {
                Some(v) => Some(v@),
                None => None,
            },
            uses_this,
            match library_name {
                Some(n) => Some(n@),
                None => None,
            },
            editing,
            previewed,
        ),
{
    let label = prettify(event);
    let (current, this) = match assigned {
        None => (String::new(), false),
        Some(v) => if uses_this {
            (owned("uses this shader"), true)
        } else {
            let mut t = chars_of("uses ");
            match library_name {
                Some(n) => append_str(&mut t, n),
                None => append_str(&mut t, v),
            }
            (string_of(&t), false)
        },
    };
    UseRow { label, current, checked: this || (!editing && previewed) }
}

/// Editing never pre-ticks an event the shader does not already have, so
/// a plain edit-and-save cannot quietly take one over.
pub proof fn lemma_editing_never_pre_ticks(
    r: UseRow,
    event: Seq<char>,
    assigned: Option<Seq<char>>,
    uses_this: bool,
    library_name: Option<Seq<char>>,
    previewed: bool,
)
    requires
        use_row_matches(r, event, assigned, uses_this, library_name, true, previewed),
    ensures
        r.checked ==> assigned is Some && uses_this,
{
}

/// Where pointing an event at a shader, or clearing it, writes.
#[derive(Debug, Clone, Copy, PartialEq, Eq, Structural)]
pub enum AssignTarget {
    /// Edit the assignment in the document that holds it.
    Existing(usize),
    /// A brand-new assignment: start it beside the other assignments.
    NewHome,
    /// Remove the assignment from the document that holds it.
    Remove(usize),
    /// Nothing to clear.
    Nothing,
}

/// `shader` says whether the event is pointed at a shader (else cleared),
/// `home` which document holds its assignment now.
pub fn assign_target(shader: bool, home: Option<usize>) -> (r: AssignTarget)
    ensures
        r == if shader {
            match home {
                Some(h) => AssignTarget::Existing(h),
                None => AssignTarget::NewHome,
            }
        } else {
            match home {
                Some(h) => AssignTarget::Remove(h),
                None => AssignTarget::Nothing,
            }
        },
{
    match (shader, home) {
        (true, Some(h)) => AssignTarget::Existing(h),
        (true, None) => AssignTarget::NewHome,
        (false, Some(h)) => AssignTarget::Remove(h),
        (false, None) => AssignTarget::Nothing,
    }
}

/// The event a freshly opened shader previews as: the first event it is
/// assigned to, by its position among the events, else the first event.
pub open spec fn spec_preview_event(events: Seq<Seq<char>>, assigned: Seq<Seq<char>>) -> int {
    if assigned.len() > 0 {
        match label_index(events, assigned[0]) {
            Some(i) => i,
            None => 0,
        }
    } else {
        0
    }
}

pub fn preview_event(events: &Vec<String>, assigned: &Vec<String>) -> (r: usize)
    ensures
        r as int == spec_preview_event(string_views(events@), string_views(assigned@)),
{
    if assigned.len() > 0 {
        match label_position(events, assigned[0].as_str()) {
            Some(i) => i,
            None => 0,
        }
    } else {
        0
    }
}

/// The use event `i` is left with once `changes` are applied in order:
/// the last change for it, else its use before.
pub open spec fn applied_use(changes: Seq<(int, bool, Seq<char>)>, uses: Seq<bool>, i: int) -> bool
    decreases changes.len(),
{
    if changes.len() == 0 {
        uses[i]
    } else if changes.last().0 == i {
        changes.last().1
    } else {
        applied_use(changes.drop_last(), uses, i)
    }
}

proof fn lemma_applied_upto(events: Seq<Seq<char>>, uses: Seq<bool>, checked: Seq<bool>, n: int, i: int)
    requires
        0 <= n,
        0 <= i,
    ensures
        applied_use(use_for_changes_upto(events, uses, checked, n), uses, i) == if i < n && i < checked.len() {
            checked[i]
        } else {
            uses[i]
        },
    decreases n,
{
    if n > 0 {
        lemma_applied_upto(events, uses, checked, n - 1, i);
        let prev = use_for_changes_upto(events, uses, checked, n - 1);
        let k = n - 1;
        if k < checked.len() && checked[k] && !uses[k] {
            let all = prev.push((k, true, "now used for "@ + spec_prettify(events[k])));
            assert(all.drop_last() =~= prev);
        } else if k < checked.len() && !checked[k] && uses[k] {
            let all = prev.push((k, false, "no longer used for "@ + spec_prettify(events[k])));
            assert(all.drop_last() =~= prev);
        }
    }
}

/// Once the "Use for" checklist is applied, every event with a row uses
/// the shader exactly when its row is ticked; an event without a row
/// keeps what it used.
pub proof fn lemma_use_for_settles(events: Seq<Seq<char>>, uses: Seq<bool>, checked: Seq<bool>, i: int)
    requires
        0 <= i < events.len(),
    ensures
        applied_use(use_for_changes_upto(events, uses, checked, events.len() as int), uses, i) == if i < checked.len() {
            checked[i]
        } else {
            uses[i]
        },
{
    lemma_applied_upto(events, uses, checked, events.len() as int, i);
}

/// The status line after saving the editor's shader at `path`: created,
/// saved under a new name with the events that follow it, or saved in
/// place; then what the "Use for" step changed, still to be saved.
pub open spec fn spec_save_status(
    path: Seq<char>,
    creating: bool,
    renamed: Seq<Seq<char>>,
    changes: Seq<Seq<char>>,
) -> Seq<char> {
    let head = if creating {
        "Created "@ + path + "."@
    } else if renamed.len() > 0 {
        "Saved as "@ + path + " and pointed "@ + spec_used_by(renamed) + " at it."@
    } else {
        "Saved "@ + path + " \u{2014} umbriel live-reloads it."@
    };
    if changes.len() > 0 {
        head + " "@ + join(changes, ", "@) + ": save your config to apply."@
    } else {
        head
    }
}

/// `renamed` are the events repointed at the renamed file, `changes` the
/// "Use for" notes.
pub fn save_status(path: &str, creating: bool, renamed: &Vec<String>, changes: &Vec<String>) -> (r: String)
    ensures
        r@ == spec_save_status(path@, creating, string_views(renamed@), string_views(changes@)),
{
    let mut out: Vec<char> = Vec::new();
    if creating {
        append_str(&mut out, "Created ");
        append_str(&mut out, path);
        append_str(&mut out, ".");
    } else if renamed.len() > 0 {
        append_str(&mut out, "Saved as ");
        append_str(&mut out, path);
        append_str(&mut out, " and pointed ");
        let events = used_by(renamed);
        append_str(&mut out, events.as_str());
        append_str(&mut out, " at it.");
    } else {
        append_str(&mut out, "Saved ");
        append_str(&mut out, path);
        append_str(&mut out, " \u{2014} umbriel live-reloads it.");
    }
    if changes.len() > 0 {
        append_str(&mut out, " ");
        let joined = join_strings(changes, ", ");
        append_str(&mut out, joined.as_str());
        append_str(&mut out, ": save your config to apply.");
    }
    string_of(&out)
}

/// The editor holds unsaved work when its code or name differs from what
/// was loaded or last saved; closing then asks first.
pub fn editor_unsaved(text: &str, baseline: &str, name: &str, baseline_name: &str) -> (r: bool)
    ensures
        r == (text@ != baseline@ || name@ != baseline_name@),
{
    !str_eq(text, baseline) || !str_eq(name, baseline_name)
}

/// The event an assignment dropdown's key names: the part before its last
/// dot (`animation.windows_in.shader` names `windows_in`).
pub open spec fn spec_assign_event(key: Seq<char>) -> Option<Seq<char>> {
    let last = last_index(key, '.');
    if last < 0 {
        None
    } else {
        let rest = key.take(last);
        Some(rest.skip(last_index(rest, '.') + 1))
    }
}

pub fn assign_event_of(key: &str) -> (r: Option<String>)
    ensures
        match r {
            Some(e) => spec_assign_event(key@) == Some(e@),
            None => spec_assign_event(key@) is None,
        },
{
    let v = chars_of(key);
    proof {
        lemma_last_index(v@, '.');
    }
    match last_index_of(&v, '.') {
        None => None,
        Some(last) => {
            let rest = slice_chars(&v, 0, last);
            proof {
                lemma_last_index(rest@, '.');
            }
            let start = match last_index_of(&rest, '.') {
                Some(i) => i + 1,
                None => 0,
            };
            Some(string_of(&slice_chars(&rest, start, rest.len())))
        },
    }
}

/// Remove step `index` of the builder stack; an index past the end (or
/// negative) changes nothing.
pub fn remove_step<T>(steps: &mut Vec<T>, index: i32)
    ensures
        0 <= index < old(steps)@.len() ==> final(steps)@ == old(steps)@.remove(index as int),
        !(0 <= index < old(steps)@.len()) ==> final(steps)@ == old(steps)@,
{
    if index >= 0 && (index as usize) < steps.len() {
        steps.remove(index as usize);
    }
}

/// Where moving step `index` by `delta` lands: the sum, saturated at zero.
pub open spec fn move_target(index: int, delta: int) -> int {
    if index + delta < 0 {
        0
    } else {
        index + delta
    }
}

/// Move step `index` by `delta` places, swapping it with the step there;
/// a target past the end (or a negative index) changes nothing.
pub fn move_step<T>(steps: &mut Vec<T>, index: i32, delta: i32)
    requires
        index >= 0 && move_target(index as int, delta as int) < old(steps)@.len() ==> index < old(steps)@.len(),
    ensures
        index >= 0 && move_target(index as int, delta as int) < old(steps)@.len() ==> final(steps)@ == old(steps)@.update(
            index as int,
            old(steps)@[move_target(index as int, delta as int)],
        ).update(move_target(index as int, delta as int), old(steps)@[index as int]),
        !(index >= 0 && move_target(index as int, delta as int) < old(steps)@.len()) ==> final(steps)@ == old(steps)@,
{
    if index < 0 {
        return;
    }
    let from = index as usize;
    let sum: i64 = index as i64 + delta as i64;
    let to: usize = if sum < 0 {
        0
    } else {
        sum as usize
    };
    if to >= steps.len() {
        return;
    }
    if from == to {
        proof {
            assert(old(steps)@.update(from as int, old(steps)@[to as int]).update(to as int, old(steps)@[from as int]) =~= old(steps)@);
        }
        return;
    }
    let (a, b) = if from < to {
        (from, to)
    } else {
        (to, from)
    };
    let ghost before = steps@;
    let x = steps.remove(b);
    let y = steps.remove(a);
    steps.insert(a, x);
    steps.insert(b, y);
    assert(steps@ =~= before.update(a as int, before[b as int]).update(b as int, before[a as int]));
    assert(before.update(a as int, before[b as int]).update(b as int, before[a as int]) =~= before.update(
        from as int,
        before[to as int],
    ).update(to as int, before[from as int]));
}

/// The editor's note once typing settles: the lint problems after a
/// warning sign, or nothing.
pub fn lint_note(problems: &Vec<String>) -> (r: String)
    ensures
        r@ == if problems.len() == 0 {
            Seq::empty()
        } else {
            "\u{26a0} "@ + join(string_views(problems@), "; "@)
        },
{
    if problems.len() == 0 {
        String::new()
    } else {
        let mut v = chars_of("\u{26a0} ");
        let joined = join_strings(problems, "; ");
        append_str(&mut v, joined.as_str());
        string_of(&v)
    }
}

/// The events whose assignment resolves to library entry `entry`, in
/// event order; `assigned[i]` is the library position event `i` points
/// at, if any.
pub open spec fn events_using_upto(events: Seq<Seq<char>>, assigned: Seq<Option<usize>>, entry: usize, n: int) -> Seq<Seq<char>>
    decreases n,
{
    if n <= 0 {
        seq![]
    } else if assigned[n - 1] == Some(entry) {
        events_using_upto(events, assigned, entry, n - 1).push(events[n - 1])
    } else {
        events_using_upto(events, assigned, entry, n - 1)
    }
}

pub fn events_using(events: &Vec<String>, assigned: &Vec<Option<usize>>, entry: usize) -> (r: Vec<String>)
    requires
        assigned.len() == events.len(),
    ensures
        string_views(r@) == events_using_upto(string_views(events@), assigned@, entry, events.len() as int),
{
    let ghost ev = string_views(events@);
    let mut out: Vec<String> = Vec::new();
    let mut i: usize = 0;
    while i < events.len()
        invariant
            i <= events.len(),
            assigned.len() == events.len(),
            ev == string_views(events@),
            string_views(out@) == events_using_upto(ev, assigned@, entry, i as int),
        decreases events.len() - i,
    {
        if assigned[i] == Some(entry) {
            let ghost before = string_views(out@);
            let e = events[i].clone();
            out.push(e);
            assert(string_views(out@) =~= before.push(ev[i as int]));
        }
        i = i + 1;
    }
    out
}

/// The key of an event's shader assignment.
pub fn assignment_key(event: &str) -> (r: String)
    ensures
        r@ == "animation."@ + event@ + ".shader"@,
{
    let mut v = chars_of("animation.");
    append_str(&mut v, event);
    append_str(&mut v, ".shader");
    string_of(&v)
}

} // verus!
