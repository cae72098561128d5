//! The Keybinds page listing: the user's binds merged with umbriel's
//! defaults, filtered by the search and the user/default filter, ordered
//! by group then chord, and laid out under collapsible group headers.

use vstd::prelude::*;

use crate::keys::{compare_keys, key_lt, KeyOrder};
use crate::text::{
    append_str, ascii_lower, chars_of, contains_chars, contains_seq, has_string, owned, str_eq,
    str_lowercase, str_uppercase, string_of, string_views, to_lowercase, to_uppercase, trim,
    trim_str,
};

verus! {

/// One of the user's binds, merged across the chain, as the listing reads
/// it: its group, its row summary and extras, the chain document it comes
/// from, and whether it answers a recorded-keys search.
pub struct UserBind {
    pub chord: String,
    pub family: String,
    pub summary: String,
    pub is_command: bool,
    pub extras: String,
    pub file: usize,
    pub exact: bool,
}

/// One of umbriel's default binds, as the listing reads it.
pub struct DefaultBind {
    pub chord: String,
    pub family: String,
    pub summary: String,
    pub is_command: bool,
    pub exact: bool,
}

/// What the listing shows: the search text, whether it came from recording
/// keys (then binds match by key), and the filter (1: only the user's
/// binds, 2: only the defaults, else both).
pub struct KeybindQuery {
    pub search: String,
    pub exact: bool,
    pub filter: i32,
}

/// One row of the listing: a group header (its name in capitals, whether
/// it is open, how many binds it has) or a bind.
pub struct KeybindRow {
    pub chord: String,
    pub summary: String,
    pub extras: String,
    pub source: String,
    pub is_user: bool,
    pub shadowing: bool,
    pub is_command: bool,
    pub is_header: bool,
    pub expanded: bool,
    pub count: usize,
    pub index: i32,
}

pub struct RowView {
    pub chord: Seq<char>,
    pub summary: Seq<char>,
    pub extras: Seq<char>,
    pub source: Seq<char>,
    pub is_user: bool,
    pub shadowing: bool,
    pub is_command: bool,
    pub is_header: bool,
    pub expanded: bool,
    pub count: nat,
    pub index: int,
}

pub open spec fn row_view(r: KeybindRow) -> RowView {
    RowView {
        chord: r.chord@,
        summary: r.summary@,
        extras: r.extras@,
        source: r.source@,
        is_user: r.is_user,
        shadowing: r.shadowing,
        is_command: r.is_command,
        is_header: r.is_header,
        expanded: r.expanded,
        count: r.count as nat,
        index: r.index as int,
    }
}

pub open spec fn rows_view(v: Seq<KeybindRow>) -> Seq<RowView> {
    v.map_values(|r: KeybindRow| row_view(r))
}

/// A candidate row before filtering and ordering.
pub struct EntryView {
    pub family: Seq<char>,
    pub chord: Seq<char>,
    pub summary: Seq<char>,
    pub is_command: bool,
    pub extras: Seq<char>,
    pub source: Seq<char>,
    pub is_user: bool,
    pub shadowing: bool,
    pub bind: int,
    pub exact: bool,
    pub rank: int,
}

/// `str::eq_ignore_ascii_case`.
pub open spec fn eq_ascii_ci(a: Seq<char>, b: Seq<char>) -> bool {
    a.len() == b.len() && forall|i: int| 0 <= i < a.len() ==> ascii_lower(#[trigger] a[i]) == ascii_lower(b[i])
}

/// Some chord of `chords` equals `c` up to ASCII case.
pub open spec fn any_ci(chords: Seq<Seq<char>>, c: Seq<char>) -> bool {
    exists|i: int| 0 <= i < chords.len() && eq_ascii_ci(#[trigger] chords[i], c)
}

/// A group's place in the listing: its index in the known order, after all
/// of them when unknown.
pub open spec fn rank_of(order: Seq<Seq<char>>, family: Seq<char>) -> int
    decreases order.len(),
{
    if order.len() == 0 {
        0
    } else if order[0] == family {
        0
    } else {
        rank_of(order.drop_first(), family) + 1
    }
}

pub open spec fn user_chords(binds: Seq<UserBind>) -> Seq<Seq<char>> {
    binds.map_values(|b: UserBind| b.chord@)
}

pub open spec fn default_chords(defaults: Seq<DefaultBind>) -> Seq<Seq<char>> {
    defaults.map_values(|d: DefaultBind| d.chord@)
}

/// The user's binds come from more than one document.
pub open spec fn multi_file(binds: Seq<UserBind>) -> bool {
    exists|i: int, j: int| 0 <= i < binds.len() && 0 <= j < binds.len() && #[trigger] binds[i].file != #[trigger] binds[j].file
}

/// The file name of chain document `file`: an include's, else the main
/// file's (the last name).
pub open spec fn source_name(names: Seq<Seq<char>>, file: int) -> Seq<char> {
    if file < names.len() - 1 {
        names[file]
    } else {
        names.last()
    }
}

/// A user bind's candidate row: it shadows a default of the same chord (up
/// to ASCII case), which its extras then say; its source is named only
/// when binds come from more than one document.
pub open spec fn user_entry(
    b: UserBind,
    i: int,
    defaults: Seq<DefaultBind>,
    order: Seq<Seq<char>>,
    names: Seq<Seq<char>>,
    multi: bool,
) -> EntryView {
    let shadowing = any_ci(default_chords(defaults), b.chord@);
    EntryView {
        family: b.family@,
        chord: b.chord@,
        summary: b.summary@,
        is_command: b.is_command,
        extras: if shadowing {
            if b.extras@.len() > 0 {
                b.extras@ + " · replaces default"@
            } else {
                "replaces default"@
            }
        } else {
            b.extras@
        },
        source: if multi { source_name(names, b.file as int) } else { seq![] },
        is_user: true,
        shadowing,
        bind: i,
        exact: b.exact,
        rank: rank_of(order, b.family@),
    }
}

pub open spec fn user_entries(
    binds: Seq<UserBind>,
    defaults: Seq<DefaultBind>,
    order: Seq<Seq<char>>,
    names: Seq<Seq<char>>,
) -> Seq<EntryView> {
    Seq::new(binds.len(), |i: int| user_entry(binds[i], i, defaults, order, names, multi_file(binds)))
}

pub open spec fn default_entry(d: DefaultBind, order: Seq<Seq<char>>) -> EntryView {
    EntryView {
        family: d.family@,
        chord: d.chord@,
        summary: d.summary@,
        is_command: d.is_command,
        extras: seq![],
        source: seq![],
        is_user: false,
        shadowing: false,
        bind: -1,
        exact: d.exact,
        rank: rank_of(order, d.family@),
    }
}

/// The defaults no user bind shadows, in order.
pub open spec fn default_entries(defaults: Seq<DefaultBind>, users: Seq<Seq<char>>, order: Seq<Seq<char>>) -> Seq<EntryView>
    decreases defaults.len(),
{
    if defaults.len() == 0 {
        seq![]
    } else if any_ci(users, defaults.last().chord@) {
        default_entries(defaults.drop_last(), users, order)
    } else {
        default_entries(defaults.drop_last(), users, order).push(default_entry(defaults.last(), order))
    }
}

/// The candidates the filter lets through: the user's binds unless only
/// defaults are asked for, then the unshadowed defaults unless only the
/// user's binds are.
pub open spec fn candidates(
    binds: Seq<UserBind>,
    defaults: Seq<DefaultBind>,
    order: Seq<Seq<char>>,
    names: Seq<Seq<char>>,
    filter: i32,
) -> Seq<EntryView> {
    (if filter != 2 { user_entries(binds, defaults, order, names) } else { seq![] }) + (if filter != 1 {
        default_entries(defaults, user_chords(binds), order)
    } else {
        seq![]
    })
}

/// Whether a candidate answers the search (`search` lower-cased): by key
/// for a recorded search, else by chord or summary text, or always when
/// the search is empty.
pub open spec fn answers(e: EntryView, search: Seq<char>, exact: bool) -> bool {
    if exact {
        e.exact
    } else {
        search.len() == 0 || contains_seq(str_lowercase(e.chord), search) || contains_seq(
            str_lowercase(e.summary),
            search,
        )
    }
}

pub open spec fn kept(es: Seq<EntryView>, search: Seq<char>, exact: bool) -> Seq<EntryView>
    decreases es.len(),
{
    if es.len() == 0 {
        seq![]
    } else if answers(es.last(), search, exact) {
        kept(es.drop_last(), search, exact).push(es.last())
    } else {
        kept(es.drop_last(), search, exact)
    }
}

/// The listing order: group rank, then chord.
pub open spec fn entry_lt(a: EntryView, b: EntryView) -> bool {
    a.rank < b.rank || (a.rank == b.rank && key_lt(a.chord, b.chord))
}

/// Where `x` goes in an ordered listing: before the first row that
/// sorts after it, so equal rows keep their order.
pub open spec fn insert_pos(s: Seq<EntryView>, x: EntryView) -> int
    decreases s.len(),
{
    if s.len() == 0 {
        0
    } else if entry_lt(x, s[0]) {
        0
    } else {
        1 + insert_pos(s.drop_first(), x)
    }
}

/// The stable sort of the candidates by group rank, then chord.
pub open spec fn ordered(s: Seq<EntryView>) -> Seq<EntryView>
    decreases s.len(),
{
    if s.len() == 0 {
        seq![]
    } else {
        let t = ordered(s.drop_last());
        t.insert(insert_pos(t, s.last()), s.last())
    }
}

/// How many rows of the listing are in `family`.
pub open spec fn family_count(s: Seq<EntryView>, family: Seq<char>) -> nat
    decreases s.len(),
{
    if s.len() == 0 {
        0
    } else {
        family_count(s.drop_last(), family) + if s.last().family == family { 1nat } else { 0nat }
    }
}

pub open spec fn group_open(family: Seq<char>, searching: bool, collapsed: Seq<Seq<char>>) -> bool {
    searching || !collapsed.contains(family)
}

pub open spec fn header_view(e: EntryView, count: nat, expanded: bool) -> RowView {
    RowView {
        chord: str_uppercase(e.family),
        summary: seq![],
        extras: seq![],
        source: seq![],
        is_user: false,
        shadowing: false,
        is_command: false,
        is_header: true,
        expanded,
        count,
        index: -1,
    }
}

pub open spec fn bind_view(e: EntryView) -> RowView {
    RowView {
        chord: e.chord,
        summary: e.summary,
        extras: e.extras,
        source: e.source,
        is_user: e.is_user,
        shadowing: e.shadowing,
        is_command: e.is_command,
        is_header: false,
        expanded: false,
        count: 0,
        index: e.bind,
    }
}

/// The rows of the first `k` ordered entries: each group opens with its
/// header (with its size); an entry shows when its group is open (a
/// search opens every group).
pub open spec fn rows_upto(s: Seq<EntryView>, k: int, searching: bool, collapsed: Seq<Seq<char>>) -> Seq<RowView>
    decreases k,
{
    if k <= 0 {
        seq![]
    } else {
        let e = s[k - 1];
        let open = group_open(e.family, searching, collapsed);
        rows_upto(s, k - 1, searching, collapsed) + (if k - 1 == 0 || s[k - 2].family != e.family {
            seq![header_view(e, family_count(s, e.family), open)]
        } else {
            seq![]
        }) + (if open { seq![bind_view(e)] } else { seq![] })
    }
}

/// The listing for a query: the candidates that answer the trimmed,
/// lower-cased search, in group then chord order, under their headers.
pub open spec fn spec_keybind_rows(
    binds: Seq<UserBind>,
    defaults: Seq<DefaultBind>,
    names: Seq<Seq<char>>,
    search: Seq<char>,
    exact: bool,
    filter: i32,
    order: Seq<Seq<char>>,
    collapsed: Seq<Seq<char>>,
) -> Seq<RowView> {
    let lowered = str_lowercase(trim(search));
    let s = ordered(kept(candidates(binds, defaults, order, names, filter), lowered, exact));
    rows_upto(s, s.len() as int, lowered.len() > 0, collapsed)
}

/// The note above the listing: the user's file is named when all their
/// binds come from one.
pub open spec fn spec_list_note(binds: Seq<UserBind>, names: Seq<Seq<char>>) -> Seq<char> {
    if binds.len() > 0 && !multi_file(binds) {
        "Bold keys are yours (in "@ + source_name(names, binds[0].file as int)
            + "); grey ones are Umbriel's defaults. Click a row to change it."@
    } else {
        "Bold keys are yours; grey ones are Umbriel's defaults. Click a row to change it."@
    }
}

// ---------------------------------------------------------------------
// The pieces.
// ---------------------------------------------------------------------

/// `str::eq_ignore_ascii_case`.
pub fn eq_ignore_ascii_case(a: &str, b: &str) -> (r: bool)
    ensures
        r == eq_ascii_ci(a@, b@),
{
    let x = chars_of(a);
    let y = chars_of(b);
    if x.len() != y.len() {
        return false;
    }
    let mut i: usize = 0;
    while i < x.len()
        invariant
            x@ == a@,
            y@ == b@,
            x.len() == y.len(),
            i <= x.len(),
            forall|j: int| 0 <= j < i ==> ascii_lower(#[trigger] x@[j]) == ascii_lower(y@[j]),
        decreases x.len() - i,
    {
        if crate::text::to_ascii_lower(x[i]) != crate::text::to_ascii_lower(y[i]) {
            return false;
        }
        i = i + 1;
    }
    true
}

fn any_chord_ci(chords: &Vec<String>, c: &str, Ghost(views): Ghost<Seq<Seq<char>>>) -> (r: bool)
    requires
        views == string_views(chords@),
    ensures
        r == any_ci(views, c@),
{
    let mut i: usize = 0;
    while i < chords.len()
        invariant
            i <= chords.len(),
            views == string_views(chords@),
            forall|j: int| 0 <= j < i ==> !eq_ascii_ci(#[trigger] views[j], c@),
        decreases chords.len() - i,
    {
        if eq_ignore_ascii_case(chords[i].as_str(), c) {
            assert(eq_ascii_ci(views[i as int], c@));
            return true;
        }
        i = i + 1;
    }
    false
}

fn rank_in(order: &Vec<String>, family: &str) -> (r: usize)
    ensures
        r as int == rank_of(string_views(order@), family@),
{
    let ghost ov = string_views(order@);
    let mut i: usize = 0;
    assert(ov.skip(0) =~= ov);
    while i < order.len()
        invariant
            i <= order.len(),
            ov == string_views(order@),
            rank_of(ov, family@) == rank_of(ov.skip(i as int), family@) + i,
        decreases order.len() - i,
    {
        assert(ov.skip(i as int).drop_first() =~= ov.skip(i + 1));
        assert(ov.skip(i as int)[0] == order@[i as int]@);
        if str_eq(order[i].as_str(), family) {
            return i;
        }
        i = i + 1;
    }
    assert(ov.skip(order.len() as int) =~= Seq::<Seq<char>>::empty());
    order.len()
}

/// Working form of a candidate.
struct Entry {
    family: String,
    chord: String,
    summary: String,
    is_command: bool,
    extras: String,
    source: String,
    is_user: bool,
    shadowing: bool,
    bind: i32,
    exact: bool,
    rank: usize,
}

spec fn entry_view(e: Entry) -> EntryView {
    EntryView {
        family: e.family@,
        chord: e.chord@,
        summary: e.summary@,
        is_command: e.is_command,
        extras: e.extras@,
        source: e.source@,
        is_user: e.is_user,
        shadowing: e.shadowing,
        bind: e.bind as int,
        exact: e.exact,
        rank: e.rank as int,
    }
}

spec fn entries_view(v: Seq<Entry>) -> Seq<EntryView> {
    v.map_values(|e: Entry| entry_view(e))
}

/// Whether two binds of the list come from different documents.
fn any_other_file(binds: &Vec<UserBind>) -> (r: bool)
    ensures
        r == multi_file(binds@),
{
    if binds.len() == 0 {
        return false;
    }
    let first = binds[0].file;
    let mut i: usize = 1;
    while i < binds.len()
        invariant
            1 <= i <= binds.len(),
            first == binds@[0].file,
            forall|j: int| 0 <= j < i ==> #[trigger] binds@[j].file == first,
        decreases binds.len() - i,
    {
        if binds[i].file != first {
            assert(binds@[i as int].file != binds@[0].file);
            return true;
        }
        i = i + 1;
    }
    assert forall|a: int, b: int| 0 <= a < binds.len() && 0 <= b < binds.len() implies #[trigger] binds@[a].file == #[trigger] binds@[b].file by {}
    false
}

fn name_of(names: &Vec<String>, file: usize) -> (r: String)
    requires
        names.len() > 0,
    ensures
        r@ == source_name(string_views(names@), file as int),
{
    if file < names.len() - 1 {
        names[file].clone()
    } else {
        names[names.len() - 1].clone()
    }
}

fn candidate_entries(
    binds: &Vec<UserBind>,
    defaults: &Vec<DefaultBind>,
    names: &Vec<String>,
    order: &Vec<String>,
    filter: i32,
) -> (r: Vec<Entry>)
    requires
        names.len() > 0,
        binds.len() <= i32::MAX,
    ensures
        entries_view(r@) == candidates(
            binds@,
            defaults@,
            string_views(order@),
            string_views(names@),
            filter,
        ),
{
    let ghost ov = string_views(order@);
    let ghost nv = string_views(names@);
    let mut dchords: Vec<String> = Vec::new();
    let mut k: usize = 0;
    while k < defaults.len()
        invariant
            k <= defaults.len(),
            string_views(dchords@) == default_chords(defaults@).take(k as int),
        decreases defaults.len() - k,
    {
        let ghost prev = dchords@;
        dchords.push(defaults[k].chord.clone());
        assert(string_views(dchords@) =~= string_views(prev).push(defaults@[k as int].chord@));
        assert(default_chords(defaults@).take(k + 1) =~= default_chords(defaults@).take(k as int).push(defaults@[k as int].chord@));
        k = k + 1;
    }
    assert(default_chords(defaults@).take(defaults.len() as int) =~= default_chords(defaults@));
    let mut uchords: Vec<String> = Vec::new();
    let mut k: usize = 0;
    while k < binds.len()
        invariant
            k <= binds.len(),
            string_views(uchords@) == user_chords(binds@).take(k as int),
        decreases binds.len() - k,
    {
        let ghost prev = uchords@;
        uchords.push(binds[k].chord.clone());
        assert(string_views(uchords@) =~= string_views(prev).push(binds@[k as int].chord@));
        assert(user_chords(binds@).take(k + 1) =~= user_chords(binds@).take(k as int).push(binds@[k as int].chord@));
        k = k + 1;
    }
    assert(user_chords(binds@).take(binds.len() as int) =~= user_chords(binds@));
    let multi = any_other_file(binds);
    let mut out: Vec<Entry> = Vec::new();
    if filter != 2 {
        let ghost want = user_entries(binds@, defaults@, ov, nv);
        let mut i: usize = 0;
        while i < binds.len()
            invariant
                i <= binds.len(),
                binds.len() <= i32::MAX,
                names.len() > 0,
                ov == string_views(order@),
                nv == string_views(names@),
                multi == multi_file(binds@),
                string_views(dchords@) == default_chords(defaults@),
                want == user_entries(binds@, defaults@, ov, nv),
                entries_view(out@) == want.take(i as int),
            decreases binds.len() - i,
        {
            let b = &binds[i];
            let shadowing = any_chord_ci(&dchords, b.chord.as_str(), Ghost(default_chords(defaults@)));
            let extras = if shadowing {
                let bx = chars_of(b.extras.as_str());
                if bx.len() > 0 {
                    let mut x: Vec<char> = bx;
                    append_str(&mut x, " · replaces default");
                    string_of(&x)
                } else {
                    owned("replaces default")
                }
            } else {
                b.extras.clone()
            };
            let source = if multi { name_of(names, b.file) } else { String::new() };
            let e = Entry {
                family: b.family.clone(),
                chord: b.chord.clone(),
                summary: b.summary.clone(),
                is_command: b.is_command,
                extras,
                source,
                is_user: true,
                shadowing,
                bind: i as i32,
                exact: b.exact,
                rank: rank_in(order, b.family.as_str()),
            };
            let ghost prev = entries_view(out@);
            out.push(e);
            assert(entries_view(out@) =~= prev.push(entry_view(e)));
            assert(want.take(i + 1) =~= want.take(i as int).push(want[i as int]));
            i = i + 1;
        }
        assert(want.take(binds.len() as int) =~= want);
    }
    let ghost lead = entries_view(out@);
    if filter != 1 {
        let ghost uv = user_chords(binds@);
        let mut k: usize = 0;
        assert(defaults@.take(0) =~= Seq::<DefaultBind>::empty());
        while k < defaults.len()
            invariant
                k <= defaults.len(),
                ov == string_views(order@),
                string_views(uchords@) == uv,
                uv == user_chords(binds@),
                entries_view(out@) == lead + default_entries(defaults@.take(k as int), uv, ov),
            decreases defaults.len() - k,
        {
            assert(defaults@.take(k + 1).drop_last() =~= defaults@.take(k as int));
            let d = &defaults[k];
            if !any_chord_ci(&uchords, d.chord.as_str(), Ghost(uv)) {
                let e = Entry {
                    family: d.family.clone(),
                    chord: d.chord.clone(),
                    summary: d.summary.clone(),
                    is_command: d.is_command,
                    extras: String::new(),
                    source: String::new(),
                    is_user: false,
                    shadowing: false,
                    bind: -1,
                    exact: d.exact,
                    rank: rank_in(order, d.family.as_str()),
                };
                let ghost prev = entries_view(out@);
                out.push(e);
                assert(entries_view(out@) =~= prev.push(entry_view(e)));
                assert(entry_view(e) == default_entry(defaults@[k as int], ov));
            }
            k = k + 1;
        }
        assert(defaults@.take(defaults.len() as int) =~= defaults@);
    }
    out
}

fn copy_entry(e: &Entry) -> (r: Entry)
    ensures
        entry_view(r) == entry_view(*e),
{
    Entry {
        family: e.family.clone(),
        chord: e.chord.clone(),
        summary: e.summary.clone(),
        is_command: e.is_command,
        extras: e.extras.clone(),
        source: e.source.clone(),
        is_user: e.is_user,
        shadowing: e.shadowing,
        bind: e.bind,
        exact: e.exact,
        rank: e.rank,
    }
}

fn answers_search(e: &Entry, search: &Vec<char>, exact: bool) -> (r: bool)
    ensures
        r == answers(entry_view(*e), search@, exact),
{
    if exact {
        return e.exact;
    }
    if search.len() == 0 {
        return true;
    }
    let chord = to_lowercase(e.chord.as_str());
    let cv = chars_of(chord.as_str());
    if contains_chars(&cv, search) {
        return true;
    }
    let summary = to_lowercase(e.summary.as_str());
    let sv = chars_of(summary.as_str());
    contains_chars(&sv, search)
}

fn keep_answers(es: &Vec<Entry>, search: &Vec<char>, exact: bool) -> (r: Vec<Entry>)
    ensures
        entries_view(r@) == kept(entries_view(es@), search@, exact),
{
    let ghost all = entries_view(es@);
    let mut out: Vec<Entry> = Vec::new();
    let mut i: usize = 0;
    while i < es.len()
        invariant
            i <= es.len(),
            all == entries_view(es@),
            entries_view(out@) == kept(all.take(i as int), search@, exact),
        decreases es.len() - i,
    {
        assert(all.take(i + 1).drop_last() =~= all.take(i as int));
        assert(all[i as int] == entry_view(es@[i as int]));
        if answers_search(&es[i], search, exact) {
            let e = copy_entry(&es[i]);
            let ghost prev = entries_view(out@);
            out.push(e);
            assert(entries_view(out@) =~= prev.push(entry_view(e)));
        }
        i = i + 1;
    }
    assert(all.take(es.len() as int) =~= all);
    out
}

fn sorts_before(a: &Entry, b: &Entry) -> (r: bool)
    ensures
        r == entry_lt(entry_view(*a), entry_view(*b)),
{
    if a.rank < b.rank {
        true
    } else if a.rank > b.rank {
        false
    } else {
        match compare_keys(a.chord.as_str(), b.chord.as_str()) {
            KeyOrder::Before => true,
            _ => false,
        }
    }
}

fn insert_position(t: &Vec<Entry>, x: &Entry) -> (p: usize)
    ensures
        p as int == insert_pos(entries_view(t@), entry_view(*x)),
        p <= t.len(),
{
    let ghost tv = entries_view(t@);
    let mut j: usize = 0;
    assert(tv.skip(0) =~= tv);
    while j < t.len()
        invariant
            j <= t.len(),
            tv == entries_view(t@),
            insert_pos(tv, entry_view(*x)) == insert_pos(tv.skip(j as int), entry_view(*x)) + j,
        decreases t.len() - j,
    {
        assert(tv.skip(j as int).drop_first() =~= tv.skip(j + 1));
        assert(tv.skip(j as int)[0] == entry_view(t@[j as int]));
        if sorts_before(x, &t[j]) {
            return j;
        }
        j = j + 1;
    }
    assert(tv.skip(t.len() as int) =~= Seq::<EntryView>::empty());
    j
}

/// The stable insertion sort the listing is ordered by.
fn order_entries(es: &Vec<Entry>) -> (r: Vec<Entry>)
    ensures
        entries_view(r@) == ordered(entries_view(es@)),
{
    let ghost all = entries_view(es@);
    let mut out: Vec<Entry> = Vec::new();
    let mut i: usize = 0;
    while i < es.len()
        invariant
            i <= es.len(),
            all == entries_view(es@),
            entries_view(out@) == ordered(all.take(i as int)),
        decreases es.len() - i,
    {
        assert(all.take(i + 1).drop_last() =~= all.take(i as int));
        assert(all.take(i + 1).last() == entry_view(es@[i as int]));
        let p = insert_position(&out, &es[i]);
        let e = copy_entry(&es[i]);
        let ghost prev = entries_view(out@);
        out.insert(p, e);
        assert(entries_view(out@) =~= prev.insert(p as int, entry_view(e)));
        i = i + 1;
    }
    assert(all.take(es.len() as int) =~= all);
    out
}

fn count_family(s: &Vec<Entry>, family: &str) -> (n: usize)
    ensures
        n == family_count(entries_view(s@), family@),
{
    let ghost sv = entries_view(s@);
    let mut n: usize = 0;
    let mut i: usize = 0;
    while i < s.len()
        invariant
            i <= s.len(),
            sv == entries_view(s@),
            n == family_count(sv.take(i as int), family@),
            n <= i,
        decreases s.len() - i,
    {
        assert(sv.take(i + 1).drop_last() =~= sv.take(i as int));
        assert(sv[i as int] == entry_view(s@[i as int]));
        if str_eq(s[i].family.as_str(), family) {
            n = n + 1;
        }
        i = i + 1;
    }
    assert(sv.take(s.len() as int) =~= sv);
    n
}


fn layout_rows(s: &Vec<Entry>, searching: bool, collapsed: &Vec<String>) -> (r: Vec<KeybindRow>)
    ensures
        rows_view(r@) == rows_upto(entries_view(s@), s@.len() as int, searching, string_views(collapsed@)),
{
    let ghost sv = entries_view(s@);
    let ghost cv = string_views(collapsed@);
    let mut rows: Vec<KeybindRow> = Vec::new();
    let mut k: usize = 0;
    while k < s.len()
        invariant
            k <= s.len(),
            sv == entries_view(s@),
            cv == string_views(collapsed@),
            rows_view(rows@) == rows_upto(sv, k as int, searching, cv),
        decreases s.len() - k,
    {
        let e = &s[k];
        assert(sv[k as int] == entry_view(*e));
        let open = searching || !has_string(collapsed, e.family.as_str());
        let first = k == 0 || !str_eq(s[k - 1].family.as_str(), e.family.as_str());
        proof {
            if k > 0 {
                assert(sv[k - 1] == entry_view(s@[k - 1]));
            }
        }
        let ghost before = rows_view(rows@);
        if first {
            let count = count_family(s, e.family.as_str());
            rows.push(KeybindRow {
                chord: to_uppercase(e.family.as_str()),
                summary: String::new(),
                extras: String::new(),
                source: String::new(),
                is_user: false,
                shadowing: false,
                is_command: false,
                is_header: true,
                expanded: open,
                count,
                index: -1,
            });
        }
        let ghost mid = rows_view(rows@);
        assert(mid =~= before + (if first {
            seq![header_view(sv[k as int], family_count(sv, sv[k as int].family), open)]
        } else {
            seq![]
        }));
        if open {
            rows.push(KeybindRow {
                chord: e.chord.clone(),
                summary: e.summary.clone(),
                extras: e.extras.clone(),
                source: e.source.clone(),
                is_user: e.is_user,
                shadowing: e.shadowing,
                is_command: e.is_command,
                is_header: false,
                expanded: false,
                count: 0,
                index: e.bind,
            });
        }
        assert(rows_view(rows@) =~= mid + (if open { seq![bind_view(sv[k as int])] } else { seq![] }));
        k = k + 1;
    }
    rows
}

/// The Keybinds page listing and the note above it. `names` holds the
/// chain's file names (includes, then the main file); `order` the known
/// group order; `collapsed` the groups the user closed.
pub fn keybind_rows(
    binds: &Vec<UserBind>,
    defaults: &Vec<DefaultBind>,
    names: &Vec<String>,
    query: &KeybindQuery,
    order: &Vec<String>,
    collapsed: &Vec<String>,
) -> (r: (Vec<KeybindRow>, String))
    requires
        names.len() > 0,
        binds.len() <= i32::MAX,
    ensures
        rows_view(r.0@) == spec_keybind_rows(
            binds@,
            defaults@,
            string_views(names@),
            query.search@,
            query.exact,
            query.filter,
            string_views(order@),
            string_views(collapsed@),
        ),
        r.1@ == spec_list_note(binds@, string_views(names@)),
{
    let trimmed = trim_str(query.search.as_str());
    let lowered = to_lowercase(trimmed.as_str());
    let lv = chars_of(lowered.as_str());
    let all = candidate_entries(binds, defaults, names, order, query.filter);
    let shown = keep_answers(&all, &lv, query.exact);
    let sorted = order_entries(&shown);
    let rows = layout_rows(&sorted, lv.len() > 0, collapsed);
    let multi = any_other_file(binds);
    let mut note: Vec<char> = Vec::new();
    if binds.len() > 0 && !multi {
        append_str(&mut note, "Bold keys are yours (in ");
        let name = name_of(names, binds[0].file);
        append_str(&mut note, name.as_str());
        append_str(&mut note, "); grey ones are Umbriel's defaults. Click a row to change it.");
    } else {
        append_str(&mut note, "Bold keys are yours; grey ones are Umbriel's defaults. Click a row to change it.");
    }
    (rows, string_of(&note))
}

// ---------------------------------------------------------------------
// Laws of the listing.
// ---------------------------------------------------------------------

pub open spec fn sorted_entries(t: Seq<EntryView>) -> bool {
    forall|i: int, j: int| 0 <= i < j < t.len() ==> !entry_lt(#[trigger] t[j], #[trigger] t[i])
}

proof fn lemma_entry_lt_transitive(a: EntryView, b: EntryView, c: EntryView)
    requires
        entry_lt(a, b),
        entry_lt(b, c),
    ensures
        entry_lt(a, c),
{
    if a.rank == b.rank && b.rank == c.rank {
        crate::keys::lemma_key_lt_transitive(a.chord, b.chord, c.chord);
    }
}

proof fn lemma_entry_lt_irreflexive(a: EntryView)
    ensures
        !entry_lt(a, a),
{
    crate::keys::lemma_key_lt_irreflexive(a.chord);
}

proof fn lemma_insert_pos(t: Seq<EntryView>, x: EntryView)
    ensures
        0 <= insert_pos(t, x) <= t.len(),
        forall|q: int| 0 <= q < insert_pos(t, x) ==> !entry_lt(x, #[trigger] t[q]),
        insert_pos(t, x) < t.len() ==> entry_lt(x, t[insert_pos(t, x)]),
    decreases t.len(),
{
    if t.len() > 0 && !entry_lt(x, t[0]) {
        lemma_insert_pos(t.drop_first(), x);
        assert forall|q: int| 0 <= q < insert_pos(t, x) implies !entry_lt(x, #[trigger] t[q]) by {
            if q > 0 {
                assert(t[q] == t.drop_first()[q - 1]);
            }
        }
        if insert_pos(t, x) < t.len() {
            assert(t[insert_pos(t, x)] == t.drop_first()[insert_pos(t.drop_first(), x)]);
        }
    }
}

/// Sorting keeps every candidate: the listing is as long as what it sorts.
pub proof fn lemma_ordered_len(s: Seq<EntryView>)
    ensures
        ordered(s).len() == s.len(),
    decreases s.len(),
{
    if s.len() > 0 {
        lemma_ordered_len(s.drop_last());
        lemma_insert_pos(ordered(s.drop_last()), s.last());
    }
}

/// The listing is in group order, then chord order: no row sorts before
/// one above it.
pub proof fn lemma_ordered_sorted(s: Seq<EntryView>)
    ensures
        sorted_entries(ordered(s)),
    decreases s.len(),
{
    if s.len() > 0 {
        let t = ordered(s.drop_last());
        let x = s.last();
        lemma_ordered_sorted(s.drop_last());
        lemma_insert_pos(t, x);
        let p = insert_pos(t, x);
        let u = t.insert(p, x);
        assert forall|i: int, j: int| 0 <= i < j < u.len() implies !entry_lt(#[trigger] u[j], #[trigger] u[i]) by {
            if j < p {
                assert(u[i] == t[i] && u[j] == t[j]);
            } else if j == p {
                assert(u[i] == t[i]);
                assert(u[j] == x);
            } else if i == p {
                assert(u[j] == t[j - 1]);
                assert(u[i] == x);
                if entry_lt(t[j - 1], x) {
                    if j - 1 == p {
                        lemma_entry_lt_transitive(x, t[p], x);
                        lemma_entry_lt_irreflexive(x);
                    } else {
                        lemma_entry_lt_transitive(t[j - 1], x, t[p]);
                        assert(!entry_lt(t[j - 1], t[p]));
                    }
                }
            } else if i < p {
                assert(u[i] == t[i] && u[j] == t[j - 1]);
            } else {
                assert(u[i] == t[i - 1] && u[j] == t[j - 1]);
            }
        }
    }
}

/// A user bind shadows the default of the same chord (up to ASCII case):
/// that default is never listed beside it.
pub proof fn lemma_shadowed_defaults_hidden(defaults: Seq<DefaultBind>, users: Seq<Seq<char>>, order: Seq<Seq<char>>)
    ensures
        forall|i: int| 0 <= i < default_entries(defaults, users, order).len() ==> !any_ci(
            users,
            #[trigger] default_entries(defaults, users, order)[i].chord,
        ),
    decreases defaults.len(),
{
    if defaults.len() > 0 {
        lemma_shadowed_defaults_hidden(defaults.drop_last(), users, order);
        let before = default_entries(defaults.drop_last(), users, order);
        assert forall|i: int| 0 <= i < default_entries(defaults, users, order).len() implies !any_ci(
            users,
            #[trigger] default_entries(defaults, users, order)[i].chord,
        ) by {
            if i < before.len() {
                assert(default_entries(defaults, users, order)[i] == before[i]);
            }
        }
    }
}

proof fn lemma_kept_has(es: Seq<EntryView>, search: Seq<char>, exact: bool, j: int)
    requires
        0 <= j < es.len(),
        answers(es[j], search, exact),
    ensures
        kept(es, search, exact).contains(es[j]),
    decreases es.len(),
{
    if j == es.len() - 1 {
        let k = kept(es.drop_last(), search, exact);
        assert(k.push(es.last())[k.len() as int] == es[j]);
    } else {
        assert(es.drop_last()[j] == es[j]);
        lemma_kept_has(es.drop_last(), search, exact, j);
        let k = kept(es.drop_last(), search, exact);
        if answers(es.last(), search, exact) {
            let q = choose|q: int| 0 <= q < k.len() && k[q] == es[j];
            assert(k.push(es.last())[q] == es[j]);
        }
    }
}

proof fn lemma_ordered_has(s: Seq<EntryView>, x: EntryView)
    requires
        s.contains(x),
    ensures
        ordered(s).contains(x),
    decreases s.len(),
{
    let t = ordered(s.drop_last());
    lemma_insert_pos(t, s.last());
    let p = insert_pos(t, s.last());
    let u = t.insert(p, s.last());
    if s.last() == x {
        assert(u[p] == x);
    } else {
        let j = choose|j: int| 0 <= j < s.len() && s[j] == x;
        assert(s.drop_last()[j] == x);
        lemma_ordered_has(s.drop_last(), x);
        let q = choose|q: int| 0 <= q < t.len() && t[q] == x;
        if q < p {
            assert(u[q] == x);
        } else {
            assert(u[q + 1] == x);
        }
    }
}

proof fn lemma_rows_have_bind(s: Seq<EntryView>, k: int, collapsed: Seq<Seq<char>>, j: int)
    requires
        0 <= j < k <= s.len(),
    ensures
        rows_upto(s, k, true, collapsed).contains(bind_view(s[j])),
    decreases k,
{
    let prev = rows_upto(s, k - 1, true, collapsed);
    let e = s[k - 1];
    let head = if k - 1 == 0 || s[k - 2].family != e.family {
        seq![header_view(e, family_count(s, e.family), true)]
    } else {
        seq![]
    };
    let all = prev + head + seq![bind_view(e)];
    assert(rows_upto(s, k, true, collapsed) == all);
    if j == k - 1 {
        assert(all[all.len() - 1] == bind_view(s[j]));
    } else {
        lemma_rows_have_bind(s, k - 1, collapsed, j);
        let q = choose|q: int| 0 <= q < prev.len() && prev[q] == bind_view(s[j]);
        assert(all[q] == bind_view(s[j]));
    }
}

proof fn lemma_default_entries_have(defaults: Seq<DefaultBind>, users: Seq<Seq<char>>, order: Seq<Seq<char>>, i: int)
    requires
        0 <= i < defaults.len(),
        !any_ci(users, defaults[i].chord@),
    ensures
        default_entries(defaults, users, order).contains(default_entry(defaults[i], order)),
    decreases defaults.len(),
{
    let d = default_entries(defaults.drop_last(), users, order);
    if i == defaults.len() - 1 {
        assert(d.push(default_entry(defaults.last(), order))[d.len() as int] == default_entry(defaults[i], order));
    } else {
        assert(defaults.drop_last()[i] == defaults[i]);
        lemma_default_entries_have(defaults.drop_last(), users, order, i);
        if !any_ci(users, defaults.last().chord@) {
            let q = choose|q: int| 0 <= q < d.len() && d[q] == default_entry(defaults[i], order);
            assert(d.push(default_entry(defaults.last(), order))[q] == default_entry(defaults[i], order));
        }
    }
}

/// A listed bind's row for a candidate that a non-empty search keeps.
proof fn lemma_listed(
    binds: Seq<UserBind>,
    defaults: Seq<DefaultBind>,
    names: Seq<Seq<char>>,
    search: Seq<char>,
    filter: i32,
    order: Seq<Seq<char>>,
    collapsed: Seq<Seq<char>>,
    c: int,
)
    requires
        0 <= c < candidates(binds, defaults, order, names, filter).len(),
        str_lowercase(trim(search)).len() > 0,
        answers(candidates(binds, defaults, order, names, filter)[c], str_lowercase(trim(search)), false),
    ensures
        spec_keybind_rows(binds, defaults, names, search, false, filter, order, collapsed).contains(
            bind_view(candidates(binds, defaults, order, names, filter)[c]),
        ),
{
    let lowered = str_lowercase(trim(search));
    let cs = candidates(binds, defaults, order, names, filter);
    let e = cs[c];
    lemma_kept_has(cs, lowered, false, c);
    let kp = kept(cs, lowered, false);
    lemma_ordered_has(kp, e);
    let s = ordered(kp);
    let q = choose|q: int| 0 <= q < s.len() && s[q] == e;
    lemma_rows_have_bind(s, s.len() as int, collapsed, q);
}

/// A keybind search by text (not by recorded keys) lists every bind the
/// filter admits whose chord or action summary, lower-cased, holds the
/// trimmed, lower-cased search: a row shows that bind's chord and
/// summary, marked as the user's or as a default. (A default bind the
/// user rebinds to the same chord is listed as the user's.)
pub proof fn law_search_lists_matching_binds(
    binds: Seq<UserBind>,
    defaults: Seq<DefaultBind>,
    names: Seq<Seq<char>>,
    search: Seq<char>,
    filter: i32,
    order: Seq<Seq<char>>,
    collapsed: Seq<Seq<char>>,
)
    requires
        str_lowercase(trim(search)).len() > 0,
    ensures
        forall|i: int|
            #![trigger binds[i]]
            0 <= i < binds.len() && filter != 2 && (contains_seq(
                str_lowercase(binds[i].chord@),
                str_lowercase(trim(search)),
            ) || contains_seq(str_lowercase(binds[i].summary@), str_lowercase(trim(search)))) ==> exists|k: int|
                0 <= k < spec_keybind_rows(binds, defaults, names, search, false, filter, order, collapsed).len()
                    && {
                    let row = #[trigger] spec_keybind_rows(binds, defaults, names, search, false, filter, order, collapsed)[k];
                    &&& !row.is_header
                    &&& row.is_user
                    &&& row.index == i
                    &&& row.chord == binds[i].chord@
                    &&& row.summary == binds[i].summary@
                },
        forall|i: int|
            #![trigger defaults[i]]
            0 <= i < defaults.len() && filter != 1 && !any_ci(user_chords(binds), defaults[i].chord@) && (
            contains_seq(str_lowercase(defaults[i].chord@), str_lowercase(trim(search))) || contains_seq(
                str_lowercase(defaults[i].summary@),
                str_lowercase(trim(search)),
            )) ==> exists|k: int|
                0 <= k < spec_keybind_rows(binds, defaults, names, search, false, filter, order, collapsed).len()
                    && {
                    let row = #[trigger] spec_keybind_rows(binds, defaults, names, search, false, filter, order, collapsed)[k];
                    &&& !row.is_header
                    &&& !row.is_user
                    &&& row.chord == defaults[i].chord@
                    &&& row.summary == defaults[i].summary@
                },
{
    let cs = candidates(binds, defaults, order, names, filter);
    let us = if filter != 2 { user_entries(binds, defaults, order, names) } else { seq![] };
    let ds = if filter != 1 { default_entries(defaults, user_chords(binds), order) } else { seq![] };
    assert(cs == us + ds);
    assert forall|i: int|
        #![trigger binds[i]]
        0 <= i < binds.len() && filter != 2 && (contains_seq(
            str_lowercase(binds[i].chord@),
            str_lowercase(trim(search)),
        ) || contains_seq(str_lowercase(binds[i].summary@), str_lowercase(trim(search)))) implies exists|k: int|
            0 <= k < spec_keybind_rows(binds, defaults, names, search, false, filter, order, collapsed).len()
                && {
                let row = #[trigger] spec_keybind_rows(binds, defaults, names, search, false, filter, order, collapsed)[k];
                &&& !row.is_header
                &&& row.is_user
                &&& row.index == i
                &&& row.chord == binds[i].chord@
                &&& row.summary == binds[i].summary@
            } by {
        assert(cs[i] == us[i]);
        lemma_listed(binds, defaults, names, search, filter, order, collapsed, i);
    }
    assert forall|i: int|
        #![trigger defaults[i]]
        0 <= i < defaults.len() && filter != 1 && !any_ci(user_chords(binds), defaults[i].chord@) && (
        contains_seq(str_lowercase(defaults[i].chord@), str_lowercase(trim(search))) || contains_seq(
            str_lowercase(defaults[i].summary@),
            str_lowercase(trim(search)),
        )) implies exists|k: int|
            0 <= k < spec_keybind_rows(binds, defaults, names, search, false, filter, order, collapsed).len()
                && {
                let row = #[trigger] spec_keybind_rows(binds, defaults, names, search, false, filter, order, collapsed)[k];
                &&& !row.is_header
                &&& !row.is_user
                &&& row.chord == defaults[i].chord@
                &&& row.summary == defaults[i].summary@
            } by {
        lemma_default_entries_have(defaults, user_chords(binds), order, i);
        let q = choose|q: int| 0 <= q < ds.len() && ds[q] == default_entry(defaults[i], order);
        assert(cs[us.len() + q] == ds[q]);
        lemma_listed(binds, defaults, names, search, filter, order, collapsed, us.len() + q);
    }
}

} // verus!
