//! Helpers shared across the pages: display names, file names, the
//! saved-state bookkeeping of the include chain, and the state of the
//! loaded config.

use vstd::prelude::*;

use crate::text::{
    append_chars, append_str, capitalize, capitalize_chars, chars_of, decimal, decimal_chars,
    replace_char, replace_char_chars, slice_chars, spec_top_level, starts_with, starts_with_chars,
    str_eq, string_of, string_views, top_level,
};
use crate::update::opt_view;
use crate::values::{has_key_at, pairs_map, sorted_keys, ValueMap};

verus! {

/// `"hot_corners"` becomes `"Hot corners"`.
pub open spec fn spec_prettify(name: Seq<char>) -> Seq<char> {
    capitalize(replace_char(name, '_', ' '))
}

pub fn prettify(name: &str) -> (r: String)
    ensures
        r@ == spec_prettify(name@),
{
    let v = chars_of(name);
    let mut owned = replace_char_chars(&v, '_', ' ');
    capitalize_chars(&mut owned);
    string_of(&owned)
}

/// The leaf keys one document of the include chain sets.
pub struct KeySet {
    keys: Vec<String>,
}

impl View for KeySet {
    type V = Set<Seq<char>>;

    closed spec fn view(&self) -> Set<Seq<char>> {
        Set::new(|k: Seq<char>| exists|i: int| 0 <= i < self.keys@.len() && #[trigger] self.keys@[i]@ == k)
    }
}

impl KeySet {
    pub fn from_keys(keys: Vec<String>) -> (s: KeySet)
        ensures
            forall|k: Seq<char>| s@.contains(k) <==> exists|i: int| 0 <= i < keys@.len() && #[trigger] keys@[i]@ == k,
    {
        KeySet { keys }
    }

    pub fn contains(&self, key: &str) -> (b: bool)
        ensures
            b == self@.contains(key@),
    {
        let mut i: usize = 0;
        while i < self.keys.len()
            invariant
                i <= self.keys.len(),
                forall|m: int| 0 <= m < i ==> #[trigger] self.keys@[m]@ != key@,
            decreases self.keys.len() - i,
        {
            if str_eq(self.keys[i].as_str(), key) {
                return true;
            }
            i = i + 1;
        }
        false
    }
}

/// Effective home of a dotted key: the last document in chain order that
/// sets it. Umbriel applies includes in list order and the main file
/// last, and values are replaced by the last file that sets them, so main
/// wins, then later includes over earlier ones.
pub fn entry_home(sets: &[KeySet], dotted: &str) -> (r: Option<usize>)
    ensures
        r is None <==> forall|i: int| 0 <= i < sets@.len() ==> !(#[trigger] sets@[i])@.contains(dotted@),
        r matches Some(i) ==> i < sets@.len() && sets@[i as int]@.contains(dotted@) && forall|j: int|
            i < j < sets@.len() ==> !(#[trigger] sets@[j])@.contains(dotted@),
{
    let mut k: usize = sets.len();
    while k > 0
        invariant
            k <= sets@.len(),
            forall|j: int| k <= j < sets@.len() ==> !(#[trigger] sets@[j])@.contains(dotted@),
        decreases k,
    {
        k = k - 1;
        if sets[k].contains(dotted) {
            return Some(k);
        }
    }
    None
}

/// Whether an entry is unchanged against the snapshot.
pub open spec fn unchanged(e: (Seq<char>, Seq<char>), saved: Option<Map<Seq<char>, Seq<char>>>) -> bool {
    match saved {
        Some(m) => m.contains_key(e.0) && m[e.0] == e.1,
        None => false,
    }
}

/// The current entries that differ from the snapshot, as (key, Some(value)).
pub open spec fn changed_entries(
    cur: Seq<(Seq<char>, Seq<char>)>,
    saved: Option<Map<Seq<char>, Seq<char>>>,
) -> Seq<(Seq<char>, Option<Seq<char>>)>
    decreases cur.len(),
{
    if cur.len() == 0 {
        seq![]
    } else if unchanged(cur.last(), saved) {
        changed_entries(cur.drop_last(), saved)
    } else {
        changed_entries(cur.drop_last(), saved).push((cur.last().0, Some(cur.last().1)))
    }
}

/// The snapshot entries whose key the document no longer has, as
/// (key, None).
pub open spec fn deleted_entries(
    saved: Seq<(Seq<char>, Seq<char>)>,
    cur: Map<Seq<char>, Seq<char>>,
) -> Seq<(Seq<char>, Option<Seq<char>>)>
    decreases saved.len(),
{
    if saved.len() == 0 {
        seq![]
    } else if cur.contains_key(saved.last().0) {
        deleted_entries(saved.drop_last(), cur)
    } else {
        deleted_entries(saved.drop_last(), cur).push((saved.last().0, None))
    }
}

/// The whole diff: changed and new keys in key order, then deletions.
pub open spec fn spec_diff(current: ValueMap, saved: Option<ValueMap>) -> Seq<(Seq<char>, Option<Seq<char>>)> {
    match saved {
        Some(s) => changed_entries(current.pairs(), Some(s@)) + deleted_entries(s.pairs(), current@),
        None => changed_entries(current.pairs(), None),
    }
}

pub open spec fn diff_view(d: Seq<(String, Option<String>)>) -> Seq<(Seq<char>, Option<Seq<char>>)> {
    d.map_values(|e: (String, Option<String>)| (e.0@, opt_view(e.1)))
}

/// Keys whose state differs from the saved snapshot, as `(key, current
/// value)`; `None` marks a deletion: the snapshot has the key but the
/// document no longer does. Deletions are changes like any other.
pub fn diff_against_saved(current: &ValueMap, saved: Option<&ValueMap>) -> (r: Vec<(String, Option<String>)>)
    ensures
        diff_view(r@) == spec_diff(*current, match saved { Some(s) => Some(*s), None => None }),
{
    let cur = current.entries_clone();
    let ghost cp = current.pairs();
    let ghost sv: Option<Map<Seq<char>, Seq<char>>> = match saved { Some(s) => Some(s@), None => None };
    let mut out: Vec<(String, Option<String>)> = Vec::new();
    let mut k: usize = 0;
    while k < cur.len()
        invariant
            crate::values::pairs_view(cur@) == cp,
            sv == match saved { Some(s) => Some(s@), None => None::<Map<Seq<char>, Seq<char>>> },
            k <= cur.len(),
            diff_view(out@) == changed_entries(cp.take(k as int), sv),
        decreases cur.len() - k,
    {
        let key = &cur[k].0;
        let value = &cur[k].1;
        let same = match saved {
            Some(s) => match s.get(key.as_str()) {
                Some(v) => crate::text::str_eq(v.as_str(), value.as_str()),
                None => false,
            },
            None => false,
        };
        assert(cp.take(k + 1).drop_last() =~= cp.take(k as int));
        assert(cp[k as int] == (key@, value@));
        if !same {
            out.push((key.clone(), Some(value.clone())));
            assert(diff_view(out@) =~= changed_entries(cp.take(k as int), sv).push((key@, Some(value@))));
        }
        k = k + 1;
    }
    assert(cp.take(cur.len() as int) =~= cp);
    if let Some(s) = saved {
        let old = s.entries_clone();
        let ghost sp = s.pairs();
        let ghost before = out@;
        let mut k: usize = 0;
        while k < old.len()
            invariant
                crate::values::pairs_view(old@) == sp,
                k <= old.len(),
                out@.len() >= before.len(),
                out@.take(before.len() as int) == before,
                diff_view(out@.skip(before.len() as int)) == deleted_entries(sp.take(k as int), current@),
            decreases old.len() - k,
        {
            let key = &old[k].0;
            assert(sp.take(k + 1).drop_last() =~= sp.take(k as int));
            assert(sp[k as int].0 == key@);
            if !current.contains_key(key.as_str()) {
                let ghost prev = out@;
                out.push((key.clone(), None));
                assert(out@.skip(before.len() as int) =~= prev.skip(before.len() as int).push(out@.last()));
                assert(diff_view(out@.skip(before.len() as int)) =~= deleted_entries(sp.take(k as int), current@).push((key@, None)));
            }
            assert(out@.take(before.len() as int) =~= before);
            k = k + 1;
        }
        assert(sp.take(old.len() as int) =~= sp);
        assert(out@ =~= before + out@.skip(before.len() as int));
        assert(diff_view(out@) =~= diff_view(before) + diff_view(out@.skip(before.len() as int)));
    }
    out
}

proof fn lemma_changed_empty(cur: Seq<(Seq<char>, Seq<char>)>, saved: Option<Map<Seq<char>, Seq<char>>>)
    ensures
        changed_entries(cur, saved).len() == 0 <==> forall|i: int|
            0 <= i < cur.len() ==> unchanged(#[trigger] cur[i], saved),
        saved is None ==> changed_entries(cur, saved).len() == cur.len(),
    decreases cur.len(),
{
    if cur.len() > 0 {
        lemma_changed_empty(cur.drop_last(), saved);
        assert forall|i: int| 0 <= i < cur.len() - 1 implies #[trigger] cur[i] == cur.drop_last()[i] by {}
        if changed_entries(cur, saved).len() == 0 {
            assert forall|i: int| 0 <= i < cur.len() implies unchanged(#[trigger] cur[i], saved) by {
                if i < cur.len() - 1 {
                    assert(cur[i] == cur.drop_last()[i]);
                }
            }
        }
        if forall|i: int| 0 <= i < cur.len() ==> unchanged(#[trigger] cur[i], saved) {
            assert(unchanged(cur[cur.len() - 1], saved));
            assert forall|i: int| 0 <= i < cur.drop_last().len() implies unchanged(
                #[trigger] cur.drop_last()[i],
                saved,
            ) by {
                assert(cur.drop_last()[i] == cur[i]);
            }
        }
    }
}

proof fn lemma_deleted_empty(saved: Seq<(Seq<char>, Seq<char>)>, cur: Map<Seq<char>, Seq<char>>)
    ensures
        deleted_entries(saved, cur).len() == 0 <==> forall|i: int|
            0 <= i < saved.len() ==> cur.contains_key(#[trigger] saved[i].0),
    decreases saved.len(),
{
    if saved.len() > 0 {
        lemma_deleted_empty(saved.drop_last(), cur);
        if deleted_entries(saved, cur).len() == 0 {
            assert forall|i: int| 0 <= i < saved.len() implies cur.contains_key(#[trigger] saved[i].0) by {
                if i < saved.len() - 1 {
                    assert(saved[i] == saved.drop_last()[i]);
                }
            }
        }
        if forall|i: int| 0 <= i < saved.len() ==> cur.contains_key(#[trigger] saved[i].0) {
            assert(cur.contains_key(saved[saved.len() - 1].0));
            assert forall|i: int| 0 <= i < saved.drop_last().len() implies cur.contains_key(
                #[trigger] saved.drop_last()[i].0,
            ) by {
                assert(saved.drop_last()[i] == saved[i]);
            }
        }
    }
}

/// The diff against a snapshot is empty exactly when the document's
/// leaves equal the snapshot: every change, deletions included, shows.
pub proof fn lemma_diff_empty_iff_unchanged(current: ValueMap, saved: ValueMap)
    requires
        current.inv(),
        saved.inv(),
    ensures
        spec_diff(current, Some(saved)).len() == 0 <==> current@ == saved@,
{
    current.lemma_view();
    saved.lemma_view();
    let cp = current.pairs();
    let sp = saved.pairs();
    lemma_changed_empty(cp, Some(saved@));
    lemma_deleted_empty(sp, current@);
    if spec_diff(current, Some(saved)).len() == 0 {
        assert(changed_entries(cp, Some(saved@)).len() == 0);
        assert(deleted_entries(sp, current@).len() == 0);
        assert forall|k: Seq<char>| #[trigger] current@.contains_key(k) implies saved@.contains_key(k)
            && saved@[k] == current@[k] by {
            let i = choose|i: int| has_key_at(cp, k, i);
            assert(unchanged(cp[i], Some(saved@)));
        }
        assert forall|k: Seq<char>| #[trigger] saved@.contains_key(k) implies current@.contains_key(k) by {
            let i = choose|i: int| has_key_at(sp, k, i);
            assert(current@.contains_key(sp[i].0));
        }
        assert(current@ =~= saved@);
    }
    if current@ == saved@ {
        assert forall|i: int| 0 <= i < cp.len() implies unchanged(#[trigger] cp[i], Some(saved@)) by {
            assert(current@.contains_key(cp[i].0));
        }
        assert forall|i: int| 0 <= i < sp.len() implies current@.contains_key(#[trigger] sp[i].0) by {
            assert(saved@.contains_key(sp[i].0));
        }
    }
}

/// Without a snapshot every current key counts as new.
pub proof fn lemma_diff_without_snapshot(current: ValueMap)
    requires
        current.inv(),
    ensures
        spec_diff(current, None).len() == current@.len(),
{
    current.lemma_len();
    lemma_changed_empty(current.pairs(), None);
}

/// What `std::path::Path::file_name` returns for the path.
pub uninterp spec fn path_file_name(path: Seq<char>) -> Option<Seq<char>>;

/// `Path::file_name`: the final component, or `None` when the path ends
/// in `..` or has no components.
#[verifier::external_body]
pub(crate) fn file_name_opt(path: &str) -> (r: Option<String>)
    ensures
        match r {
            Some(n) => path_file_name(path@) == Some(n@),
            None => path_file_name(path@) is None,
        },
{
    match std::path::Path::new(path).file_name() {
        Some(name) => Some(name.to_string_lossy().into_owned()),
        None => None,
    }
}

/// The file name of a path, empty when it has none.
pub fn file_name_of(path: &str) -> (r: String)
    ensures
        r@ == match path_file_name(path@) {
            Some(n) => n,
            None => Seq::<char>::empty(),
        },
{
    match file_name_opt(path) {
        Some(name) => name,
        None => String::new(),
    }
}

/// Some document of the chain sets `key`.
pub open spec fn set_somewhere(sets: Seq<KeySet>, key: Seq<char>) -> bool {
    exists|i: int| 0 <= i < sets.len() && (#[trigger] sets[i])@.contains(key)
}

/// Where a reset puts `key` back: its effective home while some document
/// still sets it; once it is gone from every document, the first snapshot
/// that still has it (that decides which document gets it back); `None`
/// when no snapshot knows it either, and there is nothing to reset.
pub fn reset_home(sets: &[KeySet], saved: &[ValueMap], key: &str) -> (r: Option<usize>)
    ensures
        set_somewhere(sets@, key@) ==> (r matches Some(i) && i < sets@.len() && sets@[i as int]@.contains(key@)
            && forall|j: int| i < j < sets@.len() ==> !(#[trigger] sets@[j])@.contains(key@)),
        !set_somewhere(sets@, key@) ==> match r {
            Some(i) => i < saved@.len() && saved@[i as int]@.contains_key(key@) && forall|j: int|
                0 <= j < i ==> !(#[trigger] saved@[j])@.contains_key(key@),
            None => forall|j: int| 0 <= j < saved@.len() ==> !(#[trigger] saved@[j])@.contains_key(key@),
        },
{
    match entry_home(sets, key) {
        Some(home) => Some(home),
        None => {
            let mut i: usize = 0;
            while i < saved.len()
                invariant
                    i <= saved@.len(),
                    !set_somewhere(sets@, key@),
                    forall|j: int| 0 <= j < i ==> !(#[trigger] saved@[j])@.contains_key(key@),
                decreases saved.len() - i,
            {
                if saved[i].contains_key(key) {
                    return Some(i);
                }
                i = i + 1;
            }
            None
        },
    }
}

/// How reading the main config went.
pub enum LoadOutcome {
    Loaded,
    /// No file yet: a fresh start, which saving creates.
    Missing,
    /// Any other failure, with its message.
    Broken(String),
}

/// Whether saving is allowed, and the load error to show: only a broken
/// file disables saving, so it is never overwritten from here.
pub fn load_health(outcome: &LoadOutcome) -> (r: (bool, Option<String>))
    ensures
        match outcome {
            LoadOutcome::Broken(e) => !r.0 && (r.1 matches Some(m) && m@ == e@),
            _ => r.0 && r.1 is None,
        },
{
    match outcome {
        LoadOutcome::Broken(e) => (false, Some(e.clone())),
        _ => (true, None),
    }
}

/// The status bar: the load error when the configuration failed to load,
/// else the number of settings, of included files, and whether the main
/// file has unsaved edits.
pub open spec fn spec_status_line(
    healthy: bool,
    load_error: Option<Seq<char>>,
    settings: nat,
    includes: nat,
    modified: bool,
) -> Seq<char> {
    if !healthy {
        "config failed to load: "@ + match load_error {
            Some(e) => e,
            None => "unknown error"@,
        }
    } else {
        decimal(settings) + " settings • "@ + decimal(includes) + " included file(s) • main "@ + if modified {
            "modified"@
        } else {
            "clean"@
        }
    }
}

pub fn status_line(healthy: bool, load_error: Option<&str>, settings: usize, includes: usize, modified: bool) -> (r: String)
    ensures
        r@ == spec_status_line(
            healthy,
            match load_error { Some(e) => Some(e@), None => None },
            settings as nat,
            includes as nat,
            modified,
        ),
{
    let mut out: Vec<char> = Vec::new();
    if !healthy {
        append_str(&mut out, "config failed to load: ");
        match load_error {
            Some(e) => append_str(&mut out, e),
            None => append_str(&mut out, "unknown error"),
        }
        return string_of(&out);
    }
    let n = decimal_chars(settings as u64);
    append_chars(&mut out, &n);
    append_str(&mut out, " settings • ");
    let k = decimal_chars(includes as u64);
    append_chars(&mut out, &k);
    append_str(&mut out, " included file(s) • main ");
    if modified {
        append_str(&mut out, "modified");
    } else {
        append_str(&mut out, "clean");
    }
    string_of(&out)
}

/// The stored open/closed choice for a card's key: that of the first
/// entry with the key (the shell keeps each key once).
pub open spec fn stored_choice(stored: Seq<(String, bool)>, key: Seq<char>) -> Option<bool>
    decreases stored.len(),
{
    if stored.len() == 0 {
        None
    } else if stored[0].0@ == key {
        Some(stored[0].1)
    } else {
        stored_choice(stored.skip(1), key)
    }
}

/// Whether a card shows open: as the user last left it, else `default`.
pub open spec fn spec_card_expanded(stored: Seq<(String, bool)>, key: Seq<char>, default: bool) -> bool {
    match stored_choice(stored, key) {
        Some(open) => open,
        None => default,
    }
}

pub fn card_expanded(stored: &Vec<(String, bool)>, key: &str, default: bool) -> (b: bool)
    ensures
        b == spec_card_expanded(stored@, key@, default),
{
    let mut i: usize = 0;
    assert(stored@.skip(0) =~= stored@);
    while i < stored.len()
        invariant
            i <= stored.len(),
            stored_choice(stored@, key@) == stored_choice(stored@.skip(i as int), key@),
        decreases stored.len() - i,
    {
        assert(stored@.skip(i as int).skip(1) =~= stored@.skip(i + 1));
        if str_eq(stored[i].0.as_str(), key) {
            return stored[i].1;
        }
        i = i + 1;
    }
    default
}

/// The home directory as a path prefix: one trailing `/` dropped.
pub open spec fn home_stem(home: Seq<char>) -> Seq<char> {
    if home.len() > 0 && home.last() == '/' {
        home.drop_last()
    } else {
        home
    }
}

/// `path` is the directory `dir` or lies below it: it starts with `dir`
/// and goes on, if at all, with a `/`.
pub open spec fn under_dir(path: Seq<char>, dir: Seq<char>) -> bool {
    starts_with(path, dir) && (path.len() == dir.len() || path[dir.len() as int] == '/')
}

/// A path for display: `$HOME/…` becomes `~/…` (and `$HOME` itself
/// `~`); any other path is shown as it is.
pub open spec fn spec_pretty_path(path: Seq<char>, home: Option<Seq<char>>) -> Seq<char> {
    match home {
        Some(h) => if under_dir(path, home_stem(h)) {
            "~"@ + path.skip(home_stem(h).len() as int)
        } else {
            path
        },
        None => path,
    }
}

pub fn pretty_path(path: &str, home: Option<&str>) -> (r: String)
    ensures
        r@ == spec_pretty_path(path@, match home { Some(h) => Some(h@), None => None }),
{
    match home {
        Some(h) => {
            let p = chars_of(path);
            let mut hv = chars_of(h);
            if hv.len() > 0 && hv[hv.len() - 1] == '/' {
                hv.pop();
            }
            assert(hv@ == home_stem(h@));
            if starts_with_chars(&p, &hv) && (p.len() == hv.len() || p[hv.len()] == '/') {
                let mut out: Vec<char> = Vec::new();
                append_str(&mut out, "~");
                let rest = slice_chars(&p, hv.len(), p.len());
                append_chars(&mut out, &rest);
                assert(out@ =~= "~"@ + p@.skip(hv@.len() as int));
                string_of(&out)
            } else {
                path.to_owned()
            }
        },
        None => path.to_owned(),
    }
}

/// The top-level areas of the given dotted section names.
pub open spec fn top_names(sections: Seq<Seq<char>>) -> Set<Seq<char>> {
    Set::new(|t: Seq<char>| exists|i: int| 0 <= i < sections.len() && spec_top_level(#[trigger] sections[i]) == t)
}

/// Top-level section names across the schema, sorted and without
/// repeats.
pub fn section_names(sections: &Vec<String>) -> (r: Vec<String>)
    ensures
        forall|i: int, j: int| 0 <= i < j < r@.len() ==> crate::keys::key_lt(#[trigger] r@[i]@, #[trigger] r@[j]@),
        forall|t: Seq<char>|
            #[trigger] top_names(string_views(sections@)).contains(t) <==> exists|i: int|
                0 <= i < r@.len() && #[trigger] r@[i]@ == t,
{
    let ghost sv = string_views(sections@);
    let mut m = ValueMap::new();
    let mut i: usize = 0;
    while i < sections.len()
        invariant
            i <= sections.len(),
            sv == string_views(sections@),
            forall|t: Seq<char>| m@.contains_key(t) <==> exists|j: int| 0 <= j < i && spec_top_level(#[trigger] sv[j]) == t,
        decreases sections.len() - i,
    {
        let top = top_level(sections[i].as_str());
        assert(sv[i as int] == sections@[i as int]@);
        let ghost before = m@;
        m.insert(top, String::new());
        assert forall|t: Seq<char>| m@.contains_key(t) <==> exists|j: int| 0 <= j < i + 1 && spec_top_level(#[trigger] sv[j]) == t by {
            if m@.contains_key(t) && t != spec_top_level(sv[i as int]) {
                assert(before.contains_key(t));
            }
            if exists|j: int| 0 <= j < i + 1 && spec_top_level(#[trigger] sv[j]) == t {
                let j = choose|j: int| 0 <= j < i + 1 && spec_top_level(#[trigger] sv[j]) == t;
                if j < i {
                    assert(before.contains_key(t));
                }
            }
        }
        i = i + 1;
    }
    proof {
        use_type_invariant(&m);
        m.lemma_view();
    }
    let pairs = m.entries_clone();
    let ghost p = m.pairs();
    let mut out: Vec<String> = Vec::new();
    let mut k: usize = 0;
    while k < pairs.len()
        invariant
            k <= pairs.len(),
            crate::values::pairs_view(pairs@) == p,
            out@.len() == k,
            forall|a: int| 0 <= a < k ==> #[trigger] out@[a]@ == p[a].0,
        decreases pairs.len() - k,
    {
        assert(p[k as int].0 == pairs@[k as int].0@);
        out.push(pairs[k].0.clone());
        k = k + 1;
    }
    assert forall|t: Seq<char>|
        #[trigger] top_names(sv).contains(t) <==> exists|a: int| 0 <= a < out@.len() && #[trigger] out@[a]@ == t by {
        if top_names(sv).contains(t) {
            assert(m@.contains_key(t));
            let a = choose|a: int| has_key_at(p, t, a);
            assert(out@[a]@ == t);
        }
        if exists|a: int| 0 <= a < out@.len() && #[trigger] out@[a]@ == t {
            let a = choose|a: int| 0 <= a < out@.len() && #[trigger] out@[a]@ == t;
            assert(has_key_at(p, t, a));
            assert(m@.contains_key(t));
        }
    }
    out
}

/// Top-level sections in schema (file) order, each once.
pub fn schema_sections(sections: &Vec<String>) -> (r: Vec<String>)
    ensures
        string_views(r@) == crate::catalog::dedup(string_views(sections@).map_values(|s: Seq<char>| spec_top_level(s))),
{
    let ghost tops = string_views(sections@).map_values(|s: Seq<char>| spec_top_level(s));
    let mut out: Vec<String> = Vec::new();
    let mut i: usize = 0;
    while i < sections.len()
        invariant
            i <= sections.len(),
            tops == string_views(sections@).map_values(|s: Seq<char>| spec_top_level(s)),
            string_views(out@) == crate::catalog::dedup(tops.take(i as int)),
        decreases sections.len() - i,
    {
        assert(tops.take(i + 1).drop_last() =~= tops.take(i as int));
        let top = top_level(sections[i].as_str());
        assert(top@ == tops[i as int]);
        let mut seen = false;
        let mut k: usize = 0;
        while k < out.len()
            invariant
                k <= out.len(),
                !seen ==> forall|m: int| 0 <= m < k ==> string_views(out@)[m] != top@,
                seen ==> string_views(out@).contains(top@),
            decreases out.len() - k,
        {
            if str_eq(out[k].as_str(), top.as_str()) {
                assert(string_views(out@)[k as int] == top@);
                seen = true;
            }
            k = k + 1;
        }
        if !seen {
            let ghost prev = string_views(out@);
            out.push(top);
            assert(string_views(out@) =~= prev.push(tops[i as int]));
        }
        i = i + 1;
    }
    assert(tops.take(sections.len() as int) =~= tops);
    out
}

} // verus!
