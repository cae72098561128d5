//! Where a setting row stands in the include chain: the document that owns
//! it, whether it differs from that document's saved snapshot, and whether
//! it is new to this configurator.

use vstd::prelude::*;

use crate::common::{entry_home, KeySet};
use crate::keys::key_lt;
use crate::rows::{spec_strip_decor, strip_decor};
use crate::save::{last_setter, lemma_last_setter};
use crate::text::{has_string, owned, spec_top_level, str_eq, string_views, top_level};
use crate::values::{has_key_at, pairs_view, ValueMap};

verus! {

/// The value document `i` gives `key`, when the document exists and sets it.
pub open spec fn value_at(maps: Seq<ValueMap>, i: int, key: Seq<char>) -> Option<Seq<char>> {
    if 0 <= i < maps.len() && maps[i]@.contains_key(key) {
        Some(maps[i]@[key])
    } else {
        None
    }
}

/// The label of document `i`; empty past the end.
pub open spec fn label_at(labels: Seq<String>, i: int) -> Seq<char> {
    if 0 <= i < labels.len() {
        labels[i]@
    } else {
        Seq::empty()
    }
}

/// A setting row's place in the chain.
pub struct RowState {
    /// Chain index of the document that owns the key; -1 when none does.
    pub home: i32,
    /// The document the row's value is read from.
    pub doc: usize,
    /// The owning document's label.
    pub home_label: String,
    /// No document sets the key yet: the row offers to add it.
    pub available: bool,
    /// The owner's value differs from its saved snapshot.
    pub changed: bool,
    /// The key is new since this configurator last looked.
    pub is_new: bool,
}

fn value_in<'a>(maps: &'a Vec<ValueMap>, i: usize, key: &str) -> (r: Option<&'a String>)
    ensures
        match r {
            Some(v) => value_at(maps@, i as int, key@) == Some(v@),
            None => value_at(maps@, i as int, key@) is None,
        },
{
    if i < maps.len() {
        maps[i].get(key)
    } else {
        None
    }
}

fn same_value(a: Option<&String>, b: Option<&String>) -> (r: bool)
    ensures
        r == (match a {
            Some(x) => Some(x@),
            None => None::<Seq<char>>,
        } == match b {
            Some(y) => Some(y@),
            None => None::<Seq<char>>,
        }),
{
    match (a, b) {
        (Some(x), Some(y)) => str_eq(x.as_str(), y.as_str()),
        (None, None) => true,
        _ => false,
    }
}

fn label_of(labels: &Vec<String>, i: usize) -> (r: String)
    ensures
        r@ == label_at(labels@, i as int),
{
    if i < labels.len() {
        labels[i].clone()
    } else {
        String::new()
    }
}

/// Whether the value of `key` in document `i` differs from its snapshot.
pub open spec fn differs(current: Seq<ValueMap>, saved: Seq<ValueMap>, i: int, key: Seq<char>) -> bool {
    value_at(current, i, key) != value_at(saved, i, key)
}

/// A schema row's state. `sets` holds the keys each document of the chain
/// sets, `current` and `saved` their values now and at the last save,
/// `main` is the main file's index and `new_keys` the keys new since the
/// last run. A key no document sets reads from the main file and offers
/// to be added.
pub fn row_state(
    sets: &[KeySet],
    labels: &Vec<String>,
    current: &Vec<ValueMap>,
    saved: &Vec<ValueMap>,
    new_keys: &KeySet,
    main: usize,
    key: &str,
) -> (r: RowState)
    requires
        sets@.len() <= i32::MAX,
    ensures
        match last_setter(sets@, key@) {
            Some(h) => r.home == h && r.doc == h && r.home_label@ == label_at(labels@, h)
                && !r.available && r.changed == differs(current@, saved@, h, key@),
            None => r.home == -1 && r.doc == main && r.home_label@ == Seq::<char>::empty()
                && r.available && !r.changed,
        },
        r.is_new == new_keys@.contains(key@),
{
    let home = entry_home(sets, key);
    proof {
        lemma_last_setter(sets@, key@, home);
    }
    let is_new = new_keys.contains(key);
    match home {
        Some(h) => {
            let changed = !same_value(value_in(current, h, key), value_in(saved, h, key));
            RowState {
                home: h as i32,
                doc: h,
                home_label: label_of(labels, h),
                available: false,
                changed,
                is_new,
            }
        },
        None => RowState {
            home: -1,
            doc: main,
            home_label: String::new(),
            available: true,
            changed: false,
            is_new,
        },
    }
}

/// A row rebuilt after an edit: it belongs to its owner, or to the main
/// file when no document sets the key yet, and its change dot compares
/// that document with its snapshot. A rebuilt row never offers itself for
/// adding and carries no NEW badge.
pub fn refreshed_row_state(
    sets: &[KeySet],
    labels: &Vec<String>,
    current: &Vec<ValueMap>,
    saved: &Vec<ValueMap>,
    main: usize,
    key: &str,
) -> (r: RowState)
    requires
        sets@.len() <= i32::MAX,
        main <= i32::MAX,
    ensures
        r.doc == match last_setter(sets@, key@) {
            Some(h) => h,
            None => main as int,
        },
        r.home == r.doc,
        r.home_label@ == label_at(labels@, r.doc as int),
        r.changed == differs(current@, saved@, r.doc as int, key@),
        !r.available,
        !r.is_new,
{
    let found = entry_home(sets, key);
    proof {
        lemma_last_setter(sets@, key@, found);
    }
    let home = match found {
        Some(h) => h,
        None => main,
    };
    let changed = !same_value(value_in(current, home, key), value_in(saved, home, key));
    RowState {
        home: home as i32,
        doc: home,
        home_label: label_of(labels, home),
        available: false,
        changed,
        is_new: false,
    }
}

/// A key beyond the schema, as the "other" card of its page shows it: a
/// read-only row owned by the document that sets it last.
pub struct OtherRow {
    pub key: String,
    /// The value as the file writes it, without trailing comment; a dash
    /// when the owner holds no value for it.
    pub value: String,
    pub home: usize,
    pub home_label: String,
    pub changed: bool,
}

pub open spec fn nested_views(v: Seq<Vec<String>>) -> Seq<Seq<Seq<char>>> {
    v.map_values(|w: Vec<String>| string_views(w@))
}

/// `key` has a row in the other card: its area is one of `tops`, and the
/// document that owns it lists it among its keys beyond the schema.
pub open spec fn shows_other(
    sets: Seq<KeySet>,
    uncovered: Seq<Seq<Seq<char>>>,
    tops: Seq<Seq<char>>,
    key: Seq<char>,
) -> bool {
    &&& tops.contains(spec_top_level(key))
    &&& match last_setter(sets, key) {
        Some(h) => h < uncovered.len() && uncovered[h].contains(key),
        None => false,
    }
}

/// `key` shows, judging by the lists of the first `d` documents and the
/// first `m` keys of document `d`.
pub open spec fn shows_so_far(
    sets: Seq<KeySet>,
    uncovered: Seq<Seq<Seq<char>>>,
    tops: Seq<Seq<char>>,
    key: Seq<char>,
    d: int,
    m: int,
) -> bool {
    &&& tops.contains(spec_top_level(key))
    &&& exists|e: int, j: int|
        0 <= e < uncovered.len() && 0 <= j < uncovered[e].len() && (e < d || (e == d && j < m))
            && #[trigger] uncovered[e][j] == key && last_setter(sets, key) == Some(e)
}

proof fn lemma_last_setter_in_range(sets: Seq<KeySet>, key: Seq<char>)
    ensures
        last_setter(sets, key) matches Some(h) ==> 0 <= h < sets.len(),
    decreases sets.len(),
{
    if sets.len() > 0 {
        lemma_last_setter_in_range(sets.drop_last(), key);
    }
}

pub open spec fn other_value(current: Seq<ValueMap>, home: int, key: Seq<char>) -> Seq<char> {
    match value_at(current, home, key) {
        Some(v) => spec_strip_decor(v),
        None => "\u{2014}"@,
    }
}

/// The other card's rows of a page whose areas are `tops`: `uncovered[i]`
/// lists the keys document `i` sets that the schema does not describe.
/// One row per key, by its owner, in key order.
pub fn other_rows(
    sets: &[KeySet],
    uncovered: &Vec<Vec<String>>,
    tops: &Vec<String>,
    labels: &Vec<String>,
    current: &Vec<ValueMap>,
    saved: &Vec<ValueMap>,
) -> (r: Vec<OtherRow>)
    ensures
        forall|i: int, j: int| 0 <= i < j < r.len() ==> key_lt(#[trigger] r@[i].key@, #[trigger] r@[j].key@),
        forall|k: Seq<char>|
            shows_other(sets@, nested_views(uncovered@), string_views(tops@), k) <==> exists|i: int|
                0 <= i < r.len() && #[trigger] r@[i].key@ == k,
        forall|i: int|
            0 <= i < r.len() ==> {
                &&& last_setter(sets@, (#[trigger] r@[i]).key@) == Some(r@[i].home as int)
                &&& r@[i].value@ == other_value(current@, r@[i].home as int, r@[i].key@)
                &&& r@[i].home_label@ == label_at(labels@, r@[i].home as int)
                &&& r@[i].changed == differs(current@, saved@, r@[i].home as int, r@[i].key@)
            },
{
    let ghost un = nested_views(uncovered@);
    let ghost tv = string_views(tops@);
    let mut keys = ValueMap::new();
    let mut d: usize = 0;
    while d < uncovered.len()
        invariant
            d <= uncovered.len(),
            un == nested_views(uncovered@),
            tv == string_views(tops@),
            forall|k: Seq<char>| #[trigger] keys@.contains_key(k) <==> shows_so_far(sets@, un, tv, k, d as int, 0),
        decreases uncovered.len() - d,
    {
        let list = &uncovered[d];
        assert(un[d as int] == string_views(list@));
        let mut m: usize = 0;
        while m < list.len()
            invariant
                d < uncovered.len(),
                list == &uncovered@[d as int],
                m <= list.len(),
                un == nested_views(uncovered@),
                un[d as int] == string_views(list@),
                tv == string_views(tops@),
                forall|k: Seq<char>| #[trigger] keys@.contains_key(k) <==> shows_so_far(sets@, un, tv, k, d as int, m as int),
            decreases list.len() - m,
        {
            let path = &list[m];
            assert(un[d as int][m as int] == path@);
            let top = top_level(path.as_str());
            let home = entry_home(sets, path.as_str());
            proof {
                lemma_last_setter(sets@, path@, home);
            }
            let ghost before = keys@;
            if has_string(tops, top.as_str()) && home == Some(d) {
                keys.insert(path.clone(), String::new());
            }
            assert forall|k: Seq<char>| #[trigger] keys@.contains_key(k) <==> shows_so_far(sets@, un, tv, k, d as int, m + 1) by {
                if shows_so_far(sets@, un, tv, k, d as int, m + 1) {
                    let (e, j) = choose|e: int, j: int|
                        0 <= e < un.len() && 0 <= j < un[e].len() && (e < d || (e == d && j < m + 1))
                            && #[trigger] un[e][j] == k && last_setter(sets@, k) == Some(e);
                    if !(e == d && j == m) {
                        assert(shows_so_far(sets@, un, tv, k, d as int, m as int));
                    }
                }
                if before.contains_key(k) {
                    assert(shows_so_far(sets@, un, tv, k, d as int, m as int));
                    let (e, j) = choose|e: int, j: int|
                        0 <= e < un.len() && 0 <= j < un[e].len() && (e < d || (e == d && j < m))
                            && #[trigger] un[e][j] == k && last_setter(sets@, k) == Some(e);
                    assert(un[e][j] == k);
                }
            }
            m = m + 1;
        }
        assert forall|k: Seq<char>| #[trigger] keys@.contains_key(k) <==> shows_so_far(sets@, un, tv, k, d + 1, 0) by {
            if shows_so_far(sets@, un, tv, k, d as int, m as int) {
                let (e, j) = choose|e: int, j: int|
                    0 <= e < un.len() && 0 <= j < un[e].len() && (e < d || (e == d && j < m))
                        && #[trigger] un[e][j] == k && last_setter(sets@, k) == Some(e);
                assert(un[e][j] == k);
            }
            if shows_so_far(sets@, un, tv, k, d + 1, 0) {
                let (e, j) = choose|e: int, j: int|
                    0 <= e < un.len() && 0 <= j < un[e].len() && (e < d + 1 || (e == d + 1 && j < 0))
                        && #[trigger] un[e][j] == k && last_setter(sets@, k) == Some(e);
                assert(un[e][j] == k);
            }
        }
        d = d + 1;
    }
    assert forall|k: Seq<char>| #[trigger] keys@.contains_key(k) <==> shows_other(sets@, un, tv, k) by {
        if shows_so_far(sets@, un, tv, k, d as int, 0) {
            let (e, j) = choose|e: int, j: int|
                0 <= e < un.len() && 0 <= j < un[e].len() && (e < d || (e == d && j < 0))
                    && #[trigger] un[e][j] == k && last_setter(sets@, k) == Some(e);
            assert(un[e].contains(k));
        }
        if shows_other(sets@, un, tv, k) {
            let h = last_setter(sets@, k)->Some_0;
            lemma_last_setter_in_range(sets@, k);
            let j = choose|j: int| 0 <= j < un[h].len() && un[h][j] == k;
            assert(un[h][j] == k);
            assert(shows_so_far(sets@, un, tv, k, d as int, 0));
        }
    }
    proof {
        use_type_invariant(&keys);
        keys.lemma_view();
    }
    let pairs = keys.entries_clone();
    let ghost p = keys.pairs();
    let mut out: Vec<OtherRow> = Vec::new();
    let mut g: usize = 0;
    while g < pairs.len()
        invariant
            g <= pairs.len(),
            pairs_view(pairs@) == p,
            out.len() == g,
            forall|a: int| 0 <= a < g ==> (#[trigger] out@[a]).key@ == p[a].0,
            forall|a: int|
                0 <= a < g ==> {
                    &&& last_setter(sets@, (#[trigger] out@[a]).key@) == Some(out@[a].home as int)
                    &&& out@[a].value@ == other_value(current@, out@[a].home as int, out@[a].key@)
                    &&& out@[a].home_label@ == label_at(labels@, out@[a].home as int)
                    &&& out@[a].changed == differs(current@, saved@, out@[a].home as int, out@[a].key@)
                },
            forall|k: Seq<char>| #[trigger] keys@.contains_key(k) <==> shows_other(sets@, un, tv, k),
            forall|a: int| #![trigger p[a]] 0 <= a < p.len() ==> keys@.contains_key(p[a].0),
        decreases pairs.len() - g,
    {
        let key = &pairs[g].0;
        assert(p[g as int].0 == key@);
        let found = entry_home(sets, key.as_str());
        proof {
            lemma_last_setter(sets@, key@, found);
            assert(keys@.contains_key(p[g as int].0));
        }
        match found {
            Some(h) => {
                let value = match value_in(current, h, key.as_str()) {
                    Some(v) => strip_decor(v.as_str()),
                    None => owned("\u{2014}"),
                };
                let changed = !same_value(value_in(current, h, key.as_str()), value_in(saved, h, key.as_str()));
                let row = OtherRow { key: key.clone(), value, home: h, home_label: label_of(labels, h), changed };
                out.push(row);
            },
            None => {
                proof {
                    assert(false);
                }
            },
        }
        g = g + 1;
    }
    proof {
        assert forall|k: Seq<char>|
            shows_other(sets@, un, tv, k) implies exists|i: int| 0 <= i < out.len() && #[trigger] out@[i].key@ == k by {
            assert(keys@.contains_key(k));
            let a = choose|a: int| has_key_at(p, k, a);
            assert(out@[a].key@ == k);
        }
        assert forall|k: Seq<char>|
            (exists|i: int| 0 <= i < out.len() && #[trigger] out@[i].key@ == k) implies shows_other(sets@, un, tv, k) by {
            let i = choose|i: int| 0 <= i < out.len() && #[trigger] out@[i].key@ == k;
            assert(keys@.contains_key(p[i].0));
        }
        assert forall|i: int, j: int| 0 <= i < j < out.len() implies key_lt(#[trigger] out@[i].key@, #[trigger] out@[j].key@) by {
            assert(out@[i].key@ == p[i].0 && out@[j].key@ == p[j].0);
        }
    }
    out
}

} // verus!
