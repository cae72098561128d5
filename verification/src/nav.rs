//! The sidebar: grouped catalog pages with NEW-key badges, then the
//! top-level areas the catalog does not claim, under MORE; and which
//! surface an entry opens.

use vstd::prelude::*;

use crate::catalog::{
    catalog, contains_str, groups, group_title, page, page_top_levels, page_view, pages,
    pages_view, spec_group_title, spec_groups, spec_page_top_levels, PageView, MORE_GROUP,
    OUTPUTS_ID,
};
use crate::common::{prettify, section_names, spec_prettify, top_names};
use crate::keys::key_lt;
use crate::sections::{first_exact, page_id_for_section, spec_page_id_for_section};
use crate::text::{chars_eq, chars_of, owned, starts_with, starts_with_chars, str_eq, string_views, upper, upper_ascii};
use crate::update::opt_view;
use crate::values::pairs_view;
use crate::rules::{rule_family, spec_rule_family};

verus! {

/// The page whose badge a NEW key counts on: output keys count on the
/// outputs page; other keys on the page of the first schema entry with
/// that dotted key (`schema` holds `(dotted key, section)`); a key the
/// schema does not know counts nowhere.
pub open spec fn spec_new_key_page(key: Seq<char>, schema: Seq<(Seq<char>, Seq<char>)>) -> Option<Seq<char>> {
    if starts_with(key, "output."@) {
        Some("outputs"@)
    } else {
        match first_exact(schema, key) {
            Some(section) => Some(spec_page_id_for_section(section)),
            None => None,
        }
    }
}

pub fn new_key_page(key: &str, schema: &Vec<(String, String)>) -> (r: Option<String>)
    ensures
        opt_view(r) == spec_new_key_page(key@, pairs_view(schema@)),
{
    let k = chars_of(key);
    let prefix = chars_of("output.");
    if starts_with_chars(&k, &prefix) {
        return Some(owned(OUTPUTS_ID));
    }
    let ghost all = pairs_view(schema@);
    let mut i: usize = 0;
    assert(all.skip(0) =~= all);
    while i < schema.len()
        invariant
            all == pairs_view(schema@),
            i <= schema.len(),
            !starts_with(key@, "output."@),
            first_exact(all, key@) == first_exact(all.skip(i as int), key@),
        decreases schema.len() - i,
    {
        assert(all.skip(i as int).drop_first() =~= all.skip(i + 1));
        assert(all.skip(i as int)[0] == all[i as int]);
        assert(all[i as int] == (schema@[i as int].0@, schema@[i as int].1@));
        if str_eq(schema[i].0.as_str(), key) {
            return Some(page_id_for_section(schema[i].1.as_str()));
        }
        i = i + 1;
    }
    assert(all.skip(schema.len() as int) =~= Seq::<(Seq<char>, Seq<char>)>::empty());
    None
}

/// How many of the pages are `id`.
pub open spec fn count_page(ps: Seq<Option<Seq<char>>>, id: Seq<char>) -> nat
    decreases ps.len(),
{
    if ps.len() == 0 {
        0
    } else {
        count_page(ps.drop_last(), id) + if ps.last() == Some(id) {
            1nat
        } else {
            0nat
        }
    }
}

/// The NEW-key count of a page.
pub open spec fn spec_new_count(keys: Seq<Seq<char>>, schema: Seq<(Seq<char>, Seq<char>)>, id: Seq<char>) -> nat {
    count_page(keys.map_values(|k: Seq<char>| spec_new_key_page(k, schema)), id)
}

pub open spec fn opts_view(v: Seq<Option<String>>) -> Seq<Option<Seq<char>>> {
    v.map_values(|o: Option<String>| opt_view(o))
}

/// The badge page of each NEW key.
fn new_key_pages(keys: &Vec<String>, schema: &Vec<(String, String)>) -> (r: Vec<Option<String>>)
    ensures
        opts_view(r@) == string_views(keys@).map_values(|k: Seq<char>| spec_new_key_page(k, pairs_view(schema@))),
{
    let ghost want = string_views(keys@).map_values(|k: Seq<char>| spec_new_key_page(k, pairs_view(schema@)));
    let mut r: Vec<Option<String>> = Vec::new();
    let mut i: usize = 0;
    while i < keys.len()
        invariant
            i <= keys.len(),
            want == string_views(keys@).map_values(|k: Seq<char>| spec_new_key_page(k, pairs_view(schema@))),
            opts_view(r@) == want.take(i as int),
        decreases keys.len() - i,
    {
        let p = new_key_page(keys[i].as_str(), schema);
        assert(string_views(keys@)[i as int] == keys@[i as int]@);
        assert(want[i as int] == spec_new_key_page(keys@[i as int]@, pairs_view(schema@)));
        let ghost prev = r@;
        let ghost pv = opt_view(p);
        r.push(p);
        assert(r@ == prev.push(r@.last()));
        assert(opts_view(r@) =~= opts_view(prev).push(pv));
        assert(want.take(i + 1) =~= want.take(i as int).push(want[i as int]));
        assert(opts_view(r@) =~= want.take(i + 1));
        i = i + 1;
    }
    assert(want.take(keys.len() as int) =~= want);
    r
}

/// How many of the pages are `id`.
fn new_count(ps: &Vec<Option<String>>, id: &str) -> (n: usize)
    ensures
        n == count_page(opts_view(ps@), id@),
{
    let ghost v = opts_view(ps@);
    let mut n: usize = 0;
    let mut i: usize = 0;
    while i < ps.len()
        invariant
            i <= ps.len(),
            v == opts_view(ps@),
            n == count_page(v.take(i as int), id@),
            n <= i,
        decreases ps.len() - i,
    {
        assert(v.take(i + 1).drop_last() =~= v.take(i as int));
        let hit = match &ps[i] {
            Some(p) => str_eq(p.as_str(), id),
            None => false,
        };
        if hit {
            n = n + 1;
        }
        i = i + 1;
    }
    assert(v.take(ps.len() as int) =~= v);
    n
}

/// One sidebar row: a page (its title, id and NEW count) or a group
/// header.
pub struct NavItem {
    pub label: String,
    pub id: String,
    pub new_count: usize,
    pub is_header: bool,
}

pub open spec fn nav_view(n: NavItem) -> (Seq<char>, Seq<char>, nat, bool) {
    (n.label@, n.id@, n.new_count as nat, n.is_header)
}

pub open spec fn navs_view(v: Seq<NavItem>) -> Seq<(Seq<char>, Seq<char>, nat, bool)> {
    v.map_values(|n: NavItem| nav_view(n))
}

/// A catalog page's row.
pub open spec fn page_row(
    p: PageView,
    keys: Seq<Seq<char>>,
    schema: Seq<(Seq<char>, Seq<char>)>,
) -> (Seq<char>, Seq<char>, nat, bool) {
    (p.title, p.id, spec_new_count(keys, schema, p.id), false)
}

/// A group's header row: its title in capitals (the titles are ASCII).
pub open spec fn header_row(group: Seq<char>) -> (Seq<char>, Seq<char>, nat, bool) {
    (upper(spec_group_title(group)), seq![], 0, true)
}

/// The rows of the pages of `cat` in `group`, in order.
pub open spec fn group_rows(
    cat: Seq<PageView>,
    group: Seq<char>,
    keys: Seq<Seq<char>>,
    schema: Seq<(Seq<char>, Seq<char>)>,
) -> Seq<(Seq<char>, Seq<char>, nat, bool)>
    decreases cat.len(),
{
    if cat.len() == 0 {
        seq![]
    } else if cat.last().group == group {
        group_rows(cat.drop_last(), group, keys, schema).push(page_row(cat.last(), keys, schema))
    } else {
        group_rows(cat.drop_last(), group, keys, schema)
    }
}

/// Each group but the outputs one: its header, then its pages.
pub open spec fn groups_rows(
    gs: Seq<Seq<char>>,
    keys: Seq<Seq<char>>,
    schema: Seq<(Seq<char>, Seq<char>)>,
) -> Seq<(Seq<char>, Seq<char>, nat, bool)>
    decreases gs.len(),
{
    if gs.len() == 0 {
        seq![]
    } else if gs.last() == "outputs"@ {
        groups_rows(gs.drop_last(), keys, schema)
    } else {
        groups_rows(gs.drop_last(), keys, schema) + seq![header_row(gs.last())] + group_rows(
            catalog(),
            gs.last(),
            keys,
            schema,
        )
    }
}

/// The catalog part of the sidebar: the outputs page leads without a
/// header, then each other group.
pub open spec fn catalog_rows(
    keys: Seq<Seq<char>>,
    schema: Seq<(Seq<char>, Seq<char>)>,
) -> Seq<(Seq<char>, Seq<char>, nat, bool)> {
    seq![page_row(catalog()[0], keys, schema)] + groups_rows(spec_groups(), keys, schema)
}

/// The sidebar lists the catalog's page `i`: the leading outputs page, or
/// a page of one of the other groups.
pub open spec fn listed(cat: Seq<PageView>, i: int) -> bool {
    i == 0 || (cat[i].group != "outputs"@ && spec_groups().contains(cat[i].group))
}

/// A top-level area some listed page covers.
pub open spec fn claimed_top(t: Seq<char>) -> bool {
    exists|i: int| 0 <= i < catalog().len() && listed(catalog(), i) && #[trigger] spec_page_top_levels(catalog()[i]).contains(t)
}

/// The sections of `(dotted key, section)` schema entries.
pub open spec fn sections_of(schema: Seq<(Seq<char>, Seq<char>)>) -> Seq<Seq<char>> {
    schema.map_values(|e: (Seq<char>, Seq<char>)| e.1)
}

/// The whole sidebar: the catalog rows, then, when some top-level area of
/// the schema is claimed by no listed page, the MORE header followed by
/// one row per such area, in name order, titled by its prettified name.
pub open spec fn spec_section_nav(
    r: Seq<(Seq<char>, Seq<char>, nat, bool)>,
    sections: Seq<Seq<char>>,
    keys: Seq<Seq<char>>,
    schema: Seq<(Seq<char>, Seq<char>)>,
) -> bool {
    let pre = catalog_rows(keys, schema);
    let more = r.skip(pre.len() as int);
    &&& r.len() >= pre.len()
    &&& r.take(pre.len() as int) == pre
    &&& (more.len() == 0 <==> forall|t: Seq<char>| #[trigger] top_names(sections).contains(t) ==> claimed_top(t))
    &&& more.len() > 0 ==> {
        &&& more[0] == header_row("more"@)
        &&& forall|i: int, j: int| 1 <= i < j < more.len() ==> key_lt(#[trigger] more[i].1, #[trigger] more[j].1)
        &&& forall|i: int| 1 <= i < more.len() ==> #[trigger] more[i] == (
            spec_prettify(more[i].1),
            more[i].1,
            spec_new_count(keys, schema, more[i].1),
            false,
        )
        &&& forall|t: Seq<char>| (#[trigger] top_names(sections).contains(t) && !claimed_top(t)) <==> exists|i: int|
            #![trigger more[i]] 1 <= i < more.len() && more[i].1 == t
    }
}

/// Appends a catalog page's row.
fn push_page_row(
    nav: &mut Vec<NavItem>,
    p: &crate::catalog::Page,
    pages_of_keys: &Vec<Option<String>>,
    Ghost(keys): Ghost<Seq<Seq<char>>>,
    Ghost(schema): Ghost<Seq<(Seq<char>, Seq<char>)>>,
)
    requires
        opts_view(pages_of_keys@) == keys.map_values(|k: Seq<char>| spec_new_key_page(k, schema)),
    ensures
        navs_view(final(nav)@) == navs_view(old(nav)@).push(page_row(page_view(*p), keys, schema)),
{
    let n = new_count(pages_of_keys, p.id);
    nav.push(NavItem { label: owned(p.title), id: owned(p.id), new_count: n, is_header: false });
    assert(navs_view(nav@) =~= navs_view(old(nav)@).push(page_row(page_view(*p), keys, schema)));
}

/// Appends a group header.
fn push_header(nav: &mut Vec<NavItem>, group: &str)
    ensures
        navs_view(final(nav)@) == navs_view(old(nav)@).push(header_row(group@)),
{
    let title = group_title(group);
    nav.push(NavItem { label: upper_ascii(title), id: String::new(), new_count: 0, is_header: true });
    assert(navs_view(nav@) =~= navs_view(old(nav)@).push(header_row(group@)));
}

/// The texts of a list of string slices.
pub open spec fn strs_view(v: Seq<&'static str>) -> Seq<Seq<char>> {
    v.map_values(|x: &'static str| x@)
}

proof fn lemma_push_contains(s: Seq<Seq<char>>, x: Seq<char>, t: Seq<char>)
    ensures
        s.push(x).contains(t) <==> (s.contains(t) || x == t),
{
    if s.push(x).contains(t) {
        let a = choose|a: int| 0 <= a < s.push(x).len() && s.push(x)[a] == t;
        if a < s.len() {
            assert(s[a] == t);
        }
    }
    if s.contains(t) {
        let a = choose|a: int| 0 <= a < s.len() && s[a] == t;
        assert(s.push(x)[a] == t);
    }
    if x == t {
        assert(s.push(x)[s.len() as int] == t);
    }
}

/// The top-level areas of the listed pages.
fn claimed_tops(all: &Vec<crate::catalog::Page>, gs: &Vec<&'static str>) -> (r: Vec<&'static str>)
    requires
        pages_view(all@) == catalog(),
        gs@.map_values(|g: &'static str| g@) == spec_groups(),
    ensures
        forall|t: Seq<char>| #[trigger] strs_view(r@).contains(t) <==> claimed_top(t),
{
    let ghost cat = pages_view(all@);
    let mut out: Vec<&'static str> = Vec::new();
    let mut i: usize = 0;
    while i < all.len()
        invariant
            cat == pages_view(all@),
            cat == catalog(),
            gs@.map_values(|g: &'static str| g@) == spec_groups(),
            i <= all.len(),
            forall|t: Seq<char>| #[trigger] strs_view(out@).contains(t) <==> exists|j: int|
                0 <= j < i && listed(cat, j) && #[trigger] spec_page_top_levels(cat[j]).contains(t),
        decreases all.len() - i,
    {
        let p = &all[i];
        assert(cat[i as int] == page_view(*p));
        let is_listed = if i == 0 {
            true
        } else if str_eq(p.group, "outputs") {
            false
        } else {
            contains_str(gs, p.group)
        };
        assert(is_listed == listed(cat, i as int));
        let ghost before = strs_view(out@);
        if is_listed {
            let tops = page_top_levels(p);
            let ghost tv = strs_view(tops@);
            assert(tv == spec_page_top_levels(cat[i as int]));
            let mut k: usize = 0;
            assert(tv.take(0) =~= Seq::<Seq<char>>::empty());
            while k < tops.len()
                invariant
                    k <= tops.len(),
                    tv == strs_view(tops@),
                    forall|t: Seq<char>| #[trigger] strs_view(out@).contains(t) <==> (before.contains(t) || tv.take(k as int).contains(t)),
                decreases tops.len() - k,
            {
                let ghost prev = strs_view(out@);
                out.push(tops[k]);
                assert(strs_view(out@) =~= prev.push(tv[k as int]));
                assert(tv.take(k + 1) =~= tv.take(k as int).push(tv[k as int]));
                assert forall|t: Seq<char>| #[trigger] strs_view(out@).contains(t) <==> (before.contains(t) || tv.take(k + 1).contains(t)) by {
                    lemma_push_contains(prev, tv[k as int], t);
                    lemma_push_contains(tv.take(k as int), tv[k as int], t);
                }
                k = k + 1;
            }
            assert(tv.take(tops.len() as int) =~= tv);
        }
        assert forall|t: Seq<char>| #[trigger] strs_view(out@).contains(t) <==> exists|j: int|
            0 <= j < i + 1 && listed(cat, j) && #[trigger] spec_page_top_levels(cat[j]).contains(t) by {
            if exists|j: int| 0 <= j < i + 1 && listed(cat, j) && #[trigger] spec_page_top_levels(cat[j]).contains(t) {
                let j = choose|j: int| 0 <= j < i + 1 && listed(cat, j) && #[trigger] spec_page_top_levels(cat[j]).contains(t);
                if j < i {
                    assert(before.contains(t));
                }
            }
        }
        i = i + 1;
    }
    out
}

/// The sidebar model: grouped catalog pages (the outputs page first, with
/// no header of its own) and, under MORE, the top-level areas of the
/// schema that no listed page covers, each with the NEW count of its page.
/// `schema` holds each entry's `(dotted key, section)`.
pub fn section_nav(schema: &Vec<(String, String)>, new_keys: &Vec<String>) -> (r: Vec<NavItem>)
    ensures
        spec_section_nav(
            navs_view(r@),
            sections_of(pairs_view(schema@)),
            string_views(new_keys@),
            pairs_view(schema@),
        ),
{
    let ghost keys = string_views(new_keys@);
    let ghost sch = pairs_view(schema@);
    let ps = new_key_pages(new_keys, schema);
    let all = pages();
    let gs = groups();
    let ghost cat = pages_view(all@);
    let mut nav: Vec<NavItem> = Vec::new();
    match page(OUTPUTS_ID) {
        Some(p) => {
            proof {
                let i = choose|i: int| crate::catalog::first_page_with(catalog(), i, "outputs"@) && page_view(p) == #[trigger] catalog()[i];
                if i > 0 {
                    assert(catalog()[0].id == "outputs"@);
                }
            }
            push_page_row(&mut nav, &p, &ps, Ghost(keys), Ghost(sch));
        },
        None => {
            assert(catalog()[0].id == "outputs"@);
            assert(crate::catalog::has_page(catalog(), "outputs"@));
        },
    }
    let ghost lead = navs_view(nav@);
    assert(lead == seq![page_row(catalog()[0], keys, sch)]);
    let mut gi: usize = 0;
    assert(spec_groups().take(0) =~= Seq::<Seq<char>>::empty());
    while gi < gs.len()
        invariant
            gi <= gs.len(),
            gs@.map_values(|g: &'static str| g@) == spec_groups(),
            cat == pages_view(all@),
            cat == catalog(),
            lead == seq![page_row(catalog()[0], keys, sch)],
            opts_view(ps@) == keys.map_values(|k: Seq<char>| spec_new_key_page(k, sch)),
            navs_view(nav@) == lead + groups_rows(spec_groups().take(gi as int), keys, sch),
        decreases gs.len() - gi,
    {
        let g = gs[gi];
        assert(spec_groups()[gi as int] == g@);
        assert(spec_groups().take(gi + 1).drop_last() =~= spec_groups().take(gi as int));
        if !str_eq(g, "outputs") {
            push_header(&mut nav, g);
            let ghost start = navs_view(nav@);
            let mut k: usize = 0;
            assert(cat.take(0) =~= Seq::<PageView>::empty());
            while k < all.len()
                invariant
                    k <= all.len(),
                    cat == pages_view(all@),
                    opts_view(ps@) == keys.map_values(|kk: Seq<char>| spec_new_key_page(kk, sch)),
                    navs_view(nav@) == start + group_rows(cat.take(k as int), g@, keys, sch),
                decreases all.len() - k,
            {
                assert(cat.take(k + 1).drop_last() =~= cat.take(k as int));
                assert(cat[k as int] == page_view(all@[k as int]));
                if str_eq(all[k].group, g) {
                    push_page_row(&mut nav, &all[k], &ps, Ghost(keys), Ghost(sch));
                }
                k = k + 1;
            }
            assert(cat.take(all.len() as int) =~= cat);
            assert(navs_view(nav@) =~= lead + groups_rows(spec_groups().take(gi + 1), keys, sch));
        }
        gi = gi + 1;
    }
    assert(spec_groups().take(gs.len() as int) =~= spec_groups());
    let ghost pre = navs_view(nav@);
    assert(pre == catalog_rows(keys, sch));
    let claimed = claimed_tops(&all, &gs);
    let ghost secs = sections_of(sch);
    let mut sections: Vec<String> = Vec::new();
    let mut s: usize = 0;
    while s < schema.len()
        invariant
            s <= schema.len(),
            sch == pairs_view(schema@),
            secs == sections_of(sch),
            string_views(sections@) == secs.take(s as int),
        decreases schema.len() - s,
    {
        assert(sch[s as int] == (schema@[s as int].0@, schema@[s as int].1@));
        assert(secs[s as int] == schema@[s as int].1@);
        let ghost prev = sections@;
        let sec = schema[s].1.clone();
        assert(sec@ == schema@[s as int].1@);
        sections.push(sec);
        assert(string_views(sections@) =~= string_views(prev).push(secs[s as int]));
        assert(secs.take(s + 1) =~= secs.take(s as int).push(secs[s as int]));
        assert(string_views(sections@) =~= secs.take(s + 1));
        s = s + 1;
    }
    assert(secs.take(schema.len() as int) =~= secs);
    let names = section_names(&sections);
    let mut more: Vec<String> = Vec::new();
    let mut m: usize = 0;
    while m < names.len()
        invariant
            m <= names.len(),
            forall|i: int, j: int| 0 <= i < j < names@.len() ==> key_lt(#[trigger] names@[i]@, #[trigger] names@[j]@),
            forall|t: Seq<char>| #[trigger] strs_view(claimed@).contains(t) <==> claimed_top(t),
            forall|i: int, j: int| 0 <= i < j < more@.len() ==> key_lt(#[trigger] more@[i]@, #[trigger] more@[j]@),
            forall|i: int| #![trigger more@[i]] 0 <= i < more@.len() ==> exists|a: int| 0 <= a < m && #[trigger] names@[a]@ == more@[i]@,
            forall|t: Seq<char>| #![trigger string_views(more@).contains(t)]
                (string_views(names@).take(m as int).contains(t) && !claimed_top(t)) <==> string_views(more@).contains(t),
        decreases names.len() - m,
    {
        let ghost prev = more@;
        let keep = !contains_str(&claimed, names[m].as_str());
        if keep {
            more.push(names[m].clone());
            assert forall|i: int, j: int| 0 <= i < j < more@.len() implies key_lt(#[trigger] more@[i]@, #[trigger] more@[j]@) by {
                if j == more@.len() - 1 {
                    assert(prev[i] == more@[i]);
                    let a = choose|a: int| 0 <= a < m && #[trigger] names@[a]@ == prev[i]@;
                    assert(key_lt(names@[a]@, names@[m as int]@));
                } else {
                    assert(prev[i] == more@[i] && prev[j] == more@[j]);
                }
            }
            assert forall|i: int| #![trigger more@[i]] 0 <= i < more@.len() implies exists|a: int| 0 <= a < m + 1 && #[trigger] names@[a]@ == more@[i]@ by {
                if i < prev.len() {
                    assert(prev[i] == more@[i]);
                } else {
                    assert(names@[m as int]@ == more@[i]@);
                }
            }
            assert(string_views(more@) =~= string_views(prev).push(names@[m as int]@));
        }
        assert(string_views(names@).take(m + 1) =~= string_views(names@).take(m as int).push(names@[m as int]@));
        assert forall|t: Seq<char>| #![trigger string_views(more@).contains(t)]
            (string_views(names@).take(m + 1).contains(t) && !claimed_top(t)) <==> string_views(more@).contains(t) by {
            lemma_push_contains(string_views(names@).take(m as int), names@[m as int]@, t);
            lemma_push_contains(string_views(prev), names@[m as int]@, t);
            assert(strs_view(claimed@).contains(names@[m as int]@) == claimed_top(names@[m as int]@));
        }
        m = m + 1;
    }
    assert(string_views(names@).take(names.len() as int) =~= string_views(names@));
    if more.len() > 0 {
        push_header(&mut nav, MORE_GROUP);
        let mut k: usize = 0;
        while k < more.len()
            invariant
                k <= more.len(),
                navs_view(nav@).len() == pre.len() + 1 + k,
                navs_view(nav@).take(pre.len() + 1int) == pre.push(header_row("more"@)),
                forall|i: int| 0 <= i < k ==> #[trigger] navs_view(nav@)[pre.len() + 1 + i] == (
                    spec_prettify(more@[i]@),
                    more@[i]@,
                    spec_new_count(keys, sch, more@[i]@),
                    false,
                ),
                opts_view(ps@) == keys.map_values(|kk: Seq<char>| spec_new_key_page(kk, sch)),
            decreases more.len() - k,
        {
            let name = &more[k];
            let n = new_count(&ps, name.as_str());
            let ghost prev = navs_view(nav@);
            nav.push(NavItem { label: prettify(name.as_str()), id: name.clone(), new_count: n, is_header: false });
            assert(navs_view(nav@) =~= prev.push(navs_view(nav@).last()));
            assert(navs_view(nav@).take(pre.len() + 1int) =~= prev.take(pre.len() + 1int));
            k = k + 1;
        }
    }
    proof {
        let r = navs_view(nav@);
        let tail = r.skip(pre.len() as int);
        assert forall|t: Seq<char>| top_names(secs).contains(t) <==> #[trigger] string_views(names@).contains(t) by {
            if top_names(secs).contains(t) {
                let a = choose|a: int| 0 <= a < names@.len() && #[trigger] names@[a]@ == t;
                assert(string_views(names@)[a] == t);
            }
            if string_views(names@).contains(t) {
                let a = choose|a: int| 0 <= a < names@.len() && #[trigger] string_views(names@)[a] == t;
                assert(names@[a]@ == t);
            }
        }
        if more@.len() > 0 {
            assert(r.take(pre.len() as int) =~= pre);
            assert(tail[0] == r.take(pre.len() + 1int)[pre.len() as int]);
            assert(tail[0] == header_row("more"@));
            assert forall|t: Seq<char>| (#[trigger] top_names(secs).contains(t) && !claimed_top(t)) <==> exists|i: int|
                #![trigger tail[i]] 1 <= i < tail.len() && tail[i].1 == t by {
                if top_names(secs).contains(t) && !claimed_top(t) {
                    assert(string_views(more@).contains(t));
                    let i = choose|i: int| 0 <= i < more@.len() && #[trigger] string_views(more@)[i] == t;
                    assert(tail[i + 1] == r[pre.len() + 1 + i]);
                }
                if exists|i: int| 1 <= i < tail.len() && tail[i].1 == t {
                    let i = choose|i: int| 1 <= i < tail.len() && tail[i].1 == t;
                    assert(tail[i] == r[pre.len() + 1 + (i - 1)]);
                    assert(string_views(more@)[i - 1] == t);
                    assert(string_views(more@).contains(t));
                }
            }
            assert forall|i: int, j: int| 1 <= i < j < tail.len() implies key_lt(#[trigger] tail[i].1, #[trigger] tail[j].1) by {
                assert(tail[i] == r[pre.len() + 1 + (i - 1)]);
                assert(tail[j] == r[pre.len() + 1 + (j - 1)]);
            }
            assert forall|i: int| 1 <= i < tail.len() implies #[trigger] tail[i] == (
                spec_prettify(tail[i].1),
                tail[i].1,
                spec_new_count(keys, sch, tail[i].1),
                false,
            ) by {
                assert(tail[i] == r[pre.len() + 1 + (i - 1)]);
            }
            let t0 = more@[0]@;
            assert(string_views(more@)[0] == t0);
            assert(string_views(more@).contains(t0));
            assert(top_names(secs).contains(t0) && !claimed_top(t0));
            assert(spec_section_nav(r, secs, keys, sch));
        } else {
            assert(r =~= pre);
            assert(r.take(pre.len() as int) =~= pre);
            assert(tail.len() == 0);
            assert forall|t: Seq<char>| #[trigger] top_names(secs).contains(t) implies claimed_top(t) by {
                assert(string_views(names@).contains(t));
                assert(!string_views(more@).contains(t));
            }
            assert(spec_section_nav(r, secs, keys, sch));
        }
    }
    nav
}

/// The page the window opens on: the first page row of the sidebar, the
/// outputs page only when the config already configures outputs.
pub open spec fn opens_on(nav: Seq<(Seq<char>, Seq<char>, nat, bool)>, i: int, configured_outputs: bool) -> bool {
    !nav[i].3 && (configured_outputs || nav[i].1 != "outputs"@)
}

pub fn landing_page(nav: &Vec<NavItem>, configured_outputs: bool) -> (r: Option<usize>)
    ensures
        match r {
            Some(i) => i < nav.len() && opens_on(navs_view(nav@), i as int, configured_outputs) && forall|j: int|
                0 <= j < i ==> !opens_on(navs_view(nav@), j, configured_outputs),
            None => forall|j: int| 0 <= j < nav.len() ==> !opens_on(navs_view(nav@), j, configured_outputs),
        },
{
    let mut i: usize = 0;
    while i < nav.len()
        invariant
            i <= nav.len(),
            forall|j: int| 0 <= j < i ==> !opens_on(navs_view(nav@), j, configured_outputs),
        decreases nav.len() - i,
    {
        assert(navs_view(nav@)[i as int] == nav_view(nav@[i as int]));
        if !nav[i].is_header && (configured_outputs || !str_eq(nav[i].id.as_str(), OUTPUTS_ID)) {
            return Some(i);
        }
        i = i + 1;
    }
    None
}

/// The save popup's destination picker: the main file first, then the
/// includes in chain order (`labels` is in chain order, main last).
pub fn destinations(labels: &Vec<String>) -> (r: Vec<String>)
    requires
        labels.len() > 0,
    ensures
        string_views(r@) == seq![string_views(labels@).last()] + string_views(labels@).drop_last(),
{
    let main = labels.len() - 1;
    let mut out: Vec<String> = Vec::new();
    out.push(labels[main].clone());
    let mut i: usize = 0;
    while i < main
        invariant
            main == labels.len() - 1,
            i <= main,
            string_views(out@) == seq![string_views(labels@).last()] + string_views(labels@).take(i as int),
        decreases main - i,
    {
        let ghost prev = string_views(out@);
        out.push(labels[i].clone());
        assert(string_views(out@) =~= prev.push(labels@[i as int]@));
        assert(string_views(labels@).take(i + 1) =~= string_views(labels@).take(i as int).push(labels@[i as int]@));
        i = i + 1;
    }
    assert(string_views(labels@).take(main as int) =~= string_views(labels@).drop_last());
    out
}

/// Which surface a sidebar entry opens.
#[derive(Debug, Clone, Copy, PartialEq, Eq, Structural)]
pub enum Surface {
    /// The monitors, rescanned on open.
    Outputs,
    /// The shader library, rescanned on open.
    Shaders,
    /// One rule family's rules.
    Rules,
    Keybinds,
    /// A settings page of cards.
    Section,
}

pub open spec fn spec_surface(page_id: Seq<char>) -> Surface {
    if page_id == "outputs"@ {
        Surface::Outputs
    } else if page_id == "shaders"@ {
        Surface::Shaders
    } else if spec_rule_family(page_id) is Some {
        Surface::Rules
    } else if page_id == "keybinds"@ {
        Surface::Keybinds
    } else {
        Surface::Section
    }
}

pub fn surface(page_id: &str) -> (r: Surface)
    ensures
        r == spec_surface(page_id@),
{
    if str_eq(page_id, "outputs") {
        Surface::Outputs
    } else if str_eq(page_id, "shaders") {
        Surface::Shaders
    } else if rule_family(page_id).is_some() {
        Surface::Rules
    } else if str_eq(page_id, "keybinds") {
        Surface::Keybinds
    } else {
        Surface::Section
    }
}

} // verus!
