//! The cards of a settings page: one per curated sub-section of a catalog
//! page, then one per sub-section of the page's areas that the catalog
//! does not curate yet; a MORE page gets one card per sub-section of its
//! area. Each card lists schema entries by their index in the schema.

use vstd::prelude::*;

use crate::catalog::{
    catalog, claims, contains_str, dedup, first_page_with, has_page, lemma_catalog_ids_distinct, page_claims,
    page_top_levels, page_view, spec_page_top_levels, Page, PageView,
};
use crate::sections::{first_exact, first_in_area, spec_page_id_for_section};
use crate::common::{prettify, spec_prettify};
use crate::keys::{key_lt, lemma_key_lt_transitive};
use crate::text::{
    append_str, chars_eq, chars_of, spec_top_level, starts_with, starts_with_chars, str_eq,
    string_of, string_views, top_level,
};
use crate::values::{has_key_at, pairs_view, ValueMap};

verus! {

/// A schema entry as the page layout reads it: its section and the last
/// part of its key.
pub struct CardEntry {
    pub section: String,
    pub leaf: String,
}

pub open spec fn entry_view(e: CardEntry) -> (Seq<char>, Seq<char>) {
    (e.section@, e.leaf@)
}

pub open spec fn schema_view(v: Seq<CardEntry>) -> Seq<(Seq<char>, Seq<char>)> {
    v.map_values(|e: CardEntry| entry_view(e))
}

/// One card: its title, its stable key (for the open/closed state) and
/// the schema entries it lists.
pub struct CardPlan {
    pub title: String,
    pub key: String,
    pub entries: Vec<usize>,
}

pub open spec fn plan_view(c: CardPlan) -> (Seq<char>, Seq<char>, Seq<usize>) {
    (c.title@, c.key@, c.entries@)
}

pub open spec fn plans_view(v: Seq<CardPlan>) -> Seq<(Seq<char>, Seq<char>, Seq<usize>)> {
    v.map_values(|c: CardPlan| plan_view(c))
}

/// Shader paths belong to the Shaders page's assignment UI, not to a
/// settings card.
pub open spec fn is_shader_path(e: (Seq<char>, Seq<char>)) -> bool {
    starts_with(e.0, "animation."@) && e.1 == "shader"@
}

/// The entries of the first `n` whose section is `section` and that are
/// not shader paths, in schema order.
pub open spec fn curated_entries(schema: Seq<(Seq<char>, Seq<char>)>, section: Seq<char>, n: int) -> Seq<usize>
    decreases n,
{
    if n <= 0 {
        seq![]
    } else if schema[n - 1].0 == section && !is_shader_path(schema[n - 1]) {
        curated_entries(schema, section, n - 1).push((n - 1) as usize)
    } else {
        curated_entries(schema, section, n - 1)
    }
}

pub open spec fn card_key(page_id: Seq<char>, title: Seq<char>) -> Seq<char> {
    "card:"@ + page_id + ":"@ + title
}

/// The curated cards of the first `k` cards of a page that list anything.
pub open spec fn curated_cards(p: PageView, schema: Seq<(Seq<char>, Seq<char>)>, k: int) -> Seq<(Seq<char>, Seq<char>, Seq<usize>)>
    decreases k,
{
    if k <= 0 {
        seq![]
    } else {
        let c = p.cards[k - 1];
        let es = curated_entries(schema, c.1, schema.len() as int);
        if es.len() > 0 {
            curated_cards(p, schema, k - 1).push((c.0, card_key(p.id, c.0), es))
        } else {
            curated_cards(p, schema, k - 1)
        }
    }
}

/// The entries of the first `n` in one of the page's areas whose
/// sub-section no curated card claims.
pub open spec fn uncurated_entries(schema: Seq<(Seq<char>, Seq<char>)>, tops: Seq<Seq<char>>, claimed: Seq<Seq<char>>, n: int) -> Seq<usize>
    decreases n,
{
    if n <= 0 {
        seq![]
    } else if tops.contains(spec_top_level(schema[n - 1].0)) && !claimed.contains(schema[n - 1].0) {
        uncurated_entries(schema, tops, claimed, n - 1).push((n - 1) as usize)
    } else {
        uncurated_entries(schema, tops, claimed, n - 1)
    }
}

/// The entries of the first `n` in the area `top`.
pub open spec fn area_entries(schema: Seq<(Seq<char>, Seq<char>)>, top: Seq<char>, n: int) -> Seq<usize>
    decreases n,
{
    if n <= 0 {
        seq![]
    } else if spec_top_level(schema[n - 1].0) == top {
        area_entries(schema, top, n - 1).push((n - 1) as usize)
    } else {
        area_entries(schema, top, n - 1)
    }
}

/// A card title: the prettified section.
pub open spec fn title_of(schema: Seq<(Seq<char>, Seq<char>)>, i: usize) -> Seq<char> {
    spec_prettify(schema[i as int].0)
}

/// The selected entries with this title, in order.
pub open spec fn titled(schema: Seq<(Seq<char>, Seq<char>)>, sel: Seq<usize>, title: Seq<char>) -> Seq<usize>
    decreases sel.len(),
{
    if sel.len() == 0 {
        seq![]
    } else if title_of(schema, sel.last()) == title {
        titled(schema, sel.drop_last(), title).push(sel.last())
    } else {
        titled(schema, sel.drop_last(), title)
    }
}

/// The titles of the selected entries.
pub open spec fn titles_of(schema: Seq<(Seq<char>, Seq<char>)>, sel: Seq<usize>) -> Set<Seq<char>> {
    Set::new(|t: Seq<char>| exists|k: int| 0 <= k < sel.len() && #[trigger] title_of(schema, sel[k]) == t)
}

pub open spec fn group_titles(groups: Seq<(Seq<char>, Seq<char>, Seq<usize>)>) -> Seq<Seq<char>> {
    groups.map_values(|g: (Seq<char>, Seq<char>, Seq<usize>)| g.0)
}

/// `groups` are the selected entries grouped by title: one group per
/// title, titles in name order, each group's entries in schema order, and
/// each group's key made by `key_of` (an empty `page_id` keys a card by
/// its title alone).
pub open spec fn grouped(
    groups: Seq<(Seq<char>, Seq<char>, Seq<usize>)>,
    schema: Seq<(Seq<char>, Seq<char>)>,
    sel: Seq<usize>,
    page_id: Option<Seq<char>>,
) -> bool {
    &&& forall|i: int, j: int| 0 <= i < j < groups.len() ==> key_lt(#[trigger] groups[i].0, #[trigger] groups[j].0)
    &&& forall|t: Seq<char>| #[trigger] titles_of(schema, sel).contains(t) <==> group_titles(groups).contains(t)
    &&& forall|g: int| 0 <= g < groups.len() ==> {
        &&& (#[trigger] groups[g]).2 == titled(schema, sel, groups[g].0)
        &&& groups[g].1 == match page_id {
            Some(id) => card_key(id, groups[g].0),
            None => groups[g].0,
        }
    }
}

/// A catalog page's cards: the curated ones that list anything, then the
/// uncurated sub-sections of its areas.
pub open spec fn spec_catalog_cards(
    r: Seq<(Seq<char>, Seq<char>, Seq<usize>)>,
    p: PageView,
    schema: Seq<(Seq<char>, Seq<char>)>,
) -> bool {
    let curated = curated_cards(p, schema, p.cards.len() as int);
    let claimed = p.cards.map_values(|c: (Seq<char>, Seq<char>)| c.1);
    &&& r.len() >= curated.len()
    &&& r.take(curated.len() as int) == curated
    &&& grouped(
        r.skip(curated.len() as int),
        schema,
        uncurated_entries(schema, spec_page_top_levels(p), claimed, schema.len() as int),
        Some(p.id),
    )
}


fn card_key_of(page_id: &str, title: &str) -> (r: String)
    ensures
        r@ == card_key(page_id@, title@),
{
    let mut out: Vec<char> = Vec::new();
    append_str(&mut out, "card:");
    append_str(&mut out, page_id);
    append_str(&mut out, ":");
    append_str(&mut out, title);
    string_of(&out)
}

/// The selected entries grouped by their titles.
fn group_by_title(schema: &Vec<CardEntry>, sel: &Vec<usize>, page_id: Option<&str>) -> (r: Vec<CardPlan>)
    requires
        forall|k: int| 0 <= k < sel.len() ==> #[trigger] sel@[k] < schema.len(),
    ensures
        grouped(
            plans_view(r@),
            schema_view(schema@),
            sel@,
            match page_id { Some(id) => Some(id@), None => None },
        ),
{
    let ghost sv = schema_view(schema@);
    let mut titles = ValueMap::new();
    let mut k: usize = 0;
    while k < sel.len()
        invariant
            k <= sel.len(),
            sv == schema_view(schema@),
            forall|m: int| 0 <= m < sel.len() ==> #[trigger] sel@[m] < schema.len(),
            forall|t: Seq<char>| #[trigger] titles@.contains_key(t) <==> titles_of(sv, sel@.take(k as int)).contains(t),
        decreases sel.len() - k,
    {
        let i = sel[k];
        let t = prettify(schema[i].section.as_str());
        assert(sv[i as int] == entry_view(schema@[i as int]));
        assert(t@ == title_of(sv, sel@[k as int]));
        let ghost before = titles@;
        titles.insert(t, String::new());
        assert forall|u: Seq<char>| #[trigger] titles@.contains_key(u) <==> titles_of(sv, sel@.take(k + 1)).contains(u) by {
            if titles@.contains_key(u) {
                if u == title_of(sv, sel@[k as int]) {
                    assert(sel@.take(k + 1)[k as int] == sel@[k as int]);
                } else {
                    assert(before.contains_key(u));
                    assert(titles_of(sv, sel@.take(k as int)).contains(u));
                    let m = choose|m: int| 0 <= m < k && #[trigger] title_of(sv, sel@.take(k as int)[m]) == u;
                    assert(sel@.take(k + 1)[m] == sel@.take(k as int)[m]);
                }
            }
            if titles_of(sv, sel@.take(k + 1)).contains(u) {
                let m = choose|m: int| 0 <= m < k + 1 && #[trigger] title_of(sv, sel@.take(k + 1)[m]) == u;
                if m < k {
                    assert(sel@.take(k + 1)[m] == sel@.take(k as int)[m]);
                    assert(titles_of(sv, sel@.take(k as int)).contains(u));
                    assert(before.contains_key(u));
                }
            }
        }
        k = k + 1;
    }
    assert(sel@.take(sel.len() as int) =~= sel@);
    proof {
        use_type_invariant(&titles);
        titles.lemma_view();
    }
    let pairs = titles.entries_clone();
    let ghost p = titles.pairs();
    let mut out: Vec<CardPlan> = Vec::new();
    let mut g: usize = 0;
    while g < pairs.len()
        invariant
            g <= pairs.len(),
            pairs_view(pairs@) == p,
            sv == schema_view(schema@),
            forall|m: int| 0 <= m < sel.len() ==> #[trigger] sel@[m] < schema.len(),
            out@.len() == g,
            forall|a: int| 0 <= a < g ==> {
                &&& (#[trigger] plans_view(out@)[a]).0 == p[a].0
                &&& plans_view(out@)[a].2 == titled(sv, sel@, p[a].0)
                &&& plans_view(out@)[a].1 == match page_id {
                    Some(id) => card_key(id@, p[a].0),
                    None => p[a].0,
                }
            },
        decreases pairs.len() - g,
    {
        let title = &pairs[g].0;
        assert(p[g as int].0 == title@);
        let mut entries: Vec<usize> = Vec::new();
        let mut k: usize = 0;
        while k < sel.len()
            invariant
                k <= sel.len(),
                sv == schema_view(schema@),
                forall|m: int| 0 <= m < sel.len() ==> #[trigger] sel@[m] < schema.len(),
                entries@ == titled(sv, sel@.take(k as int), title@),
            decreases sel.len() - k,
        {
            assert(sel@.take(k + 1).drop_last() =~= sel@.take(k as int));
            let i = sel[k];
            let t = prettify(schema[i].section.as_str());
            assert(sv[i as int] == entry_view(schema@[i as int]));
            if str_eq(t.as_str(), title.as_str()) {
                entries.push(i);
            }
            k = k + 1;
        }
        assert(sel@.take(sel.len() as int) =~= sel@);
        let key = match page_id {
            Some(id) => card_key_of(id, title.as_str()),
            None => title.clone(),
        };
        let ghost prev = plans_view(out@);
        let plan = CardPlan { title: title.clone(), key, entries };
        out.push(plan);
        assert(plans_view(out@) =~= prev.push(plan_view(plan)));
        g = g + 1;
    }
    proof {
        let r = plans_view(out@);
        assert forall|i: int, j: int| 0 <= i < j < r.len() implies key_lt(#[trigger] r[i].0, #[trigger] r[j].0) by {
            assert(r[i].0 == p[i].0 && r[j].0 == p[j].0);
        }
        assert forall|t: Seq<char>| #[trigger] titles_of(sv, sel@).contains(t) <==> group_titles(r).contains(t) by {
            if titles_of(sv, sel@).contains(t) {
                assert(titles@.contains_key(t));
                let a = choose|a: int| has_key_at(p, t, a);
                assert(group_titles(r)[a] == t);
            }
            if group_titles(r).contains(t) {
                let g = choose|g: int| 0 <= g < group_titles(r).len() && group_titles(r)[g] == t;
                assert(r[g].0 == t);
                assert(has_key_at(p, t, g));
                assert(titles@.contains_key(t));
            }
        }
    }
    out
}

/// The first `n` entries of the schema whose section is `section` and
/// that are not shader paths.
fn curated_for(schema: &Vec<CardEntry>, section: &str) -> (r: Vec<usize>)
    ensures
        r@ == curated_entries(schema_view(schema@), section@, schema.len() as int),
        forall|k: int| 0 <= k < r.len() ==> #[trigger] r@[k] < schema.len(),
{
    let ghost sv = schema_view(schema@);
    let prefix = chars_of("animation.");
    let mut out: Vec<usize> = Vec::new();
    let mut i: usize = 0;
    while i < schema.len()
        invariant
            i <= schema.len(),
            sv == schema_view(schema@),
            prefix@ == "animation."@,
            out@ == curated_entries(sv, section@, i as int),
            forall|k: int| 0 <= k < out.len() ==> #[trigger] out@[k] < i,
        decreases schema.len() - i,
    {
        let e = &schema[i];
        assert(sv[i as int] == entry_view(*e));
        if str_eq(e.section.as_str(), section) {
            let sec = chars_of(e.section.as_str());
            let shader = starts_with_chars(&sec, &prefix) && str_eq(e.leaf.as_str(), "shader");
            if !shader {
                out.push(i);
            }
        }
        i = i + 1;
    }
    out
}

/// A catalog page's cards. `schema` holds every entry's section and the
/// last part of its key; the keys-beyond-the-schema card is the caller's.
pub fn catalog_page_cards(page: &Page, schema: &Vec<CardEntry>) -> (r: Vec<CardPlan>)
    ensures
        spec_catalog_cards(plans_view(r@), page_view(*page), schema_view(schema@)),
{
    let ghost pv = page_view(*page);
    let ghost sv = schema_view(schema@);
    let mut cards: Vec<CardPlan> = Vec::new();
    let mut claimed: Vec<&'static str> = Vec::new();
    let mut c: usize = 0;
    while c < page.cards.len()
        invariant
            c <= page.cards.len(),
            pv == page_view(*page),
            sv == schema_view(schema@),
            plans_view(cards@) == curated_cards(pv, sv, c as int),
            claimed@.map_values(|x: &'static str| x@) == pv.cards.map_values(|cd: (Seq<char>, Seq<char>)| cd.1).take(c as int),
        decreases page.cards.len() - c,
    {
        let card = &page.cards[c];
        assert(pv.cards[c as int] == (card.title@, card.section@));
        let ghost before = claimed@.map_values(|x: &'static str| x@);
        claimed.push(card.section);
        assert(claimed@.map_values(|x: &'static str| x@) =~= before.push(card.section@));
        assert(pv.cards.map_values(|cd: (Seq<char>, Seq<char>)| cd.1).take(c + 1) =~= pv.cards.map_values(
            |cd: (Seq<char>, Seq<char>)| cd.1,
        ).take(c as int).push(card.section@));
        let entries = curated_for(schema, card.section);
        if entries.len() > 0 {
            let key = card_key_of(page.id, card.title);
            let ghost prev = plans_view(cards@);
            let plan = CardPlan { title: crate::text::owned(card.title), key, entries };
            cards.push(plan);
            assert(plans_view(cards@) =~= prev.push(plan_view(plan)));
        }
        c = c + 1;
    }
    let ghost claimed_view = pv.cards.map_values(|cd: (Seq<char>, Seq<char>)| cd.1);
    assert(claimed_view.take(page.cards.len() as int) =~= claimed_view);
    let tops = page_top_levels(page);
    let ghost tv = tops@.map_values(|x: &'static str| x@);
    let mut sel: Vec<usize> = Vec::new();
    let mut i: usize = 0;
    while i < schema.len()
        invariant
            i <= schema.len(),
            sv == schema_view(schema@),
            tv == tops@.map_values(|x: &'static str| x@),
            claimed@.map_values(|x: &'static str| x@) == claimed_view,
            sel@ == uncurated_entries(sv, tv, claimed_view, i as int),
            forall|k: int| 0 <= k < sel.len() ==> #[trigger] sel@[k] < i,
        decreases schema.len() - i,
    {
        let e = &schema[i];
        assert(sv[i as int] == entry_view(*e));
        let top = top_level(e.section.as_str());
        if contains_str(&tops, top.as_str()) && !contains_str(&claimed, e.section.as_str()) {
            sel.push(i);
        }
        i = i + 1;
    }
    let mut auto = group_by_title(schema, &sel, Some(page.id));
    let ghost pre = plans_view(cards@);
    let ghost av = plans_view(auto@);
    cards.append(&mut auto);
    proof {
        let r = plans_view(cards@);
        assert(r =~= pre + av);
        assert(r.take(pre.len() as int) =~= pre);
        assert(r.skip(pre.len() as int) =~= av);
    }
    cards
}

/// A MORE page's cards: every sub-section of the area `top`, by title,
/// each keyed by its title.
pub fn fallback_page_cards(top: &str, schema: &Vec<CardEntry>) -> (r: Vec<CardPlan>)
    ensures
        grouped(plans_view(r@), schema_view(schema@), area_entries(schema_view(schema@), top@, schema.len() as int), None),
{
    let ghost sv = schema_view(schema@);
    let mut sel: Vec<usize> = Vec::new();
    let mut i: usize = 0;
    while i < schema.len()
        invariant
            i <= schema.len(),
            sv == schema_view(schema@),
            sel@ == area_entries(sv, top@, i as int),
            forall|k: int| 0 <= k < sel.len() ==> #[trigger] sel@[k] < i,
        decreases schema.len() - i,
    {
        let e = &schema[i];
        assert(sv[i as int] == entry_view(*e));
        let t = top_level(e.section.as_str());
        if str_eq(t.as_str(), top) {
            sel.push(i);
        }
        i = i + 1;
    }
    group_by_title(schema, &sel, None)
}

proof fn lemma_curated_has(schema: Seq<(Seq<char>, Seq<char>)>, section: Seq<char>, n: int, i: int)
    requires
        0 <= i < n <= schema.len(),
        schema[i].0 == section,
        !is_shader_path(schema[i]),
    ensures
        curated_entries(schema, section, n).contains(i as usize),
    decreases n,
{
    if i < n - 1 {
        lemma_curated_has(schema, section, n - 1, i);
        let prev = curated_entries(schema, section, n - 1);
        let k = choose|k: int| 0 <= k < prev.len() && prev[k] == i as usize;
        if schema[n - 1].0 == section && !is_shader_path(schema[n - 1]) {
            assert(curated_entries(schema, section, n)[k] == i as usize);
        }
    } else {
        let all = curated_entries(schema, section, n);
        assert(all[all.len() - 1] == i as usize);
    }
}

proof fn lemma_uncurated_has(
    schema: Seq<(Seq<char>, Seq<char>)>,
    tops: Seq<Seq<char>>,
    claimed: Seq<Seq<char>>,
    n: int,
    i: int,
)
    requires
        0 <= i < n <= schema.len(),
        tops.contains(spec_top_level(schema[i].0)),
        !claimed.contains(schema[i].0),
    ensures
        uncurated_entries(schema, tops, claimed, n).contains(i as usize),
    decreases n,
{
    if i < n - 1 {
        lemma_uncurated_has(schema, tops, claimed, n - 1, i);
        let prev = uncurated_entries(schema, tops, claimed, n - 1);
        let k = choose|k: int| 0 <= k < prev.len() && prev[k] == i as usize;
        if tops.contains(spec_top_level(schema[n - 1].0)) && !claimed.contains(schema[n - 1].0) {
            assert(uncurated_entries(schema, tops, claimed, n)[k] == i as usize);
        }
    } else {
        let all = uncurated_entries(schema, tops, claimed, n);
        assert(all[all.len() - 1] == i as usize);
    }
}

proof fn lemma_area_has(schema: Seq<(Seq<char>, Seq<char>)>, top: Seq<char>, n: int, i: int)
    requires
        0 <= i < n <= schema.len(),
        spec_top_level(schema[i].0) == top,
    ensures
        area_entries(schema, top, n).contains(i as usize),
    decreases n,
{
    if i < n - 1 {
        lemma_area_has(schema, top, n - 1, i);
        let prev = area_entries(schema, top, n - 1);
        let k = choose|k: int| 0 <= k < prev.len() && prev[k] == i as usize;
        if spec_top_level(schema[n - 1].0) == top {
            assert(area_entries(schema, top, n)[k] == i as usize);
        }
    } else {
        let all = area_entries(schema, top, n);
        assert(all[all.len() - 1] == i as usize);
    }
}

proof fn lemma_titled_has(schema: Seq<(Seq<char>, Seq<char>)>, sel: Seq<usize>, title: Seq<char>, k: int)
    requires
        0 <= k < sel.len(),
        title_of(schema, sel[k]) == title,
    ensures
        titled(schema, sel, title).contains(sel[k]),
    decreases sel.len(),
{
    if k < sel.len() - 1 {
        let rest = sel.drop_last();
        assert(rest[k] == sel[k]);
        lemma_titled_has(schema, rest, title, k);
        let prev = titled(schema, rest, title);
        let m = choose|m: int| 0 <= m < prev.len() && prev[m] == sel[k];
        if title_of(schema, sel.last()) == title {
            assert(titled(schema, sel, title)[m] == sel[k]);
        }
    } else {
        let all = titled(schema, sel, title);
        assert(all[all.len() - 1] == sel[k]);
    }
}

/// Grouping loses no selected entry: each is in the group of its title.
proof fn lemma_grouped_has(
    groups: Seq<(Seq<char>, Seq<char>, Seq<usize>)>,
    schema: Seq<(Seq<char>, Seq<char>)>,
    sel: Seq<usize>,
    page_id: Option<Seq<char>>,
    k: int,
)
    requires
        grouped(groups, schema, sel, page_id),
        0 <= k < sel.len(),
    ensures
        exists|g: int| 0 <= g < groups.len() && (#[trigger] groups[g]).2.contains(sel[k]),
{
    let t = title_of(schema, sel[k]);
    assert(titles_of(schema, sel).contains(t));
    assert(group_titles(groups).contains(t));
    let g = choose|g: int| 0 <= g < group_titles(groups).len() && group_titles(groups)[g] == t;
    assert(groups[g].0 == t);
    lemma_titled_has(schema, sel, t, k);
}

proof fn lemma_first_exact_claims(cs: Seq<(Seq<char>, Seq<char>)>, section: Seq<char>)
    ensures
        first_exact(cs, section) matches Some(id) ==> exists|j: int| 0 <= j < cs.len() && #[trigger] cs[j] == (section, id),
        first_exact(cs, section) is None ==> forall|j: int| 0 <= j < cs.len() ==> (#[trigger] cs[j]).0 != section,
    decreases cs.len(),
{
    if cs.len() > 0 {
        lemma_first_exact_claims(cs.drop_first(), section);
        if cs[0].0 != section {
            if let Some(id) = first_exact(cs, section) {
                let j = choose|j: int| 0 <= j < cs.drop_first().len() && #[trigger] cs.drop_first()[j] == (section, id);
                assert(cs[j + 1] == (section, id));
            }
            assert forall|j: int| 0 <= j < cs.len() && first_exact(cs, section) is None implies (#[trigger] cs[j]).0 != section by {
                if j > 0 {
                    assert(cs[j] == cs.drop_first()[j - 1]);
                }
            }
        } else {
            assert(cs[0] == (section, cs[0].1));
        }
    }
}

proof fn lemma_first_in_area_claims(cs: Seq<(Seq<char>, Seq<char>)>, top: Seq<char>)
    ensures
        first_in_area(cs, top) matches Some(id) ==> exists|j: int|
            0 <= j < cs.len() && spec_top_level(#[trigger] cs[j].0) == top && cs[j].1 == id,
    decreases cs.len(),
{
    if cs.len() > 0 && spec_top_level(cs[0].0) != top {
        lemma_first_in_area_claims(cs.drop_first(), top);
        if let Some(id) = first_in_area(cs, top) {
            let j = choose|j: int| 0 <= j < cs.drop_first().len() && spec_top_level(#[trigger] cs.drop_first()[j].0) == top
                && cs.drop_first()[j].1 == id;
            assert(cs[j + 1] == cs.drop_first()[j]);
        }
    }
}

/// Every claim comes from a card of a page.
proof fn lemma_claim_source(cat: Seq<PageView>, j: int)
    requires
        0 <= j < claims(cat).len(),
    ensures
        exists|k: int, c: int|
            0 <= k < cat.len() && 0 <= c < cat[k].cards.len() && #[trigger] cat[k].cards[c] == (cat[k].cards[c].0, claims(cat)[j].0)
                && cat[k].id == claims(cat)[j].1,
    decreases cat.len(),
{
    let rest = cat.drop_last();
    let before = claims(rest);
    let mine = page_claims(cat.last());
    assert(claims(cat) == before + mine);
    if j < before.len() {
        assert(claims(cat)[j] == before[j]);
        lemma_claim_source(rest, j);
        let (k, c) = choose|k: int, c: int|
            0 <= k < rest.len() && 0 <= c < rest[k].cards.len() && #[trigger] rest[k].cards[c] == (rest[k].cards[c].0, before[j].0)
                && rest[k].id == before[j].1;
        assert(cat[k] == rest[k]);
        assert(cat[k].cards[c] == (cat[k].cards[c].0, claims(cat)[j].0));
    } else {
        let c = j - before.len();
        let k = cat.len() - 1;
        assert(claims(cat)[j] == mine[c]);
        assert(cat[k] == cat.last());
        assert(cat[k].cards[c] == (cat[k].cards[c].0, claims(cat)[j].0));
    }
}

/// Every card of a page makes a claim.
proof fn lemma_card_claim(cat: Seq<PageView>, k: int, c: int)
    requires
        0 <= k < cat.len(),
        0 <= c < cat[k].cards.len(),
    ensures
        exists|j: int| 0 <= j < claims(cat).len() && #[trigger] claims(cat)[j] == (cat[k].cards[c].1, cat[k].id),
    decreases cat.len(),
{
    let rest = cat.drop_last();
    let before = claims(rest);
    let mine = page_claims(cat.last());
    assert(claims(cat) == before + mine);
    if k < rest.len() {
        assert(cat[k] == rest[k]);
        lemma_card_claim(rest, k, c);
        let j = choose|j: int| 0 <= j < before.len() && #[trigger] before[j] == (rest[k].cards[c].1, rest[k].id);
        assert(claims(cat)[j] == before[j]);
    } else {
        assert(cat[k] == cat.last());
        assert(claims(cat)[before.len() + c] == mine[c]);
    }
}

proof fn lemma_dedup_contains(s: Seq<Seq<char>>, x: Seq<char>)
    ensures
        dedup(s).contains(x) <==> s.contains(x),
    decreases s.len(),
{
    if s.len() > 0 {
        let rest = s.drop_last();
        lemma_dedup_contains(rest, x);
        if s.contains(x) && !rest.contains(x) {
            let j = choose|j: int| 0 <= j < s.len() && s[j] == x;
            if j < rest.len() {
                assert(rest[j] == x);
            }
            assert(s.last() == x);
            if !dedup(rest).contains(s.last()) {
                assert(dedup(s)[dedup(s).len() - 1] == x);
            }
        }
        if rest.contains(x) {
            let j = choose|j: int| 0 <= j < rest.len() && rest[j] == x;
            assert(s[j] == x);
            let d = dedup(rest);
            let m = choose|m: int| 0 <= m < d.len() && d[m] == x;
            if !d.contains(s.last()) {
                assert(dedup(s)[m] == x);
            }
        }
        if dedup(s).contains(x) {
            if !dedup(rest).contains(s.last()) {
                let d = dedup(s);
                let m = choose|m: int| 0 <= m < d.len() && d[m] == x;
                if m < dedup(rest).len() {
                    assert(dedup(rest)[m] == x);
                } else {
                    assert(s[s.len() - 1] == x);
                }
            }
        }
    }
}

proof fn lemma_curated_cards_have(p: PageView, schema: Seq<(Seq<char>, Seq<char>)>, k: int, c: int, i: int)
    requires
        0 <= c < k <= p.cards.len(),
        curated_entries(schema, p.cards[c].1, schema.len() as int).contains(i as usize),
    ensures
        exists|idx: int| 0 <= idx < curated_cards(p, schema, k).len() && (#[trigger] curated_cards(p, schema, k)[idx]).2.contains(i as usize),
    decreases k,
{
    let prev = curated_cards(p, schema, k - 1);
    let card = p.cards[k - 1];
    let es = curated_entries(schema, card.1, schema.len() as int);
    let all = curated_cards(p, schema, k);
    if c < k - 1 {
        lemma_curated_cards_have(p, schema, k - 1, c, i);
        let idx = choose|idx: int| 0 <= idx < prev.len() && (#[trigger] prev[idx]).2.contains(i as usize);
        if es.len() > 0 {
            assert(all == prev.push((card.0, card_key(p.id, card.0), es)));
        } else {
            assert(all == prev);
        }
        assert(all[idx] == prev[idx]);
        assert(all[idx].2.contains(i as usize));
    } else {
        assert(es.contains(i as usize));
        assert(all == prev.push((card.0, card_key(p.id, card.0), es)));
        assert(all[prev.len() as int].2 == es);
        assert(all[prev.len() as int].2.contains(i as usize));
    }
}

/// `cards` are what the page with this id shows for the schema: the cards
/// of the catalog page with that id, or, for an id no catalog page has,
/// the MORE page of that area.
pub open spec fn page_shows(
    cards: Seq<(Seq<char>, Seq<char>, Seq<usize>)>,
    schema: Seq<(Seq<char>, Seq<char>)>,
    id: Seq<char>,
) -> bool {
    if has_page(catalog(), id) {
        exists|k: int| first_page_with(catalog(), k, id) && spec_catalog_cards(cards, #[trigger] catalog()[k], schema)
    } else {
        grouped(cards, schema, area_entries(schema, id, schema.len() as int), None)
    }
}

/// Nothing in the schema is hidden: the page an entry's sub-section lands
/// on lists the entry, on the card that claims its sub-section, on a card
/// of its page's area, or on the MORE page of its area. Left out are a
/// shader path of a claimed animation sub-section, which the Shaders page
/// assigns, and an entry of an area no card covers whose name is that of
/// a catalog page without cards.
pub proof fn lemma_nothing_hidden(
    cards: Seq<(Seq<char>, Seq<char>, Seq<usize>)>,
    schema: Seq<(Seq<char>, Seq<char>)>,
    i: int,
)
    requires
        0 <= i < schema.len(),
        page_shows(cards, schema, spec_page_id_for_section(schema[i].0)),
        first_exact(claims(catalog()), schema[i].0) is Some ==> !is_shader_path(schema[i]),
        first_exact(claims(catalog()), schema[i].0) is Some || first_in_area(
            claims(catalog()),
            spec_top_level(schema[i].0),
        ) is Some || !has_page(catalog(), spec_top_level(schema[i].0)),
    ensures
        exists|c: int| 0 <= c < cards.len() && (#[trigger] cards[c]).2.contains(i as usize),
{
    let s = schema[i].0;
    let top = spec_top_level(s);
    let id = spec_page_id_for_section(s);
    let cs = claims(catalog());
    let n = schema.len() as int;
    lemma_catalog_ids_distinct();
    lemma_first_exact_claims(cs, s);
    if first_exact(cs, s) is Some || first_in_area(cs, top) is Some {
        // The claim that routes the entry comes from a card of page `k2`.
        let j = if first_exact(cs, s) is Some {
            choose|j: int| 0 <= j < cs.len() && #[trigger] cs[j] == (s, id)
        } else {
            lemma_first_in_area_claims(cs, top);
            choose|j: int| 0 <= j < cs.len() && spec_top_level(#[trigger] cs[j].0) == top && cs[j].1 == id
        };
        lemma_claim_source(catalog(), j);
        let (k2, c) = choose|k: int, c: int|
            0 <= k < catalog().len() && 0 <= c < catalog()[k].cards.len() && #[trigger] catalog()[k].cards[c] == (
                catalog()[k].cards[c].0,
                cs[j].0,
            ) && catalog()[k].id == cs[j].1;
        assert(has_page(catalog(), id));
        let k = choose|k: int| first_page_with(catalog(), k, id) && spec_catalog_cards(cards, #[trigger] catalog()[k], schema);
        assert(k == k2);
        let p = catalog()[k];
        let curated = curated_cards(p, schema, p.cards.len() as int);
        if first_exact(cs, s) is Some {
            lemma_curated_has(schema, s, n, i);
            lemma_curated_cards_have(p, schema, p.cards.len() as int, c, i);
            let idx = choose|idx: int| 0 <= idx < curated.len() && (#[trigger] curated[idx]).2.contains(i as usize);
            assert(cards.take(curated.len() as int)[idx] == cards[idx]);
            assert(cards[idx].2.contains(i as usize));
        } else {
            let tops_all = p.cards.map_values(|cd: (Seq<char>, Seq<char>)| spec_top_level(cd.1));
            assert(tops_all[c] == top);
            lemma_dedup_contains(tops_all, top);
            let claimed = p.cards.map_values(|cd: (Seq<char>, Seq<char>)| cd.1);
            if claimed.contains(s) {
                let m = choose|m: int| 0 <= m < claimed.len() && claimed[m] == s;
                lemma_card_claim(catalog(), k, m);
                let j2 = choose|j2: int| 0 <= j2 < cs.len() && #[trigger] cs[j2] == (p.cards[m].1, p.id);
                assert(cs[j2].0 == s);
            }
            lemma_uncurated_has(schema, spec_page_top_levels(p), claimed, n, i);
            let sel = uncurated_entries(schema, spec_page_top_levels(p), claimed, n);
            let at = choose|at: int| 0 <= at < sel.len() && sel[at] == i as usize;
            let rest = cards.skip(curated.len() as int);
            lemma_grouped_has(rest, schema, sel, Some(p.id), at);
            let g = choose|g: int| 0 <= g < rest.len() && (#[trigger] rest[g]).2.contains(sel[at]);
            assert(rest[g] == cards[curated.len() + g]);
            assert(cards[curated.len() + g].2.contains(i as usize));
        }
    } else {
        assert(id == top);
        lemma_area_has(schema, top, n, i);
        let sel = area_entries(schema, top, n);
        let at = choose|at: int| 0 <= at < sel.len() && sel[at] == i as usize;
        lemma_grouped_has(cards, schema, sel, None, at);
    }
}

} // verus!
