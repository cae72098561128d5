//! The header search: its matching rule, and the result list of pages,
//! keybinds and settings.

use vstd::prelude::*;

use crate::catalog::{catalog, pages, pages_view, PageView};
use crate::common::{entry_home, KeySet};
use crate::save::{last_setter, lemma_last_setter};
use crate::sections::{page_id_for_section, spec_page_id_for_section};
use crate::text::{
    occurs_at,
    append_str, chars_of, contains_chars, contains_seq, is_white, is_whitespace, owned,
    slice_chars, str_lowercase, string_of, string_views, to_lowercase, trim, trim_str,
};

verus! {

/// `s[i..j]` is one of the whitespace-separated terms of `s`
/// (`str::split_whitespace`).
pub open spec fn is_term(s: Seq<char>, i: int, j: int) -> bool {
    &&& 0 <= i < j <= s.len()
    &&& forall|k: int| i <= k < j ==> !is_white(#[trigger] s[k])
    &&& (i == 0 || is_white(s[i - 1]))
    &&& (j == s.len() || is_white(s[j]))
}

/// Case-insensitive all-terms match: every term of the lower-cased needle
/// occurs in the lower-cased haystack. A blank needle matches anything.
pub open spec fn spec_terms_match(haystack: Seq<char>, needle: Seq<char>) -> bool {
    let h = str_lowercase(haystack);
    let n = str_lowercase(needle);
    forall|i: int, j: int| #[trigger] is_term(n, i, j) ==> contains_seq(h, n.subrange(i, j))
}

pub fn terms_match(haystack: &str, needle: &str) -> (b: bool)
    ensures
        b == spec_terms_match(haystack@, needle@),
{
    let lowered = chars_of(to_lowercase(haystack).as_str());
    let n = chars_of(to_lowercase(needle).as_str());
    let ghost h = str_lowercase(haystack@);
    let ghost ns = str_lowercase(needle@);
    let mut p: usize = 0;
    loop
        invariant
            lowered@ == h,
            n@ == ns,
            h == str_lowercase(haystack@),
            ns == str_lowercase(needle@),
            p <= n.len(),
            p == 0 || p == n.len() || is_white(n@[p as int]),
            forall|i: int, j: int| #[trigger] is_term(ns, i, j) && i < p ==> contains_seq(h, ns.subrange(i, j)),
        decreases n.len() - p,
    {
        let ghost p0 = p;
        while p < n.len() && is_whitespace(n[p])
            invariant
                n@ == ns,
                p0 <= p <= n.len(),
                forall|k: int| p0 <= k < p ==> is_white(#[trigger] ns[k]),
            decreases n.len() - p,
        {
            p = p + 1;
        }
        if p == n.len() {
            assert forall|i: int, j: int| #[trigger] is_term(ns, i, j) implies contains_seq(
                h,
                ns.subrange(i, j),
            ) by {
                if i >= p0 {
                    assert(is_white(ns[i]));
                }
            }
            return true;
        }
        let start = p;
        assert(start == 0 || is_white(ns[start - 1])) by {
            if start > p0 {
                assert(is_white(ns[start - 1]));
            } else if p0 > 0 {
                assert(is_white(ns[p0 as int]));
            }
        }
        while p < n.len() && !is_whitespace(n[p])
            invariant
                n@ == ns,
                start <= p <= n.len(),
                forall|k: int| start <= k < p ==> !is_white(#[trigger] ns[k]),
            decreases n.len() - p,
        {
            p = p + 1;
        }
        assert(is_term(ns, start as int, p as int));
        let term = slice_chars(&n, start, p);
        if !contains_chars(&lowered, &term) {
            assert(term@ == ns.subrange(start as int, p as int));
            assert(is_term(ns, start as int, p as int) && !contains_seq(h, ns.subrange(start as int, p as int)));
            return false;
        }
        assert forall|i: int, j: int| #[trigger] is_term(ns, i, j) && i < p implies contains_seq(
            h,
            ns.subrange(i, j),
        ) by {
            if i >= p0 {
                if p0 <= i < start {
                    assert(is_white(ns[i]));
                } else if i > start {
                    assert(!is_white(ns[i - 1]));
                } else {
                    if j < p {
                        assert(!is_white(ns[j]));
                    } else if j > p {
                        assert(!is_white(ns[p as int]));
                    }
                }
            }
        }
    }
}

/// Every term of `n` occurs in `h`.
pub open spec fn all_terms_in(h: Seq<char>, n: Seq<char>) -> bool {
    forall|i: int, j: int| #[trigger] is_term(n, i, j) ==> contains_seq(h, n.subrange(i, j))
}

/// The terms of two texts joined by a space are those of the first and
/// those of the second.
proof fn lemma_all_terms_joined(h: Seq<char>, x: Seq<char>, y: Seq<char>)
    ensures
        all_terms_in(h, x + " "@ + y) == (all_terms_in(h, x) && all_terms_in(h, y)),
{
    reveal_strlit(" ");
    let n = x + " "@ + y;
    let l = x.len() as int;
    assert(n.len() == l + 1 + y.len());
    assert(n[l] == ' ');
    assert(is_white(' '));
    assert forall|i: int, j: int| #[trigger] is_term(x, i, j) implies is_term(n, i, j) && n.subrange(i, j)
        == x.subrange(i, j) by {
        assert(forall|k: int| 0 <= k < l ==> n[k] == x[k]);
        assert(n.subrange(i, j) =~= x.subrange(i, j));
    }
    assert forall|i: int, j: int| #[trigger] is_term(y, i, j) implies is_term(n, i + l + 1, j + l + 1)
        && n.subrange(i + l + 1, j + l + 1) == y.subrange(i, j) by {
        assert(forall|k: int| 0 <= k < y.len() ==> n[k + l + 1] == y[k]);
        assert(n.subrange(i + l + 1, j + l + 1) =~= y.subrange(i, j));
        assert forall|k: int| i + l + 1 <= k < j + l + 1 implies !is_white(#[trigger] n[k]) by {
            assert(n[k] == y[k - l - 1]);
        }
        if i > 0 {
            assert(n[i + l] == y[i - 1]);
        }
        if j < y.len() {
            assert(n[j + l + 1] == y[j]);
        }
    }
    if all_terms_in(h, n) {
        assert forall|i: int, j: int| #[trigger] is_term(x, i, j) implies contains_seq(h, x.subrange(i, j)) by {
            assert(is_term(n, i, j));
        }
        assert forall|i: int, j: int| #[trigger] is_term(y, i, j) implies contains_seq(h, y.subrange(i, j)) by {
            assert(is_term(n, i + l + 1, j + l + 1));
        }
    }
    if all_terms_in(h, x) && all_terms_in(h, y) {
        assert forall|i: int, j: int| #[trigger] is_term(n, i, j) implies contains_seq(h, n.subrange(i, j)) by {
            if j <= l {
                assert forall|k: int| i <= k < j implies !is_white(#[trigger] x[k]) by {
                    assert(n[k] == x[k]);
                }
                if i > 0 {
                    assert(n[i - 1] == x[i - 1]);
                }
                if j < l {
                    assert(n[j] == x[j]);
                }
                assert(is_term(x, i, j));
                assert(n.subrange(i, j) =~= x.subrange(i, j));
            } else {
                if i <= l {
                    assert(!is_white(n[l]));
                }
                let i2 = i - l - 1;
                let j2 = j - l - 1;
                assert forall|k: int| i2 <= k < j2 implies !is_white(#[trigger] y[k]) by {
                    assert(n[k + l + 1] == y[k]);
                }
                if i2 > 0 {
                    assert(n[i - 1] == y[i2 - 1]);
                }
                if j2 < y.len() {
                    assert(n[j] == y[j2]);
                }
                assert(is_term(y, i2, j2));
                assert(n.subrange(i, j) =~= y.subrange(i2, j2));
            }
        }
    }
}

/// A needle of two parts joined by a space matches exactly where each
/// part matches, wherever lower-casing the needle lower-cases each part
/// and keeps the space.
pub proof fn law_terms_match_joined(haystack: Seq<char>, a: Seq<char>, b: Seq<char>)
    requires
        str_lowercase(a + " "@ + b) == str_lowercase(a) + " "@ + str_lowercase(b),
    ensures
        spec_terms_match(haystack, a + " "@ + b) == (spec_terms_match(haystack, a) && spec_terms_match(
            haystack,
            b,
        )),
{
    lemma_all_terms_joined(str_lowercase(haystack), str_lowercase(a), str_lowercase(b));
}

/// A needle that is blank once lower-cased matches every haystack.
pub proof fn law_terms_match_blank(haystack: Seq<char>, needle: Seq<char>)
    requires
        forall|k: int| 0 <= k < str_lowercase(needle).len() ==> is_white(#[trigger] str_lowercase(needle)[k]),
    ensures
        spec_terms_match(haystack, needle),
{
    let n = str_lowercase(needle);
    assert forall|i: int, j: int| #[trigger] is_term(n, i, j) implies contains_seq(
        str_lowercase(haystack),
        n.subrange(i, j),
    ) by {
        assert(is_white(n[i]));
    }
}

/// One result of the header search: what it shows, the badge beside it,
/// the page it opens, and its kind (`"page"`, `"keybind"`, or a setting).
pub struct SearchRow {
    pub label: String,
    pub home_label: String,
    pub home_section: String,
    pub kind: String,
}

pub open spec fn search_row_view(r: SearchRow) -> (Seq<char>, Seq<char>, Seq<char>, Seq<char>) {
    (r.label@, r.home_label@, r.home_section@, r.kind@)
}

pub open spec fn search_rows_view(v: Seq<SearchRow>) -> Seq<(Seq<char>, Seq<char>, Seq<char>, Seq<char>)> {
    v.map_values(|r: SearchRow| search_row_view(r))
}

/// The catalog pages whose title and description match, in order.
pub open spec fn page_hits(cat: Seq<PageView>, needle: Seq<char>) -> Seq<(Seq<char>, Seq<char>, Seq<char>, Seq<char>)>
    decreases cat.len(),
{
    if cat.len() == 0 {
        seq![]
    } else if spec_terms_match(cat.last().title + " "@ + cat.last().description, needle) {
        page_hits(cat.drop_last(), needle).push((cat.last().title, "Page"@, cat.last().id, "page"@))
    } else {
        page_hits(cat.drop_last(), needle)
    }
}

/// A keybind as the search sees it: its chord, what its action does, and
/// its non-default extras.
pub struct BindHit {
    pub chord: String,
    pub summary: String,
    pub extras: String,
}

pub open spec fn bind_label(b: BindHit) -> Seq<char> {
    if b.extras@.len() == 0 {
        b.chord@ + " — "@ + b.summary@
    } else {
        b.chord@ + " — "@ + b.summary@ + " ("@ + b.extras@ + ")"@
    }
}

/// The binds whose chord or action matches, in order; a hit opens the
/// keybinds page.
pub open spec fn bind_hits(binds: Seq<BindHit>, needle: Seq<char>) -> Seq<(Seq<char>, Seq<char>, Seq<char>, Seq<char>)>
    decreases binds.len(),
{
    if binds.len() == 0 {
        seq![]
    } else if spec_terms_match(binds.last().chord@ + " "@ + binds.last().summary@, needle) {
        bind_hits(binds.drop_last(), needle).push((bind_label(binds.last()), "Keybind"@, "keybinds"@, "keybind"@))
    } else {
        bind_hits(binds.drop_last(), needle)
    }
}

/// A schema entry the settings search matched: its label, dotted key and
/// section.
pub struct SettingHit {
    pub label: String,
    pub dotted: String,
    pub section: String,
}

/// A matched setting's row: badged with its home document's label (the
/// main file's when no document sets it), opening its section's page.
pub open spec fn setting_row(h: SettingHit, sets: Seq<KeySet>, labels: Seq<Seq<char>>) -> (Seq<char>, Seq<char>, Seq<char>, Seq<char>) {
    let home = match last_setter(sets, h.dotted@) {
        Some(i) => i,
        None => sets.len() - 1,
    };
    (h.label@, if 0 <= home < labels.len() { labels[home] } else { seq![] }, spec_page_id_for_section(h.section@), seq![])
}

pub open spec fn setting_rows(hits: Seq<SettingHit>, sets: Seq<KeySet>, labels: Seq<Seq<char>>) -> Seq<(Seq<char>, Seq<char>, Seq<char>, Seq<char>)> {
    hits.map_values(|h: SettingHit| setting_row(h, sets, labels))
}

/// The header search's results: whole pages first (the query names a
/// destination), then keybinds, then the matched settings.
pub open spec fn spec_search_rows(
    needle: Seq<char>,
    binds: Seq<BindHit>,
    hits: Seq<SettingHit>,
    sets: Seq<KeySet>,
    labels: Seq<Seq<char>>,
) -> Seq<(Seq<char>, Seq<char>, Seq<char>, Seq<char>)> {
    page_hits(catalog(), needle) + bind_hits(binds, needle) + setting_rows(hits, sets, labels)
}

/// The search text, trimmed; `None` when that leaves nothing (the search
/// is left and the section overview comes back).
pub fn search_needle(query: &str) -> (r: Option<String>)
    ensures
        trim(query@).len() == 0 ==> r is None,
        trim(query@).len() > 0 ==> (r matches Some(n) && n@ == trim(query@)),
{
    let t = trim_str(query);
    let v = chars_of(t.as_str());
    if v.len() == 0 {
        None
    } else {
        Some(t)
    }
}

fn joined(a: &str, b: &str) -> (r: String)
    ensures
        r@ == a@ + " "@ + b@,
{
    let mut out: Vec<char> = Vec::new();
    append_str(&mut out, a);
    append_str(&mut out, " ");
    append_str(&mut out, b);
    string_of(&out)
}

pub fn search_rows(
    needle: &str,
    binds: &Vec<BindHit>,
    hits: &Vec<SettingHit>,
    sets: &Vec<KeySet>,
    labels: &Vec<String>,
) -> (r: Vec<SearchRow>)
    requires
        sets.len() > 0,
    ensures
        search_rows_view(r@) == spec_search_rows(needle@, binds@, hits@, sets@, string_views(labels@)),
{
    let all = pages();
    let ghost cat = pages_view(all@);
    let mut rows: Vec<SearchRow> = Vec::new();
    let mut i: usize = 0;
    assert(cat.take(0) =~= Seq::<PageView>::empty());
    while i < all.len()
        invariant
            i <= all.len(),
            cat == pages_view(all@),
            search_rows_view(rows@) == page_hits(cat.take(i as int), needle@),
        decreases all.len() - i,
    {
        assert(cat.take(i + 1).drop_last() =~= cat.take(i as int));
        let p = &all[i];
        assert(cat[i as int] == crate::catalog::page_view(*p));
        let text = joined(p.title, p.description);
        if terms_match(text.as_str(), needle) {
            let ghost prev = search_rows_view(rows@);
            rows.push(SearchRow { label: owned(p.title), home_label: owned("Page"), home_section: owned(p.id), kind: owned("page") });
            assert(search_rows_view(rows@) =~= prev.push((p.title@, "Page"@, p.id@, "page"@)));
        }
        i = i + 1;
    }
    assert(cat.take(all.len() as int) =~= cat);
    let ghost pre = search_rows_view(rows@);
    let mut k: usize = 0;
    assert(binds@.take(0) =~= Seq::<BindHit>::empty());
    while k < binds.len()
        invariant
            k <= binds.len(),
            search_rows_view(rows@) == pre + bind_hits(binds@.take(k as int), needle@),
        decreases binds.len() - k,
    {
        assert(binds@.take(k + 1).drop_last() =~= binds@.take(k as int));
        let b = &binds[k];
        let text = joined(b.chord.as_str(), b.summary.as_str());
        if terms_match(text.as_str(), needle) {
            let mut label: Vec<char> = Vec::new();
            append_str(&mut label, b.chord.as_str());
            append_str(&mut label, " — ");
            append_str(&mut label, b.summary.as_str());
            let ex = chars_of(b.extras.as_str());
            if ex.len() > 0 {
                append_str(&mut label, " (");
                append_str(&mut label, b.extras.as_str());
                append_str(&mut label, ")");
            }
            let ghost prev = search_rows_view(rows@);
            let row = SearchRow {
                label: string_of(&label),
                home_label: owned("Keybind"),
                home_section: owned("keybinds"),
                kind: owned("keybind"),
            };
            assert(search_row_view(row) == (bind_label(*b), "Keybind"@, "keybinds"@, "keybind"@));
            rows.push(row);
            assert(search_rows_view(rows@) =~= prev.push(search_row_view(row)));
        }
        k = k + 1;
    }
    assert(binds@.take(binds.len() as int) =~= binds@);
    let ghost mid = search_rows_view(rows@);
    let ghost lv = string_views(labels@);
    let mut m: usize = 0;
    while m < hits.len()
        invariant
            m <= hits.len(),
            sets.len() > 0,
            lv == string_views(labels@),
            search_rows_view(rows@) == mid + setting_rows(hits@, sets@, lv).take(m as int),
        decreases hits.len() - m,
    {
        let h = &hits[m];
        let found = entry_home(sets.as_slice(), h.dotted.as_str());
        proof {
            lemma_last_setter(sets@, h.dotted@, found);
        }
        let home: usize = match found {
            Some(i) => i,
            None => sets.len() - 1,
        };
        let home_label = if home < labels.len() { labels[home].clone() } else { String::new() };
        let row = SearchRow {
            label: h.label.clone(),
            home_label,
            home_section: page_id_for_section(h.section.as_str()),
            kind: String::new(),
        };
        assert(search_row_view(row) == setting_row(*h, sets@, lv));
        let ghost prev = search_rows_view(rows@);
        rows.push(row);
        assert(search_rows_view(rows@) =~= prev.push(search_row_view(row)));
        assert(setting_rows(hits@, sets@, lv).take(m + 1) =~= setting_rows(hits@, sets@, lv).take(m as int).push(setting_row(*h, sets@, lv)));
        m = m + 1;
    }
    assert(setting_rows(hits@, sets@, lv).take(hits.len() as int) =~= setting_rows(hits@, sets@, lv));
    rows
}

proof fn lemma_bind_hits_have(binds: Seq<BindHit>, needle: Seq<char>, i: int)
    requires
        0 <= i < binds.len(),
        spec_terms_match(binds[i].chord@ + " "@ + binds[i].summary@, needle),
    ensures
        bind_hits(binds, needle).contains((bind_label(binds[i]), "Keybind"@, "keybinds"@, "keybind"@)),
    decreases binds.len(),
{
    let row = (bind_label(binds[i]), "Keybind"@, "keybinds"@, "keybind"@);
    let prev = bind_hits(binds.drop_last(), needle);
    if i == binds.len() - 1 {
        assert(prev.push(row)[prev.len() as int] == row);
    } else {
        assert(binds.drop_last()[i] == binds[i]);
        lemma_bind_hits_have(binds.drop_last(), needle, i);
        let q = choose|q: int| 0 <= q < prev.len() && prev[q] == row;
        let last = binds.last();
        if spec_terms_match(last.chord@ + " "@ + last.summary@, needle) {
            assert(prev.push((bind_label(last), "Keybind"@, "keybinds"@, "keybind"@))[q] == row);
        }
    }
}

/// A keybind is among the header search's results, as a keybind row
/// opening the keybinds page, whenever every whitespace-separated term of
/// the lower-cased query occurs in the lower-cased text of its chord, a
/// space and its action summary.
pub proof fn law_search_finds_binds(
    needle: Seq<char>,
    binds: Seq<BindHit>,
    hits: Seq<SettingHit>,
    sets: Seq<KeySet>,
    labels: Seq<Seq<char>>,
    i: int,
)
    requires
        0 <= i < binds.len(),
        all_terms_in(
            str_lowercase(binds[i].chord@ + " "@ + binds[i].summary@),
            str_lowercase(needle),
        ),
    ensures
        spec_search_rows(needle, binds, hits, sets, labels).contains(
            (bind_label(binds[i]), "Keybind"@, "keybinds"@, "keybind"@),
        ),
{
    let row = (bind_label(binds[i]), "Keybind"@, "keybinds"@, "keybind"@);
    lemma_bind_hits_have(binds, needle, i);
    let p = page_hits(catalog(), needle);
    let bh = bind_hits(binds, needle);
    let q = choose|q: int| 0 <= q < bh.len() && bh[q] == row;
    assert(spec_search_rows(needle, binds, hits, sets, labels)[p.len() + q] == row);
}

/// Searching for a bind's chord finds that bind, wherever lower-casing
/// its chord and summary joined by a space lower-cases each and keeps the
/// space.
pub proof fn law_search_by_chord(
    binds: Seq<BindHit>,
    hits: Seq<SettingHit>,
    sets: Seq<KeySet>,
    labels: Seq<Seq<char>>,
    i: int,
)
    requires
        0 <= i < binds.len(),
        str_lowercase(binds[i].chord@ + " "@ + binds[i].summary@) == str_lowercase(binds[i].chord@) + " "@
            + str_lowercase(binds[i].summary@),
    ensures
        spec_search_rows(binds[i].chord@, binds, hits, sets, labels).contains(
            (bind_label(binds[i]), "Keybind"@, "keybinds"@, "keybind"@),
        ),
{
    let c = str_lowercase(binds[i].chord@);
    let t = str_lowercase(binds[i].summary@);
    assert forall|a: int, b: int| #[trigger] is_term(c, a, b) implies contains_seq(c + " "@ + t, c.subrange(a, b)) by {
        assert((c + " "@ + t).subrange(a, b) =~= c.subrange(a, b));
        assert(occurs_at(c + " "@ + t, c.subrange(a, b), a));
    }
    assert(all_terms_in(c + " "@ + t, c));
    law_search_finds_binds(binds[i].chord@, binds, hits, sets, labels, i);
}

} // verus!
