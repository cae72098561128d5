//! Page navigation rules: which page a schema sub-section lands on, and
//! the header text of a page.

use vstd::prelude::*;

use crate::catalog::{catalog, claimed_sections, claims, claims_view, page, page_view, first_page_with, has_page};
use crate::common::{prettify, spec_prettify};
use crate::text::{chars_eq, chars_of, owned, string_of, spec_top_level, top_level_chars};

verus! {

/// The page of the first claim whose section is exactly `section`.
pub open spec fn first_exact(cs: Seq<(Seq<char>, Seq<char>)>, section: Seq<char>) -> Option<Seq<char>>
    decreases cs.len(),
{
    if cs.len() == 0 {
        None
    } else if cs[0].0 == section {
        Some(cs[0].1)
    } else {
        first_exact(cs.drop_first(), section)
    }
}

/// The page of the first claim in the top-level area `top`.
pub open spec fn first_in_area(cs: Seq<(Seq<char>, Seq<char>)>, top: Seq<char>) -> Option<Seq<char>>
    decreases cs.len(),
{
    if cs.len() == 0 {
        None
    } else if spec_top_level(cs[0].0) == top {
        Some(cs[0].1)
    } else {
        first_in_area(cs.drop_first(), top)
    }
}

/// Which page a schema sub-section belongs to: its claimed page, else the
/// first page covering its top-level area, else the MORE fallback page
/// (whose id is the top-level name itself).
pub open spec fn spec_page_id_for_section(section: Seq<char>) -> Seq<char> {
    match first_exact(claims(catalog()), section) {
        Some(id) => id,
        None => match first_in_area(claims(catalog()), spec_top_level(section)) {
            Some(id) => id,
            None => spec_top_level(section),
        },
    }
}

pub fn page_id_for_section(section: &str) -> (r: String)
    ensures
        r@ == spec_page_id_for_section(section@),
{
    let cs = claimed_sections();
    let ghost all = claims_view(cs@);
    let sec = chars_of(section);
    let mut i: usize = 0;
    assert(all.skip(0) =~= all);
    while i < cs.len()
        invariant
            all == claims_view(cs@),
            all == claims(catalog()),
            sec@ == section@,
            i <= cs.len(),
            first_exact(all, sec@) == first_exact(all.skip(i as int), sec@),
        decreases cs.len() - i,
    {
        assert(all.skip(i as int).drop_first() =~= all.skip(i + 1));
        let claimed = chars_of(cs[i].0);
        assert(all.skip(i as int)[0] == all[i as int]);
        assert(all[i as int] == (cs@[i as int].0@, cs@[i as int].1@));
        if chars_eq(&claimed, &sec) {
            assert(first_exact(all.skip(i as int), sec@) == Some(all[i as int].1));
            return owned(cs[i].1);
        }
        i = i + 1;
    }
    let top = top_level_chars(&sec);
    let mut j: usize = 0;
    assert(all.skip(0) =~= all);
    assert(all.skip(cs.len() as int) =~= Seq::<(Seq<char>, Seq<char>)>::empty());
    while j < cs.len()
        invariant
            all == claims_view(cs@),
            all == claims(catalog()),
            first_exact(all, sec@) is None,
            sec@ == section@,
            top@ == spec_top_level(sec@),
            j <= cs.len(),
            first_in_area(all, top@) == first_in_area(all.skip(j as int), top@),
        decreases cs.len() - j,
    {
        assert(all.skip(j as int).drop_first() =~= all.skip(j + 1));
        let claimed = chars_of(cs[j].0);
        let claimed_top = top_level_chars(&claimed);
        assert(all.skip(j as int)[0] == all[j as int]);
        assert(all[j as int] == (cs@[j as int].0@, cs@[j as int].1@));
        if chars_eq(&claimed_top, &top) {
            assert(first_in_area(all.skip(j as int), top@) == Some(all[j as int].1));
            return owned(cs[j].1);
        }
        j = j + 1;
    }
    assert(all.skip(cs.len() as int) =~= Seq::<(Seq<char>, Seq<char>)>::empty());
    string_of(&top)
}

pub open spec fn uncatalogued_note() -> Seq<char> {
    "Settings umbriel hasn't grouped yet, the catalog will catch up."@
}

/// Header title and subtitle of a page: the catalog's words, or for a
/// MORE fallback page its prettified id and a note.
pub open spec fn spec_page_meta(page_id: Seq<char>) -> (Seq<char>, Seq<char>) {
    if has_page(catalog(), page_id) {
        let i = choose|i: int| first_page_with(catalog(), i, page_id);
        (catalog()[i].title, catalog()[i].description)
    } else {
        (spec_prettify(page_id), uncatalogued_note())
    }
}

pub fn page_meta(page_id: &str) -> (r: (String, String))
    ensures
        (r.0@, r.1@) == spec_page_meta(page_id@),
{
    match page(page_id) {
        Some(p) => {
            proof {
                let i = choose|i: int|
                    first_page_with(catalog(), i, page_id@) && page_view(p) == #[trigger] catalog()[i];
                let k = choose|k: int| first_page_with(catalog(), k, page_id@);
                if i < k {
                    assert(catalog()[i].id == page_id@);
                } else if k < i {
                    assert(catalog()[k].id == page_id@);
                }
            }
            (owned(p.title), owned(p.description))
        },
        None => (
            prettify(page_id),
            owned("Settings umbriel hasn't grouped yet, the catalog will catch up."),
        ),
    }
}

} // verus!
