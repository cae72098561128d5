//! The curated catalog: human names and grouping for the settings pages.
//! The config file's structure is umbriel's; here combined tables are
//! split into separate pages, and every page and card gets a real name.
//! Sub-sections the catalog doesn't claim fall through to their area's
//! page or the MORE sidebar group, so nothing is ever hidden.

use vstd::prelude::*;

use crate::text::{chars_eq, chars_of, owned, str_eq, spec_top_level, top_level_chars};

verus! {

/// One card on a settings page: a slice of the schema claimed by exact
/// sub-section match.
#[derive(Clone, Copy, Debug)]
pub struct Card {
    pub title: &'static str,
    pub section: &'static str,
}

/// One page: a sidebar entry and the cards it shows.
#[derive(Clone, Debug)]
pub struct Page {
    pub id: &'static str,
    pub title: &'static str,
    pub description: &'static str,
    /// Sidebar header this page sits under ("desktop", "look", ...).
    pub group: &'static str,
    pub cards: Vec<Card>,
}

/// A page with its texts as character sequences; a card is
/// `(title, section)`.
#[verifier::ext_equal]
pub struct PageView {
    pub id: Seq<char>,
    pub title: Seq<char>,
    pub description: Seq<char>,
    pub group: Seq<char>,
    pub cards: Seq<(Seq<char>, Seq<char>)>,
}

pub open spec fn card_view(c: Card) -> (Seq<char>, Seq<char>) {
    (c.title@, c.section@)
}

pub open spec fn page_view(p: Page) -> PageView {
    PageView {
        id: p.id@,
        title: p.title@,
        description: p.description@,
        group: p.group@,
        cards: p.cards@.map_values(|c: Card| card_view(c)),
    }
}

pub open spec fn pages_view(ps: Seq<Page>) -> Seq<PageView> {
    ps.map_values(|p: Page| page_view(p))
}

/// Page id of the live-detected monitors page.
pub const OUTPUTS_ID: &'static str = "outputs";

/// Sidebar header for fallback pages (top-level sections the catalog
/// doesn't claim).
pub const MORE_GROUP: &'static str = "more";

/// The catalog, page by page in sidebar order.
pub open spec fn catalog() -> Seq<PageView> {
    seq![
        PageView {
            id: "outputs"@,
            title: "Outputs"@,
            description: "Your monitors, resolution, refresh rate, position, HDR."@,
            group: "outputs"@,
            cards: seq![],
        },
        PageView {
            id: "workspaces"@,
            title: "Workspaces"@,
            description: "Workspace behavior and numbering."@,
            group: "desktop"@,
            cards: seq![("Workspaces"@, "workspaces"@)],
        },
        PageView {
            id: "overview"@,
            title: "Overview"@,
            description: "The zoomed-out workspace overview."@,
            group: "desktop"@,
            cards: seq![("Overview"@, "overview"@)],
        },
        PageView {
            id: "hot-corners"@,
            title: "Hot corners"@,
            description: "Actions triggered by pushing the pointer into a corner."@,
            group: "desktop"@,
            cards: seq![("Top left"@, "hot_corners.top_left"@), ("Top right"@, "hot_corners.top_right"@), ("Bottom left"@, "hot_corners.bottom_left"@), ("Bottom right"@, "hot_corners.bottom_right"@)],
        },
        PageView {
            id: "layout"@,
            title: "Layout"@,
            description: "Tiling mode, gaps, and per-layout options."@,
            group: "desktop"@,
            cards: seq![("Layout"@, "layout"@), ("Scrolling"@, "layout.scrolling"@), ("Dwindle"@, "layout.dwindle"@), ("Master"@, "layout.master"@), ("Struts"@, "layout.struts"@)],
        },
        PageView {
            id: "animations"@,
            title: "Animations"@,
            description: "How windows and workspaces move."@,
            group: "desktop"@,
            cards: seq![("Basics"@, "animation"@), ("Windows opening"@, "animation.windows_in"@), ("Windows closing"@, "animation.windows_out"@), ("Window move"@, "animation.windows_move"@), ("Workspaces"@, "animation.workspaces"@), ("Overview"@, "animation.overview"@), ("Scratchpad"@, "animation.scratchpad"@), ("Border"@, "animation.border"@), ("Dim unfocused"@, "animation.dim_unfocused"@), ("Layers"@, "animation.layers"@), ("Beziers"@, "animation.beziers"@), ("Springs"@, "animation.springs"@)],
        },
        PageView {
            id: "appearance"@,
            title: "Appearance"@,
            description: "Window decoration: borders, corners, blur, shadows."@,
            group: "look"@,
            cards: seq![("Basics"@, "appearance"@), ("Blur"@, "appearance.blur"@), ("Shadows"@, "appearance.shadow"@)],
        },
        PageView {
            id: "colors"@,
            title: "Colors"@,
            description: "The palette for panels, text, accents, and borders."@,
            group: "look"@,
            cards: seq![("Basics"@, "colors"@), ("Border"@, "colors.border"@), ("Overview"@, "colors.overview"@)],
        },
        PageView {
            id: "input"@,
            title: "Input basics"@,
            description: "Pasting and window-drag behavior."@,
            group: "input"@,
            cards: seq![("Input"@, "input"@)],
        },
        PageView {
            id: "keyboard"@,
            title: "Keyboard"@,
            description: "Layout, repeat rate, Num Lock."@,
            group: "input"@,
            cards: seq![("Keyboard"@, "input.keyboard"@)],
        },
        PageView {
            id: "touchpad"@,
            title: "Touchpad"@,
            description: "Tap, scroll, and pointer speed."@,
            group: "input"@,
            cards: seq![("Touchpad"@, "input.touchpad"@)],
        },
        PageView {
            id: "mouse"@,
            title: "Mouse"@,
            description: "Scrolling and pointer speed."@,
            group: "input"@,
            cards: seq![("Mouse"@, "input.mouse"@)],
        },
        PageView {
            id: "tablet"@,
            title: "Tablet"@,
            description: "Tablet tools, pads, and output mapping."@,
            group: "input"@,
            cards: seq![("Tablet"@, "input.tablet"@)],
        },
        PageView {
            id: "cursor"@,
            title: "Cursor"@,
            description: "Cursor theme, size, and visibility."@,
            group: "input"@,
            cards: seq![("Cursor"@, "input.cursor"@)],
        },
        PageView {
            id: "focus"@,
            title: "Focus"@,
            description: "Focus policies, follows mouse, activation requests."@,
            group: "input"@,
            cards: seq![("Focus"@, "input.focus"@)],
        },
        PageView {
            id: "keybinds"@,
            title: "Keybinds"@,
            description: "Key chords and the actions they run."@,
            group: "input"@,
            cards: seq![],
        },
        PageView {
            id: "general"@,
            title: "General"@,
            description: "Core session behavior, XWayland, cheat sheet, autostart."@,
            group: "system"@,
            cards: seq![("General"@, "general"@)],
        },
        PageView {
            id: "environment"@,
            title: "Environment"@,
            description: "Environment variables set for the session."@,
            group: "system"@,
            cards: seq![("Variables"@, "environment"@)],
        },
        PageView {
            id: "events"@,
            title: "Hardware events"@,
            description: "Commands run when a laptop lid opens or closes."@,
            group: "system"@,
            cards: seq![("Hooks"@, "events"@)],
        },
    ]
}

/// The catalog's pages.
#[verifier::rlimit(40)]
pub fn pages() -> (r: Vec<Page>)
    ensures
        pages_view(r@) == catalog(),
{
    let mut out: Vec<Page> = Vec::new();
    let mut cards: Vec<Card> = Vec::new();
    assert(cards@.map_values(|c: Card| card_view(c)) =~= seq![]);
    out.push(Page {
        id: "outputs",
        title: "Outputs",
        description: "Your monitors, resolution, refresh rate, position, HDR.",
        group: "outputs",
        cards,
    });
    let mut cards: Vec<Card> = Vec::new();
    cards.push(Card { title: "Workspaces", section: "workspaces" });
    assert(cards@.map_values(|c: Card| card_view(c)) =~= seq![("Workspaces"@, "workspaces"@)]);
    out.push(Page {
        id: "workspaces",
        title: "Workspaces",
        description: "Workspace behavior and numbering.",
        group: "desktop",
        cards,
    });
    let mut cards: Vec<Card> = Vec::new();
    cards.push(Card { title: "Overview", section: "overview" });
    assert(cards@.map_values(|c: Card| card_view(c)) =~= seq![("Overview"@, "overview"@)]);
    out.push(Page {
        id: "overview",
        title: "Overview",
        description: "The zoomed-out workspace overview.",
        group: "desktop",
        cards,
    });
    let mut cards: Vec<Card> = Vec::new();
    cards.push(Card { title: "Top left", section: "hot_corners.top_left" });
    cards.push(Card { title: "Top right", section: "hot_corners.top_right" });
    cards.push(Card { title: "Bottom left", section: "hot_corners.bottom_left" });
    cards.push(Card { title: "Bottom right", section: "hot_corners.bottom_right" });
    assert(cards@.map_values(|c: Card| card_view(c)) =~= seq![("Top left"@, "hot_corners.top_left"@), ("Top right"@, "hot_corners.top_right"@), ("Bottom left"@, "hot_corners.bottom_left"@), ("Bottom right"@, "hot_corners.bottom_right"@)]);
    out.push(Page {
        id: "hot-corners",
        title: "Hot corners",
        description: "Actions triggered by pushing the pointer into a corner.",
        group: "desktop",
        cards,
    });
    let mut cards: Vec<Card> = Vec::new();
    cards.push(Card { title: "Layout", section: "layout" });
    cards.push(Card { title: "Scrolling", section: "layout.scrolling" });
    cards.push(Card { title: "Dwindle", section: "layout.dwindle" });
    cards.push(Card { title: "Master", section: "layout.master" });
    cards.push(Card { title: "Struts", section: "layout.struts" });
    assert(cards@.map_values(|c: Card| card_view(c)) =~= seq![("Layout"@, "layout"@), ("Scrolling"@, "layout.scrolling"@), ("Dwindle"@, "layout.dwindle"@), ("Master"@, "layout.master"@), ("Struts"@, "layout.struts"@)]);
    out.push(Page {
        id: "layout",
        title: "Layout",
        description: "Tiling mode, gaps, and per-layout options.",
        group: "desktop",
        cards,
    });
    let mut cards: Vec<Card> = Vec::new();
    cards.push(Card { title: "Basics", section: "animation" });
    cards.push(Card { title: "Windows opening", section: "animation.windows_in" });
    cards.push(Card { title: "Windows closing", section: "animation.windows_out" });
    cards.push(Card { title: "Window move", section: "animation.windows_move" });
    cards.push(Card { title: "Workspaces", section: "animation.workspaces" });
    cards.push(Card { title: "Overview", section: "animation.overview" });
    cards.push(Card { title: "Scratchpad", section: "animation.scratchpad" });
    cards.push(Card { title: "Border", section: "animation.border" });
    cards.push(Card { title: "Dim unfocused", section: "animation.dim_unfocused" });
    cards.push(Card { title: "Layers", section: "animation.layers" });
    cards.push(Card { title: "Beziers", section: "animation.beziers" });
    cards.push(Card { title: "Springs", section: "animation.springs" });
    assert(cards@.map_values(|c: Card| card_view(c)) =~= seq![("Basics"@, "animation"@), ("Windows opening"@, "animation.windows_in"@), ("Windows closing"@, "animation.windows_out"@), ("Window move"@, "animation.windows_move"@), ("Workspaces"@, "animation.workspaces"@), ("Overview"@, "animation.overview"@), ("Scratchpad"@, "animation.scratchpad"@), ("Border"@, "animation.border"@), ("Dim unfocused"@, "animation.dim_unfocused"@), ("Layers"@, "animation.layers"@), ("Beziers"@, "animation.beziers"@), ("Springs"@, "animation.springs"@)]);
    out.push(Page {
        id: "animations",
        title: "Animations",
        description: "How windows and workspaces move.",
        group: "desktop",
        cards,
    });
    let mut cards: Vec<Card> = Vec::new();
    cards.push(Card { title: "Basics", section: "appearance" });
    cards.push(Card { title: "Blur", section: "appearance.blur" });
    cards.push(Card { title: "Shadows", section: "appearance.shadow" });
    assert(cards@.map_values(|c: Card| card_view(c)) =~= seq![("Basics"@, "appearance"@), ("Blur"@, "appearance.blur"@), ("Shadows"@, "appearance.shadow"@)]);
    out.push(Page {
        id: "appearance",
        title: "Appearance",
        description: "Window decoration: borders, corners, blur, shadows.",
        group: "look",
        cards,
    });
    let mut cards: Vec<Card> = Vec::new();
    cards.push(Card { title: "Basics", section: "colors" });
    cards.push(Card { title: "Border", section: "colors.border" });
    cards.push(Card { title: "Overview", section: "colors.overview" });
    assert(cards@.map_values(|c: Card| card_view(c)) =~= seq![("Basics"@, "colors"@), ("Border"@, "colors.border"@), ("Overview"@, "colors.overview"@)]);
    out.push(Page {
        id: "colors",
        title: "Colors",
        description: "The palette for panels, text, accents, and borders.",
        group: "look",
        cards,
    });
    let mut cards: Vec<Card> = Vec::new();
    cards.push(Card { title: "Input", section: "input" });
    assert(cards@.map_values(|c: Card| card_view(c)) =~= seq![("Input"@, "input"@)]);
    out.push(Page {
        id: "input",
        title: "Input basics",
        description: "Pasting and window-drag behavior.",
        group: "input",
        cards,
    });
    let mut cards: Vec<Card> = Vec::new();
    cards.push(Card { title: "Keyboard", section: "input.keyboard" });
    assert(cards@.map_values(|c: Card| card_view(c)) =~= seq![("Keyboard"@, "input.keyboard"@)]);
    out.push(Page {
        id: "keyboard",
        title: "Keyboard",
        description: "Layout, repeat rate, Num Lock.",
        group: "input",
        cards,
    });
    let mut cards: Vec<Card> = Vec::new();
    cards.push(Card { title: "Touchpad", section: "input.touchpad" });
    assert(cards@.map_values(|c: Card| card_view(c)) =~= seq![("Touchpad"@, "input.touchpad"@)]);
    out.push(Page {
        id: "touchpad",
        title: "Touchpad",
        description: "Tap, scroll, and pointer speed.",
        group: "input",
        cards,
    });
    let mut cards: Vec<Card> = Vec::new();
    cards.push(Card { title: "Mouse", section: "input.mouse" });
    assert(cards@.map_values(|c: Card| card_view(c)) =~= seq![("Mouse"@, "input.mouse"@)]);
    out.push(Page {
        id: "mouse",
        title: "Mouse",
        description: "Scrolling and pointer speed.",
        group: "input",
        cards,
    });
    let mut cards: Vec<Card> = Vec::new();
    cards.push(Card { title: "Tablet", section: "input.tablet" });
    assert(cards@.map_values(|c: Card| card_view(c)) =~= seq![("Tablet"@, "input.tablet"@)]);
    out.push(Page {
        id: "tablet",
        title: "Tablet",
        description: "Tablet tools, pads, and output mapping.",
        group: "input",
        cards,
    });
    let mut cards: Vec<Card> = Vec::new();
    cards.push(Card { title: "Cursor", section: "input.cursor" });
    assert(cards@.map_values(|c: Card| card_view(c)) =~= seq![("Cursor"@, "input.cursor"@)]);
    out.push(Page {
        id: "cursor",
        title: "Cursor",
        description: "Cursor theme, size, and visibility.",
        group: "input",
        cards,
    });
    let mut cards: Vec<Card> = Vec::new();
    cards.push(Card { title: "Focus", section: "input.focus" });
    assert(cards@.map_values(|c: Card| card_view(c)) =~= seq![("Focus"@, "input.focus"@)]);
    out.push(Page {
        id: "focus",
        title: "Focus",
        description: "Focus policies, follows mouse, activation requests.",
        group: "input",
        cards,
    });
    let mut cards: Vec<Card> = Vec::new();
    assert(cards@.map_values(|c: Card| card_view(c)) =~= seq![]);
    out.push(Page {
        id: "keybinds",
        title: "Keybinds",
        description: "Key chords and the actions they run.",
        group: "input",
        cards,
    });
    let mut cards: Vec<Card> = Vec::new();
    cards.push(Card { title: "General", section: "general" });
    assert(cards@.map_values(|c: Card| card_view(c)) =~= seq![("General"@, "general"@)]);
    out.push(Page {
        id: "general",
        title: "General",
        description: "Core session behavior, XWayland, cheat sheet, autostart.",
        group: "system",
        cards,
    });
    let mut cards: Vec<Card> = Vec::new();
    cards.push(Card { title: "Variables", section: "environment" });
    assert(cards@.map_values(|c: Card| card_view(c)) =~= seq![("Variables"@, "environment"@)]);
    out.push(Page {
        id: "environment",
        title: "Environment",
        description: "Environment variables set for the session.",
        group: "system",
        cards,
    });
    let mut cards: Vec<Card> = Vec::new();
    cards.push(Card { title: "Hooks", section: "events" });
    assert(cards@.map_values(|c: Card| card_view(c)) =~= seq![("Hooks"@, "events"@)]);
    out.push(Page {
        id: "events",
        title: "Hardware events",
        description: "Commands run when a laptop lid opens or closes.",
        group: "system",
        cards,
    });
    assert(pages_view(out@) =~~= catalog());
    out
}

/// Sidebar headers in display order (MORE is appended after these).
pub open spec fn spec_groups() -> Seq<Seq<char>> {
    seq!["outputs"@, "desktop"@, "look"@, "input"@, "system"@]
}

pub fn groups() -> (r: Vec<&'static str>)
    ensures
        r@.map_values(|g: &'static str| g@) == spec_groups(),
{
    let r: Vec<&'static str> = vec!["outputs", "desktop", "look", "input", "system"];
    assert(r@.map_values(|g: &'static str| g@) =~= spec_groups());
    r
}

/// Human header text for a sidebar group id.
pub open spec fn spec_group_title(group: Seq<char>) -> Seq<char> {
    if group == "outputs"@ {
        "Outputs"@
    } else if group == "desktop"@ {
        "Desktop"@
    } else if group == "look"@ {
        "Look"@
    } else if group == "input"@ {
        "Input"@
    } else if group == "system"@ {
        "System"@
    } else if group == "more"@ {
        "More"@
    } else {
        ""@
    }
}

pub fn group_title(group: &str) -> (r: &'static str)
    ensures
        r@ == spec_group_title(group@),
{
    if str_eq(group, "outputs") {
        "Outputs"
    } else if str_eq(group, "desktop") {
        "Desktop"
    } else if str_eq(group, "look") {
        "Look"
    } else if str_eq(group, "input") {
        "Input"
    } else if str_eq(group, "system") {
        "System"
    } else if str_eq(group, MORE_GROUP) {
        "More"
    } else {
        ""
    }
}

/// `i` is the first page of `cat` whose id is `id`.
pub open spec fn first_page_with(cat: Seq<PageView>, i: int, id: Seq<char>) -> bool {
    &&& 0 <= i < cat.len()
    &&& cat[i].id == id
    &&& forall|j: int| 0 <= j < i ==> #[trigger] cat[j].id != id
}

pub open spec fn has_page(cat: Seq<PageView>, id: Seq<char>) -> bool {
    exists|i: int| 0 <= i < cat.len() && #[trigger] cat[i].id == id
}

/// The catalog page with this id.
pub fn page(id: &str) -> (r: Option<Page>)
    ensures
        r is None <==> !has_page(catalog(), id@),
        r matches Some(p) ==> exists|i: int|
            first_page_with(catalog(), i, id@) && page_view(p) == #[trigger] catalog()[i],
{
    let mut all = pages();
    let ghost cat = pages_view(all@);
    let mut i: usize = 0;
    while i < all.len()
        invariant
            cat == catalog(),
            cat == pages_view(all@),
            i <= all.len(),
            forall|j: int| 0 <= j < i ==> #[trigger] cat[j].id != id@,
        decreases all.len() - i,
    {
        if str_eq(all[i].id, id) {
            assert(first_page_with(cat, i as int, id@));
            let p = all.swap_remove(i);
            return Some(p);
        }
        i = i + 1;
    }
    None
}

/// The `(section, page id)` claims of one page, card by card.
pub open spec fn page_claims(p: PageView) -> Seq<(Seq<char>, Seq<char>)> {
    p.cards.map_values(|c: (Seq<char>, Seq<char>)| (c.1, p.id))
}

/// Every claim of the pages, page by page.
pub open spec fn claims(cat: Seq<PageView>) -> Seq<(Seq<char>, Seq<char>)>
    decreases cat.len(),
{
    if cat.len() == 0 {
        seq![]
    } else {
        claims(cat.drop_last()) + page_claims(cat.last())
    }
}

pub open spec fn claims_view(v: Seq<(&'static str, &'static str)>) -> Seq<(Seq<char>, Seq<char>)> {
    v.map_values(|c: (&'static str, &'static str)| (c.0@, c.1@))
}

/// Every schema sub-section the catalog claims, mapped to its page id.
pub fn claimed_sections() -> (r: Vec<(&'static str, &'static str)>)
    ensures
        claims_view(r@) == claims(catalog()),
{
    let all = pages();
    let ghost cat = pages_view(all@);
    let mut r: Vec<(&'static str, &'static str)> = Vec::new();
    let mut i: usize = 0;
    while i < all.len()
        invariant
            cat == catalog(),
            cat == pages_view(all@),
            i <= all.len(),
            claims_view(r@) == claims(cat.take(i as int)),
        decreases all.len() - i,
    {
        let page = &all[i];
        let ghost before = r@;
        let mut k: usize = 0;
        while k < page.cards.len()
            invariant
                i < all.len(),
                page == all@[i as int],
                k <= page.cards.len(),
                r@ == before + r@.skip(before.len() as int),
                r@.len() == before.len() + k,
                claims_view(r@.skip(before.len() as int)) == page_claims(page_view(*page)).take(
                    k as int,
                ),
            decreases page.cards.len() - k,
        {
            r.push((page.cards[k].section, page.id));
            k = k + 1;
            assert(claims_view(r@.skip(before.len() as int)) =~= page_claims(
                page_view(*page),
            ).take(k as int));
            assert(r@ =~= before + r@.skip(before.len() as int));
        }
        assert(cat.take(i + 1).drop_last() =~= cat.take(i as int));
        assert(page_claims(page_view(*page)).take(k as int) =~= page_claims(page_view(*page)));
        assert(claims_view(r@) =~= claims_view(before) + claims_view(r@.skip(before.len() as int)));
        i = i + 1;
    }
    assert(cat.take(all.len() as int) =~= cat);
    r
}

/// The distinct elements of `s`, in order of first occurrence.
pub open spec fn dedup(s: Seq<Seq<char>>) -> Seq<Seq<char>>
    decreases s.len(),
{
    if s.len() == 0 {
        seq![]
    } else if dedup(s.drop_last()).contains(s.last()) {
        dedup(s.drop_last())
    } else {
        dedup(s.drop_last()).push(s.last())
    }
}

/// The top-level config areas a page covers, each once, in card order.
pub open spec fn spec_page_top_levels(p: PageView) -> Seq<Seq<char>> {
    dedup(p.cards.map_values(|c: (Seq<char>, Seq<char>)| spec_top_level(c.1)))
}

/// Whether `v` holds a string equal to `s`.
pub(crate) fn contains_str(v: &Vec<&'static str>, s: &str) -> (b: bool)
    ensures
        b == v@.map_values(|x: &'static str| x@).contains(s@),
{
    let ghost vv = v@.map_values(|x: &'static str| x@);
    let mut k: usize = 0;
    while k < v.len()
        invariant
            vv == v@.map_values(|x: &'static str| x@),
            k <= v.len(),
            forall|m: int| 0 <= m < k ==> vv[m] != s@,
        decreases v.len() - k,
    {
        if str_eq(v[k], s) {
            assert(vv[k as int] == s@);
            return true;
        }
        k = k + 1;
    }
    false
}

/// The top-level config areas a page covers.
pub fn page_top_levels(page: &Page) -> (r: Vec<&'static str>)
    ensures
        r@.map_values(|x: &'static str| x@) == spec_page_top_levels(page_view(*page)),
{
    let ghost tops = page_view(*page).cards.map_values(
        |c: (Seq<char>, Seq<char>)| spec_top_level(c.1),
    );
    let mut out: Vec<&'static str> = Vec::new();
    let mut k: usize = 0;
    while k < page.cards.len()
        invariant
            k <= page.cards.len(),
            tops == page_view(*page).cards.map_values(|c: (Seq<char>, Seq<char>)| spec_top_level(c.1)),
            out@.map_values(|x: &'static str| x@) == dedup(tops.take(k as int)),
        decreases page.cards.len() - k,
    {
        let section: &'static str = page.cards[k].section;
        let chars = chars_of(section);
        let cut = crate::text::index_of_char(&chars, '.');
        let top: &'static str = section.substring_char(0, cut);
        assert(top@ == tops[k as int]);
        assert(tops.take(k + 1).drop_last() =~= tops.take(k as int));
        if !contains_str(&out, top) {
            out.push(top);
            assert(out@.map_values(|x: &'static str| x@) =~= dedup(tops.take(k as int)).push(
                top@,
            ));
        }
        k = k + 1;
    }
    assert(tops.take(page.cards.len() as int) =~= tops);
    out
}

/// Length and three characters of an id, enough to tell the catalog's
/// ids apart.
spec fn id_signature(id: Seq<char>) -> (nat, char, char, char) {
    (id.len(), id[0], id[1], id[4])
}

spec fn id_signatures() -> Seq<(nat, char, char, char)> {
    seq![(7nat, 'o', 'u', 'u'), (10nat, 'w', 'o', 's'), (8nat, 'o', 'v', 'v'), (11nat, 'h', 'o', 'c'), (6nat, 'l', 'a', 'u'), (10nat, 'a', 'n', 'a'), (10nat, 'a', 'p', 'a'), (6nat, 'c', 'o', 'r'), (5nat, 'i', 'n', 't'), (8nat, 'k', 'e', 'o'), (8nat, 't', 'o', 'h'), (5nat, 'm', 'o', 'e'), (6nat, 't', 'a', 'e'), (6nat, 'c', 'u', 'o'), (5nat, 'f', 'o', 's'), (8nat, 'k', 'e', 'i'), (7nat, 'g', 'e', 'r'), (11nat, 'e', 'n', 'r'), (6nat, 'e', 'v', 't')]
}

/// No two catalog pages share an id.
pub proof fn lemma_catalog_ids_distinct()
    ensures
        forall|i: int, j: int| 0 <= i < j < catalog().len() ==> catalog()[i].id != catalog()[j].id,
{
    reveal_strlit("outputs");
    reveal_strlit("workspaces");
    reveal_strlit("overview");
    reveal_strlit("hot-corners");
    reveal_strlit("layout");
    reveal_strlit("animations");
    reveal_strlit("appearance");
    reveal_strlit("colors");
    reveal_strlit("input");
    reveal_strlit("keyboard");
    reveal_strlit("touchpad");
    reveal_strlit("mouse");
    reveal_strlit("tablet");
    reveal_strlit("cursor");
    reveal_strlit("focus");
    reveal_strlit("keybinds");
    reveal_strlit("general");
    reveal_strlit("environment");
    reveal_strlit("events");
    assert forall|k: int| 0 <= k < catalog().len() implies id_signature(#[trigger] catalog()[k].id) == id_signatures()[k] by {}
    assert forall|i: int, j: int| 0 <= i < j < catalog().len() implies catalog()[i].id != catalog()[j].id by {
        assert(id_signature(catalog()[i].id) == id_signatures()[i]);
        assert(id_signature(catalog()[j].id) == id_signatures()[j]);
    }
}

} // verus!
