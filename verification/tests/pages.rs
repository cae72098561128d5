use umbriel_config::catalog::{claimed_sections, group_title, page, page_top_levels, pages, OUTPUTS_ID};
use umbriel_config::rules::rule_family;
use umbriel_config::search::terms_match;
use umbriel_config::sections::{page_id_for_section, page_meta};

#[test]
fn terms_match_is_case_insensitive_all_terms() {
    assert!(terms_match(
        "Window rules — How matching windows open",
        "rules windOw"
    ));
    assert!(terms_match("Keybinds", "keybinds"));
    assert!(!terms_match("Window rules", "window banana"));
    // Blank needle matches anything, mirroring the settings search.
    assert!(terms_match("Anything", "   "));
}

#[test]
fn catalog_pages_are_findable_by_their_titles() {
    let keybinds = page("keybinds").unwrap();
    let outputs = page(OUTPUTS_ID).unwrap();
    assert!(terms_match(keybinds.title, "keybind"));
    assert!(terms_match(
        &format!("{} {}", outputs.title, outputs.description),
        "monitors"
    ));
}

#[test]
fn group_titles_name_the_sidebar_headers() {
    assert_eq!(group_title("desktop"), "Desktop");
    assert_eq!(group_title("more"), "More");
    assert_eq!(group_title("nope"), "");
}

#[test]
fn page_lookup_and_top_levels() {
    let layout = page("layout").unwrap();
    assert_eq!(layout.title, "Layout");
    assert_eq!(page_top_levels(&layout), vec!["layout"]);
    let animations = page("animations").unwrap();
    assert_eq!(page_top_levels(&animations), vec!["animation"]);
    assert!(page("missing").is_none());
    let claims = claimed_sections();
    assert!(claims.contains(&("hot_corners.top_left", "hot-corners")));
    assert_eq!(claims.len(), pages().iter().map(|p| p.cards.len()).sum::<usize>());
}

#[test]
fn sections_land_on_their_pages() {
    assert_eq!(page_id_for_section("layout.dwindle"), "layout");
    assert_eq!(page_id_for_section("input.keyboard"), "keyboard");
    // Unclaimed sub-section of a claimed area: the area's first page.
    assert_eq!(page_id_for_section("animation.brand_new"), "animations");
    // Unclaimed area: the MORE fallback page named after it.
    assert_eq!(page_id_for_section("debug.render"), "debug");
}

#[test]
fn page_meta_uses_the_catalog_or_prettifies() {
    assert_eq!(
        page_meta("colors"),
        (
            "Colors".to_owned(),
            "The palette for panels, text, accents, and borders.".to_owned()
        )
    );
    let (title, note) = page_meta("hot_stuff");
    assert_eq!(title, "Hot stuff");
    assert_eq!(note, "Settings umbriel hasn't grouped yet, the catalog will catch up.");
}

#[test]
fn rule_family_names_the_rule_table() {
    assert_eq!(rule_family("window-rules"), Some("window_rule"));
    assert_eq!(rule_family("layer-rules"), Some("layer_rule"));
    assert_eq!(rule_family("security-contexts"), Some("security_context_rule"));
    assert_eq!(rule_family("general"), None);
}

#[test]
fn terms_match_splits_a_joined_needle() {
    let h = "Window rules and layout";
    assert!(terms_match(h, "window layout"));
    assert!(terms_match(h, "window") && terms_match(h, "layout"));
    assert!(!terms_match(h, "window banana"));
    assert!(terms_match(h, "window") && !terms_match(h, "banana"));
    assert!(terms_match(h, "   "));
    assert!(terms_match("", ""));
}
