use umbriel_config::catalog::{page, pages};
use umbriel_config::sections::page_id_for_section;
use umbriel_config::page_cards::{catalog_page_cards, fallback_page_cards, CardEntry, CardPlan};

fn entry(section: &str, leaf: &str) -> CardEntry {
    CardEntry { section: section.to_string(), leaf: leaf.to_string() }
}

fn summary(cards: &[CardPlan]) -> Vec<(String, String, Vec<usize>)> {
    cards.iter().map(|c| (c.title.clone(), c.key.clone(), c.entries.clone())).collect()
}

#[test]
fn layout_page_lists_curated_cards_then_uncurated_sub_sections() {
    let layout = page("layout").unwrap();
    let schema = vec![
        entry("layout", "gaps_in"),
        entry("layout.scrolling", "column_width"),
        entry("layout.extra_bits", "speed"),
        entry("appearance", "rounding"),
        entry("layout", "mode"),
        entry("layout.dwindle", "split"),
        entry("layout.another", "depth"),
        entry("layout.extra_bits", "size"),
    ];
    let cards = catalog_page_cards(&layout, &schema);
    assert_eq!(
        summary(&cards),
        vec![
            ("Layout".to_string(), "card:layout:Layout".to_string(), vec![0, 4]),
            ("Scrolling".to_string(), "card:layout:Scrolling".to_string(), vec![1]),
            ("Dwindle".to_string(), "card:layout:Dwindle".to_string(), vec![5]),
            ("Layout.another".to_string(), "card:layout:Layout.another".to_string(), vec![6]),
            ("Layout.extra bits".to_string(), "card:layout:Layout.extra bits".to_string(), vec![2, 7]),
        ]
    );
}

#[test]
fn animation_shader_paths_stay_off_the_animation_cards() {
    let animations = page("animations").unwrap();
    let schema = vec![
        entry("animation", "enabled"),
        entry("animation.windows_in", "shader"),
        entry("animation.windows_in", "duration"),
    ];
    let cards = catalog_page_cards(&animations, &schema);
    assert_eq!(
        summary(&cards),
        vec![
            ("Basics".to_string(), "card:animations:Basics".to_string(), vec![0]),
            ("Windows opening".to_string(), "card:animations:Windows opening".to_string(), vec![2]),
        ]
    );
}

#[test]
fn catalog_page_without_matching_schema_has_no_cards() {
    let layout = page("layout").unwrap();
    let schema = vec![entry("appearance", "rounding"), entry("input", "repeat_rate")];
    assert!(catalog_page_cards(&layout, &schema).is_empty());
}

#[test]
fn fallback_page_groups_its_area_by_title() {
    let schema = vec![
        entry("xwayland.scale", "factor"),
        entry("layout", "gaps_in"),
        entry("xwayland", "enabled"),
        entry("xwayland.scale", "force"),
        entry("xwaylandish", "nope"),
    ];
    let cards = fallback_page_cards("xwayland", &schema);
    assert_eq!(
        summary(&cards),
        vec![
            ("Xwayland".to_string(), "Xwayland".to_string(), vec![2]),
            ("Xwayland.scale".to_string(), "Xwayland.scale".to_string(), vec![0, 3]),
        ]
    );
    assert!(fallback_page_cards("debug", &schema).is_empty());
}

fn page_cards_for(id: &str, schema: &Vec<CardEntry>) -> Vec<CardPlan> {
    match page(id) {
        Some(p) => catalog_page_cards(&p, schema),
        None => fallback_page_cards(id, schema),
    }
}

#[test]
fn every_schema_entry_is_listed_on_its_page() {
    let schema = vec![
        entry("layout", "gaps_in"),
        entry("layout.scrolling", "column_width"),
        entry("layout.brand_new", "knob"),
        entry("animation.windows_in", "duration"),
        entry("xwayland", "enabled"),
        entry("xwayland.scale", "force"),
        entry("hot_corners.top_left", "action"),
        entry("input", "repeat_rate"),
    ];
    for (i, e) in schema.iter().enumerate() {
        let id = page_id_for_section(&e.section);
        let cards = page_cards_for(&id, &schema);
        assert!(cards.iter().any(|c| c.entries.contains(&i)), "{} on {}", e.section, id);
    }
}

#[test]
fn catalog_page_ids_are_unique() {
    let all = pages();
    for (i, a) in all.iter().enumerate() {
        for b in &all[i + 1..] {
            assert_ne!(a.id, b.id);
        }
    }
}
