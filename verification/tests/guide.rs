use umbriel_config::common::KeySet;
use umbriel_config::guide::{guide_back, guide_next, guide_plan, guide_steps};

fn entry(key: &str, suggestion: Option<&str>) -> (String, Option<String>) {
    (key.to_string(), suggestion.map(str::to_string))
}

#[test]
fn guide_steps_list_the_curated_cards() {
    let steps = guide_steps();
    let titles: Vec<&str> = steps.iter().map(|s| s.title).collect();
    assert_eq!(titles, vec!["layout", "input", "general", "appearance"]);
    assert_eq!(steps[0].keys[1].key, "layout.gap");
    assert_eq!(steps[3].keys[4].label, "Focused border color");
}

#[test]
fn guide_plan_fills_only_unset_keys_from_the_schema() {
    let schema = vec![
        entry("layout.gap", Some("8")),
        entry("layout.mode", Some("\"scrolling\"")),
        entry("input.cursor.size", None),
        entry("general.xwayland", Some("true")),
        entry("layout.gap", Some("99")),
    ];
    let current = KeySet::from_keys(vec!["layout.mode".to_string()]);
    let plan = guide_plan(&schema, &current, 0).expect("steps");
    let shape: Vec<(&str, Vec<&str>)> =
        plan.steps.iter().map(|s| (s.title, s.keys.iter().map(|k| k.key).collect())).collect();
    assert_eq!(
        shape,
        vec![
            ("layout", vec!["layout.mode", "layout.gap"]),
            ("input", vec!["input.cursor.size"]),
            ("general", vec!["general.xwayland"]),
        ]
    );
    assert_eq!(
        plan.fills,
        vec![
            ("layout.gap".to_string(), "8".to_string()),
            ("general.xwayland".to_string(), "true".to_string()),
        ]
    );
    let with_monitors = guide_plan(&schema, &current, 2).expect("steps");
    assert_eq!(with_monitors.steps[0].title, "output");
    assert!(with_monitors.steps[0].keys.is_empty());
}

#[test]
fn guide_plan_needs_a_schema_or_monitors() {
    let none = KeySet::from_keys(Vec::new());
    assert!(guide_plan(&Vec::new(), &none, 0).is_none());
    let only_outputs = guide_plan(&Vec::new(), &none, 1).expect("outputs step");
    assert_eq!(only_outputs.steps.len(), 1);
    assert!(only_outputs.fills.is_empty());
}

#[test]
fn guide_navigation() {
    assert_eq!(guide_back(0), None);
    assert_eq!(guide_back(2), Some(1));
    assert_eq!(guide_next(0, 3), (1, true));
    assert_eq!(guide_next(2, 3), (3, false));
}
