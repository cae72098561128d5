use umbriel_config::common::{diff_against_saved, entry_home, file_name_of, prettify, KeySet};
use umbriel_config::values::ValueMap;

fn key_set(keys: &[&str]) -> KeySet {
    KeySet::from_keys(keys.iter().map(|key| (*key).to_owned()).collect())
}

fn map(pairs: &[(&str, &str)]) -> ValueMap {
    ValueMap::from_pairs(
        pairs
            .iter()
            .map(|(k, v)| ((*k).to_owned(), (*v).to_owned()))
            .collect(),
    )
}

#[test]
fn entry_home_is_the_last_file_that_sets_the_key() {
    // Chain order: include a, include b, main.
    let sets = [key_set(&["x", "y"]), key_set(&["x"]), key_set(&["z"])];
    assert_eq!(
        entry_home(&sets, "x"),
        Some(1),
        "later include beats earlier"
    );
    assert_eq!(entry_home(&sets, "y"), Some(0));
    assert_eq!(entry_home(&sets, "z"), Some(2));
    let everywhere = [key_set(&["x"]), key_set(&["x"]), key_set(&["x"])];
    assert_eq!(
        entry_home(&everywhere, "x"),
        Some(2),
        "main beats every include"
    );
    assert_eq!(entry_home(&sets, "missing"), None);
}

#[test]
fn diff_against_saved_includes_deletions() {
    // A key removed from the doc must still count as a change.
    let saved_map = map(&[("a.changed", "1"), ("b.kept", "2"), ("c.removed", "3")]);
    let current = map(&[("a.changed", "9"), ("b.kept", "2")]);
    assert_eq!(
        diff_against_saved(&current, Some(&saved_map)),
        vec![
            ("a.changed".to_owned(), Some("9".to_owned())),
            ("c.removed".to_owned(), None),
        ]
    );
    // No snapshot yet: every current key counts as new.
    assert_eq!(diff_against_saved(&current, None).len(), 2);
}

#[test]
fn diff_is_empty_for_an_unchanged_document_and_lists_keys_in_order() {
    let saved = map(&[("b", "2"), ("a", "1")]);
    let same = map(&[("a", "1"), ("b", "2")]);
    assert!(diff_against_saved(&same, Some(&saved)).is_empty());
    let current = map(&[("c", "3"), ("a", "0"), ("b", "2")]);
    assert_eq!(
        diff_against_saved(&current, Some(&saved)),
        vec![("a".to_owned(), Some("0".to_owned())), ("c".to_owned(), Some("3".to_owned()))]
    );
}

#[test]
fn value_map_keeps_the_last_value_and_forgets_removed_keys() {
    let mut m = map(&[("k", "1"), ("k", "2")]);
    assert_eq!(m.len(), 1);
    assert_eq!(m.get("k"), Some(&"2".to_owned()));
    m.insert("j".to_owned(), "0".to_owned());
    assert_eq!(m.len(), 2);
    m.remove("k");
    assert!(!m.contains_key("k"));
    assert!(m.contains_key("j"));
    m.remove("absent");
    assert_eq!(m.len(), 1);
}

#[test]
fn prettify_capitalizes_and_spaces() {
    assert_eq!(prettify("hot_corners"), "Hot corners");
    assert_eq!(prettify(""), "");
    assert_eq!(prettify("éclair_x"), "éclair x");
}

#[test]
fn file_name_of_takes_the_last_component() {
    assert_eq!(file_name_of("/home/me/.config/umbriel/config.toml"), "config.toml");
    assert_eq!(file_name_of("/usr/bin/"), "bin");
    assert_eq!(file_name_of("a/.."), "");
    assert_eq!(file_name_of("/"), "");
}
