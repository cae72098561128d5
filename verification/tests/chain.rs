use umbriel_config::rows::{preview_row, update_row, ShownRow};
use umbriel_config::rows::entry_label;
use umbriel_config::common::{load_health, KeySet, LoadOutcome};
use umbriel_config::row_state::{other_rows, refreshed_row_state, row_state};
use umbriel_config::rows::{commit_follow_ups, reject_note};
use umbriel_config::save::{choose_destination, restore_validation, SaveEntry, Validation};
use umbriel_config::values::ValueMap;

fn keys(list: &[&str]) -> KeySet {
    KeySet::from_keys(list.iter().map(|key| (*key).to_owned()).collect())
}

fn values(pairs: &[(&str, &str)]) -> ValueMap {
    ValueMap::from_pairs(pairs.iter().map(|(k, v)| ((*k).to_owned(), (*v).to_owned())).collect())
}

fn labels() -> Vec<String> {
    vec!["colors.toml".into(), "config.toml".into()]
}

#[test]
fn a_row_belongs_to_the_last_document_that_sets_it() {
    let sets = vec![keys(&["layout.gaps", "theme.accent"]), keys(&["layout.gaps"])];
    let current = vec![values(&[("layout.gaps", "4"), ("theme.accent", "\"#fff\"")]), values(&[("layout.gaps", "8")])];
    let saved = vec![values(&[("layout.gaps", "4"), ("theme.accent", "\"#000\"")]), values(&[("layout.gaps", "8")])];
    let new_keys = keys(&["theme.accent"]);

    let gaps = row_state(&sets, &labels(), &current, &saved, &new_keys, 1, "layout.gaps");
    assert_eq!((gaps.home, gaps.doc, gaps.home_label.as_str()), (1, 1, "config.toml"));
    assert!(!gaps.available && !gaps.changed && !gaps.is_new);

    let accent = row_state(&sets, &labels(), &current, &saved, &new_keys, 1, "theme.accent");
    assert_eq!((accent.home, accent.doc, accent.home_label.as_str()), (0, 0, "colors.toml"));
    assert!(accent.changed && accent.is_new);

    let unset = row_state(&sets, &labels(), &current, &saved, &new_keys, 1, "input.repeat_rate");
    assert_eq!((unset.home, unset.doc, unset.home_label.as_str()), (-1, 1, ""));
    assert!(unset.available && !unset.changed);
}

#[test]
fn a_rebuilt_row_falls_back_to_the_main_file() {
    let sets = vec![keys(&["theme.accent"]), keys(&[])];
    let current = vec![values(&[("theme.accent", "1")]), values(&[("input.rate", "30")])];
    let saved = vec![values(&[("theme.accent", "1")]), values(&[])];
    let row = refreshed_row_state(&sets, &labels(), &current, &saved, 1, "input.rate");
    assert_eq!((row.home, row.doc, row.home_label.as_str()), (1, 1, "config.toml"));
    assert!(row.changed && !row.available && !row.is_new);
    let row = refreshed_row_state(&sets, &labels(), &current, &saved, 1, "theme.accent");
    assert_eq!((row.home, row.changed), (0, false));
}

#[test]
fn keys_beyond_the_schema_get_one_row_each_by_their_owner() {
    let sets = vec![keys(&["layout.secret", "layout.extra", "misc.other"]), keys(&["layout.extra"])];
    let uncovered = vec![
        vec!["layout.secret".to_string(), "layout.extra".into(), "misc.other".into(), "layout.secret".into()],
        vec!["layout.extra".to_string()],
    ];
    let current = vec![
        values(&[("layout.secret", "1 # why"), ("layout.extra", "2")]),
        values(&[]),
    ];
    let saved = vec![values(&[("layout.secret", "1 # why")]), values(&[])];
    let rows = other_rows(&sets, &uncovered, &vec!["layout".to_string()], &labels(), &current, &saved);
    let summary: Vec<(String, String, usize, String, bool)> = rows
        .iter()
        .map(|r| (r.key.clone(), r.value.clone(), r.home, r.home_label.clone(), r.changed))
        .collect();
    assert_eq!(
        summary,
        vec![
            ("layout.extra".to_string(), "\u{2014}".to_string(), 1, "config.toml".to_string(), false),
            ("layout.secret".to_string(), "1".to_string(), 0, "colors.toml".to_string(), false),
        ]
    );
    assert!(other_rows(&sets, &uncovered, &vec!["input".to_string()], &labels(), &current, &saved).is_empty());
}

#[test]
fn committed_edits_redraw_what_depends_on_them() {
    let f = commit_follow_ups("animation.windows_in.shader");
    assert!(f.shaders && f.refresh_row.is_none());
    let f = commit_follow_ups("output.DP-1.resolution");
    assert!(!f.shaders);
    assert_eq!(f.refresh_row.as_deref(), Some("output.DP-1.refresh"));
    let f = commit_follow_ups("layout.gaps");
    assert!(!f.shaders && f.refresh_row.is_none());
    assert_eq!(reject_note("layout.gaps", "-3"), "umbriel would reject layout.gaps = -3");
}

fn entry(key: &str, dest: &str) -> SaveEntry {
    SaveEntry { key: key.into(), label: key.into(), value: "1".into(), dest_label: dest.into(), dest_index: 0 }
}

#[test]
fn choosing_a_destination_changes_only_that_row() {
    let mut entries = vec![entry("a.b", "config.toml"), entry("c.d", "config.toml"), entry("a.b", "config.toml")];
    choose_destination(&mut entries, "a.b", "colors.toml");
    assert_eq!(entries[0].dest_label, "colors.toml");
    assert_eq!(entries[1].dest_label, "config.toml");
    assert_eq!(entries[2].dest_label, "config.toml");
    let before = entries.clone();
    choose_destination(&mut entries, "x.y", "colors.toml");
    assert_eq!(entries, before);
}

#[test]
fn the_restore_validation_line() {
    assert_eq!(restore_validation(&Validation::Report { messages: vec![], ok: true }), "");
    assert_eq!(
        restore_validation(&Validation::Report { messages: vec!["bad gaps".into(), "odd rule".into()], ok: false }),
        "umbriel: bad gaps; odd rule."
    );
    assert_eq!(restore_validation(&Validation::Failed("not installed".into())), "validation skipped (not installed)");
}

#[test]
fn only_a_broken_config_stops_saving() {
    assert_eq!(load_health(&LoadOutcome::Loaded), (true, None));
    assert_eq!(load_health(&LoadOutcome::Missing), (true, None));
    assert_eq!(load_health(&LoadOutcome::Broken("line 3: bad".into())), (false, Some("line 3: bad".to_string())));
}

#[test]
fn restart_only_settings_say_so() {
    assert_eq!(entry_label("Renderer", true), "Renderer (restart to apply)");
    assert_eq!(entry_label("Gaps", false), "Gaps");
}

fn shown(key: &str, value: &str, preview: &str) -> ShownRow {
    ShownRow { key: key.into(), value: value.into(), preview: preview.into() }
}

fn texts(cards: &[Vec<ShownRow>]) -> Vec<Vec<(String, String, String)>> {
    cards.iter().map(|rows| rows.iter().map(|r| (r.key.clone(), r.value.clone(), r.preview.clone())).collect()).collect()
}

#[test]
fn a_rebuilt_row_replaces_the_shown_one_only_when_needed() {
    let mut cards = vec![vec![shown("a", "1", "")], vec![shown("b", "2", ""), shown("b", "9", "")]];
    // Same text, no preview: left alone.
    assert!(update_row(&mut cards, "b", shown("b", "2", ""), false));
    assert_eq!(texts(&cards)[1][0], ("b".to_string(), "2".to_string(), String::new()));
    // Forced, or changed text: the first row with the key is replaced.
    assert!(update_row(&mut cards, "b", shown("b", "3", ""), false));
    assert_eq!(texts(&cards)[1], vec![("b".to_string(), "3".to_string(), String::new()), ("b".to_string(), "9".to_string(), String::new())]);
    assert!(!update_row(&mut cards, "zzz", shown("zzz", "1", ""), true));
}

#[test]
fn a_dragged_slider_only_patches_its_preview() {
    let mut cards = vec![vec![shown("gaps", "4", "")]];
    assert!(preview_row(&mut cards, "gaps", "7"));
    assert_eq!(texts(&cards)[0][0], ("gaps".to_string(), "4".to_string(), "7".to_string()));
    // A lingering preview makes the rebuild write even with the same text.
    assert!(update_row(&mut cards, "gaps", shown("gaps", "4", ""), false));
    assert_eq!(texts(&cards)[0][0], ("gaps".to_string(), "4".to_string(), String::new()));
    assert!(!preview_row(&mut cards, "nope", "1"));
}
