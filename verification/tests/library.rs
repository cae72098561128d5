use umbriel_config::backups::{backup_choice, backup_diff, chain_position, diff_body};
use umbriel_config::common::{pretty_path, reset_home, section_names, status_line, KeySet};
use umbriel_config::keybinds::{
    key_chord, key_names, keybind_extras, modifier_name, named_key, spawn_command, BindExtras, ChordKey, KeyEvent,
};
use umbriel_config::nav::{new_key_page, section_nav, NavItem};
use umbriel_config::rows::{commit_value, entry_hint, list_text, swatch_rgb, CommitKind, ListValue};
use umbriel_config::rules::{rule_add_target, rule_target};
use umbriel_config::save::{build_save_entries, changed_count, setting_labels};
use umbriel_config::settings::{latest_commit, latest_commit_note, marker_sha, CommitInfo};
use umbriel_config::shader_preview::{coalesce, PreviewCommand};
use umbriel_config::shaders::{assign_pick, current_choice, delete_status, used_by, Pick};
use umbriel_config::stamp::{due_for_check, stamp_path, stamp_text};
use umbriel_config::values::ValueMap;

fn map(pairs: &[(&str, &str)]) -> ValueMap {
    let mut m = ValueMap::new();
    for (k, v) in pairs {
        m.insert(k.to_string(), v.to_string());
    }
    m
}

fn strings(items: &[&str]) -> Vec<String> {
    items.iter().map(|s| s.to_string()).collect()
}

#[test]
fn backup_choice_labels_runs() {
    assert_eq!(
        backup_choice("2026-09-09T18-04-31", "save", 2),
        "2026-09-09 18:04:31 UTC · save · 2 files"
    );
    assert_eq!(
        backup_choice("2026-09-09T18-04-31-2", "shader", 1),
        "2026-09-09 18:04:31 (#2) UTC · shader · 1 file"
    );
    assert_eq!(backup_choice("odd", "save", 0), "odd  UTC · save · 0 files");
}

#[test]
fn backup_diff_reports_each_file() {
    let files = Ok(vec![
        ("config.toml".to_string(), "a = 1\nb = 2\n".to_string()),
        ("old.toml".to_string(), "x = 1\n".to_string()),
        ("same.toml".to_string(), "y = 1\n".to_string()),
    ]);
    let current = vec![
        Some("a = 1\nb = 3\n".to_string()),
        None,
        Some("y = 1\n".to_string()),
    ];
    let out = backup_diff(&files, &current);
    assert!(out.starts_with("──── config.toml ────\n@@"));
    assert!(out.contains("-b = 2\n+b = 3\n"));
    assert!(out.contains("──── old.toml ────\n(not part of the current config chain)\n\n"));
    assert!(out.ends_with("──── same.toml ────\n(identical to the current files)\n\n"));
    assert_eq!(
        backup_diff(&Err("denied".to_string()), &Vec::new()),
        "Backup unreadable: denied"
    );
}

#[test]
fn chain_position_finds_the_first_name() {
    let names = strings(&["config.toml", "rules.toml", "config.toml"]);
    assert_eq!(chain_position(&names, "config.toml"), Some(0));
    assert_eq!(chain_position(&names, "rules.toml"), Some(1));
    assert_eq!(chain_position(&names, "gone.toml"), None);
}

#[test]
fn reset_home_prefers_the_live_home_then_the_snapshot() {
    let sets = vec![KeySet::from_keys(strings(&["a"])), KeySet::from_keys(strings(&["a", "b"]))];
    let saved = vec![map(&[("c", "1")]), map(&[("c", "2"), ("d", "3")])];
    assert_eq!(reset_home(&sets, &saved, "a"), Some(1));
    assert_eq!(reset_home(&sets, &saved, "c"), Some(0));
    assert_eq!(reset_home(&sets, &saved, "d"), Some(1));
    assert_eq!(reset_home(&sets, &saved, "e"), None);
}

#[test]
fn status_line_reports_load_state() {
    assert_eq!(status_line(false, Some("bad toml"), 0, 0, false), "config failed to load: bad toml");
    assert_eq!(status_line(false, None, 0, 0, false), "config failed to load: unknown error");
    assert_eq!(
        status_line(true, None, 120, 2, true),
        "120 settings • 2 included file(s) • main modified"
    );
    assert_eq!(status_line(true, None, 0, 0, false), "0 settings • 0 included file(s) • main clean");
}

#[test]
fn pretty_path_collapses_home() {
    assert_eq!(pretty_path("/home/me/.config/umbriel/a.toml", Some("/home/me")), "~/.config/umbriel/a.toml");
    assert_eq!(pretty_path("/etc/umbriel.toml", Some("/home/me")), "/etc/umbriel.toml");
    assert_eq!(pretty_path("/home/me/x", None), "/home/me/x");
}

#[test]
fn section_names_sort_and_dedup_top_levels() {
    let sections = strings(&["layout.scrolling", "input", "animation.windows", "input.keyboard", "layout"]);
    assert_eq!(section_names(&sections), strings(&["animation", "input", "layout"]));
    assert!(section_names(&Vec::new()).is_empty());
}

fn nav_labels(nav: &[NavItem]) -> Vec<(String, String, usize, bool)> {
    nav.iter()
        .map(|n| (n.label.clone(), n.id.clone(), n.new_count, n.is_header))
        .collect()
}

#[test]
fn section_nav_groups_pages_and_lists_unclaimed_areas() {
    let schema = vec![
        ("layout.gap".to_string(), "layout".to_string()),
        ("zeta.thing".to_string(), "zeta".to_string()),
        ("alpha.one".to_string(), "alpha.sub".to_string()),
    ];
    let new_keys = strings(&["output.DP-1.scale", "zeta.thing", "alpha.one", "unknown.key"]);
    let nav = section_nav(&schema, &new_keys);
    let rows = nav_labels(&nav);
    assert_eq!(rows[0], ("Outputs".to_string(), "outputs".to_string(), 1, false));
    assert_eq!(rows[1], ("DESKTOP".to_string(), String::new(), 0, true));
    assert!(rows.iter().any(|r| r.0 == "LOOK" && r.3));
    let more = rows.iter().position(|r| r.0 == "MORE" && r.3).unwrap();
    assert_eq!(
        &rows[more + 1..],
        &[
            ("Alpha".to_string(), "alpha".to_string(), 1, false),
            ("Zeta".to_string(), "zeta".to_string(), 1, false),
        ]
    );
    assert_eq!(new_key_page("layout.gap", &schema), Some("layout".to_string()));
    assert_eq!(new_key_page("output.HDMI-1.mode", &schema), Some("outputs".to_string()));
    assert_eq!(new_key_page("unknown.key", &schema), None);
}

#[test]
fn section_nav_without_unclaimed_areas_has_no_more_header() {
    let schema = vec![("layout.gap".to_string(), "layout".to_string())];
    let nav = section_nav(&schema, &Vec::new());
    assert!(!nav.iter().any(|n| n.label == "MORE"));
    assert!(nav.iter().all(|n| n.new_count == 0));
}

#[test]
fn latest_commit_takes_the_first_listed() {
    let commits = vec![
        CommitInfo {
            sha: "0123456789abcdef".to_string(),
            message: "Fix the thing\r\n\nLonger body".to_string(),
            date: "2026-01-02T03:04:05Z".to_string(),
        },
        CommitInfo { sha: "ffff".to_string(), message: "older".to_string(), date: "x".to_string() },
    ];
    let found = latest_commit(&commits);
    assert_eq!(
        found,
        Some((
            "0123456789abcdef".to_string(),
            "Fix the thing".to_string(),
            "2026-01-02T03:04:05Z".to_string()
        ))
    );
    assert_eq!(latest_commit_note(found), Ok("0123456 • 2026-01-02 • Fix the thing".to_string()));
    assert_eq!(latest_commit(&Vec::new()), None);
    assert_eq!(latest_commit_note(None), Err("no commits found".to_string()));
}

#[test]
fn marker_sha_trims_and_rejects_blank() {
    assert_eq!(marker_sha("  abc123\n"), Some("abc123".to_string()));
    assert_eq!(marker_sha(" \n\t"), None);
}

fn event(text: &str, meta: bool, ctrl: bool, alt: bool, shift: bool, released: bool) -> KeyEvent {
    KeyEvent { text: text.to_string(), meta, ctrl, alt, shift, released }
}

#[test]
fn key_events_become_chords() {
    assert_eq!(key_chord(&event("h", true, false, false, false, false), &key_names(None, "H")), "Mod+H");
    assert_eq!(
        key_chord(&event("\u{f702}", true, false, false, true, false), &key_names(Some(ChordKey::LeftArrow), "")),
        "Mod+Shift+Left"
    );
    assert_eq!(
        key_chord(&event("\n", false, true, false, false, false), &key_names(Some(ChordKey::Return), "")),
        "Ctrl+Return"
    );
    // A modifier pressed alone waits; released alone, it is the chord.
    assert_eq!(key_chord(&event("\u{17}", true, false, false, false, false), &key_names(Some(ChordKey::Meta), "")), "");
    assert_eq!(key_chord(&event("\u{17}", false, false, false, false, true), &key_names(Some(ChordKey::Meta), "")), "Mod");
    assert_eq!(
        key_chord(&event("\u{10}", true, false, false, true, true), &key_names(Some(ChordKey::Shift), "")),
        "Mod+Shift"
    );
    assert_eq!(key_chord(&event("h", false, false, false, false, true), &key_names(None, "H")), "");
    assert_eq!(
        key_chord(&event("\u{1b}", true, false, false, false, false), &key_names(Some(ChordKey::Escape), "")),
        "Mod+Escape"
    );
    // Caps Lock and other unspellable keys are ignored.
    assert_eq!(key_chord(&event("\u{14}", true, false, false, false, false), &key_names(None, "")), "");
    assert_eq!(key_chord(&event("\u{f735}", true, false, false, false, false), &key_names(None, "")), "");
    assert_eq!(key_chord(&event("ab", false, false, true, false, false), &key_names(None, "")), "Alt+AB");
    assert_eq!(key_chord(&event("", true, false, false, false, false), &key_names(None, "")), "");
}

#[test]
fn keybind_extras_and_spawn_commands() {
    let extras = BindExtras {
        repeat: Some(false),
        allow_when_locked: Some(true),
        allow_when_inhibited: None,
        cooldown_ms: Some(250),
        submap: Some("resize".to_string()),
    };
    assert_eq!(keybind_extras(&extras), "once · works when locked · 250 ms cooldown · submap");
    let none = BindExtras { repeat: Some(true), allow_when_locked: None, allow_when_inhibited: Some(false), cooldown_ms: None, submap: None };
    assert_eq!(keybind_extras(&none), "");
    assert_eq!(spawn_command("spawn:kitty --single"), Some("kitty --single".to_string()));
    assert_eq!(spawn_command("close"), None);
    assert_eq!(spawn_command("respawn:x"), None);
}

#[test]
fn commit_value_per_kind() {
    assert_eq!(commit_value(Some(&CommitKind::List), " [1, 2] "), Ok("[1, 2]".to_string()));
    assert_eq!(commit_value(Some(&CommitKind::List), "a, b"), Ok("[a, b]".to_string()));
    assert_eq!(commit_value(Some(&CommitKind::Bool), " true "), Ok("true".to_string()));
    let bounded = CommitKind::Integer { min: Some(0), max: Some(10) };
    assert_eq!(commit_value(Some(&bounded), "42"), Ok("10".to_string()));
    assert_eq!(commit_value(Some(&bounded), "-3"), Ok("0".to_string()));
    assert_eq!(commit_value(Some(&bounded), " 7 "), Ok("7".to_string()));
    assert_eq!(commit_value(Some(&bounded), "seven"), Err("'seven' is not a whole number".to_string()));
    assert_eq!(commit_value(Some(&CommitKind::Text), " hi \"x\" "), Ok("\"hi \\\"x\\\"\"".to_string()));
    assert_eq!(commit_value(Some(&CommitKind::Color), "#fff"), Ok("\"#fff\"".to_string()));
    assert_eq!(commit_value(None, "  raw  "), Ok("raw".to_string()));
}

#[test]
fn swatch_reads_hex_channels() {
    assert_eq!(swatch_rgb("#7AA3FFFF"), (0x7a, 0xa3, 0xff));
    assert_eq!(swatch_rgb(" 102030 "), (0x10, 0x20, 0x30));
    assert_eq!(swatch_rgb("#12"), (0x12, 0, 0));
    assert_eq!(swatch_rgb("zz3040"), (0, 0x30, 0x40));
}

#[test]
fn entry_hints_and_list_texts() {
    assert_eq!(entry_hint(Some("0–10"), Some("px")), "0–10 • px");
    assert_eq!(entry_hint(Some(""), Some("ms")), "ms");
    assert_eq!(entry_hint(None, None), "");
    assert_eq!(list_text(&ListValue::Integers(vec![1, -2, 30])), Some("1, -2, 30".to_string()));
    assert_eq!(list_text(&ListValue::Strings(strings(&["a", "b"]))), Some("a, b".to_string()));
    assert_eq!(list_text(&ListValue::Floats(strings(&["0.5"]))), Some("0.5".to_string()));
    assert_eq!(list_text(&ListValue::Missing), None);
}

#[test]
fn rule_targets() {
    assert_eq!(rule_target(&vec![0, 2, 1]), 1);
    assert_eq!(rule_target(&vec![0, 0]), 2);
    assert_eq!(rule_target(&Vec::new()), 0);
    assert_eq!(rule_add_target(&vec![3, 1, 3]), 2);
    assert_eq!(rule_add_target(&vec![4, 1, 3]), 0);
    assert_eq!(rule_add_target(&vec![0, 0, 0]), 2);
}

#[test]
fn save_bookkeeping_across_the_chain() {
    let labels = setting_labels(&strings(&["rules.toml"]), "/home/me/.config/umbriel/config.toml");
    assert_eq!(labels, strings(&["rules.toml", "config.toml (main)"]));
    assert_eq!(setting_labels(&Vec::new(), "/"), strings(&["config.toml (main)"]));
    let current = vec![map(&[("a", "1"), ("b", "2")]), map(&[("c", "3")])];
    let saved = vec![map(&[("a", "1"), ("b", "1"), ("z", "0")]), map(&[("c", "3")])];
    assert_eq!(changed_count(&current, &saved), 2);
    assert_eq!(changed_count(&current, &Vec::new()), 3);
    let schema = vec![("b".to_string(), "Bee".to_string())];
    let entries = build_save_entries(&current, &saved, &labels, &schema);
    assert_eq!(entries.len(), 2);
    assert_eq!(entries[0].key, "b");
    assert_eq!(entries[0].label, "Bee");
    assert_eq!(entries[0].value, "2");
    assert_eq!(entries[0].dest_label, "rules.toml");
    assert_eq!(entries[0].dest_index, 1);
    assert_eq!(entries[1].key, "z");
    assert_eq!(entries[1].label, "z");
    assert_eq!(entries[1].value, "(removed)");
}

#[test]
fn preview_bursts_keep_the_newest_of_each() {
    let burst = vec![
        PreviewCommand::SetSource("a".to_string()),
        PreviewCommand::Render((0.2f32, 1.0f32)),
        PreviewCommand::SetSource("b".to_string()),
        PreviewCommand::Render((0.7f32, -1.0f32)),
        PreviewCommand::Render((0.9f32, -1.0f32)),
    ];
    assert_eq!(coalesce(burst), (Some("b".to_string()), Some((0.9f32, -1.0f32))));
    let only_frames: Vec<PreviewCommand<(f32, f32)>> = vec![PreviewCommand::Render((0.5, 1.0))];
    assert_eq!(coalesce(only_frames), (None, Some((0.5, 1.0))));
    assert_eq!(coalesce(Vec::<PreviewCommand<(f32, f32)>>::new()), (None, None));
}

#[test]
fn shader_dropdown_picks_and_labels() {
    assert_eq!(assign_pick(0, 3), Pick::Clear);
    assert_eq!(assign_pick(2, 3), Pick::Use(1));
    assert_eq!(assign_pick(4, 3), Pick::Nothing);
    assert_eq!(assign_pick(-1, 3), Pick::Nothing);
    assert_eq!(current_choice(Some(1), Some("x.glsl"), false, 3), (None, 2));
    assert_eq!(
        current_choice(None, Some("x.glsl"), false, 3),
        (Some("x.glsl (outside the library)".to_string()), 4)
    );
    assert_eq!(current_choice(None, Some("y.glsl"), true, 0), (Some("⚠ y.glsl (missing)".to_string()), 1));
    assert_eq!(current_choice(None, None, false, 3), (None, 0));
    let events = strings(&["windows_out", "overview"]);
    assert_eq!(used_by(&events), "Windows out, Overview");
    assert_eq!(delete_status("/s/x.glsl", &events), "Deleted /s/x.glsl and cleared it from Windows out, Overview.");
    assert_eq!(delete_status("/s/x.glsl", &Vec::new()), "Deleted /s/x.glsl.");
}

#[test]
fn update_checks_run_once_a_day() {
    assert!(due_for_check(None, 100));
    assert!(due_for_check(Some("garbage"), 100));
    assert!(!due_for_check(Some(" 1000\n"), 1000 + 86399));
    assert!(due_for_check(Some("1000"), 1000 + 86400));
    assert!(!due_for_check(Some("+5000"), 10));
    assert!(due_for_check(Some("-5"), 10));
    assert_eq!(stamp_text(1700000000), "1700000000\n");
    assert_eq!(stamp_path(Some("/state"), Some("/home/me")), "/state/umbriel-config/last-update-check");
    assert_eq!(
        stamp_path(None, Some("/home/me")),
        "/home/me/.local/state/umbriel-config/last-update-check"
    );
    assert_eq!(stamp_path(None, None), ".local/state/umbriel-config/last-update-check");
    assert_eq!(stamp_path(Some("/state/"), None), "/state/umbriel-config/last-update-check");
}

#[test]
fn rule_add_target_ties_go_to_the_main_config() {
    assert_eq!(rule_add_target(&vec![2, 2, 0]), 2);
    assert_eq!(rule_add_target(&vec![1, 5, 2]), 1);
    assert_eq!(rule_add_target(&vec![1, 5, 5, 2]), 3);
    assert_eq!(rule_add_target(&vec![0]), 0);
}

#[test]
fn pretty_path_only_collapses_whole_directories() {
    assert_eq!(pretty_path("/home/alice/config.toml", Some("/home/al")), "/home/alice/config.toml");
    assert_eq!(pretty_path("/home/al/x.toml", Some("/home/al")), "~/x.toml");
    assert_eq!(pretty_path("/home/al", Some("/home/al")), "~");
    assert_eq!(pretty_path("/home/al/x.toml", Some("/home/al/")), "~/x.toml");
}

#[test]
fn chord_key_tables() {
    assert_eq!(modifier_name(ChordKey::MetaR), Some("Mod".to_string()));
    assert_eq!(modifier_name(ChordKey::ControlR), Some("Ctrl".to_string()));
    assert_eq!(modifier_name(ChordKey::AltGr), Some("Alt".to_string()));
    assert_eq!(modifier_name(ChordKey::ShiftR), Some("Shift".to_string()));
    assert_eq!(modifier_name(ChordKey::Return), None);
    assert_eq!(named_key(ChordKey::Backspace), Some("BackSpace".to_string()));
    assert_eq!(named_key(ChordKey::Space), Some("space".to_string()));
    assert_eq!(named_key(ChordKey::PageDown), Some("Page_Down".to_string()));
    assert_eq!(named_key(ChordKey::F12), Some("F12".to_string()));
    assert_eq!(named_key(ChordKey::Meta), None);
    assert_eq!(
        key_chord(&event("\u{f72c}", false, true, false, false, false), &key_names(Some(ChordKey::PageUp), "")),
        "Ctrl+Page_Up"
    );
    assert_eq!(
        key_chord(&event("\u{16}", false, true, true, false, true), &key_names(Some(ChordKey::ControlR), "")),
        "Ctrl+Alt"
    );
    assert_eq!(
        key_chord(&event("\u{13}", true, false, false, false, true), &key_names(Some(ChordKey::AltGr), "")),
        "Mod+Alt"
    );
}

#[test]
fn diff_body_notes_an_empty_diff() {
    assert_eq!(diff_body(""), "(identical to the current files)\n");
    assert_eq!(diff_body("@@ -1 +1 @@\n-a\n+b\n"), "@@ -1 +1 @@\n-a\n+b\n");
}
