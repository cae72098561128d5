use umbriel_config::settings::startup_drift_note;
use umbriel_config::guide::{created_note, guide_rows, relaunch_blocked, GuideKey};
use umbriel_config::monitors::{add_output, monitor_cards_plan, monitor_info, output_value, OutputRead};
use umbriel_config::nav::{surface, Surface};
use umbriel_config::outputs::TomlValue;
use umbriel_config::rules::{
    rule_card_key_text, rule_card_slots, rule_cards_expanded, rule_field_row, RuleFieldKind, RuleInput,
};
use umbriel_config::common::card_expanded;
use umbriel_config::settings::{
    begin_shader_update_check, download_note, file_title, install_note, marker_text, notes_title,
    restart_blocked, shader_update_available, sync_note,
};
use umbriel_config::shader_preview::{preview_note, PreviewEvent};
use umbriel_config::shaders::{
    assign_event_of, assign_target, assignment_key, editor_unsaved, events_using, lint_note, move_step, preview_event, remove_step, save_status,
    use_for_changes, use_row, AssignTarget,
};

fn strings(list: &[&str]) -> Vec<String> {
    list.iter().map(|s| (*s).to_owned()).collect()
}

#[test]
fn the_use_for_checklist_switches_and_clears_events() {
    let events = strings(&["windows_in", "windows_out", "workspaces", "overview"]);
    let uses = vec![true, false, true, false];
    // The last event has no row: it is left alone.
    let checked = vec![true, true, false];
    let changes: Vec<(usize, bool, String)> =
        use_for_changes(&events, &uses, &checked).into_iter().map(|c| (c.event, c.assign, c.note)).collect();
    assert_eq!(
        changes,
        vec![(1, true, "now used for Windows out".to_string()), (2, false, "no longer used for Workspaces".to_string())]
    );
}

#[test]
fn a_checklist_line_says_what_the_event_uses() {
    let row = use_row("windows_in", Some("shaders/fade.glsl"), true, Some("Fade"), true, false);
    assert_eq!((row.label.as_str(), row.current.as_str(), row.checked), ("Windows in", "uses this shader", true));
    let row = use_row("overview", Some("shaders/zoom.glsl"), false, Some("Zoom"), false, false);
    assert_eq!((row.current.as_str(), row.checked), ("uses Zoom", false));
    let row = use_row("overview", Some("/elsewhere/zoom.glsl"), false, None, false, true);
    assert_eq!((row.current.as_str(), row.checked), ("uses /elsewhere/zoom.glsl", true));
    // Editing an existing shader never pre-ticks the previewed event.
    let row = use_row("overview", Some("/elsewhere/zoom.glsl"), false, None, true, true);
    assert!(!row.checked);
    let row = use_row("border", None, true, None, false, false);
    assert_eq!((row.current.as_str(), row.checked), ("", false));
}

#[test]
fn assignments_are_written_where_they_live() {
    assert_eq!(assign_target(true, Some(2)), AssignTarget::Existing(2));
    assert_eq!(assign_target(true, None), AssignTarget::NewHome);
    assert_eq!(assign_target(false, Some(0)), AssignTarget::Remove(0));
    assert_eq!(assign_target(false, None), AssignTarget::Nothing);
}

#[test]
fn a_shader_previews_as_its_first_assigned_event() {
    let events = strings(&["windows_in", "windows_out", "overview"]);
    assert_eq!(preview_event(&events, &strings(&["overview", "windows_out"])), 2);
    assert_eq!(preview_event(&events, &strings(&[])), 0);
    assert_eq!(preview_event(&events, &strings(&["unknown"])), 0);
}

#[test]
fn preview_events_set_the_note() {
    assert_eq!(preview_note(&PreviewEvent::Unavailable("no EGL".into())).as_deref(), Some("Preview unavailable: no EGL"));
    assert_eq!(preview_note(&PreviewEvent::Compiled(Some("0:3: bad".into()))).as_deref(), Some("GLSL error: 0:3: bad"));
    assert_eq!(preview_note(&PreviewEvent::Compiled(None)).as_deref(), Some(""));
    assert_eq!(preview_note(&PreviewEvent::Ready), None);
}

#[test]
fn rule_cards_list_every_document_and_open_a_lone_rule() {
    let slots = rule_card_slots("window_rule", &vec![2, 0, 1]);
    let summary: Vec<(usize, usize, String, bool)> =
        slots.iter().map(|s| (s.file, s.index, s.key.clone(), s.default_open)).collect();
    assert_eq!(
        summary,
        vec![
            (0, 0, "rule:window_rule:0:0".to_string(), false),
            (0, 1, "rule:window_rule:0:1".to_string(), false),
            (2, 0, "rule:window_rule:2:0".to_string(), false),
        ]
    );
    let lone = rule_card_slots("layer_rule", &vec![0, 1]);
    assert_eq!(lone.len(), 1);
    assert!(lone[0].default_open);
    assert!(rule_card_slots("layer_rule", &vec![0, 0]).is_empty());
    assert_eq!(rule_card_key_text("layer_rule", 1, 7), "rule:layer_rule:1:7");
}

#[test]
fn rule_fields_show_blank_or_their_minimum_when_unset() {
    let row = rule_field_row(&RuleFieldKind::Choice(strings(&["on", "off"])), "", &vec![]);
    assert_eq!(row.input, RuleInput::Choice);
    assert_eq!(row.value, "(unset)");
    assert_eq!(row.choices, strings(&["(unset)", "on", "off"]));
    let row = rule_field_row(&RuleFieldKind::Toggle, "true", &vec![]);
    assert!(row.checked);
    let row = rule_field_row(&RuleFieldKind::Integer { min: -5 }, "", &vec![]);
    assert_eq!(row.value, "-5");
    let row = rule_field_row(&RuleFieldKind::Float { min_text: "0.1".into() }, "0.5", &vec![]);
    assert_eq!(row.value, "0.5");
    let row = rule_field_row(&RuleFieldKind::OutputChoice, "DP-1", &strings(&["DP-1", "HDMI-A-1"]));
    assert_eq!((row.input, row.choices.len()), (RuleInput::OpenChoice, 2));
    let row = rule_field_row(&RuleFieldKind::Text, "", &vec![]);
    assert_eq!((row.input, row.value.as_str()), (RuleInput::Text, ""));
}

#[test]
fn output_rows_show_values_or_defaults() {
    assert_eq!(output_value(&OutputRead::Toggle(None), "true", true), ("true".to_string(), true));
    assert_eq!(output_value(&OutputRead::Toggle(Some(false)), "true", true), ("false".to_string(), false));
    assert_eq!(output_value(&OutputRead::Choice(Some(String::new())), "normal", false).0, "normal");
    assert_eq!(output_value(&OutputRead::Text(Some("1.5".into())), "1.0", false).0, "1.5");
    assert_eq!(output_value(&OutputRead::Position(Some(vec![1920, -40])), "", false).0, "1920, -40");
    assert_eq!(output_value(&OutputRead::Position(Some(vec![1])), "", false).0, "");
    assert_eq!(output_value(&OutputRead::Workspaces(TomlValue::Integer(4)), "dynamic", false).0, "4");
    assert_eq!(output_value(&OutputRead::Workspaces(TomlValue::Absent), "dynamic", false).0, "dynamic");
}

#[test]
fn monitor_cards_and_their_info() {
    let cards = monitor_cards_plan(&strings(&["DP-1", "HDMI-A-1"]), &strings(&["DP-2", "DP-1"]));
    let summary: Vec<(String, bool, bool, bool, String)> =
        cards.iter().map(|c| (c.name.clone(), c.connected, c.configured, c.removable, c.key.clone())).collect();
    assert_eq!(
        summary,
        vec![
            ("DP-1".to_string(), true, true, true, "monitor:DP-1".to_string()),
            ("HDMI-A-1".to_string(), false, true, true, "monitor:HDMI-A-1".to_string()),
            ("DP-2".to_string(), true, false, true, "monitor:DP-2".to_string()),
        ]
    );
    assert!(!monitor_cards_plan(&strings(&["DP-1"]), &strings(&[]))[0].removable);
    assert_eq!(monitor_info("Dell U2720Q", Some("3840x2160@60")), "Dell U2720Q · Currently 3840x2160@60");
    assert_eq!(monitor_info("", None), "");
}

#[test]
fn adding_an_output_needs_a_new_name() {
    let configured = strings(&["DP-1"]);
    let detected = strings(&["HDMI-A-1"]);
    assert_eq!(add_output("  ", &configured, &detected), Err("Enter a connector name first, e.g. DP-3.".to_string()));
    assert_eq!(add_output(" HDMI-A-1 ", &configured, &detected), Err("HDMI-A-1 is already listed".to_string()));
    assert_eq!(add_output(" DP-3", &configured, &detected), Ok("DP-3".to_string()));
}

#[test]
fn settings_page_notes() {
    assert_eq!(install_note("0.9.0", &Ok(())), (true, "Installed 0.9.0. Restart to use it.".to_string()));
    assert_eq!(install_note("0.9.0", &Err("disk full".into())), (false, "Install failed: disk full".to_string()));
    assert_eq!(restart_blocked(true).as_deref(), Some("Save or discard your changes first."));
    assert_eq!(restart_blocked(false), None);
    let labels = strings(&["colors.toml", "config.toml"]);
    assert_eq!(file_title(&labels, 1, 1, true).as_deref(), Some("config.toml · unsaved edits included"));
    assert_eq!(file_title(&labels, 0, 1, false).as_deref(), Some("colors.toml"));
    assert_eq!(file_title(&labels, 2, 1, false), None);
    assert_eq!(file_title(&labels, -1, 1, false), None);
    assert_eq!(sync_note(true, false, "x"), ("No packaged default found; install umbriel and sync again.".to_string(), false));
    assert_eq!(sync_note(false, true, "x"), ("Schema is up to date.".to_string(), true));
    assert_eq!(sync_note(false, false, "2 added"), ("Synced from umbriel: 2 added.".to_string(), false));
    assert_eq!(notes_title("", "0.9.0"), "What's new in 0.9.0");
    assert_eq!(notes_title("## Fixes", "0.9.0"), "What's new in this release");
}

#[test]
fn the_community_collection_is_checked_once_per_session() {
    let mut checked = false;
    assert!(!begin_shader_update_check(false, &mut checked));
    assert!(!checked);
    assert!(begin_shader_update_check(true, &mut checked));
    assert!(checked);
    assert!(!begin_shader_update_check(true, &mut checked));
    assert_eq!(shader_update_available(Some("abc"), Some("abd")), Some(true));
    assert_eq!(shader_update_available(Some("abc"), Some("abc")), Some(false));
    assert_eq!(shader_update_available(None, Some("abc")), None);
    assert_eq!(marker_text("abc123"), "abc123\n");
    assert_eq!(download_note(true), "Community shaders updated.");
    assert_eq!(download_note(false), "Community shaders downloaded.");
}

#[test]
fn guide_steps_use_their_own_labels_and_skip_unknown_keys() {
    let metas = vec![
        GuideKey { key: "layout.gaps", label: "Gaps", description: "Space between windows." },
        GuideKey { key: "not.in.schema", label: "Nope", description: "" },
        GuideKey { key: "theme.dark", label: "Dark mode", description: "Dark colors." },
        GuideKey { key: "layout.gaps", label: "Gaps again", description: "" },
    ];
    let schema = strings(&["theme.dark", "layout.gaps", "theme.dark"]);
    let rows: Vec<(usize, &str, &str)> = guide_rows(&metas, &schema).iter().map(|r| (r.schema_index, r.label, r.hint)).collect();
    assert_eq!(
        rows,
        vec![(1, "Gaps", "Space between windows."), (0, "Dark mode", "Dark colors."), (1, "Gaps", "Space between windows.")]
    );
    assert_eq!(relaunch_blocked(true, true).as_deref(), Some("Save or discard your changes before running the guided setup."));
    assert!(relaunch_blocked(false, false).unwrap().starts_with("Nothing to guide through yet"));
    assert_eq!(relaunch_blocked(false, true), None);
    assert_eq!(created_note(&Ok(())), "Created config.toml.");
    assert_eq!(created_note(&Err("read-only".into())), "Couldn't create config.toml: read-only");
}

#[test]
fn sidebar_entries_open_their_surface() {
    assert_eq!(surface("outputs"), Surface::Outputs);
    assert_eq!(surface("shaders"), Surface::Shaders);
    assert_eq!(surface("window-rules"), Surface::Rules);
    assert_eq!(surface("security-contexts"), Surface::Rules);
    assert_eq!(surface("keybinds"), Surface::Keybinds);
    assert_eq!(surface("layout"), Surface::Section);
}

#[test]
fn the_startup_notice_names_schema_drift() {
    assert_eq!(startup_drift_note(true, false, "3 added"), None);
    assert_eq!(startup_drift_note(false, true, "3 added"), None);
    assert_eq!(startup_drift_note(false, false, "3 added").as_deref(), Some("Umbriel changed since last run: 3 added."));
}

#[test]
fn the_shader_editor_reports_what_saving_did() {
    let none: Vec<String> = vec![];
    assert_eq!(save_status("shaders/glow.glsl", true, &none, &none), "Created shaders/glow.glsl.");
    assert_eq!(
        save_status("shaders/glow2.glsl", false, &strings(&["windows_in", "overview"]), &none),
        "Saved as shaders/glow2.glsl and pointed Windows in, Overview at it."
    );
    assert_eq!(
        save_status("shaders/glow.glsl", false, &none, &strings(&["now used for Border"])),
        "Saved shaders/glow.glsl \u{2014} umbriel live-reloads it. now used for Border: save your config to apply."
    );
    assert!(editor_unsaved("a", "b", "n", "n"));
    assert!(editor_unsaved("a", "a", "n", "m"));
    assert!(!editor_unsaved("a", "a", "n", "n"));
}

#[test]
fn assignment_keys_name_their_event() {
    assert_eq!(assign_event_of("animation.windows_in.shader").as_deref(), Some("windows_in"));
    assert_eq!(assign_event_of("windows_in.shader").as_deref(), Some("windows_in"));
    assert_eq!(assign_event_of("shader"), None);
}

#[test]
fn builder_steps_are_removed_and_moved_in_place() {
    let mut steps = vec!['a', 'b', 'c', 'd'];
    remove_step(&mut steps, 1);
    assert_eq!(steps, vec!['a', 'c', 'd']);
    remove_step(&mut steps, 5);
    remove_step(&mut steps, -1);
    assert_eq!(steps, vec!['a', 'c', 'd']);
    move_step(&mut steps, 0, 2);
    assert_eq!(steps, vec!['d', 'c', 'a']);
    move_step(&mut steps, 1, -5);
    assert_eq!(steps, vec!['c', 'd', 'a']);
    move_step(&mut steps, 2, 1);
    move_step(&mut steps, -1, 1);
    assert_eq!(steps, vec!['c', 'd', 'a']);
}

#[test]
fn lint_problems_become_one_note() {
    assert_eq!(lint_note(&vec![]), "");
    assert_eq!(lint_note(&strings(&["no animation()", "unused uniform"])), "\u{26a0} no animation(); unused uniform");
}

#[test]
fn library_cards_name_the_events_that_use_them() {
    let events = strings(&["windows_in", "windows_out", "overview"]);
    let assigned = vec![Some(2), None, Some(2)];
    assert_eq!(events_using(&events, &assigned, 2), strings(&["windows_in", "overview"]));
    assert!(events_using(&events, &assigned, 0).is_empty());
    assert_eq!(assignment_key("overview"), "animation.overview.shader");
}

#[test]
fn rule_card_expansion_defaults_and_persists() {
    // A lone rule card opens by default.
    let mut stored: Vec<(String, bool)> = Vec::new();
    let lone = rule_card_slots("window_rule", &vec![1]);
    assert!(rule_cards_expanded(&lone, &stored)[0]);

    // A second rule collapses the list, and the user's choice survives
    // the rebuild that every edit triggers.
    let cards = rule_card_slots("window_rule", &vec![2]);
    assert!(rule_cards_expanded(&cards, &stored).iter().all(|open| !open));
    let key = format!("rule:window_rule:{}:{}", cards[0].file, cards[0].index);
    stored.push((key, true));
    assert!(rule_cards_expanded(&cards, &stored)[0]);
    assert!(!rule_cards_expanded(&cards, &stored)[1]);
}

#[test]
fn card_expanded_prefers_the_stored_choice() {
    let stored = vec![("a".to_string(), false), ("b".to_string(), true)];
    assert!(!card_expanded(&stored, "a", true));
    assert!(card_expanded(&stored, "b", false));
    assert!(card_expanded(&stored, "c", true));
    assert!(!card_expanded(&stored, "c", false));
    assert!(card_expanded(&Vec::new(), "a", true));
}
