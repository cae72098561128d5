use umbriel_config::bind_editor::{
    action_matches, app_matches, app_mode, apply_draft, chord_keys, draft_action, editor_draft,
    last_key, new_bind_home, special_key_chord, special_key_labels, toggle_group, ActionChoice,
    AppEntry, DraftFields, LiveAction, ParamInput, ParamKind,
};
use umbriel_config::keybinds::BindExtras;

fn actions() -> Vec<LiveAction> {
    vec![
        LiveAction { name: "close".into(), summary: "Close the focused window".into(), kind: ParamKind::NoParam },
        LiveAction { name: "spawn".into(), summary: "Run something".into(), kind: ParamKind::Command },
        LiveAction {
            name: "workspace".into(),
            summary: "Switch to a workspace".into(),
            kind: ParamKind::Text("number or name".into()),
        },
        LiveAction {
            name: "layout".into(),
            summary: "Pick the tiling Layout".into(),
            kind: ParamKind::Choice(vec!["".into(), "dwindle".into(), "master".into()]),
        },
    ]
}

fn apps() -> Vec<AppEntry> {
    vec![
        AppEntry { name: "Firefox".into(), command: "firefox".into() },
        AppEntry { name: "Foot".into(), command: "foot".into() },
    ]
}

fn lines(v: &[ActionChoice]) -> Vec<(String, String, String)> {
    v.iter().map(|c| (c.name.clone(), c.summary.clone(), c.value.clone())).collect()
}

#[test]
fn launching_an_app_and_running_a_command_get_their_own_widgets() {
    let d = draft_action("spawn:app", "firefox", &actions());
    assert_eq!((d.action.as_str(), d.summary.as_str(), d.param.as_str()), ("spawn", "Launch an app", "firefox"));
    assert_eq!(d.input, ParamInput::App);
    let d = draft_action("spawn", "kitty", &actions());
    assert_eq!((d.action.as_str(), d.summary.as_str()), ("spawn", "Run a shell command"));
    assert_eq!(d.input, ParamInput::Command);
}

#[test]
fn listed_actions_get_their_parameter_widget() {
    let d = draft_action("close", "", &actions());
    assert_eq!(d.summary, "Close the focused window");
    assert_eq!(d.input, ParamInput::NoParam);
    let d = draft_action("workspace", "3", &actions());
    assert_eq!(d.input, ParamInput::Text);
    assert_eq!(d.hint.as_deref(), Some("number or name"));
    assert_eq!(d.param, "3");
}

#[test]
fn a_choice_parameter_starts_on_its_own_choice_else_the_first() {
    let d = draft_action("layout", "master", &actions());
    assert_eq!(d.input, ParamInput::Choice);
    assert_eq!((d.choice_index, d.param.as_str()), (2, "master"));
    assert_eq!(d.choices, vec!["none".to_string(), "dwindle".into(), "master".into()]);
    let d = draft_action("layout", "spiral", &actions());
    assert_eq!((d.choice_index, d.param.as_str()), (0, ""));
}

#[test]
fn an_unlisted_action_round_trips_as_free_text() {
    let d = draft_action("fancy", "x", &actions());
    assert_eq!((d.action.as_str(), d.summary.as_str(), d.param.as_str()), ("fancy", "", "x"));
    assert_eq!(d.input, ParamInput::Text);
    assert_eq!(d.hint.as_deref(), Some(""));
}

#[test]
fn spawn_binds_of_installed_apps_edit_as_launching_them() {
    assert_eq!(app_mode("spawn:foot", &apps()), Some(("foot".to_string(), "Foot".to_string())));
    assert_eq!(app_mode("spawn", &apps()), Some((String::new(), String::new())));
    assert_eq!(app_mode("spawn:htop -d 5", &apps()), None);
    assert_eq!(app_mode("close", &apps()), None);
}

#[test]
fn the_editor_opens_on_a_bind_with_its_options() {
    let extras = BindExtras {
        repeat: Some(false),
        allow_when_locked: Some(true),
        allow_when_inhibited: None,
        cooldown_ms: Some(250),
        submap: None,
    };
    let e = editor_draft("workspace:3:x", "", Some(&extras));
    assert_eq!((e.name.as_str(), e.param.as_str()), ("workspace", "3:x"));
    assert!(e.no_repeat && e.locked && !e.inhibited);
    assert_eq!((e.cooldown.as_str(), e.submap.as_str()), ("250", ""));
    assert!(e.advanced_open);
    let e = editor_draft("close", "", None);
    assert_eq!((e.name.as_str(), e.param.as_str()), ("close", ""));
    assert!(!e.advanced_open);
    assert!(editor_draft("close", "global", None).advanced_open);
}

fn fields(chord: &str, action: &str, param: &str, input: ParamInput, cooldown: &str) -> DraftFields {
    DraftFields {
        chord: chord.into(),
        action: action.into(),
        param: param.into(),
        input,
        cooldown: cooldown.into(),
        submap: "  resize ".into(),
        no_repeat: true,
        locked: false,
        inhibited: true,
    }
}

#[test]
fn applying_a_draft_checks_it_in_order() {
    let err = |d: DraftFields| apply_draft(&d).err().unwrap();
    assert_eq!(err(fields("  ", "close", "", ParamInput::NoParam, "")), "Record or type a key combination.");
    assert_eq!(err(fields("Mod+Q", "", "", ParamInput::NoParam, "")), "Choose an action.");
    assert_eq!(err(fields("Mod+Q", "spawn", " ", ParamInput::App, "")), "Choose an app.");
    assert_eq!(err(fields("Mod+Q", "spawn", "", ParamInput::Command, "")), "Enter a command.");
    assert_eq!(
        err(fields("Mod+Q", "close", "", ParamInput::NoParam, "3600001")),
        "Cooldown is milliseconds, from 0 to 3600000."
    );
    assert_eq!(err(fields("Mod+Q", "close", "", ParamInput::NoParam, "soon")), "Cooldown is milliseconds, from 0 to 3600000.");
}

#[test]
fn an_applied_draft_writes_the_bind() {
    let b = apply_draft(&fields(" Mod+Return ", "spawn", " foot ", ParamInput::App, " 3600000 ")).unwrap();
    assert_eq!(b.chord, "Mod+Return");
    assert_eq!(b.action, "spawn:foot");
    assert_eq!((b.repeat, b.allow_when_locked, b.allow_when_inhibited), (Some(false), None, Some(true)));
    assert_eq!(b.cooldown_ms, Some(3600000));
    assert_eq!(b.submap.as_deref(), Some("resize"));
    let b = apply_draft(&DraftFields { submap: String::new(), ..fields("Mod+Q", "close", "", ParamInput::NoParam, "") }).unwrap();
    assert_eq!(b.action, "close");
    assert_eq!((b.cooldown_ms, b.submap), (None, None));
}

#[test]
fn new_binds_go_where_keybinds_already_live() {
    assert_eq!(new_bind_home(true, &vec![true, true]), None);
    assert_eq!(new_bind_home(false, &vec![false, true, true]), Some(1));
    assert_eq!(new_bind_home(false, &vec![false, false]), None);
}

#[test]
fn the_action_picker_lists_spawn_as_its_two_uses_and_filters() {
    let all = action_matches(&actions(), "  ");
    assert_eq!(all.len(), 5);
    assert_eq!(
        lines(&all[1..3]),
        vec![
            ("spawn".into(), "Launch an app".into(), "spawn:app".into()),
            ("spawn".into(), "Run a shell command".into(), "spawn".into()),
        ]
    );
    // The summary is compared lower-cased, the name as it is.
    assert_eq!(lines(&action_matches(&actions(), " LAYOUT ")), vec![("layout".into(), "Pick the tiling Layout".into(), "layout".into())]);
    assert_eq!(action_matches(&actions(), "shell").len(), 1);
    assert!(action_matches(&actions(), "nothing like it").is_empty());
}

#[test]
fn the_app_picker_matches_name_or_command() {
    let found: Vec<String> = app_matches(&apps(), "FO").iter().map(|a| a.name.clone()).collect();
    assert_eq!(found, vec!["Firefox".to_string(), "Foot".into()]);
    let found: Vec<String> = app_matches(&apps(), "fire").iter().map(|a| a.command.clone()).collect();
    assert_eq!(found, vec!["firefox".to_string()]);
}

#[test]
fn picking_a_special_key_keeps_the_modifiers() {
    assert_eq!(last_key("Mod+Shift+Q"), "Q");
    assert_eq!(last_key("Q"), "Q");
    assert_eq!(special_key_chord("Mod+Shift", "F5", true), "Mod+Shift+F5");
    assert_eq!(special_key_chord("Mod+Q", "F5", false), "Mod+F5");
    assert_eq!(special_key_chord("Q", "F5", false), "F5");
    assert_eq!(special_key_chord("", "F5", false), "F5");
}

#[test]
fn chords_draw_as_key_caps() {
    assert_eq!(chord_keys("", "Mod+Shift+Q"), vec!["Mod".to_string(), "Shift".into(), "Q".into()]);
    assert_eq!(chord_keys("global", "Mod++Q+"), vec!["global:".to_string(), "Mod".into(), "Q".into()]);
    assert!(chord_keys("", "").is_empty());
}

#[test]
fn special_keys_are_labelled_with_their_names() {
    let labels = special_key_labels(&vec![("F5".into(), "F5".into()), ("Print".into(), "Print screen".into())]);
    assert_eq!(labels, vec!["Add a key…".to_string(), "F5".into(), "Print screen (Print)".into()]);
}

#[test]
fn toggling_a_group_twice_restores_it() {
    let groups = vec!["Apps".to_string(), "Windows".into()];
    let mut collapsed: Vec<String> = vec!["Media".into()];
    toggle_group(&mut collapsed, &groups, "WINDOWS");
    assert_eq!(collapsed, vec!["Media".to_string(), "Windows".into()]);
    toggle_group(&mut collapsed, &groups, "WINDOWS");
    assert_eq!(collapsed, vec!["Media".to_string()]);
    toggle_group(&mut collapsed, &groups, "Apps");
    assert_eq!(collapsed, vec!["Media".to_string()]);
}
