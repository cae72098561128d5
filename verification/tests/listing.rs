use umbriel_config::keybind_rows::{eq_ignore_ascii_case, keybind_rows, DefaultBind, KeybindQuery, KeybindRow, UserBind};
use umbriel_config::monitors::{
    format_output_value, is_output_key, mode_choice, output_names, refreshes, resolutions, Mode, Monitor, OutputField, OutputKind,
};
use umbriel_config::save::{discard_keys, save_moves_for, save_verdict, SaveEntry, Validation};
use umbriel_config::common::KeySet;
use umbriel_config::values::ValueMap;

fn strings(items: &[&str]) -> Vec<String> {
    items.iter().map(|s| s.to_string()).collect()
}

fn user(chord: &str, family: &str, summary: &str, file: usize) -> UserBind {
    UserBind {
        chord: chord.to_string(),
        family: family.to_string(),
        summary: summary.to_string(),
        is_command: false,
        extras: String::new(),
        file,
        exact: false,
    }
}

fn default(chord: &str, family: &str, summary: &str) -> DefaultBind {
    DefaultBind {
        chord: chord.to_string(),
        family: family.to_string(),
        summary: summary.to_string(),
        is_command: false,
        exact: false,
    }
}

fn query(search: &str, filter: i32) -> KeybindQuery {
    KeybindQuery { search: search.to_string(), exact: false, filter }
}

fn shape(rows: &[KeybindRow]) -> Vec<(String, bool, usize, i32)> {
    rows.iter().map(|r| (r.chord.clone(), r.is_header, r.count, r.index)).collect()
}

#[test]
fn keybind_listing_merges_groups_and_orders() {
    let binds = vec![user("Mod+Q", "windows", "Close window", 1), user("mod+t", "apps", "Terminal", 1)];
    let defaults = vec![
        default("Mod+T", "apps", "Launcher"),
        default("Mod+F", "windows", "Fullscreen"),
        default("Mod+1", "workspaces", "Workspace 1"),
    ];
    let names = strings(&["binds.toml", "config.toml"]);
    let order = strings(&["windows", "workspaces", "apps"]);
    let (rows, note) = keybind_rows(&binds, &defaults, &names, &query("", 0), &order, &Vec::new());
    assert_eq!(
        shape(&rows),
        vec![
            ("WINDOWS".to_string(), true, 2, -1),
            ("Mod+F".to_string(), false, 0, -1),
            ("Mod+Q".to_string(), false, 0, 0),
            ("WORKSPACES".to_string(), true, 1, -1),
            ("Mod+1".to_string(), false, 0, -1),
            ("APPS".to_string(), true, 1, -1),
            ("mod+t".to_string(), false, 0, 1),
        ]
    );
    assert!(rows[6].shadowing);
    assert_eq!(rows[6].extras, "replaces default");
    assert_eq!(rows[6].source, "");
    assert_eq!(
        note,
        "Bold keys are yours (in config.toml); grey ones are Umbriel's defaults. Click a row to change it."
    );
}

#[test]
fn keybind_listing_filters_searches_and_collapses() {
    let binds = vec![user("Mod+Q", "windows", "Close window", 0), user("Mod+T", "apps", "Terminal", 1)];
    let defaults = vec![default("Mod+F", "windows", "Fullscreen")];
    let names = strings(&["binds.toml", "config.toml"]);
    let order = strings(&["windows", "apps"]);
    let (only_defaults, note) = keybind_rows(&binds, &defaults, &names, &query("", 2), &order, &Vec::new());
    assert_eq!(shape(&only_defaults), vec![("WINDOWS".to_string(), true, 1, -1), ("Mod+F".to_string(), false, 0, -1)]);
    assert_eq!(note, "Bold keys are yours; grey ones are Umbriel's defaults. Click a row to change it.");
    let (users, _) = keybind_rows(&binds, &defaults, &names, &query("", 1), &order, &strings(&["apps"]));
    assert_eq!(
        shape(&users),
        vec![
            ("WINDOWS".to_string(), true, 1, -1),
            ("Mod+Q".to_string(), false, 0, 0),
            ("APPS".to_string(), true, 1, -1),
        ]
    );
    assert!(!users[2].expanded);
    assert_eq!(users[1].source, "binds.toml");
    let (found, _) = keybind_rows(&binds, &defaults, &names, &query("  TERM ", 0), &order, &strings(&["apps"]));
    assert_eq!(shape(&found), vec![("APPS".to_string(), true, 1, -1), ("Mod+T".to_string(), false, 0, 1)]);
    assert!(found[0].expanded);
}

#[test]
fn ascii_case_insensitive_chords() {
    assert!(eq_ignore_ascii_case("Mod+Shift+Q", "mod+shift+q"));
    assert!(!eq_ignore_ascii_case("Mod+Q", "Mod+W"));
    assert!(!eq_ignore_ascii_case("Mod", "Mod+"));
}

fn mode(width: u32, height: u32, refresh: &str, preferred: bool) -> Mode {
    Mode { width, height, refresh: refresh.to_string(), preferred }
}

fn monitor() -> Monitor {
    Monitor {
        name: "DP-1".to_string(),
        modes: vec![
            mode(2560, 1440, "59.951", false),
            mode(2560, 1440, "164.977", true),
            mode(1920, 1080, "60", false),
        ],
        current: Some(1),
    }
}

fn fields() -> Vec<OutputField> {
    vec![
        OutputField { key: "enabled".to_string(), kind: OutputKind::Toggle },
        OutputField { key: "position".to_string(), kind: OutputKind::Position },
        OutputField { key: "transform".to_string(), kind: OutputKind::Choice },
        OutputField { key: "workspaces".to_string(), kind: OutputKind::Workspaces },
    ]
}

#[test]
fn monitor_choices() {
    let m = monitor();
    assert_eq!(resolutions(&m), strings(&["2560x1440", "1920x1080"]));
    assert_eq!(refreshes(&m, "2560x1440"), strings(&["59.951", "164.977"]));
    assert!(refreshes(&m, "800x600").is_empty());
    assert_eq!(mode_choice("", &m), ("2560x1440".to_string(), "164.977".to_string()));
    assert_eq!(mode_choice("1920x1080@60", &m), ("1920x1080".to_string(), "60".to_string()));
    assert_eq!(
        output_names(&strings(&["DP-1", "eDP-1"]), &strings(&["HDMI-1", "DP-1", "HDMI-1"])),
        strings(&["DP-1", "eDP-1", "HDMI-1"])
    );
}

#[test]
fn output_values_per_field() {
    let monitors = vec![monitor()];
    let f = fields();
    let fmt = |key: &str, raw: &str, configured: &str| format_output_value(key, raw, &f, &monitors, configured);
    assert_eq!(fmt("output.DP-1.resolution", "2560x1440", ""), Ok("2560x1440@164.977".to_string()));
    assert_eq!(fmt("output.DP-1.resolution", "1920x1080", ""), Ok("1920x1080@60".to_string()));
    assert_eq!(
        fmt("output.DP-1.resolution", "800x600", ""),
        Err("'800x600' is not a mode this monitor reports".to_string())
    );
    assert_eq!(
        fmt("output.HDMI-1.resolution", "800x600", ""),
        Err("no detected monitor for this output".to_string())
    );
    assert_eq!(fmt("output.DP-1.refresh", "59.951", "2560x1440@164.977"), Ok("2560x1440@59.951".to_string()));
    assert_eq!(fmt("output.DP-1.refresh", "60", ""), Err("pick a resolution first".to_string()));
    assert_eq!(fmt("output.DP-1.enabled", " false ", ""), Ok("false".to_string()));
    assert_eq!(fmt("output.DP-1.enabled", "yes", ""), Err("'yes' is not true or false".to_string()));
    assert_eq!(fmt("output.DP-1.position", " 10, -20 ", ""), Ok("[10, -20]".to_string()));
    assert_eq!(fmt("output.DP-1.position", "1, 2, 3", ""), Ok("[1, 2]".to_string()));
    assert_eq!(fmt("output.DP-1.position", "10", ""), Err("'10' is not an x, y position".to_string()));
    assert_eq!(fmt("output.DP-1.transform", "normal", ""), Ok("\"normal\"".to_string()));
    assert_eq!(fmt("output.DP-1.workspaces", "a, b", ""), Ok("[\"a\", \"b\"]".to_string()));
    assert_eq!(
        fmt("output.DP-1.workspaces", " , ", ""),
        Err("workspaces can't be empty — use names, a count, or \"dynamic\"".to_string())
    );
    assert_eq!(fmt("output.DP-1.scale", "1.5", ""), Err("unknown output field in output.DP-1.scale".to_string()));
    assert_eq!(fmt("output.a.b.enabled", "true", ""), Ok("true".to_string()));
    assert!(is_output_key("output.DP-1.scale"));
    assert!(is_output_key("output..x"));
    assert!(!is_output_key("output.x"));
    assert!(!is_output_key("outputs.DP-1.scale"));
    assert!(!is_output_key("out"));
}

fn map(pairs: &[(&str, &str)]) -> ValueMap {
    let mut m = ValueMap::new();
    for (k, v) in pairs {
        m.insert(k.to_string(), v.to_string());
    }
    m
}

fn entry(key: &str, value: &str, dest_label: &str) -> SaveEntry {
    SaveEntry {
        key: key.to_string(),
        label: key.to_string(),
        value: value.to_string(),
        dest_label: dest_label.to_string(),
        dest_index: 0,
    }
}

#[test]
fn save_moves_follow_the_chosen_destinations() {
    let labels = strings(&["rules.toml", "config.toml (main)"]);
    let sets = vec![KeySet::from_keys(strings(&["a"])), KeySet::from_keys(strings(&["b", "c"]))];
    let entries = vec![
        entry("a", "1", "config.toml (main)"),
        entry("b", "2", "config.toml (main)"),
        entry("c", "3", "rules.toml"),
        entry("d", "4", "rules.toml"),
        entry("a", "5", "elsewhere"),
    ];
    let moves = save_moves_for(&entries, &labels, &sets);
    let shape: Vec<(String, String, usize, usize)> =
        moves.iter().map(|m| (m.key.clone(), m.value.clone(), m.from, m.to)).collect();
    assert_eq!(
        shape,
        vec![("a".to_string(), "1".to_string(), 0, 1), ("c".to_string(), "3".to_string(), 1, 0)]
    );
}

#[test]
fn discard_keys_list_every_change() {
    let current = vec![map(&[("a", "1"), ("b", "2")]), map(&[("c", "3")])];
    let saved = vec![map(&[("a", "1"), ("b", "1"), ("z", "0")]), map(&[])];
    assert_eq!(discard_keys(&current, &saved), strings(&["b", "z", "c"]));
    assert_eq!(umbriel_config::save::changed_count(&current, &saved), 3);
    let same = vec![map(&[("a", "1"), ("b", "2")]), map(&[("c", "3")])];
    assert_eq!(umbriel_config::save::changed_count(&current, &same), 0);
    assert!(discard_keys(&current, &same).is_empty());
}

#[test]
fn save_verdicts() {
    let clean = Validation::Report { messages: Vec::new(), ok: true };
    assert_eq!(
        save_verdict(2, &clean),
        (String::new(), "Saved 2 file(s); umbriel has validated the config.".to_string())
    );
    let warned = Validation::Report { messages: strings(&["gap too big", "unknown key"]), ok: true };
    assert_eq!(
        save_verdict(1, &warned),
        (
            "gap too big; unknown key".to_string(),
            "Saved 1 file(s); umbriel noted warnings — see the banner.".to_string()
        )
    );
    let failed = Validation::Report { messages: strings(&["bad"]), ok: false };
    assert_eq!(save_verdict(1, &failed).1, "Saved 1 file(s); umbriel has complaints — see the banner.");
    assert_eq!(
        save_verdict(0, &Validation::Failed("not found".to_string())),
        (
            "umbriel could not be run: not found".to_string(),
            "Saved 0 file(s) without validation.".to_string()
        )
    );
}
