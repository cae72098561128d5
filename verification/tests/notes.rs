use umbriel_config::backups::{
    backup_count_choice, backup_count_note, backup_dir_choice, backup_note, backup_now_note, restore_note,
};
use umbriel_config::common::schema_sections;
use umbriel_config::guide::{setup_mode, SetupMode};
use umbriel_config::nav::{destinations, landing_page, section_nav};
use umbriel_config::outputs::{workspaces_write, WorkspacesWrite};
use umbriel_config::shader_preview::summarize_log;
use umbriel_config::update::{update_note, Verdict};

fn strings(items: &[&str]) -> Vec<String> {
    items.iter().map(|s| s.to_string()).collect()
}

#[test]
fn backup_preferences_and_notes() {
    assert_eq!(backup_count_choice(" 5 "), Some(5));
    assert_eq!(backup_count_choice("0"), Some(1));
    assert_eq!(backup_count_choice("-2"), None);
    assert_eq!(backup_count_choice("4294967296"), None);
    assert_eq!(backup_count_note(Some(5)), "Keeping 5 backups.");
    assert_eq!(backup_count_note(None), "Keep count must be a number of 1 or more.");
    assert_eq!(
        backup_dir_choice(""),
        (None, "Backups will be saved to the default location.".to_string())
    );
    assert_eq!(
        backup_dir_choice("/mnt/b"),
        (Some("/mnt/b".to_string()), "Backups will be saved to /mnt/b.".to_string())
    );
    assert_eq!(backup_now_note(&Ok(Some("2026-01-01T00-00-00".to_string()))), "Backed up as 2026-01-01T00-00-00.");
    assert_eq!(backup_now_note(&Ok(None)), "Nothing to back up yet, no config on disk.");
    assert_eq!(backup_now_note(&Err("disk full".to_string())), "Backup failed: disk full");
    assert_eq!(backup_note("/b", 10), "Saving to /b · keeping 10 backups");
    assert_eq!(restore_note(2, "run-1"), "Restored 2 file(s) from run-1.");
}

#[test]
fn update_notes_per_verdict() {
    assert_eq!(update_note(&Ok(Verdict::UpToDate)), "Up to date.");
    assert_eq!(
        update_note(&Ok(Verdict::NoRelease)),
        "No stable release yet. You'll get the first one when it ships."
    );
    assert_eq!(
        update_note(&Ok(Verdict::UpdateAvailable { version: "0.3.0".to_string(), notes: None })),
        "Version 0.3.0 available."
    );
    assert_eq!(update_note(&Err("offline".to_string())), "Couldn't check: offline");
}

#[test]
fn landing_page_skips_unconfigured_outputs() {
    let schema = vec![("layout.gap".to_string(), "layout".to_string())];
    let nav = section_nav(&schema, &Vec::new());
    let first = landing_page(&nav, false).unwrap();
    assert_eq!(nav[first].id, "workspaces");
    assert_eq!(landing_page(&nav, true), Some(0));
    assert_eq!(landing_page(&Vec::new(), true), None);
}

#[test]
fn destinations_put_main_first() {
    assert_eq!(
        destinations(&strings(&["a.toml", "b.toml", "config.toml (main)"])),
        strings(&["config.toml (main)", "a.toml", "b.toml"])
    );
    assert_eq!(destinations(&strings(&["config.toml (main)"])), strings(&["config.toml (main)"]));
}

#[test]
fn startup_modes_pick_the_panels() {
    assert!(setup_mode(false, false).shows_onboarding());
    assert!(setup_mode(true, false).shows_onboarding());
    assert!(!SetupMode::Normal.shows_onboarding());
    assert!(SetupMode::Normal.offers_whats_new());
    assert!(SetupMode::MissingUmbriel.offers_whats_new());
    assert!(!SetupMode::FreshWithUmbriel.offers_whats_new());
}

#[test]
fn workspaces_write_back_typed_values() {
    assert!(matches!(workspaces_write("  "), WorkspacesWrite::Nothing));
    assert!(matches!(workspaces_write(" 4 "), WorkspacesWrite::Count(4)));
    assert!(matches!(workspaces_write("dynamic"), WorkspacesWrite::Dynamic));
    match workspaces_write("Games, , Steam") {
        WorkspacesWrite::Names(names) => assert_eq!(names, strings(&["Games", "Steam"])),
        _ => panic!("names expected"),
    }
    assert!(matches!(workspaces_write(" , "), WorkspacesWrite::Nothing));
}

#[test]
fn schema_sections_keep_file_order() {
    assert_eq!(
        schema_sections(&strings(&["layout.scrolling", "input", "layout", "animation.windows", "input.keyboard"])),
        strings(&["layout", "input", "animation"])
    );
}

#[test]
fn log_summaries_cut_at_a_character_boundary() {
    assert_eq!(summarize_log("ERROR: 0:4: short"), "ERROR: 0:4: short");
    // 199 ASCII bytes then a two-byte character: byte 200 falls inside it,
    // so the cut comes before that character.
    let split = format!("{}é{}", "a".repeat(199), "b".repeat(10));
    assert_eq!(summarize_log(&split), format!("{}…", "a".repeat(199)));
    let aligned = format!("{}é{}", "a".repeat(198), "b".repeat(10));
    assert_eq!(summarize_log(&aligned), format!("{}é…", "a".repeat(198)));
    let wide = "ERROR: ".to_string() + &"é".repeat(200);
    let note = summarize_log(&wide);
    assert!(note.ends_with('…'));
    assert_eq!(note, format!("ERROR: {}…", "é".repeat(96)));
}

use umbriel_config::common::KeySet;
use umbriel_config::search::{search_needle, search_rows, BindHit, SettingHit};

#[test]
fn search_lists_pages_then_keybinds_then_settings() {
    let binds = vec![
        BindHit { chord: "Mod+K".to_string(), summary: "Open keyboard layout switcher".to_string(), extras: String::new() },
        BindHit { chord: "Mod+Q".to_string(), summary: "Close window".to_string(), extras: "once".to_string() },
    ];
    let hits = vec![
        SettingHit { label: "Keyboard layout".to_string(), dotted: "input.keyboard.layout".to_string(), section: "input.keyboard".to_string() },
        SettingHit { label: "Repeat rate".to_string(), dotted: "input.keyboard.repeat_rate".to_string(), section: "input.keyboard".to_string() },
    ];
    let sets = vec![
        KeySet::from_keys(vec!["input.keyboard.layout".to_string()]),
        KeySet::from_keys(Vec::new()),
    ];
    let labels = strings(&["kb.toml", "config.toml (main)"]);
    let rows = search_rows("keyboard", &binds, &hits, &sets, &labels);
    let shape: Vec<(String, String, String, String)> = rows
        .iter()
        .map(|r| (r.label.clone(), r.home_label.clone(), r.home_section.clone(), r.kind.clone()))
        .collect();
    assert_eq!(shape[0], ("Keyboard".to_string(), "Page".to_string(), "keyboard".to_string(), "page".to_string()));
    let keybind = shape.iter().position(|r| r.3 == "keybind").unwrap();
    assert_eq!(
        shape[keybind],
        (
            "Mod+K — Open keyboard layout switcher".to_string(),
            "Keybind".to_string(),
            "keybinds".to_string(),
            "keybind".to_string()
        )
    );
    assert!(shape[..keybind].iter().all(|r| r.3 == "page"));
    let n = shape.len();
    assert_eq!(shape[n - 2], ("Keyboard layout".to_string(), "kb.toml".to_string(), "keyboard".to_string(), String::new()));
    assert_eq!(
        shape[n - 1],
        ("Repeat rate".to_string(), "config.toml (main)".to_string(), "keyboard".to_string(), String::new())
    );
    let closing = search_rows("close", &binds, &Vec::new(), &sets, &labels);
    assert!(closing.iter().any(|r| r.label == "Mod+Q — Close window (once)"));
    assert_eq!(search_needle("  mod  "), Some("mod".to_string()));
    assert_eq!(search_needle(" \t "), None);
}
