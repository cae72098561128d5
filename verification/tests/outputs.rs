use umbriel_config::outputs::{mode_parts, output_field_hint, workspaces_parse, workspaces_text, TomlValue};

#[test]
fn workspaces_text_reads_count_list_and_literal() {
    // [output."DP-3"] workspaces = ["Games", "Steam"]
    let list = TomlValue::Strings(vec!["Games".to_owned(), "Steam".to_owned()]);
    assert_eq!(workspaces_text(&list).unwrap(), "Games, Steam");
    // [output."eDP-1"] workspaces = 4
    assert_eq!(workspaces_text(&TomlValue::Integer(4)).unwrap(), "4");
    // [output."HDMI-1"] workspaces = "dynamic"
    assert_eq!(
        workspaces_text(&TomlValue::Text("dynamic".to_owned())).unwrap(),
        "dynamic"
    );
    // output "none" has no workspaces key.
    assert_eq!(workspaces_text(&TomlValue::Absent), None);
}

#[test]
fn workspaces_parse_emits_toml_set_leaf_text_accepts() {
    // Names become a TOML array.
    let formatted = workspaces_parse("Games, Steam , Util").unwrap().unwrap();
    assert_eq!(formatted, "[\"Games\", \"Steam\", \"Util\"]");
    // That array read back is shown as the names again.
    let read_back = TomlValue::Strings(vec!["Games".to_owned(), "Steam".to_owned(), "Util".to_owned()]);
    assert_eq!(workspaces_text(&read_back).unwrap(), "Games, Steam, Util");
    // A count stays a number, the literal stays a string.
    assert_eq!(workspaces_parse("4").unwrap().unwrap(), "4");
    assert_eq!(workspaces_parse("dynamic").unwrap().unwrap(), "\"dynamic\"");
    // Empty and comma-only input are rejected, not written.
    assert!(workspaces_parse("").is_err());
    assert!(workspaces_parse(" , ").is_err());
}

#[test]
fn workspaces_parse_normalises_counts_and_skips_blank_names() {
    assert_eq!(workspaces_parse(" +07 ").unwrap().unwrap(), "7");
    assert_eq!(workspaces_parse("-3").unwrap().unwrap(), "-3");
    assert_eq!(workspaces_parse("a,,b,").unwrap().unwrap(), "[\"a\", \"b\"]");
    assert_eq!(
        workspaces_parse("99999999999999999999").unwrap().unwrap(),
        "[\"99999999999999999999\"]"
    );
    assert_eq!(
        workspaces_parse("   ").unwrap_err(),
        "workspaces can't be empty — use names, a count, or \"dynamic\""
    );
    assert_eq!(workspaces_text(&TomlValue::Integer(-12)).unwrap(), "-12");
    assert_eq!(workspaces_text(&TomlValue::Integer(i64::MIN)).unwrap(), "-9223372036854775808");
    assert_eq!(workspaces_text(&TomlValue::Other), None);
}

#[test]
fn mode_parts_split_at_the_first_at_sign() {
    assert_eq!(
        mode_parts("3440x1440@164.977"),
        ("3440x1440".to_owned(), "164.977".to_owned())
    );
    assert_eq!(mode_parts("1920x1080"), (String::new(), String::new()));
    assert_eq!(mode_parts("a@b@c"), ("a".to_owned(), "b@c".to_owned()));
}

#[test]
fn output_field_hints() {
    assert_eq!(output_field_hint("scale"), "Zoom level; 1.0 is native size.");
    assert_eq!(output_field_hint("unknown"), "");
}
