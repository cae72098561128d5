use umbriel_config::bind_editor::{action_choices, LiveAction, ParamKind};
use umbriel_config::keys::{compare_keys, KeyOrder};
use umbriel_config::text::{
    chars_of, decimal_chars, ends_with_chars, find_chars, join_strings, last_index_of, parse_i64_chars,
    parse_u64_chars, signed_decimal_chars, split_chars, string_of, trim_str,
};
use umbriel_config::values::ValueMap;

fn chars(s: &str) -> Vec<char> {
    s.chars().collect()
}

#[test]
fn text_primitives_agree_with_std() {
    assert_eq!(chars_of("héllo"), chars("héllo"));
    assert_eq!(string_of(&chars("a·b")), "a·b");
    assert_eq!(trim_str(" \t x y \n"), "x y");
    assert_eq!(find_chars(&chars("a # b # c"), &chars(" #")), Some(1));
    assert_eq!(find_chars(&chars("abc"), &chars("x")), None);
    assert!(ends_with_chars(&chars("output.DP-1.resolution"), &chars(".resolution")));
    assert!(!ends_with_chars(&chars("n"), &chars(".resolution")));
    assert_eq!(last_index_of(&chars("a.b.c"), '.'), Some(3));
    assert_eq!(last_index_of(&chars("abc"), '.'), None);
    let pieces: Vec<String> = split_chars(&chars("a,,b"), ',').iter().map(|p| p.iter().collect()).collect();
    assert_eq!(pieces, vec!["a".to_string(), String::new(), "b".into()]);
    assert_eq!(join_strings(&vec!["a".into(), "b".into()], "; "), "a; b");
}

#[test]
fn numbers_parse_and_print_like_std() {
    for text in ["0", "+7", "-12", "9223372036854775807", "-9223372036854775808", "9223372036854775808", "1e3", "", "-"] {
        assert_eq!(parse_i64_chars(&chars(text)), text.parse::<i64>().ok(), "{text}");
    }
    for text in ["0", "+7", "18446744073709551615", "18446744073709551616", "-1"] {
        assert_eq!(parse_u64_chars(&chars(text)), text.parse::<u64>().ok(), "{text}");
    }
    assert_eq!(decimal_chars(1200).iter().collect::<String>(), "1200");
    assert_eq!(signed_decimal_chars(i64::MIN).iter().collect::<String>(), i64::MIN.to_string());
}

#[test]
fn keys_compare_by_characters() {
    assert!(matches!(compare_keys("a.b", "a.c"), KeyOrder::Before));
    assert!(matches!(compare_keys("a", "a"), KeyOrder::Same));
    assert!(matches!(compare_keys("b", "a.z"), KeyOrder::After));
    assert!(matches!(compare_keys("a", "a.b"), KeyOrder::Before));
}

#[test]
fn snapshots_list_their_entries_in_key_order() {
    let mut m = ValueMap::new();
    m.insert("z".into(), "1".into());
    m.insert("a".into(), "2".into());
    m.insert("m".into(), "3".into());
    m.insert("a".into(), "4".into());
    assert_eq!(
        m.entries_clone(),
        vec![("a".to_string(), "4".to_string()), ("m".into(), "3".into()), ("z".into(), "1".into())]
    );
}

#[test]
fn every_action_gets_a_picker_line() {
    let actions = vec![
        LiveAction { name: "spawn".into(), summary: "x".into(), kind: ParamKind::Command },
        LiveAction { name: "close".into(), summary: "Close".into(), kind: ParamKind::NoParam },
    ];
    let values: Vec<String> = action_choices(&actions).into_iter().map(|c| c.value).collect();
    assert_eq!(values, vec!["spawn:app".to_string(), "spawn".into(), "close".into()]);
}
