use umbriel_config::guide::{guide_title, setup_mode, SetupMode};
use umbriel_config::rows::{find_row, range_text, strip_decor};
use umbriel_config::settings::{commit_line, first_line};
use umbriel_config::text::{top_level, trim_str};

#[test]
fn setup_mode_covers_the_four_states() {
    assert_eq!(setup_mode(true, true), SetupMode::Normal);
    assert_eq!(setup_mode(true, false), SetupMode::FreshWithUmbriel);
    assert_eq!(setup_mode(false, true), SetupMode::MissingUmbriel);
    assert_eq!(setup_mode(false, false), SetupMode::PlainInstall);
}

#[test]
fn guide_titles_count_the_steps() {
    assert_eq!(guide_title("layout", 1, 4), "Guided setup — Layout (step 1 of 4)");
    assert_eq!(guide_title("output", 12, 30), "Guided setup — outputs (step 12 of 30)");
    assert_eq!(guide_title("", 0, 0), "Guided setup —  (step 0 of 0)");
}

#[test]
fn range_text_forms() {
    assert_eq!(range_text(Some("0".to_owned()), Some("10".to_owned())), "0–10");
    assert_eq!(range_text(Some("1".to_owned()), None), "≥ 1");
    assert_eq!(range_text(None, Some("5".to_owned())), "≤ 5");
    assert_eq!(range_text(None, None), "");
}

#[test]
fn strip_decor_drops_trailing_comments() {
    assert_eq!(strip_decor("  42   # the answer"), "42");
    assert_eq!(strip_decor("\"a#b\""), "\"a#b\"");
    assert_eq!(strip_decor(" plain "), "plain");
}

#[test]
fn find_row_takes_the_first_match() {
    let cards = vec![
        vec!["a".to_owned(), "b".to_owned()],
        vec![],
        vec!["c".to_owned(), "b".to_owned()],
    ];
    assert_eq!(find_row(&cards, "b"), Some((0, 1)));
    assert_eq!(find_row(&cards, "c"), Some((2, 0)));
    assert_eq!(find_row(&cards, "z"), None);
}

#[test]
fn commit_lines_are_short() {
    assert_eq!(first_line("fix: thing\r\nbody"), "fix: thing");
    assert_eq!(first_line("one line"), "one line");
    assert_eq!(first_line(""), "");
    assert_eq!(
        commit_line("0123456789abcdef", "fix: thing", "2024-05-06T07:08:09Z"),
        "0123456 • 2024-05-06 • fix: thing"
    );
    assert_eq!(commit_line("abc", "m", "short"), "abc •  • m");
}

#[test]
fn text_helpers() {
    assert_eq!(top_level("hot_corners.top_left"), "hot_corners");
    assert_eq!(top_level("general"), "general");
    assert_eq!(trim_str("\u{3000} x \t"), "x");
}
