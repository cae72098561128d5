use umbriel_config::update::{check, compare, newest, Fetched, Release, Verdict};

fn release(tag: &str) -> Release {
    Release {
        tag_name: tag.to_owned(),
        body: None,
    }
}

#[test]
fn compare_orders_semver_and_strips_v() {
    assert_eq!(
        compare("0.1.1-alpha.2", "v0.1.1"),
        Some(Verdict::UpdateAvailable {
            version: "0.1.1".to_owned(),
            notes: None
        })
    );
    assert_eq!(compare("0.1.2-alpha.1", "v0.1.1"), Some(Verdict::UpToDate));
    assert_eq!(compare("0.1.1", "v0.1.1"), Some(Verdict::UpToDate));
    assert_eq!(compare("0.1.1", "garbage"), None);
    assert_eq!(
        compare("0.1.1-alpha.2", "v0.1.1-alpha.3"),
        Some(Verdict::UpdateAvailable {
            version: "0.1.1-alpha.3".to_owned(),
            notes: None
        })
    );
}

#[test]
fn newest_ranks_by_version_not_by_position() {
    let picked = newest(vec![
        release("v0.3.0-beta.9"),
        release("v0.3.0"),
        release("v0.3.0-beta.10"),
        release("nightly"),
    ]);
    assert_eq!(picked.unwrap().tag_name, "v0.3.0");
    let picked = newest(vec![release("v0.3.0-beta.9"), release("v0.3.0-beta.10")]);
    assert_eq!(picked.unwrap().tag_name, "v0.3.0-beta.10");
    assert!(newest(vec![release("nightly")]).is_none());
}

#[test]
fn newest_keeps_the_last_of_equal_versions() {
    let picked = newest(vec![release("v1.0.0"), release("1.0.0"), release("v0.9.0")]);
    assert_eq!(picked.unwrap().tag_name, "1.0.0");
    assert!(newest(Vec::new()).is_none());
}

#[test]
fn compare_rejects_an_unparseable_running_version() {
    assert_eq!(compare("not-a-version", "v1.0.0"), None);
    assert_eq!(compare("1.0.0", "vvv2.0.0"), Some(Verdict::UpdateAvailable {
        version: "2.0.0".to_owned(),
        notes: None,
    }));
}

#[test]
fn check_prerelease_channel_offers_the_newest_release_with_notes() {
    let listing = vec![
        Release { tag_name: "v0.3.0-beta.9".to_owned(), body: Some("old".to_owned()) },
        Release { tag_name: "v0.3.0".to_owned(), body: Some("  fixes  \n".to_owned()) },
        release("nightly"),
    ];
    assert_eq!(
        check("0.2.0", Fetched::Releases(Ok(Some(listing)))),
        Ok(Verdict::UpdateAvailable {
            version: "0.3.0".to_owned(),
            notes: Some("fixes".to_owned()),
        })
    );
}

#[test]
fn check_never_offers_a_downgrade() {
    let latest = Release { tag_name: "v0.2.0".to_owned(), body: Some("notes".to_owned()) };
    assert_eq!(check("0.3.0-beta.1", Fetched::Latest(Ok(Some(latest)))), Ok(Verdict::UpToDate));
}

#[test]
fn check_reports_each_failure() {
    assert_eq!(check("0.1.0", Fetched::Latest(Ok(None))), Ok(Verdict::NoRelease));
    assert_eq!(
        check("0.1.0", Fetched::Releases(Ok(None))),
        Err("no releases published yet".to_owned())
    );
    assert_eq!(
        check("0.1.0", Fetched::Releases(Ok(Some(vec![release("nightly")])))),
        Err("no releases published yet".to_owned())
    );
    assert_eq!(
        check("0.1.0", Fetched::Latest(Ok(Some(release("nightly"))))),
        Err("unparseable version 'nightly'".to_owned())
    );
    assert_eq!(
        check("0.1.0", Fetched::Latest(Err("offline".to_owned()))),
        Err("offline".to_owned())
    );
    assert_eq!(
        check("0.1.0", Fetched::Releases(Err("timeout".to_owned()))),
        Err("timeout".to_owned())
    );
    let blank = Release { tag_name: "v9.0.0".to_owned(), body: Some("   ".to_owned()) };
    assert_eq!(
        check("0.1.0", Fetched::Latest(Ok(Some(blank)))),
        Ok(Verdict::UpdateAvailable { version: "9.0.0".to_owned(), notes: None })
    );
}

#[test]
fn compare_both_ways_round() {
    assert!(matches!(compare("1.2.0", "1.3.0"), Some(Verdict::UpdateAvailable { .. })));
    assert_eq!(compare("1.3.0", "1.2.0"), Some(Verdict::UpToDate));
    assert_eq!(compare("1.2.0", "1.2.0"), Some(Verdict::UpToDate));
    assert!(matches!(compare("1.0.0+a", "1.0.0+b"), Some(Verdict::UpdateAvailable { .. })));
    assert_eq!(compare("1.0.0+b", "1.0.0+a"), Some(Verdict::UpToDate));
}
