use herdr_desktop_switcher::registry::{
    entry_action, existing_root, is_family_bundle_id, keeps_record, lock_wait, mark_pending_check, pending_from,
    pending_marker_text, root_to_create, sort_by_id, split_name, unresolved_launch_error, validate_record,
    EntryAction, EntryKind, InstanceRecord, MarkerState, Registry, RootState,
};

fn live_record(id: &str) -> InstanceRecord {
    InstanceRecord {
        desktop_id: id.into(),
        pid: 4242,
        launch_date_unix_ms: 1,
        bundle_id: "com.gustavocaiano.herdr".into(),
        bundle_path: "/Applications/Herdr.app".into(),
        mode: "local".into(),
        target: None,
        session: None,
        keybindings: None,
    }
}

#[test]
fn family_bundle_ids_pass_and_foreign_apps_fail_validation() {
    let mut remote = live_record("devbox");
    remote.bundle_id = "com.gustavocaiano.herdr.devbox".into();
    remote.bundle_path = "/Users/tester/Applications/Devbox.app".into();
    remote.mode = "remote".into();
    remote.target = Some("dev".into());
    remote.session = Some("devbox".into());
    remote.keybindings = Some("local".into());
    assert!(validate_record(&remote).is_ok());

    for hostile in ["com.evil.app", "com.gustavocaiano.herdrdotnet"] {
        let mut foreign = live_record("local");
        foreign.bundle_id = hostile.into();
        let error = validate_record(&foreign).expect_err("foreign bundle");
        assert_eq!(error.message(), "instance record has invalid app identity");
    }
    assert!(is_family_bundle_id("com.gustavocaiano.herdr"));
    assert!(is_family_bundle_id("com.gustavocaiano.herdr."));
    assert!(!is_family_bundle_id("com.gustavocaiano.herd"));
}

#[test]
fn records_must_be_consistent() {
    let mut record = live_record("local");
    record.pid = 0;
    assert_eq!(
        validate_record(&record).expect_err("pid").message(),
        "instance record PID and launch date must be positive"
    );
    let mut record = live_record("local");
    record.target = Some("dev".into());
    assert_eq!(
        validate_record(&record).expect_err("local with target").message(),
        "instance record has inconsistent desktop configuration"
    );
    let mut record = live_record("local");
    record.bundle_path = "Applications/Herdr.app".into();
    assert!(validate_record(&record).is_err());
    let record = live_record("../escape");
    assert_eq!(
        validate_record(&record).expect_err("bad id").message(),
        "invalid desktop id \"../escape\""
    );
}

#[test]
fn unsafe_ids_and_roots_are_refused() {
    let registry = Registry::new("/state".into());
    assert!(registry.live_for("../escape", Ok(Vec::new())).is_err());
    let error = existing_root(RootState::NotDirectory, "/state").expect_err("symlink root");
    assert_eq!(
        error.message(),
        "registry path /state must be a real directory"
    );
    assert!(registry.remove("local", RootState::NotDirectory).is_err());
    assert!(registry.clear_pending("local", RootState::NotDirectory).is_err());
    assert!(registry.remove("../escape", RootState::Directory).is_err());
    assert_eq!(registry.remove("local", RootState::Missing).expect("missing root"), None);
    assert_eq!(
        registry.remove("local", RootState::Directory).expect("path"),
        Some("/state/local.toml".to_string())
    );
}

#[test]
fn pending_markers_are_files_named_after_the_desktop() {
    let registry = Registry::new("/state/".into());
    assert_eq!(
        registry.clear_pending("local", RootState::Directory).expect("path"),
        Some("/state/local.pending".to_string())
    );
    assert!(pending_from(MarkerState::RegularFile, "/state/local.pending").expect("pending"));
    assert!(!pending_from(MarkerState::Missing, "/state/local.pending").expect("clear"));
    assert_eq!(
        pending_from(MarkerState::Other, "/state/local.pending")
            .expect_err("directory marker")
            .message(),
        "pending marker /state/local.pending must be a regular file"
    );
    assert_eq!(
        unresolved_launch_error("local", "/state/local.pending").message(),
        "desktop \"local\" has an unresolved previous launch; inspect /state/local.pending before retrying"
    );
    assert_eq!(pending_marker_text(1700000000), "started_at_unix = 1700000000\n");
}

#[test]
fn locks_wait_until_the_timeout() {
    assert!(lock_wait("local", 25, 50).is_ok());
    assert_eq!(
        lock_wait("local", 50, 50).expect_err("timed out").message(),
        "timed out waiting for desktop \"local\" launch lock"
    );
}

#[test]
fn pruning_reads_only_regular_toml_entries() {
    assert_eq!(entry_action("local.toml", EntryKind::File), EntryAction::ReadRecord);
    assert_eq!(entry_action("linked.toml", EntryKind::Symlink), EntryAction::RemoveUnsafe);
    assert_eq!(entry_action("local.pending", EntryKind::File), EntryAction::Skip);
    assert_eq!(entry_action("local.lock", EntryKind::File), EntryAction::Skip);
    assert_eq!(entry_action(".toml", EntryKind::File), EntryAction::Skip);
    assert_eq!(
        entry_action(".local.1.2.tmp", EntryKind::File),
        EntryAction::Skip
    );
    assert!(keeps_record("local.toml", &live_record("local")));
    assert!(!keeps_record("other.toml", &live_record("local")));
    let mut stale = live_record("stale");
    stale.pid = -1;
    assert!(!keeps_record("stale.toml", &stale));
}

#[test]
fn names_split_at_the_last_dot() {
    assert_eq!(split_name("a.b.toml"), ("a.b".to_string(), Some("toml".to_string())));
    assert_eq!(split_name("plain"), ("plain".to_string(), None));
    assert_eq!(split_name(".hidden"), (".hidden".to_string(), None));
    assert_eq!(split_name("trailing."), ("trailing".to_string(), Some(String::new())));
    assert_eq!(split_name(".."), ("..".to_string(), None));
}

#[test]
fn live_records_come_out_ordered_by_id() {
    let records = vec![live_record("zeta"), live_record("alpha"), live_record("mid")];
    let sorted = sort_by_id(records);
    let ids: Vec<&str> = sorted.iter().map(|r| r.desktop_id.as_str()).collect();
    assert_eq!(ids, vec!["alpha", "mid", "zeta"]);
    assert!(sort_by_id(Vec::new()).is_empty());
}

#[test]
fn live_for_finds_the_desktop_record() {
    let registry = Registry::new("/state".into());
    let found = registry
        .live_for("mid", Ok(vec![live_record("alpha"), live_record("mid")]))
        .expect("found");
    assert_eq!(found, Some(live_record("mid")));
    assert_eq!(
        registry
            .live_for("none", Ok(vec![live_record("alpha")]))
            .expect("absent"),
        None
    );
    assert_eq!(registry.root(), "/state");
}

#[test]
fn a_missing_root_is_created_and_a_foreign_one_refused() {
    assert!(root_to_create(RootState::Missing, "/state").expect("missing"));
    assert!(!root_to_create(RootState::Directory, "/state").expect("present"));
    assert!(root_to_create(RootState::NotDirectory, "/state").is_err());
}

#[test]
fn a_cleared_marker_can_be_marked_again() {
    let registry = Registry::new("/state".into());
    let marker = registry
        .clear_pending("local", RootState::Directory)
        .expect("path")
        .expect("marker path");
    assert_eq!(marker, "/state/local.pending");
    assert_eq!(registry.component_path("local", "pending").expect("path"), marker);
    assert_eq!(
        mark_pending_check("local", &marker, true).expect_err("marker stands").message(),
        "desktop \"local\" has an unresolved previous launch; inspect /state/local.pending before retrying"
    );
    assert!(!pending_from(MarkerState::Missing, &marker).expect("cleared"));
    assert!(mark_pending_check("local", &marker, false).is_ok());
    assert_eq!(
        registry.clear_pending("local", RootState::Directory).expect("again"),
        Some(marker.clone())
    );
    assert_eq!(registry.clear_pending("local", RootState::Missing).expect("no root"), None);
}
