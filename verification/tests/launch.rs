use herdr_desktop_switcher::launch::{
    check_launch_identity, client_arguments, desktop_app_path, expected_bundle_id,
    identity_arguments, launch_arguments, load_and_plan, plan_desktop, plan_json, record_from_desktop,
    record_matches_desktop, remote_app_path, require_desktop_app, require_expected_plan,
    ssh_preflight_arguments, validate_effective_ssh_config, FileKind, LaunchFacts, LaunchIdentity,
    LaunchPlan, PathFacts, PathOverrides, RuntimePaths,
};
use herdr_desktop_switcher::parse::{parse_str, KeybindingAuthority};
use herdr_desktop_switcher::registry::{validate_record, InstanceRecord, BUNDLE_ID};

const CONFIG: &str = r#"
version = 1
default = "local"
[desktops.local]
mode = "local"
label = "Local"
[desktops.devbox]
mode = "remote"
label = "Devbox"
target = "dev"
session = "devbox"
keybindings = "server"
"#;

fn paths() -> RuntimePaths {
    RuntimePaths {
        home: "/Users/tester".into(),
        app: "/Applications/Herdr.app".into(),
        command_shim: "/repo/scripts/herdr-desktop-command".into(),
        config: "/repo/desktops.toml".into(),
        launcher: "/bin/launcher".into(),
        real_herdr: "/bin/herdr".into(),
        ssh: "/usr/bin/ssh".into(),
        state_dir: "/state".into(),
        switcher_bin: "/bin/switcher".into(),
    }
}

fn has_pair(arguments: &[String], first: &str, second: &str) -> bool {
    arguments
        .windows(2)
        .any(|pair| pair[0] == first && pair[1] == second)
}

#[test]
fn plans_local_and_remote_argument_arrays() {
    let config = parse_str(CONFIG).expect("valid config");
    assert_eq!(
        plan_desktop(&config, "local").expect("local"),
        LaunchPlan::Local
    );
    assert!(matches!(
        plan_desktop(&config, "devbox").expect("remote"),
        LaunchPlan::Remote {
            target,
            session,
            keybindings: KeybindingAuthority::Server,
        } if target == "dev" && session == "devbox"
    ));
    let plan = plan_desktop(&config, "devbox").expect("remote plan");
    let encoded = plan_json(&plan);
    let decoded: serde_json::Value = serde_json::from_str(&encoded).expect("decode plan");
    assert_eq!(decoded["mode"], "remote");
    assert_eq!(decoded["target"], "dev");
    assert_eq!(decoded["session"], "devbox");
    assert_eq!(decoded["keybindings"], "server");
    assert_eq!(plan_json(&LaunchPlan::Local), "{\"mode\":\"local\"}");
}

#[test]
fn expected_bundle_ids_cover_local_and_remote_desktops() {
    let config = parse_str(CONFIG).expect("valid config");
    assert_eq!(
        expected_bundle_id(config.desktop("local").expect("local")),
        BUNDLE_ID
    );
    assert_eq!(
        expected_bundle_id(config.desktop("devbox").expect("devbox")),
        "com.gustavocaiano.herdr.devbox"
    );
}

#[test]
fn expected_bundle_ids_hyphenate_underscores_in_desktop_ids() {
    let source = r#"
version = 1
default = "local"
[desktops.local]
mode = "local"
label = "Local"
[desktops.dev_box]
mode = "remote"
label = "Dev Box"
target = "dev"
session = "devbox"
keybindings = "local"
"#;
    let config = parse_str(source).expect("valid config");
    assert_eq!(
        expected_bundle_id(config.desktop("dev_box").expect("dev_box")),
        "com.gustavocaiano.herdr.dev-box"
    );
}

#[test]
fn desktop_apps_resolve_per_mode_under_home_applications() {
    let config = parse_str(CONFIG).expect("valid config");
    let paths = paths();
    assert_eq!(
        desktop_app_path(&paths, config.desktop("local").expect("local")),
        "/Applications/Herdr.app"
    );
    assert_eq!(
        desktop_app_path(&paths, config.desktop("devbox").expect("devbox")),
        "/Users/tester/Applications/Devbox.app"
    );
    assert_eq!(
        remote_app_path("/Users/tester", "Herdr Builder"),
        "/Users/tester/Applications/Herdr Builder.app"
    );
}

#[test]
fn launch_arguments_carry_per_desktop_app_and_bundle_id() {
    let arguments = launch_arguments(
        &paths(),
        "devbox",
        "{\"mode\":\"remote\"}",
        "/Users/tester/Applications/Devbox.app",
        "com.gustavocaiano.herdr.devbox",
    );
    assert_eq!(arguments[0], "launch");
    assert!(has_pair(
        &arguments,
        "--app",
        "/Users/tester/Applications/Devbox.app"
    ));
    assert!(has_pair(
        &arguments,
        "--bundle-id",
        "com.gustavocaiano.herdr.devbox"
    ));
    assert!(has_pair(&arguments, "--desktop-id", "devbox"));
    assert!(has_pair(&arguments, "--expected-plan", "{\"mode\":\"remote\"}"));
}

/// What the launch helper's JSON holds, read the way the launcher reads it.
fn identity_from_json(text: &str) -> Result<LaunchIdentity, String> {
    let value: serde_json::Value = serde_json::from_str(text).map_err(|e| e.to_string())?;
    let number = |key: &str| value.get(key).and_then(serde_json::Value::as_i64);
    let text_of = |key: &str| value.get(key).and_then(serde_json::Value::as_str);
    match (
        number("pid"),
        number("launch_date_unix_ms"),
        text_of("bundle_id"),
        text_of("bundle_path"),
    ) {
        (Some(pid), Some(date), Some(bundle_id), Some(bundle_path)) => Ok(LaunchIdentity {
            pid: i32::try_from(pid).map_err(|e| e.to_string())?,
            launch_date_unix_ms: date,
            bundle_id: bundle_id.into(),
            bundle_path: bundle_path.into(),
        }),
        _ => Err("missing field".into()),
    }
}

#[test]
fn parses_only_expected_launch_identity() {
    let canonical = "/private/tmp/herdr-app";
    let json = format!(
        "{{\"pid\":42,\"launch_date_unix_ms\":99,\"bundle_id\":\"{BUNDLE_ID}\",\"bundle_path\":{canonical:?}}}"
    );
    let identity = identity_from_json(&json).expect("identity");
    assert_eq!(
        check_launch_identity(canonical, BUNDLE_ID, identity)
            .expect("identity")
            .pid,
        42
    );
    assert!(identity_from_json("{\"pid\":42}").is_err());

    let foreign = json.replace(&format!("\"{BUNDLE_ID}\""), "\"com.evil.app\"");
    let foreign = identity_from_json(&foreign).expect("foreign identity");
    assert!(check_launch_identity(canonical, BUNDLE_ID, foreign).is_err());

    let relocated = format!(
        "{{\"pid\":42,\"launch_date_unix_ms\":99,\"bundle_id\":\"{BUNDLE_ID}\",\"bundle_path\":\"/Applications/Elsewhere.app\"}}"
    );
    let relocated = identity_from_json(&relocated).expect("relocated identity");
    let error = check_launch_identity(canonical, BUNDLE_ID, relocated).expect_err("relocated");
    assert_eq!(
        error.message(),
        "helper returned bundle path \"/Applications/Elsewhere.app\", expected /private/tmp/herdr-app"
    );

    let devbox_id = "com.gustavocaiano.herdr.devbox";
    let remote_json = format!(
        "{{\"pid\":43,\"launch_date_unix_ms\":100,\"bundle_id\":\"{devbox_id}\",\"bundle_path\":{canonical:?}}}"
    );
    let remote = identity_from_json(&remote_json).expect("remote identity");
    assert_eq!(
        check_launch_identity(canonical, devbox_id, remote)
            .expect("per-desktop identity")
            .pid,
        43
    );
}

#[test]
fn identity_fields_must_be_positive_and_match_the_bundle() {
    let identity = LaunchIdentity {
        pid: 0,
        launch_date_unix_ms: 99,
        bundle_id: BUNDLE_ID.into(),
        bundle_path: "/Applications/Herdr.app".into(),
    };
    let error = check_launch_identity("/Applications/Herdr.app", BUNDLE_ID, identity)
        .expect_err("zero pid");
    assert_eq!(error.message(), "helper returned invalid app identity fields");
    let same_path_spelled_differently = LaunchIdentity {
        pid: 7,
        launch_date_unix_ms: 99,
        bundle_id: BUNDLE_ID.into(),
        bundle_path: "/Applications//Herdr.app/".into(),
    };
    assert!(check_launch_identity(
        "/Applications/Herdr.app",
        BUNDLE_ID,
        same_path_spelled_differently
    )
    .is_ok());
}

#[test]
fn configuration_drift_is_detected() {
    let config = parse_str(CONFIG).expect("valid config");
    let local = config.desktop("local").expect("local");
    let local_identity = LaunchIdentity {
        pid: 1,
        launch_date_unix_ms: 1,
        bundle_id: expected_bundle_id(local),
        bundle_path: "/Applications/Herdr.app".into(),
    };
    let local_record = record_from_desktop(local, local_identity);
    assert!(record_matches_desktop(
        &local_record,
        local,
        "/Applications/Herdr.app",
        BUNDLE_ID
    ));

    let devbox = config.desktop("devbox").expect("devbox");
    let devbox_id = expected_bundle_id(devbox);
    let identity = LaunchIdentity {
        pid: 1,
        launch_date_unix_ms: 1,
        bundle_id: devbox_id.clone(),
        bundle_path: "/Users/tester/Applications/Devbox.app".into(),
    };
    let mut record = record_from_desktop(devbox, identity);
    assert!(record_matches_desktop(
        &record,
        devbox,
        "/Users/tester/Applications/Devbox.app",
        &devbox_id
    ));
    record.session = Some("changed".into());
    assert!(!record_matches_desktop(
        &record,
        devbox,
        "/Users/tester/Applications/Devbox.app",
        &devbox_id
    ));
}

#[test]
fn legacy_shared_bundle_records_trigger_drift_for_remote_desktops() {
    let config = parse_str(CONFIG).expect("valid config");
    let devbox = config.desktop("devbox").expect("devbox");
    let identity = LaunchIdentity {
        pid: 1,
        launch_date_unix_ms: 1,
        bundle_id: BUNDLE_ID.into(),
        bundle_path: "/Applications/Herdr.app".into(),
    };
    let record = record_from_desktop(devbox, identity);
    assert!(!record_matches_desktop(
        &record,
        devbox,
        "/Users/tester/Applications/Devbox.app",
        "com.gustavocaiano.herdr.devbox"
    ));
}

#[test]
fn relocated_bundle_paths_trigger_drift() {
    let config = parse_str(CONFIG).expect("valid config");
    let devbox = config.desktop("devbox").expect("devbox");
    let identity = LaunchIdentity {
        pid: 1,
        launch_date_unix_ms: 1,
        bundle_id: "com.gustavocaiano.herdr.devbox".into(),
        bundle_path: "/Applications/Herdr.app".into(),
    };
    let record = record_from_desktop(devbox, identity);
    assert!(!record_matches_desktop(
        &record,
        devbox,
        "/Users/tester/Applications/Devbox.app",
        "com.gustavocaiano.herdr.devbox"
    ));
}

#[test]
fn records_carry_the_desktop_endpoint() {
    let config = parse_str(CONFIG).expect("valid config");
    let devbox = config.desktop("devbox").expect("devbox");
    let identity = LaunchIdentity {
        pid: 5,
        launch_date_unix_ms: 6,
        bundle_id: "com.gustavocaiano.herdr.devbox".into(),
        bundle_path: "/Users/tester/Applications/Devbox.app".into(),
    };
    let record = record_from_desktop(devbox, identity);
    assert_eq!(record.desktop_id, "devbox");
    assert_eq!(record.pid, 5);
    assert_eq!(record.launch_date_unix_ms, 6);
    assert_eq!(record.mode, "remote");
    assert_eq!(record.target.as_deref(), Some("dev"));
    assert_eq!(record.session.as_deref(), Some("devbox"));
    assert_eq!(record.keybindings.as_deref(), Some("server"));
}

#[test]
fn helper_arguments_include_recorded_identity() {
    let record = InstanceRecord {
        desktop_id: "local".into(),
        pid: 42,
        launch_date_unix_ms: 99,
        bundle_id: BUNDLE_ID.into(),
        bundle_path: "/Applications/Herdr.app".into(),
        mode: "local".into(),
        target: None,
        session: None,
        keybindings: None,
    };
    let arguments = identity_arguments("activate", &record);
    assert_eq!(arguments[0], "activate");
    assert!(has_pair(&arguments, "--pid", "42"));
    assert!(has_pair(&arguments, "--app", "/Applications/Herdr.app"));
    assert!(has_pair(&arguments, "--bundle-id", BUNDLE_ID));
    assert!(has_pair(&arguments, "--launch-date-unix-ms", "99"));
}

#[test]
fn ssh_preflight_arguments_are_bounded_and_noninteractive() {
    let arguments = vec![
        "BatchMode=yes",
        "StrictHostKeyChecking=yes",
        "ConnectTimeout=5",
        "ConnectionAttempts=1",
        "ServerAliveInterval=3",
        "ServerAliveCountMax=1",
    ];
    let rendered = format!("{:?}", ssh_preflight_arguments("dev"));
    for argument in arguments {
        assert!(rendered.contains(argument));
    }
    assert!(rendered.contains("dev"));
}

#[test]
fn effective_ssh_config_must_bound_the_real_herdr_transport() {
    let valid = b"batchmode yes\nstricthostkeychecking true\nconnectionattempts 1\nserveralivecountmax 1\nserveraliveinterval 3\nconnecttimeout 5\n";
    assert!(validate_effective_ssh_config("dev", valid).is_ok());

    for invalid in [
        b"batchmode no\nstricthostkeychecking true\nconnectionattempts 1\nserveralivecountmax 1\nserveraliveinterval 3\nconnecttimeout 5\n".as_slice(),
        b"batchmode yes\nstricthostkeychecking ask\nconnectionattempts 1\nserveralivecountmax 1\nserveraliveinterval 3\nconnecttimeout 5\n".as_slice(),
        b"batchmode yes\nstricthostkeychecking true\nconnectionattempts 1\nserveralivecountmax 1\nserveraliveinterval 3\nconnecttimeout none\n".as_slice(),
    ] {
        assert!(validate_effective_ssh_config("dev", invalid).is_err());
    }
}

#[test]
fn effective_ssh_config_rejects_non_utf8_output() {
    let error = validate_effective_ssh_config("dev", b"batchmode \xff\n").expect_err("non-UTF-8");
    assert_eq!(
        error.message(),
        "ssh -G returned non-UTF-8 configuration for \"dev\""
    );
}

#[test]
fn client_arguments_name_the_remote_endpoint() {
    assert!(client_arguments(&LaunchPlan::Local).is_empty());
    let remote = LaunchPlan::Remote {
        target: "dev".into(),
        session: "devbox".into(),
        keybindings: KeybindingAuthority::Local,
    };
    assert_eq!(
        client_arguments(&remote),
        vec![
            "--remote",
            "dev",
            "--session",
            "devbox",
            "--remote-keybindings",
            "local"
        ]
    );
    assert!(require_expected_plan("devbox", &remote, &remote).is_ok());
    let error = require_expected_plan("devbox", &LaunchPlan::Local, &remote).expect_err("drift");
    assert_eq!(
        error.message(),
        "desktop \"devbox\" changed after launch was requested; refusing to connect to an unverified endpoint"
    );
}

fn file(mode: u32) -> Result<PathFacts, String> {
    Ok(PathFacts {
        kind: FileKind::File,
        mode,
    })
}

#[test]
fn launch_paths_are_checked_in_order() {
    let paths = paths();
    let facts = LaunchFacts {
        config: file(0o644),
        command_shim: file(0o755),
        launcher: file(0o755),
        real_herdr: file(0o755),
        switcher_bin: file(0o755),
    };
    assert!(paths.validate_for_launch(&facts).is_ok());

    let facts = LaunchFacts {
        config: file(0o644),
        command_shim: file(0o644),
        launcher: Err("No such file or directory (os error 2)".into()),
        real_herdr: file(0o755),
        switcher_bin: file(0o755),
    };
    let error = paths.validate_for_launch(&facts).expect_err("shim not executable");
    assert_eq!(
        error.message(),
        "desktop command shim is not executable: /repo/scripts/herdr-desktop-command"
    );

    let facts = LaunchFacts {
        config: file(0o644),
        command_shim: file(0o755),
        launcher: Err("No such file or directory (os error 2)".into()),
        real_herdr: file(0o755),
        switcher_bin: file(0o755),
    };
    let error = paths.validate_for_launch(&facts).expect_err("launcher missing");
    assert_eq!(
        error.message(),
        "could not inspect desktop launch helper /bin/launcher: No such file or directory (os error 2)"
    );

    let mut relative = paths.clone();
    relative.home = "Users/tester".into();
    let facts = LaunchFacts {
        config: Ok(PathFacts {
            kind: FileKind::Directory,
            mode: 0o755,
        }),
        command_shim: file(0o755),
        launcher: file(0o755),
        real_herdr: file(0o755),
        switcher_bin: file(0o755),
    };
    let error = relative.validate_for_launch(&facts).expect_err("relative home");
    assert_eq!(
        error.message(),
        "home directory path must be absolute: Users/tester"
    );
    let error = paths.validate_for_launch(&facts).expect_err("config is a directory");
    assert_eq!(
        error.message(),
        "desktop configuration is not a file: /repo/desktops.toml"
    );
}

#[test]
fn client_paths_need_the_config_and_an_executable_herdr() {
    let paths = paths();
    assert!(paths.validate_for_client(&file(0o600), &file(0o700)).is_ok());
    let error = paths
        .validate_for_client(&file(0o600), &file(0o600))
        .expect_err("not executable");
    assert_eq!(error.message(), "Herdr binary is not executable: /bin/herdr");
}

#[test]
fn missing_desktop_apps_say_how_to_create_them() {
    let config = parse_str(CONFIG).expect("valid config");
    let devbox = config.desktop("devbox").expect("devbox");
    let local = config.desktop("local").expect("local");
    let directory = Ok(PathFacts {
        kind: FileKind::Directory,
        mode: 0o755,
    });
    assert!(require_desktop_app("devbox", &devbox.mode, "/Users/tester/Applications/Devbox.app", &directory).is_ok());
    let error = require_desktop_app(
        "devbox",
        &devbox.mode,
        "/Users/tester/Applications/Devbox.app",
        &Err("No such file or directory (os error 2)".into()),
    )
    .expect_err("missing app");
    assert_eq!(
        error.message(),
        "desktop \"devbox\" app is missing at /Users/tester/Applications/Devbox.app; create it with ~/.config/herd/scripts/sync-desktop-apps.sh"
    );
    let error = require_desktop_app("local", &local.mode, "/Applications/Herdr.app", &file(0o644))
        .expect_err("not a directory");
    assert_eq!(error.message(), "Herdr app is not a directory: /Applications/Herdr.app");
}

#[test]
fn load_and_plan_reports_each_failure() {
    let paths = paths();
    assert_eq!(
        load_and_plan(&paths, &file(0o644), Ok(CONFIG.into()), "local").expect("plan"),
        LaunchPlan::Local
    );
    let error = load_and_plan(
        &paths,
        &file(0o644),
        Err("permission denied".into()),
        "local",
    )
    .expect_err("unreadable");
    assert_eq!(
        error.message(),
        "could not read /repo/desktops.toml: permission denied"
    );
    let error = load_and_plan(&paths, &file(0o644), Ok(CONFIG.into()), "missing")
        .expect_err("undefined");
    assert_eq!(error.message(), "desktop \"missing\" is not defined");
    let error = load_and_plan(&paths, &file(0o644), Ok("version = [".into()), "local")
        .expect_err("bad TOML");
    assert!(error.message().starts_with("invalid TOML in /repo/desktops.toml: "));
}

fn no_overrides() -> PathOverrides {
    PathOverrides {
        app: None,
        command_shim: None,
        config: None,
        launcher: None,
        real_herdr: None,
        ssh: None,
        state_dir: None,
    }
}

#[test]
fn runtime_paths_default_under_home_and_the_repository() {
    let paths = RuntimePaths::from_parts(
        Some("/Users/tester".into()),
        "/repo",
        Ok("/bin/switcher".into()),
        &no_overrides(),
    )
    .expect("paths");
    assert_eq!(paths.app, "/Users/tester/Applications/Herdr.app");
    assert_eq!(paths.command_shim, "/repo/scripts/herdr-desktop-command");
    assert_eq!(paths.config, "/repo/desktops.toml");
    assert_eq!(paths.launcher, "/Users/tester/.local/bin/herdr-desktop-launch");
    assert_eq!(paths.real_herdr, "/Users/tester/.local/bin/herdr");
    assert_eq!(paths.ssh, "/usr/bin/ssh");
    assert_eq!(paths.state_dir, "/Users/tester/.local/state/herdr-desktop-switcher");
    assert_eq!(paths.switcher_bin, "/bin/switcher");

    let mut overrides = no_overrides();
    overrides.state_dir = Some("/tmp/state".into());
    let paths = RuntimePaths::from_parts(
        Some("/Users/tester".into()),
        "/repo",
        Ok("/bin/switcher".into()),
        &overrides,
    )
    .expect("paths");
    assert_eq!(paths.state_dir, "/tmp/state");

    let error = RuntimePaths::from_parts(None, "/repo", Ok("/bin/switcher".into()), &overrides)
        .expect_err("no home");
    assert_eq!(error.message(), "HOME is not set");
    let error = RuntimePaths::from_parts(
        Some("/Users/tester".into()),
        "/repo",
        Err("gone".into()),
        &overrides,
    )
    .expect_err("no executable");
    assert_eq!(error.message(), "could not determine switcher executable: gone");
}

#[test]
fn recorded_launches_are_valid_records() {
    let config = parse_str(CONFIG).expect("valid config");
    let devbox = config.desktop("devbox").expect("devbox");
    let identity = LaunchIdentity {
        pid: 12,
        launch_date_unix_ms: 34,
        bundle_id: expected_bundle_id(devbox),
        bundle_path: "/Users/tester/Applications/Devbox.app".into(),
    };
    let checked = check_launch_identity("/Users/tester/Applications/Devbox.app", &expected_bundle_id(devbox), identity)
        .expect("checked identity");
    let record = record_from_desktop(devbox, checked);
    assert!(validate_record(&record).is_ok());
    assert!(record_matches_desktop(
        &record,
        devbox,
        "/Users/tester/Applications/Devbox.app",
        "com.gustavocaiano.herdr.devbox"
    ));
}

#[test]
fn remote_desktops_get_their_own_apps() {
    let source = r#"
version = 1
default = "one"
[desktops.one]
mode = "remote"
label = "Same"
app_name = "First"
target = "dev"
session = "a"
keybindings = "local"
[desktops.two]
mode = "remote"
label = "Same"
target = "dev"
session = "b"
keybindings = "local"
"#;
    let config = parse_str(source).expect("valid config");
    let paths = paths();
    let one = desktop_app_path(&paths, config.desktop("one").expect("one"));
    let two = desktop_app_path(&paths, config.desktop("two").expect("two"));
    assert_eq!(one, "/Users/tester/Applications/First.app");
    assert_eq!(two, "/Users/tester/Applications/Same.app");
    assert_ne!(one, two);
}

#[test]
fn plan_json_escapes_strings_as_json_does() {
    let plan = LaunchPlan::Remote {
        target: "a\"b\\c\n\u{1}\u{7f}é".into(),
        session: "tab\there".into(),
        keybindings: KeybindingAuthority::Local,
    };
    assert_eq!(
        plan_json(&plan),
        "{\"mode\":\"remote\",\"target\":\"a\\\"b\\\\c\\n\\u0001\u{7f}é\",\"session\":\"tab\\there\",\"keybindings\":\"local\"}"
    );
}

#[test]
fn identity_paths_compare_by_components() {
    let identity = |path: &str| LaunchIdentity {
        pid: 42,
        launch_date_unix_ms: 99,
        bundle_id: BUNDLE_ID.into(),
        bundle_path: path.into(),
    };
    for same in ["/Applications/Herdr.app/", "/Applications//Herdr.app", "/Applications/./Herdr.app"] {
        assert!(check_launch_identity("/Applications/Herdr.app", BUNDLE_ID, identity(same)).is_ok(), "{same}");
    }
    for other in ["Applications/Herdr.app", "/Applications/../Applications/Herdr.app", "./Applications/Herdr.app"] {
        assert!(check_launch_identity("/Applications/Herdr.app", BUNDLE_ID, identity(other)).is_err(), "{other}");
    }
}
