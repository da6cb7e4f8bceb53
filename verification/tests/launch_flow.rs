use herdr_desktop_switcher::launch::{
    expected_bundle_id, record_from_desktop, CommandFailure, LaunchIdentity, LaunchOutcome,
    LaunchPlan, RuntimePaths,
};
use herdr_desktop_switcher::launch_flow::{
    prepare_launch, LaunchAction, LaunchEvent, LaunchFlow, LaunchStage,
};
use herdr_desktop_switcher::parse::parse_str;
use herdr_desktop_switcher::registry::InstanceRecord;

const CONFIG: &str = r#"
version = 1
default = "local"
[desktops.local]
mode = "local"
label = "Local"
[desktops.devbox]
mode = "remote"
label = "Devbox"
target = "dev"
session = "devbox"
keybindings = "server"
"#;

const LOCAL_APP: &str = "/Applications/Herdr.app";

fn flow_for(id: &str, app: &str) -> LaunchFlow {
    let config = parse_str(CONFIG).expect("valid config");
    let desktop = config.desktop(id).expect("desktop").clone();
    let bundle_id = expected_bundle_id(&desktop);
    LaunchFlow::new(id, desktop, app.into(), bundle_id, "/state")
}

fn step(flow: &mut LaunchFlow, event: LaunchEvent) -> LaunchAction {
    assert!(flow.accepts(&event), "event out of order");
    flow.step(event)
}

fn local_record(pid: i32) -> InstanceRecord {
    let config = parse_str(CONFIG).expect("valid config");
    let local = config.desktop("local").expect("local");
    record_from_desktop(
        local,
        LaunchIdentity {
            pid,
            launch_date_unix_ms: 7,
            bundle_id: expected_bundle_id(local),
            bundle_path: LOCAL_APP.into(),
        },
    )
}

fn error_of(action: LaunchAction) -> String {
    match action {
        LaunchAction::Finish(Err(error)) => error.message(),
        other => panic!("expected an error, got {other:?}"),
    }
}

#[test]
fn a_running_matching_client_is_focused() {
    let mut flow = flow_for("local", LOCAL_APP);
    let action = step(
        &mut flow,
        LaunchEvent::Inspected {
            was_pending: false,
            live: Some(local_record(42)),
        },
    );
    assert!(matches!(action, LaunchAction::Activate(ref r) if r.pid == 42));
    let action = step(&mut flow, LaunchEvent::Helper(Ok(())));
    assert!(matches!(
        action,
        LaunchAction::Finish(Ok(LaunchOutcome::Focused { pid: 42 }))
    ));
}

#[test]
fn focusing_clears_a_leftover_marker_first() {
    let mut flow = flow_for("local", LOCAL_APP);
    step(
        &mut flow,
        LaunchEvent::Inspected {
            was_pending: true,
            live: Some(local_record(42)),
        },
    );
    let action = step(&mut flow, LaunchEvent::Helper(Ok(())));
    assert!(matches!(action, LaunchAction::ClearPending));
    let action = step(&mut flow, LaunchEvent::Step(Ok(())));
    assert!(matches!(
        action,
        LaunchAction::Finish(Ok(LaunchOutcome::Focused { pid: 42 }))
    ));
}

#[test]
fn a_changed_configuration_is_refused_while_the_old_client_runs() {
    let mut flow = flow_for("local", "/Applications/Other.app");
    let action = step(
        &mut flow,
        LaunchEvent::Inspected {
            was_pending: false,
            live: Some(local_record(42)),
        },
    );
    assert_eq!(
        error_of(action),
        "desktop \"local\" configuration changed while pid 42 is still open; close the old client before launching the new endpoint"
    );
    assert!(matches!(flow.stage, LaunchStage::Done));
}

#[test]
fn a_pending_marker_without_a_record_blocks_the_launch() {
    let mut flow = flow_for("local", LOCAL_APP);
    let action = step(
        &mut flow,
        LaunchEvent::Inspected {
            was_pending: true,
            live: None,
        },
    );
    assert_eq!(
        error_of(action),
        "desktop \"local\" has an unresolved previous launch without a verifiable registry record; inspect /state/local.pending before retrying"
    );
}

#[test]
fn a_gone_client_is_forgotten_and_relaunched() {
    let mut flow = flow_for("local", LOCAL_APP);
    step(
        &mut flow,
        LaunchEvent::Inspected {
            was_pending: false,
            live: Some(local_record(42)),
        },
    );
    let gone = CommandFailure::Exit {
        code: Some(65),
        stderr: "no such process".into(),
    };
    assert!(matches!(
        step(&mut flow, LaunchEvent::Helper(Err(gone))),
        LaunchAction::RemoveRecord
    ));
    assert!(matches!(
        step(&mut flow, LaunchEvent::Step(Ok(()))),
        LaunchAction::MarkPending
    ));
    assert!(matches!(
        step(&mut flow, LaunchEvent::Step(Ok(()))),
        LaunchAction::RunLauncher
    ));
    let identity = LaunchIdentity {
        pid: 43,
        launch_date_unix_ms: 9,
        bundle_id: "com.gustavocaiano.herdr".into(),
        bundle_path: LOCAL_APP.into(),
    };
    let action = step(&mut flow, LaunchEvent::Launcher(Ok(Ok(identity))));
    assert!(matches!(action, LaunchAction::WriteRecord(ref r) if r.pid == 43 && r.mode == "local"));
    assert!(matches!(
        step(&mut flow, LaunchEvent::Step(Ok(()))),
        LaunchAction::ClearPending
    ));
    assert!(matches!(
        step(&mut flow, LaunchEvent::Step(Ok(()))),
        LaunchAction::Finish(Ok(LaunchOutcome::Launched { pid: 43 }))
    ));
}

#[test]
fn remote_desktops_are_preflighted_before_the_marker() {
    let mut flow = flow_for("devbox", "/Users/tester/Applications/Devbox.app");
    let action = step(
        &mut flow,
        LaunchEvent::Inspected {
            was_pending: false,
            live: None,
        },
    );
    assert!(matches!(action, LaunchAction::Preflight(ref target) if target == "dev"));
    let action = step(
        &mut flow,
        LaunchEvent::Step(Err("remote desktop target \"dev\" failed".into())),
    );
    assert_eq!(error_of(action), "remote desktop target \"dev\" failed");
}

#[test]
fn an_unknown_launch_outcome_keeps_the_marker() {
    let mut flow = flow_for("local", LOCAL_APP);
    step(
        &mut flow,
        LaunchEvent::Inspected {
            was_pending: false,
            live: None,
        },
    );
    step(&mut flow, LaunchEvent::Step(Ok(())));
    let action = step(&mut flow, LaunchEvent::Launcher(Err(CommandFailure::Timeout)));
    assert_eq!(
        error_of(action),
        "desktop \"local\" launch failed; outcome is unknown and retries are blocked: command timed out"
    );
}

#[test]
fn a_failed_start_clears_the_marker() {
    let mut flow = flow_for("local", LOCAL_APP);
    step(
        &mut flow,
        LaunchEvent::Inspected {
            was_pending: false,
            live: None,
        },
    );
    step(&mut flow, LaunchEvent::Step(Ok(())));
    let failure = CommandFailure::Start("could not start /bin/launcher: not found".into());
    assert!(matches!(
        step(&mut flow, LaunchEvent::Launcher(Err(failure))),
        LaunchAction::ClearPending
    ));
    let action = step(&mut flow, LaunchEvent::Step(Ok(())));
    assert_eq!(
        error_of(action),
        "desktop \"local\" launch failed: could not start /bin/launcher: not found"
    );
}

#[test]
fn an_untrusted_identity_keeps_retries_blocked() {
    let mut flow = flow_for("local", LOCAL_APP);
    step(
        &mut flow,
        LaunchEvent::Inspected {
            was_pending: false,
            live: None,
        },
    );
    step(&mut flow, LaunchEvent::Step(Ok(())));
    let identity = LaunchIdentity {
        pid: 43,
        launch_date_unix_ms: 9,
        bundle_id: "com.evil.app".into(),
        bundle_path: LOCAL_APP.into(),
    };
    let action = step(&mut flow, LaunchEvent::Launcher(Ok(Ok(identity))));
    assert_eq!(
        error_of(action),
        "desktop \"local\" may be running but returned untrusted identity; retries remain blocked: helper returned invalid app identity fields"
    );
}

#[test]
fn an_unrecorded_client_is_terminated() {
    let mut flow = flow_for("local", LOCAL_APP);
    step(
        &mut flow,
        LaunchEvent::Inspected {
            was_pending: false,
            live: None,
        },
    );
    step(&mut flow, LaunchEvent::Step(Ok(())));
    let identity = LaunchIdentity {
        pid: 43,
        launch_date_unix_ms: 9,
        bundle_id: "com.gustavocaiano.herdr".into(),
        bundle_path: LOCAL_APP.into(),
    };
    step(&mut flow, LaunchEvent::Launcher(Ok(Ok(identity))));
    let action = step(&mut flow, LaunchEvent::Step(Err("disk full".into())));
    assert!(matches!(action, LaunchAction::Terminate(ref r) if r.pid == 43));
    let action = step(
        &mut flow,
        LaunchEvent::Helper(Err(CommandFailure::Exit {
            code: Some(1),
            stderr: String::new(),
        })),
    );
    assert_eq!(
        error_of(action),
        "could not record desktop \"local\" and could not verify cleanup; retries remain blocked: disk full; cleanup: command exited with 1"
    );
}

#[test]
fn prepared_launches_carry_the_plan_as_json() {
    let config = parse_str(CONFIG).expect("valid config");
    let paths = RuntimePaths {
        home: "/Users/tester".into(),
        app: LOCAL_APP.into(),
        command_shim: "/c".into(),
        config: "/d".into(),
        launcher: "/l".into(),
        real_herdr: "/r".into(),
        ssh: "/s".into(),
        state_dir: "/state".into(),
        switcher_bin: "/w".into(),
    };
    let target = prepare_launch(&paths, &config, "devbox").expect("target");
    assert_eq!(target.app, "/Users/tester/Applications/Devbox.app");
    assert_eq!(target.bundle_id, "com.gustavocaiano.herdr.devbox");
    assert!(matches!(target.plan, LaunchPlan::Remote { .. }));
    assert_eq!(
        target.expected_plan,
        "{\"mode\":\"remote\",\"target\":\"dev\",\"session\":\"devbox\",\"keybindings\":\"server\"}"
    );
    let error = prepare_launch(&paths, &config, "nope").expect_err("undefined");
    assert_eq!(error.message(), "desktop \"nope\" is not defined");
}
