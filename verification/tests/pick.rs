use herdr_desktop_switcher::launch::{LaunchOutcome, RuntimePaths};
use herdr_desktop_switcher::parse::parse_str;
use herdr_desktop_switcher::pick::{
    build_rows, header_text, opening_state, outcome_copy, outcome_detail, picker, plain_text,
    popup_dimensions, popup_environment, preferred_label_width, render_row_text, sanitize_text,
    screen_text, truncate_to_width, viewport_capacity, wrap_text, DesktopStatus, Key, KeyDecoder,
    KeyInput, KeyStep, Notice, PickerCommand, PickerRow, PickerStart, PickerState, TerminalSize,
};
use herdr_desktop_switcher::registry::InstanceRecord;

const CONFIG: &str = r#"
version = 1
default = "devbox"
[desktops.local]
mode = "local"
label = "Local"
[desktops.devbox]
mode = "remote"
label = "Devbox with a very long display label"
target = "dev"
session = "development"
keybindings = "local"
"#;

fn live() -> Vec<InstanceRecord> {
    vec![InstanceRecord {
        desktop_id: "local".into(),
        pid: 42,
        launch_date_unix_ms: 1,
        bundle_id: "com.gustavocaiano.herdr".into(),
        bundle_path: "/Applications/Herdr.app".into(),
        mode: "local".into(),
        target: None,
        session: None,
        keybindings: None,
    }]
}

fn rows() -> Vec<PickerRow> {
    let config = parse_str(CONFIG).expect("valid config");
    build_rows(&config, &live())
}

#[test]
fn rows_put_default_first_and_use_registry_status_only() {
    let rows = rows();
    assert_eq!(rows[0].id, "devbox");
    assert_eq!(rows[0].kind, "Remote");
    assert_eq!(rows[0].detail, "dev / development");
    assert_eq!(rows[0].status, DesktopStatus::Unknown);
    assert_eq!(rows[1].id, "local");
    assert_eq!(rows[1].kind, "Local");
    assert_eq!(rows[1].status, DesktopStatus::Running);
}

#[test]
fn truncation_and_rows_respect_terminal_cell_width() {
    assert_eq!(truncate_to_width("Desktop alpha", 8), "Desktop…");
    assert_eq!(truncate_to_width("界面 desktop", 6), "界面 …");
    for width in [20, 40, 64] {
        let text = render_row_text(&rows()[0], true, width, 20);
        assert!(unicode_width::UnicodeWidthStr::width(text.as_str()) <= width);
        if width >= 20 {
            assert!(text.contains("Unknown"));
        }
    }
}

#[test]
fn truncation_edges() {
    assert_eq!(truncate_to_width("short", 5), "short");
    assert_eq!(truncate_to_width("longer", 0), "");
    assert_eq!(truncate_to_width("longer", 1), "…");
}

#[test]
fn row_layouts_follow_the_width() {
    let rows = rows();
    assert_eq!(render_row_text(&rows[1], false, 11, 10), "  Local");
    assert_eq!(render_row_text(&rows[1], true, 20, 10), "> Local      Running");
    assert_eq!(
        render_row_text(&rows[1], false, 40, 10),
        "  Local                  Local   Running"
    );
    assert_eq!(
        render_row_text(&rows[1], false, 60, 10),
        "  Local       Local   This Mac                       Running"
    );
    assert_eq!(
        header_text(60, 10),
        "  DESKTOP     TYPE    TARGET / SESSION               STATUS "
    );
    assert_eq!(preferred_label_width(&rows), 20);
    assert_eq!(preferred_label_width(&[]), 10);
}

#[test]
fn viewport_keeps_at_least_one_row() {
    assert_eq!(viewport_capacity(0), 1);
    assert_eq!(viewport_capacity(12), 1);
    assert_eq!(viewport_capacity(20), 9);
}

#[test]
fn wrapped_text_fills_lines_and_folds_the_rest_into_the_last() {
    assert_eq!(wrap_text("aaa bbb ccc", 5, 3), vec!["aaa", "bbb", "ccc …"]);
    assert_eq!(wrap_text("hello", 10, 2), vec!["hello hel…"]);
    assert_eq!(wrap_text("abcdefgh", 4, 2), vec!["abc…"]);
    assert!(wrap_text("", 10, 2).is_empty());
    assert!(wrap_text("text", 0, 2).is_empty());
}

#[test]
fn navigation_wraps_and_keeps_errors_visible() {
    let mut state = PickerState::new(rows());
    state.apply_launch_error("launcher configuration is incomplete");
    let notice = state.notice.clone();
    state.move_up();
    assert_eq!(state.selected, 1);
    assert_eq!(state.notice, notice);
    state.move_down();
    assert_eq!(state.selected, 0);
    assert_eq!(state.notice, notice);
}

#[test]
fn selection_stays_in_view() {
    let mut state = PickerState::new(rows());
    state.selected = 1;
    state.ensure_selected_visible(1);
    assert_eq!(state.offset, 1);
    state.selected = 0;
    state.ensure_selected_visible(1);
    assert_eq!(state.offset, 0);
}

#[test]
fn only_clear_remote_failures_transition_to_offline() {
    let mut state = PickerState::new(rows());
    state.apply_launch_error(
        "remote desktop target \"dev\" failed bounded non-interactive SSH preflight: connection refused",
    );
    assert_eq!(state.rows[0].status, DesktopStatus::Offline);
    assert!(matches!(state.notice, Some(Notice::Error { .. })));

    state.apply_launch_error("desktop launch helper is missing");
    assert_eq!(state.rows[0].status, DesktopStatus::Unknown);
    assert!(matches!(state.notice, Some(Notice::Error { .. })));
}

#[test]
fn outcome_copy_is_truthful_and_marks_running() {
    let launched = LaunchOutcome::Launched { pid: 10 };
    let focused = LaunchOutcome::Focused { pid: 11 };
    assert_eq!(outcome_copy(&launched), "Launched");
    assert_eq!(outcome_copy(&focused), "Focused");
    assert_eq!(
        outcome_detail(&launched, "Devbox"),
        "Herdr client launched for Devbox."
    );
    assert_eq!(
        outcome_detail(&focused, "Devbox"),
        "Existing Herdr client focused for Devbox."
    );

    let mut state = PickerState::new(rows());
    state.apply_outcome(&focused);
    assert_eq!(state.rows[0].status, DesktopStatus::Running);
    assert!(matches!(
        state.notice,
        Some(Notice::Outcome { ref title, .. }) if title == "Focused"
    ));
}

#[test]
fn error_copy_removes_terminal_controls_but_persists_the_message() {
    let mut state = PickerState::new(rows());
    state.apply_launch_error("Host key failed\n\x1b[31mcheck ~/.ssh/config");
    assert!(matches!(
        state.notice,
        Some(Notice::Error { ref detail, .. })
            if detail == "Host key failed [31mcheck ~/.ssh/config"
    ));
}

#[test]
fn sanitizing_squeezes_whitespace_and_controls() {
    assert_eq!(sanitize_text("  a \t\n b\x07c  "), "a b c");
    assert_eq!(sanitize_text(""), "");
    assert!(!sanitize_text("a\x1b[31m\nb\u{7f}").chars().any(char::is_control));
}

#[test]
fn starting_a_launch_shows_a_busy_notice() {
    let mut state = PickerState::new(rows());
    state.start_launch();
    assert!(matches!(
        state.notice,
        Some(Notice::Busy { ref title }) if title.contains("Devbox")
    ));
}

#[test]
fn keys_decode_from_bytes_and_escape_sequences() {
    let mut decoder = KeyDecoder::new();
    assert_eq!(decoder.feed(KeyInput::Byte(b'\r')), KeyStep::Done(Key::Enter));
    assert_eq!(decoder.feed(KeyInput::Byte(b'q')), KeyStep::Done(Key::Cancel));
    assert_eq!(decoder.feed(KeyInput::Byte(b'k')), KeyStep::Done(Key::Up));
    assert_eq!(decoder.feed(KeyInput::Byte(b'j')), KeyStep::Done(Key::Down));
    assert_eq!(decoder.feed(KeyInput::Byte(b'x')), KeyStep::Done(Key::Other));

    assert_eq!(decoder.feed(KeyInput::Byte(27)), KeyStep::ReadWithin(300));
    assert_eq!(decoder.feed(KeyInput::Quiet), KeyStep::Done(Key::Cancel));

    assert_eq!(decoder.feed(KeyInput::Byte(27)), KeyStep::ReadWithin(300));
    assert_eq!(decoder.feed(KeyInput::Byte(b'[')), KeyStep::ReadWithin(60));
    assert_eq!(decoder.feed(KeyInput::Byte(b'A')), KeyStep::Done(Key::Up));

    assert_eq!(decoder.feed(KeyInput::Byte(27)), KeyStep::ReadWithin(300));
    assert_eq!(decoder.feed(KeyInput::Byte(b'O')), KeyStep::ReadWithin(60));
    assert_eq!(decoder.feed(KeyInput::Byte(b'B')), KeyStep::Done(Key::Down));

    let mut click = Vec::new();
    for byte in b"\x1b[<0;12;9M" {
        click.push(decoder.feed(KeyInput::Byte(*byte)));
    }
    assert_eq!(click.last(), Some(&KeyStep::Done(Key::Click { y: 9 })));
    let mut wheel = Vec::new();
    for byte in b"\x1b[<65;1;1M" {
        wheel.push(decoder.feed(KeyInput::Byte(*byte)));
    }
    assert_eq!(wheel.last(), Some(&KeyStep::Done(Key::Down)));
    let mut release = Vec::new();
    for byte in b"\x1b[<0;12;9m" {
        release.push(decoder.feed(KeyInput::Byte(*byte)));
    }
    assert_eq!(release.last(), Some(&KeyStep::Done(Key::Other)));
}

#[test]
fn keys_move_select_and_open_rows() {
    let mut state = PickerState::new(rows());
    assert_eq!(state.handle_key(Key::Down, 5), PickerCommand::Redraw);
    assert_eq!(state.selected, 1);
    assert_eq!(state.handle_key(Key::Up, 5), PickerCommand::Redraw);
    assert_eq!(state.selected, 0);
    assert_eq!(state.handle_key(Key::Enter, 5), PickerCommand::Launch);
    assert_eq!(state.handle_key(Key::Click { y: 8 }, 5), PickerCommand::Launch);
    assert_eq!(state.selected, 1);
    assert_eq!(state.handle_key(Key::Click { y: 3 }, 5), PickerCommand::Redraw);
    assert_eq!(state.handle_key(Key::Click { y: 9 }, 5), PickerCommand::Redraw);
    assert_eq!(state.selected, 1);
    assert_eq!(state.handle_key(Key::Resize, 5), PickerCommand::Redraw);
    assert_eq!(state.handle_key(Key::Cancel, 5), PickerCommand::Quit);

    let mut empty = PickerState::new(Vec::new());
    assert_eq!(empty.handle_key(Key::Enter, 5), PickerCommand::Redraw);
}

#[test]
fn the_picker_opens_with_rows_or_an_error_notice() {
    let config = parse_str(CONFIG).map_err(|e| e.message());
    let state = opening_state(&config, &Ok(live()));
    assert_eq!(state.rows.len(), 2);
    assert!(state.notice.is_none());

    let state = opening_state(&config, &Err("registry path /s must be a real directory".into()));
    assert_eq!(state.rows[1].status, DesktopStatus::Unknown);
    assert!(matches!(
        state.notice,
        Some(Notice::Error { ref title, ref detail })
            if title == "Running status unavailable" && detail == "registry path /s must be a real directory"
    ));

    let state = opening_state(&Err("could not read /c: gone".into()), &Ok(live()));
    assert!(state.rows.is_empty());
    assert!(matches!(
        state.notice,
        Some(Notice::Error { ref title, .. }) if title == "Desktop list unavailable"
    ));

    match picker(&config, &Ok(live()), false) {
        PickerStart::Plain { text, error } => {
            assert_eq!(error, "picker requires an interactive terminal");
            assert_eq!(
                text,
                "Open a Herdr desktop\nRunning clients are focused; others are launched.\nDevbox with a very long display label\tRemote\tdev / development\tUnknown\nLocal\tLocal\tThis Mac\tRunning\n"
            );
        }
        PickerStart::Interactive(_) => panic!("not a terminal"),
    }
    assert!(matches!(
        picker(&config, &Ok(live()), true),
        PickerStart::Interactive(_)
    ));
}

#[test]
fn plain_text_lists_rows_and_the_notice() {
    let mut state = PickerState::new(rows());
    state.set_system_error("Oops", "bad\nthing");
    assert!(plain_text(&state).ends_with("Oops: bad thing\n"));
}

#[test]
fn screens_draw_the_list_at_the_first_row() {
    let state = PickerState::new(rows());
    let screen = screen_text(&state, TerminalSize { cols: 60, rows: 20 }, false);
    assert!(screen.contains("\x1b[7;1H    > Devbox"));
    assert!(screen.contains("\x1b[8;1H    "));
    assert!(screen.contains("Local"));
    assert!(!screen.contains("\x1b[1m"));
}

#[test]
fn popup_size_follows_the_desktops() {
    let config = parse_str(CONFIG).expect("valid config");
    assert_eq!(popup_dimensions(None), (72, 15));
    assert_eq!(popup_dimensions(Some(&config)), (86, 15));
}

#[test]
fn popup_environment_names_every_runtime_path() {
    let paths = RuntimePaths {
        home: "/h".into(),
        app: "/a".into(),
        command_shim: "/c".into(),
        config: "/d".into(),
        launcher: "/l".into(),
        real_herdr: "/r".into(),
        ssh: "/s".into(),
        state_dir: "/t".into(),
        switcher_bin: "/w".into(),
    };
    let env = popup_environment(&paths);
    assert_eq!(env.len(), 7);
    assert_eq!(env[0], ("HERDR_APP_PATH", "/a".to_string()));
    assert_eq!(env[6], ("HERDR_DESKTOP_STATE_DIR", "/t".to_string()));
}
