use herdr_desktop_switcher::parse::{load_from, parse_str, ConfigError, DesktopMode, KeybindingAuthority};

const VALID: &str = r#"
version = 1
default = "local"

[desktops.local]
mode = "local"
label = "Local"

[desktops.devbox]
mode = "remote"
label = "Devbox"
target = "developer@dev.example.com"
session = "devbox"
keybindings = "local"

[desktops.builder]
mode = "remote"
label = "Builder"
app_name = "Herdr Builder"
target = "builder@build.example.com"
session = "builder"
keybindings = "server"
"#;

fn error(source: &str) -> String {
    parse_str(source)
        .expect_err("configuration should fail")
        .message()
}

fn one_desktop(body: &str) -> String {
    format!("version = 1\ndefault = \"local\"\n\n[desktops.local]\n{body}\n")
}

#[test]
fn parses_valid_local_and_remote_desktops() {
    let config = parse_str(VALID).expect("valid configuration");
    assert_eq!(config.version, 1);
    assert_eq!(config.default, "local");
    assert_eq!(config.desktops.len(), 3);
    assert!(matches!(
        config.desktop("local").map(|desktop| &desktop.mode),
        Some(DesktopMode::Local)
    ));
    assert!(matches!(
        config.desktop("devbox").map(|desktop| &desktop.mode),
        Some(DesktopMode::Remote {
            target,
            session,
            app_name,
            keybindings: KeybindingAuthority::Local,
        }) if target == "developer@dev.example.com"
            && session == "devbox"
            && app_name == "Devbox"
    ));
    assert!(matches!(
        config.desktop("builder").map(|desktop| &desktop.mode),
        Some(DesktopMode::Remote {
            app_name,
            keybindings: KeybindingAuthority::Server,
            ..
        }) if app_name == "Herdr Builder"
    ));
}

#[test]
fn parses_more_than_five_remotes_deterministically() {
    let mut source = String::from("version = 1\ndefault = \"local\"\n");
    source.push_str("[desktops.local]\nmode = \"local\"\nlabel = \"Local\"\n");
    for index in 0..6 {
        source.push_str(&format!(
            "[desktops.remote{index}]\nmode = \"remote\"\nlabel = \"Remote {index}\"\ntarget = \"remote{index}\"\nsession = \"session{index}\"\nkeybindings = \"server\"\n"
        ));
    }
    let config = parse_str(&source).expect("valid multi-remote configuration");
    assert_eq!(config.desktops.len(), 7);
    assert_eq!(
        config.desktops.first().map(|desktop| desktop.id.as_str()),
        Some("local")
    );
}

#[test]
fn rejects_missing_top_level_fields() {
    assert!(
        error("default = \"local\"\n[desktops.local]\nmode = \"local\"\nlabel = \"Local\"")
            .contains("version")
    );
    assert!(
        error("version = 1\n[desktops.local]\nmode = \"local\"\nlabel = \"Local\"")
            .contains("default")
    );
    assert!(error("version = 1\ndefault = \"local\"").contains("desktops"));
}

#[test]
fn rejects_unsupported_version() {
    assert!(error(&VALID.replace("version = 1", "version = 2")).contains("unsupported"));
}

#[test]
fn rejects_empty_desktops_and_unknown_default() {
    assert!(error("version = 1\ndefault = \"local\"\n[desktops]").contains("at least one"));
    assert!(
        error(&VALID.replace("default = \"local\"", "default = \"missing\"")).contains("not defined")
    );
}

#[test]
fn rejects_duplicate_keys_and_tables() {
    let duplicate_key = one_desktop("mode = \"local\"\nlabel = \"Local\"\nlabel = \"Again\"");
    assert!(error(&duplicate_key).contains("invalid TOML"));

    let duplicate_table = format!("{VALID}\n[desktops.local]\nmode = \"local\"\nlabel = \"Again\"\n");
    assert!(error(&duplicate_table).contains("invalid TOML"));
}

#[test]
fn rejects_malformed_and_unknown_toml() {
    assert!(error("version = [").contains("invalid TOML"));
    assert!(error(&format!("{VALID}\nextra = true\n")).contains("unknown field"));
    assert!(error(&one_desktop(
        "mode = \"local\"\nlabel = \"Local\"\ncommand = \"touch /tmp/pwn\""
    ))
    .contains("unknown field"));
    assert!(error(&one_desktop("mode = \"teleport\"\nlabel = \"Local\"")).contains("unknown variant"));
}

#[test]
fn local_desktops_reject_remote_fields() {
    for field in [
        "target = \"dev\"",
        "session = \"devbox\"",
        "keybindings = \"local\"",
        "app_name = \"Devbox\"",
    ] {
        let source = one_desktop(&format!("mode = \"local\"\nlabel = \"Local\"\n{field}"));
        assert!(error(&source).contains("must not define"));
    }
}

#[test]
fn remote_desktops_require_every_remote_field() {
    let fields = [
        ("target", "session = \"devbox\"\nkeybindings = \"local\""),
        ("session", "target = \"dev\"\nkeybindings = \"local\""),
        ("keybindings", "target = \"dev\"\nsession = \"devbox\""),
    ];
    for (missing, body) in fields {
        let source = one_desktop(&format!("mode = \"remote\"\nlabel = \"Devbox\"\n{body}"));
        assert!(error(&source).contains(missing));
    }
}

#[test]
fn rejects_invalid_keybinding_authority() {
    let source = one_desktop(
        "mode = \"remote\"\nlabel = \"Devbox\"\ntarget = \"dev\"\nsession = \"devbox\"\nkeybindings = \"shared\"",
    );
    assert!(error(&source).contains("unknown variant"));
}

#[test]
fn rejects_hostile_desktop_ids() {
    for id in ["../evil", "-option", "UPPER", "has space", "semi;colon", "."] {
        let source = format!(
            "version = 1\ndefault = {id:?}\n[desktops.{id:?}]\nmode = \"local\"\nlabel = \"Local\"\n"
        );
        assert!(error(&source).contains("invalid default desktop id"), "id={id}");
    }
}

#[test]
fn rejects_hostile_targets() {
    for target in [
        "-oProxyCommand=evil",
        "../dev",
        "dev host",
        "dev;touch",
        "$(command)",
        "user@@host",
        "@host",
    ] {
        let source = one_desktop(&format!(
            "mode = \"remote\"\nlabel = \"Devbox\"\ntarget = {target:?}\nsession = \"devbox\"\nkeybindings = \"local\""
        ));
        assert!(error(&source).contains("invalid target"), "target={target}");
    }
}

#[test]
fn rejects_hostile_sessions() {
    for session in ["-option", "../devbox", "dev box", "dev;touch", "$(command)"] {
        let source = one_desktop(&format!(
            "mode = \"remote\"\nlabel = \"Devbox\"\ntarget = \"dev\"\nsession = {session:?}\nkeybindings = \"local\""
        ));
        assert!(error(&source).contains("invalid session"), "session={session}");
    }
}

#[test]
fn rejects_hostile_app_names() {
    for name in [
        "",
        " Devbox",
        "Devbox ",
        ".Devbox",
        "-Devbox",
        "Dev/box",
        "Dev..box",
        "dev\\u0001box",
    ] {
        let source = one_desktop(&format!(
            "mode = \"remote\"\nlabel = \"Devbox\"\ntarget = \"dev\"\nsession = \"devbox\"\nkeybindings = \"local\"\napp_name = \"{name}\""
        ));
        assert!(error(&source).contains("invalid app name"), "app_name={name:?}");
    }
    let long_name = "x".repeat(65);
    let source = one_desktop(&format!(
        "mode = \"remote\"\nlabel = \"Devbox\"\ntarget = \"dev\"\nsession = \"devbox\"\nkeybindings = \"local\"\napp_name = \"{long_name}\""
    ));
    assert!(error(&source).contains("invalid app name"));
}

#[test]
fn rejects_duplicate_effective_app_names() {
    let same_label = format!(
        "{VALID}\n[desktops.twin]\nmode = \"remote\"\nlabel = \"Devbox\"\ntarget = \"twin\"\nsession = \"twin\"\nkeybindings = \"server\"\n"
    );
    assert!(error(&same_label).contains("must be unique"));

    let explicit = format!(
        "{VALID}\n[desktops.clone]\nmode = \"remote\"\nlabel = \"Clone\"\napp_name = \"Devbox\"\ntarget = \"clone\"\nsession = \"clone\"\nkeybindings = \"server\"\n"
    );
    assert!(error(&explicit).contains("must be unique"));
}

#[test]
fn rejects_invalid_labels() {
    for label in ["", " Local", "Local ", "\u{1}"] {
        let source = one_desktop(&format!("mode = \"local\"\nlabel = {label:?}"));
        assert!(error(&source).contains("label"), "label={label:?}");
    }
    let long_label = "x".repeat(81);
    let source = one_desktop(&format!("mode = \"local\"\nlabel = {long_label:?}"));
    assert!(error(&source).contains("label"));
}

#[test]
fn reports_load_path_errors_and_loads_valid_files() {
    let missing = load_from("/nowhere/desktops.toml", Err("No such file or directory (os error 2)".into()))
        .expect_err("missing path should fail");
    assert!(matches!(missing, ConfigError::Read { .. }));
    assert!(missing.message().contains("/nowhere/desktops.toml"));
    assert_eq!(
        missing.message(),
        "could not read /nowhere/desktops.toml: No such file or directory (os error 2)"
    );
    let config = load_from("/tmp/desktops.toml", Ok(VALID.into())).expect("load temporary config");
    assert_eq!(config.default, "local");
    let broken = load_from("/tmp/desktops.toml", Ok("version = [".into())).expect_err("bad TOML");
    assert!(broken.message().starts_with("invalid TOML in /tmp/desktops.toml: "));
}

#[test]
fn desktops_are_ordered_by_id_and_found_by_id() {
    let config = parse_str(VALID).expect("valid configuration");
    let ids: Vec<&str> = config.desktops.iter().map(|d| d.id.as_str()).collect();
    assert_eq!(ids, vec!["builder", "devbox", "local"]);
    assert!(config.desktop("nope").is_none());
    assert_eq!(config.desktop("builder").expect("builder").label, "Builder");
}

#[test]
fn validation_messages_name_the_broken_rule() {
    assert_eq!(
        error("version = 2\ndefault = \"local\"\n[desktops.local]\nmode = \"local\"\nlabel = \"Local\"\n"),
        "unsupported desktop configuration version 2; expected 1"
    );
    assert_eq!(
        error("version = 1\ndefault = \"Bad\"\n[desktops.local]\nmode = \"local\"\nlabel = \"Local\"\n"),
        "invalid default desktop id \"Bad\": start with a lowercase ASCII letter or digit"
    );
    assert_eq!(
        error(&one_desktop("mode = \"local\"\nlabel = \"Local\"\ntarget = \"dev\"\nsession = \"s\"")),
        "local desktop \"local\" must not define target, session"
    );
}

#[test]
fn schema_errors_follow_key_order_within_a_table() {
    let message = error(&one_desktop("mode = \"local\"\nzzz = true\nlabel = 5"));
    assert!(message.contains("invalid type"), "{message}");
    assert!(!message.contains("unknown field"), "{message}");
    let message = error(&one_desktop("mode = \"local\"\nlabel = \"Local\"\naaa = true"));
    assert!(message.contains("unknown field `aaa`"), "{message}");
}

#[test]
fn schema_errors_in_desktops_come_before_later_top_level_keys() {
    let message = error("version = \"one\"\ndefault = \"local\"\n[desktops.local]\nmode = \"local\"\nlabel = 5\n");
    assert!(message.contains("invalid type: integer"), "{message}");
    assert!(message.contains("expected a string"), "{message}");
}

#[test]
fn schema_errors_describe_the_unexpected_value() {
    let cases = [
        ("label = 1.5", "invalid type: floating point `1.5`, expected a string"),
        ("label = 1979-05-27", "invalid type: map, expected a string"),
        ("label = [1]", "invalid type: sequence, expected a string"),
        ("label = true", "invalid type: boolean `true`, expected a string"),
        ("label = 7", "invalid type: integer `7`, expected a string"),
        ("label = { a = 1 }", "invalid type: map, expected a string"),
        ("label = \"Local\"\nmode = 5", "wanted string or table"),
        ("label = \"Local\"\nmode = {}", "wanted exactly 1 element, found 0 elements"),
        ("label = \"Local\"\nmode = { local = [], remote = [] }", "wanted exactly 1 element, more than 1 element"),
        ("label = \"Local\"\nmode = { home = [] }", "unknown variant `home`, expected `local` or `remote`"),
        ("label = \"Local\"\nmode = { local = [1] }", "expected empty array"),
        ("label = \"Local\"\nmode = { local = { a = 1 } }", "expected empty table"),
        ("label = \"Local\"\nmode = { local = 1 }", "expected table, found integer"),
    ];
    for (body, expected) in cases {
        let message = error(&one_desktop(body));
        assert!(message.contains(expected), "{body}: {message}");
    }
    let message = error("version = \"one\"\ndefault = \"local\"\n[desktops.local]\nmode = \"local\"\nlabel = \"Local\"\n");
    assert!(message.contains("invalid type: string \"one\", expected u32"), "{message}");
}

#[test]
fn unit_variants_may_be_written_as_single_entry_tables() {
    let config = parse_str(&one_desktop("mode = { local = [] }\nlabel = \"Local\"")).expect("local desktop");
    assert!(matches!(config.desktop("local").map(|desktop| &desktop.mode), Some(DesktopMode::Local)));
    let config = parse_str(&one_desktop("mode = { local = {} }\nlabel = \"Local\"")).expect("local desktop");
    assert!(matches!(config.desktop("local").map(|desktop| &desktop.mode), Some(DesktopMode::Local)));
}

#[test]
fn desktops_may_be_written_as_arrays_of_their_fields() {
    let source = "version = 1\ndefault = \"devbox\"\n[desktops]\ndevbox = [\"remote\", \"Devbox\", \"dev@example.com\", \"devbox\", \"server\", \"Devbox Remote\", 99]\n";
    let config = parse_str(source).expect("array desktop");
    assert!(matches!(
        config.desktop("devbox").map(|desktop| &desktop.mode),
        Some(DesktopMode::Remote {
            target,
            session,
            app_name,
            keybindings: KeybindingAuthority::Server,
        }) if target == "dev@example.com" && session == "devbox" && app_name == "Devbox Remote"
    ));
    let short = "version = 1\ndefault = \"local\"\n[desktops]\nlocal = [\"local\", \"Local\"]\n";
    assert!(error(short).contains("invalid length 2, expected struct RawDesktop with 6 elements"));
    let empty = "version = 1\ndefault = \"local\"\n[desktops]\nlocal = []\n";
    assert!(error(empty).contains("invalid length 0, expected struct RawDesktop with 6 elements"));
}

#[test]
fn datetimes_are_read_as_tables_with_a_private_key() {
    let inside = "version = 1\ndefault = \"local\"\n[desktops]\nlocal = 1979-05-27\n";
    assert!(error(inside).contains("unknown field `$__toml_private_datetime`"));
    let whole = "version = 1\ndefault = \"local\"\ndesktops = 1979-05-27\n";
    assert!(error(whole).contains("invalid type: string \"1979-05-27\", expected struct RawDesktop"));
}
