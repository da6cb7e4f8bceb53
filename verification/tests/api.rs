use herdr_desktop_switcher::api::{
    closed_error, popup_already_open, reply_step, request_id, stage_error, timeout_error, ApiClient,
    ApiError, ReplyStep,
};

fn failure(step: ReplyStep) -> String {
    match step {
        ReplyStep::Failed(error) => error.message(),
        other => panic!("expected a failure, got {other:?}"),
    }
}

#[test]
fn request_ids_count_up_from_the_prefix() {
    assert_eq!(request_id(1), "herdr_desktop_switcher_1");
    assert_eq!(request_id(1234), "herdr_desktop_switcher_1234");
}

#[test]
fn only_the_matching_reply_answers() {
    let id = "herdr_desktop_switcher_7";
    assert!(matches!(reply_step("ping", id, "not json"), ReplyStep::Skip));
    assert!(matches!(
        reply_step("ping", id, r#"{"id":"herdr_desktop_switcher_8","result":{}}"#),
        ReplyStep::Skip
    ));
    assert!(matches!(
        reply_step("ping", id, r#"{"id":7,"result":{}}"#),
        ReplyStep::Skip
    ));
    assert!(matches!(
        reply_step("ping", id, r#"{"event":"pane.focused"}"#),
        ReplyStep::Skip
    ));
    assert!(matches!(
        reply_step("ping", id, r#"{"id":"herdr_desktop_switcher_7","result":{"ok":true}}"#),
        ReplyStep::Answered
    ));
    assert!(matches!(
        reply_step("ping", id, r#"{"id":"herdr_desktop_switcher_7"}"#),
        ReplyStep::Answered
    ));
}

#[test]
fn failed_replies_report_message_code_or_the_error_itself() {
    let id = "r1";
    assert_eq!(
        failure(reply_step(
            "plugin.pane.open",
            id,
            r#"{"id":"r1","error":{"message":"popup already open","code":"busy"}}"#
        )),
        "plugin.pane.open: popup already open"
    );
    assert_eq!(
        failure(reply_step("ping", id, r#"{"id":"r1","error":{"code":"busy"}}"#)),
        "ping: busy"
    );
    assert_eq!(
        failure(reply_step("ping", id, r#"{"id":"r1","error":{"message":5,"code":"busy"}}"#)),
        "ping: {\"code\":\"busy\",\"message\":5}"
    );
    assert_eq!(
        failure(reply_step("ping", id, r#"{"id":"r1","error":"plain"}"#)),
        "ping: \"plain\""
    );
}

#[test]
fn request_failures_name_the_method() {
    assert_eq!(timeout_error("ping").message(), "api timeout: ping");
    assert_eq!(
        closed_error("ping").message(),
        "api closed before response: ping"
    );
    assert_eq!(
        stage_error("could not send", "ping", "request", "broken pipe").message(),
        "could not send ping request: broken pipe"
    );
    let client = ApiClient::new("/tmp/herdr.sock".into());
    assert_eq!(
        client.connect_timeout_error().message(),
        "api connect timeout: /tmp/herdr.sock"
    );
    assert_eq!(
        client.connect_error("refused").message(),
        "could not connect to Herdr socket /tmp/herdr.sock: refused"
    );
}

#[test]
fn an_open_popup_is_recognised() {
    assert!(popup_already_open(&ApiError(
        "plugin.pane.open: popup already open".into()
    )));
    assert!(!popup_already_open(&ApiError("plugin.pane.open: denied".into())));
}
