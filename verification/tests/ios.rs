use choreo_tools::error::ToolExecError;
use choreo_tools::ios_bridge::{
    CANCEL_POLL_SLICE, CLIPBOARD_TIMEOUT, CancelFlags, IosToolRequest, MockBridge, MockResponse,
    NOTIFY_TIMEOUT, OPEN_URL_TIMEOUT, ToolBridgeError, WaitEvent, WaitStep, Waiter, after_event,
    bridge_err_to_tool_err,
};
use choreo_tools::ios_tools::{
    ClipboardWriteArgs, NOTIFY_BODY_MAX, NOTIFY_TITLE_MAX, NotifyArgs, OpenUrlArgs,
    describe_clipboard_write, describe_notify, describe_open_url, execute_clipboard_read,
    execute_clipboard_write, execute_notify, execute_open_url,
};
use choreo_tools::json::{Json, write_json};

fn steady() -> CancelFlags {
    CancelFlags { at_entry: false, before_wait: false, at_reply: false }
}

fn canceled_at_entry() -> CancelFlags {
    CancelFlags { at_entry: true, before_wait: true, at_reply: true }
}

/// The flag is set while the request is dispatched: the reply is queued when the wait begins.
fn canceled_during_dispatch() -> CancelFlags {
    CancelFlags { at_entry: false, before_wait: true, at_reply: true }
}

fn replying(reply: Result<Json, ToolBridgeError>) -> MockBridge {
    let mut m = MockBridge::default();
    m.script(MockResponse::Reply(reply));
    m
}

fn object(name: &str, value: Json) -> Json {
    Json::Object(vec![(name.to_string(), value)])
}

fn write(m: &mut MockBridge, text: &str, timeout: u64, flags: CancelFlags) -> Result<String, ToolExecError> {
    execute_clipboard_write(&ClipboardWriteArgs { text: text.to_string() }, m, timeout, flags)
}

fn notify(
    m: &mut MockBridge,
    title: &str,
    body: &str,
    timeout: u64,
    flags: CancelFlags,
) -> Result<String, ToolExecError> {
    execute_notify(
        &NotifyArgs { title: title.to_string(), body: body.to_string() },
        m,
        timeout,
        flags,
    )
}

fn open(m: &mut MockBridge, url: &str, timeout: u64, flags: CancelFlags) -> Result<String, ToolExecError> {
    execute_open_url(&OpenUrlArgs { url: url.to_string() }, m, timeout, flags)
}

fn request() -> IosToolRequest {
    IosToolRequest {
        request_id: 0, // reassigned by dispatch
        name: "clipboard_write".to_string(),
        args_json: r#"{"text":"hello"}"#.to_string(),
    }
}

#[test]
fn clipboard_write_success() {
    let mut m = replying(Ok(Json::Null));
    let ret = write(&mut m, "hi", CLIPBOARD_TIMEOUT, steady()).unwrap();
    assert_eq!(ret, "Clipboard updated.");
    let dispatched = m.dispatched();
    assert_eq!(dispatched.len(), 1);
    assert_eq!(dispatched[0].name, "clipboard_write");
    assert_eq!(dispatched[0].args_json, r#"{"text":"hi"}"#);
}

#[test]
fn clipboard_read_success_and_empty() {
    let mut m = replying(Ok(object("text", Json::Text("copied!".to_string()))));
    assert_eq!(
        execute_clipboard_read(&mut m, CLIPBOARD_TIMEOUT, steady()).unwrap(),
        "copied!"
    );
    // No "text" field (or null payload) degrades to the empty string.
    m.script(MockResponse::Reply(Ok(Json::Null)));
    assert_eq!(execute_clipboard_read(&mut m, CLIPBOARD_TIMEOUT, steady()).unwrap(), "");
}

#[test]
fn platform_error_surfaces() {
    let mut m = replying(Err(ToolBridgeError::Platform("pasteboard refused".into())));
    let err = write(&mut m, "x", CLIPBOARD_TIMEOUT, steady()).unwrap_err();
    assert_eq!(err.to_string(), "pasteboard refused");
}

#[test]
fn bridge_unavailable_surfaces() {
    // Empty script: the mock goes away.
    let mut m = MockBridge::default();
    let err = execute_clipboard_read(&mut m, CLIPBOARD_TIMEOUT, steady()).unwrap_err();
    assert!(err.to_string().contains("bridge unavailable"));
}

#[test]
fn clipboard_zero_timeout_times_out() {
    let mut m = replying(Ok(Json::Null));
    let err = write(&mut m, "x", 0, steady()).unwrap_err();
    assert!(err.to_string().contains("timed out"));
}

#[test]
fn cancel_at_entry_never_dispatches() {
    let mut m = MockBridge::default();
    let err = write(&mut m, "x", CLIPBOARD_TIMEOUT, canceled_at_entry()).unwrap_err();
    assert_eq!(err.to_string(), "request was canceled");
    // The binding assertion: the bridge saw NOTHING.
    assert!(m.dispatched().is_empty());
}

#[test]
fn clipboard_cancel_wins_over_arrived_reply() {
    let mut m = replying(Ok(object("text", Json::Text("late".to_string()))));
    let err = execute_clipboard_read(&mut m, CLIPBOARD_TIMEOUT, canceled_during_dispatch())
        .unwrap_err();
    assert_eq!(err.to_string(), "request was canceled");
    assert_eq!(m.dispatched().len(), 1, "dispatch must have happened");
    assert_eq!(m.cancels().len(), 1, "late-cancel path must call pending.cancel()");
}

#[test]
fn success_dispatches() {
    let mut m = replying(Ok(Json::Null));
    let ret = notify(&mut m, "Hi", "Body", NOTIFY_TIMEOUT, steady()).unwrap();
    assert_eq!(ret, "Notification posted.");
    let dispatched = m.dispatched();
    assert_eq!(dispatched.len(), 1);
    let sent: serde_json::Value = serde_json::from_str(&dispatched[0].args_json).unwrap();
    assert_eq!(sent["title"], "Hi");
    assert_eq!(sent["body"], "Body");
    assert_eq!(sent.as_object().unwrap().len(), 2);
}

#[test]
fn length_caps_enforced_before_dispatch() {
    let mut m = MockBridge::default();
    let err = notify(&mut m, &"x".repeat(NOTIFY_TITLE_MAX + 1), "ok", NOTIFY_TIMEOUT, steady())
        .unwrap_err();
    assert!(err.to_string().contains("title exceeds 200"));

    // Exactly at the cap is fine (script a reply for that dispatch).
    m.script(MockResponse::Reply(Ok(Json::Null)));
    notify(
        &mut m,
        &"x".repeat(NOTIFY_TITLE_MAX),
        &"y".repeat(NOTIFY_BODY_MAX),
        NOTIFY_TIMEOUT,
        steady(),
    )
    .unwrap_or_else(|e| panic!("at-cap values must pass: {}", e.to_string()));

    let err = notify(&mut m, "ok", &"y".repeat(NOTIFY_BODY_MAX + 1), NOTIFY_TIMEOUT, steady())
        .unwrap_err();
    assert!(err.to_string().contains("body exceeds 2000"));
    // Only the at-cap call was dispatched.
    assert_eq!(m.dispatched().len(), 1);
}

#[test]
fn error_matrix() {
    // Platform error verbatim.
    let mut m = replying(Err(ToolBridgeError::Platform("not authorized".into())));
    let err = notify(&mut m, "t", "b", NOTIFY_TIMEOUT, steady()).unwrap_err();
    assert_eq!(err.to_string(), "not authorized");

    // Dropped sender.
    let mut m = MockBridge::default();
    let err = notify(&mut m, "t", "b", NOTIFY_TIMEOUT, steady()).unwrap_err();
    assert!(err.to_string().contains("bridge unavailable"));

    // No time at all.
    let mut m = replying(Ok(Json::Null));
    let err = notify(&mut m, "t", "b", 0, steady()).unwrap_err();
    assert!(err.to_string().contains("timed out"));
}

#[test]
fn notify_cancel_at_entry_never_dispatches_and_cancel_wins_on_reply() {
    let mut m = MockBridge::default();
    let err = notify(&mut m, "t", "b", NOTIFY_TIMEOUT, canceled_at_entry()).unwrap_err();
    assert_eq!(err.to_string(), "request was canceled");
    assert!(m.dispatched().is_empty());

    let mut m = replying(Ok(Json::Null));
    let err = notify(&mut m, "t", "b", NOTIFY_TIMEOUT, canceled_during_dispatch()).unwrap_err();
    assert_eq!(err.to_string(), "request was canceled");
    assert_eq!(m.cancels().len(), 1, "late-cancel path must call pending.cancel()");
}

#[test]
fn declined_schedule_is_surfaced() {
    // The host's `{"scheduled": false}` verdict must NOT be reported to the model as success.
    let mut m = replying(Ok(object("scheduled", Json::Bool(false))));
    let ret = notify(&mut m, "t", "b", NOTIFY_TIMEOUT, steady()).unwrap();
    assert!(ret.contains("could not be scheduled"), "got: {ret}");
}

#[test]
fn schema_narrows_to_https_mailto() {
    let schema: serde_json::Value =
        serde_json::from_str(&write_json(&OpenUrlArgs::json_schema())).unwrap();
    assert_eq!(schema["properties"]["url"]["pattern"], "^(https|mailto):");
}

#[test]
fn https_and_mailto_pass_validation() {
    let mut m = MockBridge::default();
    for url in ["https://example.com/x?y=1", "mailto:a@b.c"] {
        m.script(MockResponse::Reply(Ok(Json::Null)));
        open(&mut m, url, OPEN_URL_TIMEOUT, steady())
            .unwrap_or_else(|e| panic!("valid url {url} rejected: {}", e.to_string()));
    }
    let dispatched = m.dispatched();
    assert_eq!(dispatched.len(), 2);
    assert_eq!(dispatched[0].name, "open_url");
    assert_eq!(dispatched[1].args_json, r#"{"url":"mailto:a@b.c"}"#);
}

#[test]
fn disallowed_schemes_rejected_before_dispatch() {
    let mut m = MockBridge::default();
    for url in [
        "file:///etc/passwd",
        "http://insecure.example",
        "ftp://x",
        "data:text/html,hi",
        "myapp://deep/link",
        "nonsense",
    ] {
        let err = open(&mut m, url, OPEN_URL_TIMEOUT, steady()).unwrap_err();
        assert!(
            err.to_string().contains("https and mailto"),
            "url {url} failed with the wrong error: {}",
            err.to_string()
        );
    }
    assert!(m.dispatched().is_empty(), "rejected URLs must never dispatch");
}

#[test]
fn control_characters_rejected_before_dispatch() {
    let mut m = MockBridge::default();
    for url in ["https://ok\u{0}bad", "https://x\ny", "mailto:a@b\u{7}"] {
        let err = open(&mut m, url, OPEN_URL_TIMEOUT, steady()).unwrap_err();
        assert!(err.to_string().contains("control characters"));
    }
    assert!(m.dispatched().is_empty());
}

#[test]
fn bridge_errors_map_sensibly() {
    // Platform error passes through verbatim.
    let mut m = replying(Err(ToolBridgeError::Platform("springboard refused".into())));
    let err = open(&mut m, "https://x", OPEN_URL_TIMEOUT, steady()).unwrap_err();
    assert_eq!(err.to_string(), "springboard refused");

    // Dropped sender.
    let mut m = MockBridge::default();
    let err = open(&mut m, "https://x", OPEN_URL_TIMEOUT, steady()).unwrap_err();
    assert!(err.to_string().contains("bridge unavailable"));
}

#[test]
fn open_url_zero_timeout_times_out() {
    let mut m = replying(Ok(Json::Null));
    let err = open(&mut m, "https://x", 0, steady()).unwrap_err();
    assert!(err.to_string().contains("timed out"));
}

#[test]
fn open_url_cancel_at_entry_never_dispatches_and_cancel_wins_on_reply() {
    let mut m = MockBridge::default();
    let err = open(&mut m, "https://x", OPEN_URL_TIMEOUT, canceled_at_entry()).unwrap_err();
    assert_eq!(err.to_string(), "request was canceled");
    assert!(m.dispatched().is_empty());

    let mut m = replying(Ok(Json::Null));
    let err = open(&mut m, "https://y", OPEN_URL_TIMEOUT, canceled_during_dispatch()).unwrap_err();
    assert_eq!(err.to_string(), "request was canceled");
    assert_eq!(m.dispatched().len(), 1, "dispatch must have happened");
    assert_eq!(m.cancels().len(), 1, "late-cancel path must call pending.cancel()");
}

#[test]
fn declined_open_is_surfaced() {
    // The host's `{"opened": false}` verdict must NOT be reported as a successful open.
    let mut m = replying(Ok(object("opened", Json::Bool(false))));
    let ret = open(&mut m, "https://x", OPEN_URL_TIMEOUT, steady()).unwrap();
    assert!(ret.contains("declined"), "got: {ret}");
}

#[test]
fn dispatch_success_and_request_recording() {
    let mut m = replying(Ok(object("ok", Json::Bool(true))));
    let pending = m.dispatch(request());
    assert_eq!(pending.request_id, 0);
    let value = pending.wait(CLIPBOARD_TIMEOUT, false, false).unwrap();
    assert_eq!(write_json(&value), r#"{"ok":true}"#);
    assert_eq!(m.dispatched().len(), 1);
    assert_eq!(m.dispatched()[0].name, "clipboard_write");
    assert_eq!(m.dispatched()[0].request_id, 0);
    // Ids increase across dispatches.
    let p2 = m.dispatch(request());
    assert_eq!(p2.request_id, 1);
}

#[test]
fn platform_error_propagates() {
    let mut m = replying(Err(ToolBridgeError::Platform("https or mailto only".into())));
    let pending = m.dispatch(request());
    match pending.wait(OPEN_URL_TIMEOUT, false, false) {
        Err(ToolBridgeError::Platform(msg)) => assert_eq!(msg, "https or mailto only"),
        other => panic!("expected Platform error, got {other:?}"),
    }
}

#[test]
fn zero_deadline_times_out_without_sleeping() {
    let mut m = replying(Ok(object("ok", Json::Bool(true))));
    let pending = m.dispatch(request());
    assert!(matches!(pending.wait(0, false, false), Err(ToolBridgeError::Timeout)));
}

#[test]
fn cancel_precedes_waiting_reply() {
    // Flag set BEFORE wait: Canceled at once, even though a reply is already queued.
    let mut m = replying(Ok(object("ok", Json::Bool(true))));
    let pending = m.dispatch(request());
    assert!(matches!(pending.wait(0, true, true), Err(ToolBridgeError::Canceled)));
}

#[test]
fn ios_bridge_cancel_wins_over_arrived_reply() {
    // The reply arrives Ok but the flag is set by the time it is taken: Canceled, not the value.
    let mut m = replying(Ok(object("ok", Json::Bool(true))));
    let pending = m.dispatch(request());
    assert!(matches!(pending.wait(0, true, true), Err(ToolBridgeError::Canceled)));
    let mut m = replying(Ok(object("ok", Json::Bool(true))));
    let pending = m.dispatch(request());
    assert!(matches!(
        pending.wait(NOTIFY_TIMEOUT, false, true),
        Err(ToolBridgeError::Canceled)
    ));
}

#[test]
fn cancel_hook_records_request_id() {
    let mut m = MockBridge::default();
    let pending = m.dispatch(request());
    let id = pending.request_id;
    m.cancel(id);
    assert_eq!(m.cancels(), &vec![id]);
}

#[test]
fn dropped_sender_is_bridge_unavailable() {
    let mut m = MockBridge::default();
    m.script(MockResponse::DropSender);
    let pending = m.dispatch(request());
    assert!(matches!(
        pending.wait(NOTIFY_TIMEOUT, false, false),
        Err(ToolBridgeError::BridgeUnavailable)
    ));
    // ... and the empty-script default is the same path.
    let pending = m.dispatch(request());
    assert!(matches!(
        pending.wait(NOTIFY_TIMEOUT, false, false),
        Err(ToolBridgeError::BridgeUnavailable)
    ));
}

#[test]
fn waits_are_sliced() {
    let w = Waiter::new(1000, 120);
    assert!(matches!(w.step(1000, false), WaitStep::Select(n) if n == CANCEL_POLL_SLICE));
    assert!(matches!(w.step(1100, false), WaitStep::Select(20)));
    assert!(matches!(w.step(1120, false), WaitStep::Done(ToolBridgeError::Timeout)));
    assert!(matches!(w.step(1000, true), WaitStep::Done(ToolBridgeError::Canceled)));
    assert!(after_event(WaitEvent::Elapsed, false).is_none());
    assert!(matches!(
        after_event(WaitEvent::Disconnected, false),
        Some(Err(ToolBridgeError::BridgeUnavailable))
    ));
}

#[test]
fn bridge_errors_have_their_words() {
    assert_eq!(ToolBridgeError::Canceled.to_string(), "request was canceled");
    assert_eq!(ToolBridgeError::Platform("x".into()).to_string(), "platform error: x");
    assert_eq!(
        bridge_err_to_tool_err("notify", ToolBridgeError::Timeout).to_string(),
        "notify timed out waiting for the iOS host"
    );
}

#[test]
fn device_calls_are_described() {
    assert_eq!(
        describe_open_url(&OpenUrlArgs { url: "https://x".into() }),
        "Opening URL: https://x."
    );
    assert_eq!(
        describe_notify(&NotifyArgs { title: "T".into(), body: "b".into() }),
        "Posting notification: T."
    );
    assert_eq!(
        describe_clipboard_write(&ClipboardWriteArgs { text: "é1".into() }),
        "Writing 2 characters to the clipboard."
    );
}

#[test]
fn an_https_url_without_a_host_is_turned_down() {
    let mut m = MockBridge::default();
    for url in ["https:not-a-url", "https:/x", "HTTPS:x", "https:\\\\x"] {
        let err = open(&mut m, url, OPEN_URL_TIMEOUT, steady()).unwrap_err();
        assert_eq!(
            err.to_string(),
            "open_url only supports https and mailto URLs (not a valid URL: no // behind https:)"
        );
    }
    assert!(m.dispatched().is_empty());
    m.script(MockResponse::Reply(Ok(Json::Null)));
    assert!(open(&mut m, "HTTPS://x", OPEN_URL_TIMEOUT, steady()).is_ok());
}

#[test]
fn the_longest_wait_lasts_to_the_last_moment() {
    let w = Waiter::new(1000, u64::MAX);
    assert!(matches!(w.step(1000, false), WaitStep::Select(n) if n == CANCEL_POLL_SLICE));
    assert!(matches!(w.step(u64::MAX - 7, false), WaitStep::Select(7)));
    assert!(matches!(w.step(u64::MAX, false), WaitStep::Done(ToolBridgeError::Timeout)));
}
