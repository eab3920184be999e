use choreo_tools::http::{
    HttpError, HttpMethod, HttpRequest, HttpRequestArgs, HttpResponse, MAX_HTTP_BODY_BYTES,
    USER_AGENT, execute_http_request_tool, format_http_response, is_text_content_type,
    parse_method, plan_request, prepare_http_request, read_bounded_text_body, wants_body,
};
use choreo_tools::sanitize::MAX_TOOL_OUTPUT_BYTES;

fn refused() -> Result<HttpResponse, String> {
    Err("connection refused".to_string())
}

fn get(url: &str) -> HttpRequestArgs {
    HttpRequestArgs {
        method: "GET".into(),
        url: url.into(),
        headers: vec![],
        body: None,
        timeout_secs: None,
    }
}

fn answer(headers: Vec<(&str, Option<&str>)>, read: Result<Vec<u8>, String>) -> HttpResponse {
    HttpResponse {
        status: "200 OK".into(),
        headers: headers
            .into_iter()
            .map(|(n, v)| (n.to_string(), v.map(|v| v.to_string())))
            .collect(),
        read,
    }
}

#[test]
fn header_validation_rejects_empty_name() {
    let args = HttpRequestArgs {
        method: "GET".into(),
        url: "http://example.com".into(),
        headers: vec![("".into(), "value".into())],
        body: None,
        timeout_secs: None,
    };
    let err = execute_http_request_tool(&args, refused()).unwrap_err();
    assert!(matches!(err, HttpError::InvalidHeader { .. }));
}

#[test]
fn header_validation_rejects_colon_in_name() {
    let args = HttpRequestArgs {
        method: "GET".into(),
        url: "http://example.com".into(),
        headers: vec![("bad:header".into(), "value".into())],
        body: None,
        timeout_secs: None,
    };
    let err = execute_http_request_tool(&args, refused()).unwrap_err();
    assert!(matches!(err, HttpError::InvalidHeader { .. }));
}

#[test]
fn header_validation_rejects_newline_in_value() {
    let args = HttpRequestArgs {
        method: "GET".into(),
        url: "http://example.com".into(),
        headers: vec![("name".into(), "value\ninjected".into())],
        body: None,
        timeout_secs: None,
    };
    let err = execute_http_request_tool(&args, refused()).unwrap_err();
    assert!(matches!(err, HttpError::InvalidHeader { .. }));
}

#[test]
fn header_validation_rejects_carriage_return_in_value() {
    let args = HttpRequestArgs {
        method: "GET".into(),
        url: "http://example.com".into(),
        headers: vec![("name".into(), "value\rinjected".into())],
        body: None,
        timeout_secs: None,
    };
    let err = execute_http_request_tool(&args, refused()).unwrap_err();
    assert!(matches!(err, HttpError::InvalidHeader { .. }));
}

#[test]
fn header_validation_rejects_control_char_in_name() {
    let args = HttpRequestArgs {
        method: "GET".into(),
        url: "http://example.com".into(),
        headers: vec![("header\x00name".into(), "value".into())],
        body: None,
        timeout_secs: None,
    };
    let err = execute_http_request_tool(&args, refused()).unwrap_err();
    assert!(matches!(err, HttpError::InvalidHeader { .. }));
}

#[test]
fn header_validation_accepts_valid_headers() {
    let args = HttpRequestArgs {
        method: "GET".into(),
        url: "http://example.com".into(),
        headers: vec![("Accept".into(), "text/html".into())],
        body: None,
        timeout_secs: None,
    };
    // Should pass header validation — only fail at the network layer
    // (RequestFailed) or succeed. Never an InvalidHeader error.
    let result = execute_http_request_tool(&args, refused());
    match result {
        Ok(_) => {} // network succeeded
        Err(e) => assert!(
            matches!(e, HttpError::RequestFailed(_)),
            "expected RequestFailed, got {}",
                e.to_string()
        ),
    }
}

#[test]
fn unsupported_method_rejected() {
    let args = HttpRequestArgs {
        method: "OPTIONS".into(),
        url: "http://example.com".into(),
        headers: vec![],
        body: None,
        timeout_secs: None,
    };
    let err = execute_http_request_tool(&args, refused()).unwrap_err();
    assert!(matches!(err, HttpError::UnsupportedMethod(_)));
}

#[test]
fn invalid_url_rejected() {
    let args = HttpRequestArgs {
        method: "GET".into(),
        url: "\0invalid".into(),
        headers: vec![],
        body: None,
        timeout_secs: None,
    };
    let err = execute_http_request_tool(&args, refused()).unwrap_err();
    assert!(matches!(err, HttpError::InvalidUrl(_)));
}

#[test]
fn unsupported_scheme_rejected() {
    let args = HttpRequestArgs {
        method: "GET".into(),
        url: "ftp://example.com".into(),
        headers: vec![],
        body: None,
        timeout_secs: None,
    };
    let err = execute_http_request_tool(&args, refused()).unwrap_err();
    assert!(matches!(err, HttpError::UnsupportedUrlScheme(_)));
}

#[test]
fn format_http_response_includes_status_body() {
    let status = ureq::http::StatusCode::OK.to_string();
    let headers = vec![("content-type".into(), "text/plain".into())];
    let body = "hello";
    let output = format_http_response(&status, &headers, body);
    assert!(output.contains("200 OK"));
    assert!(output.contains("content-type: text/plain"));
    assert!(output.contains("hello"));
}

#[test]
fn format_http_response_sorts_headers() {
    let status = ureq::http::StatusCode::OK.to_string();
    let headers = vec![
        ("z-header".into(), "z".into()),
        ("a-header".into(), "a".into()),
    ];
    let output = format_http_response(&status, &headers, "");
    let a_pos = output.find("a-header").unwrap();
    let z_pos = output.find("z-header").unwrap();
    assert!(a_pos < z_pos, "headers should be sorted alphabetically");
}

#[test]
fn describe_invocation_includes_method_and_url() {
    let tool = HttpRequest;
    let args = HttpRequestArgs {
        method: "POST".into(),
        url: "https://api.example.com/data".into(),
        headers: vec![("Authorization".into(), "Bearer token123".into())],
        body: Some("{\"key\":\"value\"}".into()),
        timeout_secs: Some(60),
    };
    let desc = tool.describe_invocation(&args);
    assert!(desc.contains("Making POST HTTP request to https://api.example.com/data."));
    assert!(desc.contains("1 header(s)."));
    assert!(desc.contains("Body: 15 bytes."));
    assert!(desc.contains("Timeout: 60s."));
}

#[test]
fn describe_invocation_no_body() {
    let tool = HttpRequest;
    let args = HttpRequestArgs {
        method: "GET".into(),
        url: "https://example.com".into(),
        headers: vec![],
        body: None,
        timeout_secs: None,
    };
    let desc = tool.describe_invocation(&args);
    assert!(desc.contains("Making GET HTTP request to https://example.com."));
    assert!(desc.contains("Timeout: 30s."));
}

#[test]
fn each_method_is_read() {
    assert!(matches!(parse_method("GET"), Some(HttpMethod::Get)));
    assert!(matches!(parse_method("POST"), Some(HttpMethod::Post)));
    assert!(matches!(parse_method("PUT"), Some(HttpMethod::Put)));
    assert!(matches!(parse_method("DELETE"), Some(HttpMethod::Delete)));
    assert!(matches!(parse_method("PATCH"), Some(HttpMethod::Patch)));
    assert!(matches!(parse_method("HEAD"), Some(HttpMethod::Head)));
    assert!(parse_method("OPTIONS").is_none());
    assert!(parse_method("get").is_none());
}

#[test]
fn a_planned_request_is_complete() {
    let mut args = get("https://example.com/a");
    args.method = "POST".into();
    args.headers = vec![("Accept".into(), "text/html".into())];
    args.body = Some("data".into());
    args.timeout_secs = Some(5);
    let plan = prepare_http_request(&args).unwrap();
    assert!(matches!(plan.method, HttpMethod::Post));
    assert_eq!(plan.url, "https://example.com/a");
    assert_eq!(plan.headers[0].0, "User-Agent");
    assert_eq!(plan.headers[0].1, USER_AGENT);
    assert_eq!(plan.headers[1].0, "Accept");
    assert_eq!(plan.body.as_deref(), Some("data"));
    assert_eq!(plan.timeout_secs, 5);
    // A GET request carries no body.
    args.method = "GET".into();
    assert!(prepare_http_request(&args).unwrap().body.is_none());
}

#[test]
fn a_plan_follows_the_scheme_that_was_found() {
    let args = get("whatever");
    assert!(plan_request(&args, Ok("https".to_string())).is_ok());
    assert!(matches!(
        plan_request(&args, Ok("file".to_string())),
        Err(HttpError::UnsupportedUrlScheme(s)) if s == "file"
    ));
    assert!(matches!(
        plan_request(&args, Err("no".to_string())),
        Err(HttpError::InvalidUrl(s)) if s == "no"
    ));
}

#[test]
fn errors_have_their_words() {
    assert_eq!(
        HttpError::UnsupportedMethod("X".into()).to_string(),
        "unsupported method: X"
    );
    assert_eq!(
        HttpError::RequestFailed("timeout".into()).to_string(),
        "request failed: timeout"
    );
}

#[test]
fn a_text_body_is_shown_and_another_is_not() {
    assert!(is_text_content_type("text/html; charset=utf-8"));
    assert!(is_text_content_type("application/json"));
    assert!(!is_text_content_type("image/png"));
    let out = execute_http_request_tool(
        &get("http://example.com"),
        Ok(answer(vec![("content-type", Some("text/plain"))], Ok(b"hello".to_vec()))),
    )
    .unwrap();
    assert_eq!(out, "status: 200 OK\ncontent-type: text/plain\n\nhello");
    assert!(!wants_body(
        HttpMethod::Get,
        &vec![("content-type".to_string(), Some("image/png".to_string()))]
    ));
}

#[test]
fn a_body_is_capped() {
    let big = vec![b'x'; MAX_HTTP_BODY_BYTES];
    let shown = read_bounded_text_body(Ok(big));
    assert!(shown.ends_with("x\n...[truncated]"));
    assert_eq!(shown.len(), MAX_TOOL_OUTPUT_BYTES + "\n...[truncated]".len());
    assert!(
        read_bounded_text_body(Ok(vec![b'a', 0xff]))
            .starts_with("body omitted: failed to decode response text: invalid utf-8 sequence")
    );
    assert_eq!(
        read_bounded_text_body(Err("reset".to_string())),
        "body omitted: failed to read response body: reset"
    );
    assert_eq!(read_bounded_text_body(Ok(b"a\r\nb\x1b".to_vec())), "a\nb\\u{1b}");
    // A body that fills the buffer may end within a character.
    let mut cut = vec![b'x'; MAX_HTTP_BODY_BYTES];
    cut[0] = 0xff;
    assert!(read_bounded_text_body(Ok(cut)).starts_with("\u{fffd}xx"));
}

#[test]
fn a_header_value_stays_on_its_line() {
    let headers = vec![("x".to_string(), "a\nInjected: b".to_string())];
    assert_eq!(
        format_http_response("200 OK", &headers, ""),
        "status: 200 OK\nx: a\\nInjected: b\n\n"
    );
}

#[test]
fn a_head_response_has_no_body() {
    let mut args = get("http://example.com");
    args.method = "HEAD".into();
    let out = execute_http_request_tool(
        &args,
        Ok(answer(vec![("content-type", Some("text/plain")), ("x-raw", None)], Ok(vec![]))),
    )
    .unwrap();
    assert_eq!(out, "status: 200 OK\ncontent-type: text/plain\nx-raw: <non-utf8>\n\n");
    let out = execute_http_request_tool(
        &get("http://example.com"),
        Ok(answer(vec![("content-type", Some("image/png"))], Ok(vec![]))),
    )
    .unwrap();
    assert_eq!(out, "status: 200 OK\ncontent-type: image/png\n\nbody omitted: non-text response");
}
