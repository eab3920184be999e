use choreo_tools::json::Json;
use choreo_tools::retrieve_webpage::{
    Capture, HostOs, RetrieveWebpage, RetrieveWebpageArgs, WebStage, WebpageAction,
    browser_candidates, extract_text, finish_pdf, finish_screenshot, html_expression,
    plan_capture, plan_launch, remote_text, stage_error, text_expression, validate_url,
};
use choreo_tools::webpage_run::{WebEvent, WebOutput, WebStep, begin_retrieval};

fn page(url: &str) -> RetrieveWebpageArgs {
    RetrieveWebpageArgs { url: url.to_string(), ..RetrieveWebpageArgs::default() }
}

#[test]
fn validate_url_accepts_http_and_https() {
    for u in ["https://example.com", "http://example.com/path?q=1"] {
        assert!(validate_url(u).is_ok(), "{u} should be accepted");
    }
}

#[test]
fn validate_url_rejects_non_http_schemes() {
    for u in ["file:///etc/passwd", "javascript:alert(1)", "ftp://x", "not a url"] {
        let err = validate_url(u).unwrap_err();
        assert!(!err.to_string().is_empty());
    }
}

#[test]
fn text_expression_embeds_selector_safely() {
    // A selector containing a quote must be JSON-escaped, not interpolated, so it cannot break
    // out of the string literal.
    let expr = text_expression(Some("div[data-x=\"y\"]"));
    assert!(expr.contains("\\\"y\\\""));
    assert!(expr.contains("innerText"));
}

#[test]
fn text_expression_defaults_to_body() {
    let expr = text_expression(None);
    assert!(expr.contains("document.body"));
    assert!(expr.contains("innerText"));
}

#[test]
fn html_expression_uses_outer_html() {
    let expr = html_expression("#main");
    assert!(expr.contains("#main"));
    assert!(expr.contains("outerHTML"));
}

#[test]
fn describe_invocation_defaults_to_content() {
    let tool = RetrieveWebpage::new();
    let desc = tool.describe_invocation(&page("https://example.com"));
    assert!(desc.contains("content"));
    assert!(desc.contains("https://example.com"));
}

#[test]
fn describe_invocation_includes_selector_and_output() {
    let tool = RetrieveWebpage::new();
    let args = RetrieveWebpageArgs {
        url: "https://example.com".to_string(),
        action: Some(WebpageAction::Screenshot),
        selector: Some("#main".to_string()),
        output_path: Some("shot.png".to_string()),
        ..RetrieveWebpageArgs::default()
    };
    let desc = tool.describe_invocation(&args);
    assert!(desc.contains("screenshot"));
    assert!(desc.contains("#main"));
    assert!(desc.contains("shot.png"));
}

#[test]
fn extract_text_handles_string_and_absent_value() {
    assert_eq!(extract_text(&Json::Text("hello".to_string())), "hello");
    // Non-string / null values must degrade to an empty string.
    assert_eq!(extract_text(&Json::Null), "");
    assert_eq!(extract_text(&Json::Number("42".to_string())), "");
    assert_eq!(remote_text(&None), "");
    assert_eq!(remote_text(&Some(Json::Text("x".to_string()))), "x");
}

#[test]
fn preferred_browsers_come_first() {
    let dirs = vec!["/a".to_string(), "/b".to_string()];
    let found = browser_candidates(Some("/my/chromium".to_string()), None, &dirs, HostOs::Other);
    assert_eq!(found[0], "/my/chromium");
    let chromium = found.iter().position(|p| p == "/b/chromium").unwrap();
    let chrome = found.iter().position(|p| p == "/a/google-chrome").unwrap();
    assert!(chromium < chrome, "{found:?}");
}

#[test]
fn a_launch_has_its_defaults() {
    let plan = plan_launch(&page(" https://example.com ")).unwrap();
    assert_eq!(plan.url, "https://example.com");
    assert!(plan.width > 0 && plan.height > 0 && plan.timeout_ms > 0);
    assert!(plan_launch(&page("ftp://example.com")).is_err());
    assert!(plan_launch(&page("")).is_err());
}

#[test]
fn each_action_has_its_capture() {
    let mut args = page("https://example.com");
    assert!(matches!(plan_capture(&args), Ok(Capture::PageHtml)));
    args.action = Some(WebpageAction::Text);
    assert!(matches!(plan_capture(&args), Ok(Capture::PageText(_))));
    args.action = Some(WebpageAction::Screenshot);
    args.full_page = Some(true);
    assert!(matches!(plan_capture(&args), Ok(Capture::PageShot(true))));
    args.selector = Some("#a".to_string());
    assert!(matches!(plan_capture(&args), Ok(Capture::ElementShot(s)) if s == "#a"));
    args.action = Some(WebpageAction::Pdf);
    assert_eq!(
        plan_capture(&args).unwrap_err().to_string(),
        "pdf action requires output_path so the binary can be saved"
    );
    args.output_path = Some("a.pdf".to_string());
    assert!(matches!(plan_capture(&args), Ok(Capture::PagePdf(p)) if p == "a.pdf"));
}

/// Runs a call on a browser that does everything it is told and captures this.
fn run(args: RetrieveWebpageArgs, captured: WebEvent) -> (WebOutput, Vec<String>) {
    let mut run = begin_retrieval(args, Some("/w".to_string())).unwrap();
    let mut captured = Some(captured);
    let mut done: Vec<String> = Vec::new();
    let mut event = WebEvent::Fine;
    let mut first = true;
    loop {
        let step = if first { WebStep::FindBrowser } else { run.advance(event) };
        first = false;
        event = match step {
            WebStep::Capture(_) => {
                done.push("capture".to_string());
                captured.take().unwrap()
            }
            WebStep::Save(path, bytes) => {
                done.push(format!("save {path} {}", bytes.len()));
                WebEvent::Fine
            }
            WebStep::Finish(result) => return (result.unwrap(), done),
            WebStep::FindBrowser => {
                done.push("find".to_string());
                WebEvent::Fine
            }
            WebStep::Launch(_, _) => {
                done.push("launch".to_string());
                WebEvent::Fine
            }
            WebStep::OpenTab => {
                done.push("tab".to_string());
                WebEvent::Fine
            }
            WebStep::Navigate(url, _) => {
                done.push(format!("go {url}"));
                WebEvent::Fine
            }
            WebStep::AwaitLoad => {
                done.push("load".to_string());
                WebEvent::Fine
            }
            WebStep::Settle(ms) => {
                done.push(format!("settle {ms}"));
                WebEvent::Fine
            }
        };
    }
}

#[test]
fn a_page_is_retrieved_step_by_step() {
    let mut args = page("https://example.com");
    args.wait_ms = Some(20);
    let (out, done) = run(args, WebEvent::Content("<html></html>".to_string()));
    assert_eq!(out.text, "<html></html>");
    assert!(out.image.is_none());
    assert_eq!(
        done,
        vec!["find", "launch", "tab", "go https://example.com", "load", "settle 20", "capture"]
    );
}

#[test]
fn a_pdf_is_saved_where_it_was_wanted() {
    let mut args = page("https://example.com");
    args.action = Some(WebpageAction::Pdf);
    args.output_path = Some("a.pdf".to_string());
    let (out, done) = run(args, WebEvent::Bytes(vec![1; 2048]));
    assert_eq!(out.text, "saved PDF (2 KiB) to /w/a.pdf");
    assert_eq!(done.last().map(|s| s.as_str()), Some("save /w/a.pdf 2048"));
}

#[test]
fn a_screenshot_carries_its_image() {
    let mut png: Vec<u8> = Vec::new();
    let img = image::DynamicImage::new_rgb8(5, 4);
    img.write_to(&mut std::io::Cursor::new(&mut png), image::ImageFormat::Png).unwrap();
    let shot = finish_screenshot("https://example.com", png.clone(), None);
    assert!(shot.text.starts_with("captured screenshot (5x4, PNG, "), "{}", shot.text);
    assert_eq!((shot.image.width, shot.image.height), (5, 4));
    assert_eq!(shot.image.data, png);
    let mut args = page("https://example.com");
    args.action = Some(WebpageAction::Screenshot);
    let (out, _) = run(args, WebEvent::Bytes(png));
    assert_eq!(out.image.unwrap().width, 5);
}

#[test]
fn a_failure_ends_the_retrieval() {
    let mut run = begin_retrieval(page("https://example.com"), None).unwrap();
    assert!(matches!(run.advance(WebEvent::Fine), WebStep::Launch(_, _)));
    match run.advance(WebEvent::Failed("no display".to_string())) {
        WebStep::Finish(Err(e)) => {
            assert_eq!(e.to_string(), "failed to launch headless browser: no display")
        }
        _ => panic!("a failure must end the call"),
    }
    assert_eq!(
        stage_error(&WebStage::OpenTab, "x").to_string(),
        "failed to open a tab: x"
    );
    assert_eq!(finish_pdf(512, "/a.pdf"), "saved PDF (512 B) to /a.pdf");
}

#[test]
fn a_saved_screenshot_is_the_one_that_was_captured() {
    let mut png: Vec<u8> = Vec::new();
    let img = image::DynamicImage::new_rgb8(5, 4);
    img.write_to(&mut std::io::Cursor::new(&mut png), image::ImageFormat::Png).unwrap();
    let mut args = page("https://example.com");
    args.action = Some(WebpageAction::Screenshot);
    args.output_path = Some("a.png".to_string());
    let (out, done) = run(args, WebEvent::Bytes(png.clone()));
    assert!(out.text.starts_with("captured screenshot (5x4, PNG, "), "{}", out.text);
    assert!(out.text.ends_with("; saved to /w/a.png"), "{}", out.text);
    assert_eq!(out.image.unwrap().data, png);
    assert_eq!(done.last(), Some(&format!("save /w/a.png {}", png.len())));
}

#[test]
fn an_image_belongs_to_its_own_call() {
    let png = |w: u32| {
        let mut out: Vec<u8> = Vec::new();
        let img = image::DynamicImage::new_rgb8(w, 4);
        img.write_to(&mut std::io::Cursor::new(&mut out), image::ImageFormat::Png).unwrap();
        out
    };
    let shot = |url: &str, bytes: Vec<u8>| {
        let mut args = page(url);
        args.action = Some(WebpageAction::Screenshot);
        run(args, WebEvent::Bytes(bytes)).0
    };
    let tool = RetrieveWebpage::new();
    let a = shot("https://a.example", png(5));
    let b = shot("https://b.example", png(6));
    for _ in 0..2 {
        let image = tool.extract_image(&a).unwrap();
        assert_eq!((image.width, image.data), (5, png(5)));
        assert_eq!(image.alt.as_deref(), Some("Screenshot of https://a.example"));
    }
    assert_eq!(tool.extract_image(&b).unwrap().width, 6);
    let html = run(page("https://c.example"), WebEvent::Content("x".to_string())).0;
    assert!(tool.extract_image(&html).is_none());
}
