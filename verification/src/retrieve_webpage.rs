//! `retrieve_webpage`: which browser is looked for, what it is told to do, and what is made of its
//! answers.
//!
//! The browser is driven elsewhere: a plan says what to open and what to capture, and each answer
//! is finished here.

use crate::encoding::{decode_image_dimensions, human_size};
use crate::encoding;
use crate::error::{ToolExecError, tool_error};
use crate::image_gen::{PreparedImage, note};
use crate::image_gen;
use crate::json::{Json, json_string};
use crate::json;
use crate::paths::join_path;
use crate::paths;
use crate::sanitize;
use crate::text::{push_decimal, trim};
use crate::text;
use crate::urls::{is_web_scheme, parse_scheme};
use crate::urls;
use vstd::prelude::*;
use vstd::string::*;

verus! {

/// Milliseconds that a page has to load where no other number is asked for.
pub const DEFAULT_TIMEOUT_MS: u64 = 30000;

/// What is to be had of a page.
#[derive(Debug, Clone, Copy, PartialEq, Eq, Structural)]
pub enum WebpageAction {
    /// Its HTML.
    Content,
    /// Its text.
    Text,
    /// A picture of it.
    Screenshot,
    /// A PDF of it.
    Pdf,
}

/// The name of an action.
pub open spec fn action_name(a: WebpageAction) -> Seq<char> {
    match a {
        WebpageAction::Content => "content"@,
        WebpageAction::Text => "text"@,
        WebpageAction::Screenshot => "screenshot"@,
        WebpageAction::Pdf => "pdf"@,
    }
}

impl WebpageAction {
    /// The name of the action.
    pub fn as_str(&self) -> (r: &'static str)
        ensures
            r@ == action_name(*self),
    {
        match self {
            WebpageAction::Content => "content",
            WebpageAction::Text => "text",
            WebpageAction::Screenshot => "screenshot",
            WebpageAction::Pdf => "pdf",
        }
    }
}

/// Arguments of `retrieve_webpage`.
#[derive(Debug)]
pub struct RetrieveWebpageArgs {
    pub url: String,
    pub action: Option<WebpageAction>,
    /// Milliseconds to wait once the page has loaded.
    pub wait_ms: Option<u64>,
    pub timeout_ms: Option<u64>,
    pub width: Option<u32>,
    pub height: Option<u32>,
    /// Whether a picture shows all of the page.
    pub full_page: Option<bool>,
    /// The part of the page that is wanted.
    pub selector: Option<String>,
    /// Where a picture or a PDF is saved.
    pub output_path: Option<String>,
}

impl Default for RetrieveWebpageArgs {
    fn default() -> (r: Self)
        ensures
            r.url@.len() == 0,
            r.action is None,
            r.wait_ms is None,
            r.timeout_ms is None,
            r.width is None,
            r.height is None,
            r.full_page is None,
            r.selector is None,
            r.output_path is None,
    {
        RetrieveWebpageArgs {
            url: String::new(),
            action: None,
            wait_ms: None,
            timeout_ms: None,
            width: None,
            height: None,
            full_page: None,
            selector: None,
            output_path: None,
        }
    }
}

/// The system that browsers are looked for on.
#[derive(Debug, Clone, Copy, PartialEq, Eq, Structural)]
pub enum HostOs {
    MacOs,
    Windows,
    Other,
}

/// Names of browsers, the preferred ones first.
pub open spec fn candidate_names() -> Seq<Seq<char>> {
    seq![
        "chromium"@,
        "chromium-browser"@,
        "google-chrome"@,
        "google-chrome-stable"@,
        "google-chrome-beta"@,
        "google-chrome-unstable"@,
        "chrome"@,
        "microsoft-edge"@,
        "brave-browser"@,
    ]
}

/// Names of browsers, the preferred ones first.
fn browser_names() -> (v: Vec<String>)
    ensures
        text::views(v@) == candidate_names(),
{
    let mut v: Vec<String> = Vec::new();
    v.push("chromium".to_owned());
    v.push("chromium-browser".to_owned());
    v.push("google-chrome".to_owned());
    v.push("google-chrome-stable".to_owned());
    v.push("google-chrome-beta".to_owned());
    v.push("google-chrome-unstable".to_owned());
    v.push("chrome".to_owned());
    v.push("microsoft-edge".to_owned());
    v.push("brave-browser".to_owned());
    assert(text::views(v@) =~= candidate_names());
    v
}

/// Where browsers are installed on a system.
pub open spec fn known_paths(os: HostOs) -> Seq<Seq<char>> {
    match os {
        HostOs::MacOs => seq![
            "/Applications/Chromium.app/Contents/MacOS/Chromium"@,
            "/Applications/Google Chrome.app/Contents/MacOS/Google Chrome"@,
            "/Applications/Microsoft Edge.app/Contents/MacOS/Microsoft Edge"@,
        ],
        HostOs::Windows => seq![
            "C:/Program Files/Chromium/Application/chrome.exe"@,
            "C:/Program Files/Google/Chrome/Application/chrome.exe"@,
            "C:/Program Files (x86)/Google/Chrome/Application/chrome.exe"@,
            "C:/Program Files (x86)/Microsoft/Edge/Application/msedge.exe"@,
        ],
        HostOs::Other => Seq::empty(),
    }
}

/// Where browsers are installed on a system.
fn installed_paths(os: HostOs) -> (v: Vec<String>)
    ensures
        text::views(v@) == known_paths(os),
{
    let mut v: Vec<String> = Vec::new();
    match os {
        HostOs::MacOs => {
            v.push("/Applications/Chromium.app/Contents/MacOS/Chromium".to_owned());
            v.push("/Applications/Google Chrome.app/Contents/MacOS/Google Chrome".to_owned());
            v.push("/Applications/Microsoft Edge.app/Contents/MacOS/Microsoft Edge".to_owned());
        },
        HostOs::Windows => {
            v.push("C:/Program Files/Chromium/Application/chrome.exe".to_owned());
            v.push("C:/Program Files/Google/Chrome/Application/chrome.exe".to_owned());
            v.push("C:/Program Files (x86)/Google/Chrome/Application/chrome.exe".to_owned());
            v.push("C:/Program Files (x86)/Microsoft/Edge/Application/msedge.exe".to_owned());
        },
        HostOs::Other => {},
    }
    assert(text::views(v@) =~= known_paths(os));
    v
}

/// The places of a browser of one name in the directories of a search path.
pub open spec fn in_dirs(dirs: Seq<Seq<char>>, name: Seq<char>) -> Seq<Seq<char>> {
    Seq::new(dirs.len(), |i: int| paths::joined(dirs[i], name))
}

/// The places of browsers of several names, name by name.
pub open spec fn on_path(dirs: Seq<Seq<char>>, names: Seq<Seq<char>>) -> Seq<Seq<char>>
    decreases names.len(),
{
    if names.len() == 0 {
        Seq::empty()
    } else {
        on_path(dirs, names.drop_last()) + in_dirs(dirs, names.last())
    }
}

/// The value of an environment variable, where it is set.
pub open spec fn override_path(value: Option<String>) -> Seq<Seq<char>> {
    match value {
        Some(v) => seq![v@],
        None => Seq::empty(),
    }
}

/// All the places where a browser is looked for, in order: what the environment names, the names on
/// the search path, and where the system installs browsers.
pub open spec fn browser_places(
    chromium_bin: Option<String>,
    chrome_bin: Option<String>,
    dirs: Seq<Seq<char>>,
    os: HostOs,
) -> Seq<Seq<char>> {
    override_path(chromium_bin) + override_path(chrome_bin) + on_path(dirs, candidate_names())
        + known_paths(os)
}

fn append_texts(out: &mut Vec<String>, more: Vec<String>)
    ensures
        text::views(final(out)@) == text::views(old(out)@) + text::views(more@),
{
    let ghost start = text::views(out@);
    assert(start =~= start + text::views(more@).take(0));
    for i in 0..more.len()
        invariant
            text::views(out@) == start + text::views(more@).take(i as int),
    {
        let ghost before = text::views(out@);
        out.push(more[i].clone());
        assert(text::views(out@) =~= before.push(more@[i as int]@));
        assert(text::views(out@) =~= start + text::views(more@).take(i + 1));
    }
    assert(text::views(more@).take(more@.len() as int) =~= text::views(more@));
}

/// All the places where a browser is looked for, in order. The directories are those of the search
/// path.
pub fn browser_candidates(
    chromium_bin: Option<String>,
    chrome_bin: Option<String>,
    dirs: &Vec<String>,
    os: HostOs,
) -> (r: Vec<String>)
    ensures
        text::views(r@) == browser_places(chromium_bin, chrome_bin, text::views(dirs@), os),
{
    let mut out: Vec<String> = Vec::new();
    assert(text::views(out@) =~= Seq::empty());
    let ghost first = override_path(chromium_bin);
    let ghost second = override_path(chrome_bin);
    match chromium_bin {
        Some(v) => {
            out.push(v);
        },
        None => {},
    }
    assert(text::views(out@) =~= first);
    match chrome_bin {
        Some(v) => {
            out.push(v);
        },
        None => {},
    }
    assert(text::views(out@) =~= first + second);
    let names = browser_names();
    let ghost all = candidate_names();
    let ghost before = text::views(out@);
    assert(all.take(0) =~= Seq::<Seq<char>>::empty());
    assert(text::views(out@) =~= before + on_path(text::views(dirs@), all.take(0)));
    for k in 0..names.len()
        invariant
            all == candidate_names(),
            text::views(names@) == all,
            text::views(out@) == before + on_path(text::views(dirs@), all.take(k as int)),
    {
        let mut here: Vec<String> = Vec::new();
        let ghost wanted = in_dirs(text::views(dirs@), all[k as int]);
        assert(text::views(names@)[k as int] == names@[k as int]@);
        assert(text::views(here@) =~= wanted.take(0));
        for i in 0..dirs.len()
            invariant
                k < names@.len(),
                names@[k as int]@ == all[k as int],
                wanted == in_dirs(text::views(dirs@), all[k as int]),
                text::views(here@) == wanted.take(i as int),
        {
            let ghost so_far = text::views(here@);
            here.push(join_path(dirs[i].as_str(), names[k].as_str()));
            assert(text::views(here@) =~= so_far.push(wanted[i as int]));
            assert(text::views(here@) =~= wanted.take(i + 1));
        }
        assert(wanted.take(dirs@.len() as int) =~= wanted);
        append_texts(&mut out, here);
        assert(all.take(k + 1).drop_last() =~= all.take(k as int));
        assert(all.take(k + 1).last() == all[k as int]);
        assert(text::views(out@) =~= before + on_path(text::views(dirs@), all.take(k + 1)));
    }
    assert(all.take(all.len() as int) =~= all);
    append_texts(&mut out, installed_paths(os));
    assert(text::views(out@) =~= browser_places(chromium_bin, chrome_bin, text::views(dirs@), os));
    out
}

/// The error where no browser is found.
pub fn no_browser_error() -> (e: ToolExecError)
    ensures
        e@
            == "no chromium or chrome binary found on PATH (or in standard locations). Install Chromium/Chrome, or set CHROMIUM_BIN / CHROME_BIN to its path"@,
{
    tool_error(
        "no chromium or chrome binary found on PATH (or in standard locations). Install Chromium/Chrome, or set CHROMIUM_BIN / CHROME_BIN to its path",
    )
}

/// Why a browser is not sent to a URL, where `scheme` is what the URL was read as.
pub open spec fn url_fault(url: Seq<char>, scheme: Result<Seq<char>, Seq<char>>) -> Option<
    Seq<char>,
> {
    match scheme {
        Err(e) => Some("invalid URL '"@ + url + "': "@ + e),
        Ok(s) => if urls::web_scheme(s) {
            None
        } else {
            Some("unsupported URL scheme '"@ + s + "'; only http/https are allowed"@)
        },
    }
}

/// Checks a URL that was read as `scheme`.
pub fn check_scheme(url: &str, scheme: Result<String, String>) -> (r: Result<(), ToolExecError>)
    ensures
        match (url_fault(url@, crate::http::scheme_view(scheme)), r) {
            (None, Ok(_)) => true,
            (Some(m), Err(e)) => e@ == m,
            _ => false,
        },
{
    match scheme {
        Err(e) => {
            let mut m = "invalid URL '".to_owned();
            m.append(url);
            m.append("': ");
            m.append(e.as_str());
            Err(ToolExecError(m))
        },
        Ok(s) => if is_web_scheme(s.as_str()) {
            Ok(())
        } else {
            let mut m = "unsupported URL scheme '".to_owned();
            m.append(s.as_str());
            m.append("'; only http/https are allowed");
            Err(ToolExecError(m))
        },
    }
}

/// Checks that a URL is one of the web.
pub fn validate_url(url: &str) -> (r: Result<(), ToolExecError>)
    ensures
        match (url_fault(url@, urls::url_scheme(url@)), r) {
            (None, Ok(_)) => true,
            (Some(m), Err(e)) => e@ == m,
            _ => false,
        },
{
    check_scheme(url, parse_scheme(url))
}

/// How a browser is started and sent to a page.
#[derive(Debug)]
pub struct LaunchPlan {
    /// The URL without white space around it.
    pub url: String,
    pub width: u32,
    pub height: u32,
    pub timeout_ms: u64,
    /// Milliseconds to wait once the page has loaded, where there are any.
    pub settle_ms: Option<u64>,
}

/// Whether `p` is how the browser is started for `args`.
pub open spec fn launched(args: RetrieveWebpageArgs, p: LaunchPlan) -> bool {
    &&& p.url@ == text::trimmed(args.url@)
    &&& p.width == (match args.width {
        Some(w) => w,
        None => 1280,
    })
    &&& p.height == (match args.height {
        Some(h) => h,
        None => 800,
    })
    &&& p.timeout_ms == (match args.timeout_ms {
        Some(t) => t,
        None => DEFAULT_TIMEOUT_MS,
    })
    &&& p.settle_ms == (match args.wait_ms {
        Some(ms) => if ms > 0 {
            Some(ms)
        } else {
            None
        },
        None => None,
    })
}

/// Checks the URL of a call and plans how the browser is started.
pub fn plan_launch(args: &RetrieveWebpageArgs) -> (r: Result<LaunchPlan, ToolExecError>)
    ensures
        match (url_fault(text::trimmed(args.url@), urls::url_scheme(text::trimmed(args.url@))), r) {
            (None, Ok(p)) => launched(*args, p),
            (Some(m), Err(e)) => e@ == m,
            _ => false,
        },
{
    let url = trim(args.url.as_str());
    match validate_url(url.as_str()) {
        Ok(_) => {},
        Err(e) => {
            return Err(e);
        },
    }
    Ok(
        LaunchPlan {
            url,
            width: match args.width {
                Some(w) => w,
                None => 1280,
            },
            height: match args.height {
                Some(h) => h,
                None => 800,
            },
            timeout_ms: match args.timeout_ms {
                Some(t) => t,
                None => DEFAULT_TIMEOUT_MS,
            },
            settle_ms: match args.wait_ms {
                Some(ms) => if ms > 0 {
                    Some(ms)
                } else {
                    None
                },
                None => None,
            },
        },
    )
}

/// The script that gives the text of an element, or of the whole page.
pub open spec fn text_script(selector: Option<Seq<char>>) -> Seq<char> {
    match selector {
        Some(s) => "(() => { const e = document.querySelector("@ + json::json_quoted(s)
            + "); return e ? e.innerText : ''; })()"@,
        None => "(() => { const e = document.body; return e ? e.innerText : ''; })()"@,
    }
}

/// The script that gives the HTML of an element.
pub open spec fn html_script(selector: Seq<char>) -> Seq<char> {
    "(() => { const e = document.querySelector("@ + json::json_quoted(selector)
        + "); return e ? e.outerHTML : ''; })()"@
}

/// The script that gives the text of an element, or of the whole page.
pub fn text_expression(selector: Option<&str>) -> (r: String)
    ensures
        r@ == text_script(paths::opt_str(selector)),
{
    match selector {
        Some(s) => {
            let sel = match json_string(s) {
                Ok(q) => q,
                Err(_) => "\"body\"".to_owned(),
            };
            let mut out = "(() => { const e = document.querySelector(".to_owned();
            out.append(sel.as_str());
            out.append("); return e ? e.innerText : ''; })()");
            out
        },
        None => "(() => { const e = document.body; return e ? e.innerText : ''; })()".to_owned(),
    }
}

/// The script that gives the HTML of an element.
pub fn html_expression(selector: &str) -> (r: String)
    ensures
        r@ == html_script(selector@),
{
    let sel = match json_string(selector) {
        Ok(q) => q,
        Err(_) => "\"html\"".to_owned(),
    };
    let mut out = "(() => { const e = document.querySelector(".to_owned();
    out.append(sel.as_str());
    out.append("); return e ? e.outerHTML : ''; })()");
    out
}

/// What is captured of a page.
#[derive(Debug)]
pub enum Capture {
    /// The HTML of the whole page.
    PageHtml,
    /// The HTML that a script gives.
    ElementHtml(String),
    /// The text that a script gives.
    PageText(String),
    /// A picture of an element.
    ElementShot(String),
    /// A picture of the page, all of it or what is in view.
    PageShot(bool),
    /// A PDF, to be saved under this name.
    PagePdf(String),
}

/// Whether `c` is what is captured for `args`, whose action is `action`.
pub open spec fn captured(args: RetrieveWebpageArgs, action: WebpageAction, c: Capture) -> bool {
    match (action, args.selector, c) {
        (WebpageAction::Content, None, Capture::PageHtml) => true,
        (WebpageAction::Content, Some(s), Capture::ElementHtml(e)) => e@ == html_script(s@),
        (WebpageAction::Text, s, Capture::PageText(e)) => e@ == text_script(sanitize::opt_view(s)),
        (WebpageAction::Screenshot, Some(s), Capture::ElementShot(e)) => e@ == s@,
        (WebpageAction::Screenshot, None, Capture::PageShot(full)) => full == (match args.full_page {
            Some(b) => b,
            None => true,
        }),
        (WebpageAction::Pdf, _, Capture::PagePdf(p)) => args.output_path is Some && p@
            == args.output_path->0@,
        _ => false,
    }
}

/// The action of a call.
pub open spec fn chosen_action(args: RetrieveWebpageArgs) -> WebpageAction {
    match args.action {
        Some(a) => a,
        None => WebpageAction::Content,
    }
}

/// Plans what is captured once a page has loaded. A PDF has to be saved somewhere.
pub fn plan_capture(args: &RetrieveWebpageArgs) -> (r: Result<Capture, ToolExecError>)
    ensures
        match r {
            Ok(c) => captured(*args, chosen_action(*args), c),
            Err(e) => chosen_action(*args) == WebpageAction::Pdf && args.output_path is None && e@
                == "pdf action requires output_path so the binary can be saved"@,
        },
{
    let action = match args.action {
        Some(a) => a,
        None => WebpageAction::Content,
    };
    match action {
        WebpageAction::Content => match &args.selector {
            Some(s) => Ok(Capture::ElementHtml(html_expression(s.as_str()))),
            None => Ok(Capture::PageHtml),
        },
        WebpageAction::Text => {
            let expr = match &args.selector {
                Some(s) => text_expression(Some(s.as_str())),
                None => text_expression(None),
            };
            Ok(Capture::PageText(expr))
        },
        WebpageAction::Screenshot => match &args.selector {
            Some(s) => Ok(Capture::ElementShot(s.clone())),
            None => Ok(
                Capture::PageShot(
                    match args.full_page {
                        Some(b) => b,
                        None => true,
                    },
                ),
            ),
        },
        WebpageAction::Pdf => match &args.output_path {
            Some(p) => Ok(Capture::PagePdf(p.clone())),
            None => Err(tool_error("pdf action requires output_path so the binary can be saved")),
        },
    }
}

/// A step of driving the browser that can fail.
#[derive(Debug)]
pub enum WebStage {
    Launch,
    OpenTab,
    /// Going to a URL.
    Navigate(String),
    Load,
    ElementHtml,
    PageHtml,
    PageText,
    /// Looking for an element.
    FindElement(String),
    ElementShot,
    PageShot,
    PagePdf,
    CreateDir,
    /// Writing a file.
    Write(String),
}

/// What is said of a step that failed.
pub open spec fn stage_message(stage: WebStage, why: Seq<char>) -> Seq<char> {
    (match stage {
        WebStage::Launch => "failed to launch headless browser"@,
        WebStage::OpenTab => "failed to open a tab"@,
        WebStage::Navigate(url) => "navigation to "@ + url@ + " failed"@,
        WebStage::Load => "page never finished loading"@,
        WebStage::ElementHtml => "failed to extract HTML"@,
        WebStage::PageHtml => "failed to get page HTML"@,
        WebStage::PageText => "failed to extract text"@,
        WebStage::FindElement(sel) => "selector '"@ + sel@ + "' not found"@,
        WebStage::ElementShot => "failed to screenshot element"@,
        WebStage::PageShot => "failed to capture screenshot"@,
        WebStage::PagePdf => "failed to render PDF"@,
        WebStage::CreateDir => "failed to create output dir"@,
        WebStage::Write(path) => "failed to write '"@ + path@ + "'"@,
    }) + ": "@ + why
}

fn around(before: &str, middle: &str, after: &str) -> (r: String)
    ensures
        r@ == before@ + middle@ + after@,
{
    let mut s = before.to_owned();
    s.append(middle);
    s.append(after);
    s
}

/// The error of a step that failed.
pub fn stage_error(stage: &WebStage, why: &str) -> (e: ToolExecError)
    ensures
        e@ == stage_message(*stage, why@),
{
    let mut m = match stage {
        WebStage::Launch => "failed to launch headless browser".to_owned(),
        WebStage::OpenTab => "failed to open a tab".to_owned(),
        WebStage::Navigate(url) => around("navigation to ", url.as_str(), " failed"),
        WebStage::Load => "page never finished loading".to_owned(),
        WebStage::ElementHtml => "failed to extract HTML".to_owned(),
        WebStage::PageHtml => "failed to get page HTML".to_owned(),
        WebStage::PageText => "failed to extract text".to_owned(),
        WebStage::FindElement(sel) => around("selector '", sel.as_str(), "' not found"),
        WebStage::ElementShot => "failed to screenshot element".to_owned(),
        WebStage::PageShot => "failed to capture screenshot".to_owned(),
        WebStage::PagePdf => "failed to render PDF".to_owned(),
        WebStage::CreateDir => "failed to create output dir".to_owned(),
        WebStage::Write(path) => around("failed to write '", path.as_str(), "'"),
    };
    m.append(": ");
    m.append(why);
    ToolExecError(m)
}

/// The text of a value; nothing where it is no text.
pub open spec fn value_text(value: Json) -> Seq<char> {
    match value {
        Json::Text(s) => s@,
        _ => Seq::empty(),
    }
}

/// The text of a value.
pub fn extract_text(value: &Json) -> (r: String)
    ensures
        r@ == value_text(*value),
{
    match value {
        Json::Text(s) => s.clone(),
        _ => String::new(),
    }
}

/// The text that a script gave, where it gave anything.
pub fn remote_text(value: &Option<Json>) -> (r: String)
    ensures
        r@ == (match *value {
            Some(v) => value_text(v),
            None => Seq::empty(),
        }),
{
    match value {
        Some(v) => extract_text(v),
        None => String::new(),
    }
}

/// A picture of a page, and what is said of it.
#[derive(Debug)]
pub struct Screenshot {
    pub text: String,
    pub image: PreparedImage,
}

/// What is said of a picture of `dims`, of `size` and, where it was saved, of its place.
pub open spec fn screenshot_text(
    dims: (u32, u32),
    size: Seq<char>,
    saved: Option<Seq<char>>,
) -> Seq<char> {
    "captured screenshot ("@ + text::decimal(dims.0 as nat) + "x"@ + text::decimal(dims.1 as nat) + ", PNG, "@
        + size + ")"@ + (match saved {
        Some(p) => "; saved to "@ + p,
        None => Seq::empty(),
    })
}

/// The width and height of a picture; zero where they are not known.
pub open spec fn shown_dims(found: Option<(u32, u32)>) -> (u32, u32) {
    match found {
        Some(d) => d,
        None => (0u32, 0u32),
    }
}

/// What is made of a picture of a page. `saved` is where it was saved.
pub fn finish_screenshot(url: &str, bytes: Vec<u8>, saved: Option<&str>) -> (r: Screenshot)
    ensures
        ({
            let dims = shown_dims(encoding::image_size(bytes@));
            &&& r.text@ == screenshot_text(dims, encoding::binary_size(bytes@.len()), paths::opt_str(saved))
            &&& r.image.mime_type@ == "image/png"@
            &&& r.image.data@ == bytes@
            &&& r.image.width == dims.0
            &&& r.image.height == dims.1
            &&& sanitize::opt_view(r.image.alt) == Some("Screenshot of "@ + url@)
        }),
{
    let (width, height) = decode_image_dimensions(bytes.as_slice());
    let place = match saved {
        Some(p) => {
            let mut s = "; saved to ".to_owned();
            s.append(p);
            s
        },
        None => String::new(),
    };
    let mut text = "captured screenshot (".to_owned();
    push_decimal(&mut text, width as u64);
    text.append("x");
    push_decimal(&mut text, height as u64);
    text.append(", PNG, ");
    text.append(human_size(bytes.len() as u64).as_str());
    text.append(")");
    text.append(place.as_str());
    let mut alt = "Screenshot of ".to_owned();
    alt.append(url);
    Screenshot {
        text,
        image: PreparedImage {
            mime_type: "image/png".to_owned(),
            data: bytes,
            width,
            height,
            alt: Some(alt),
        },
    }
}

/// What is said of a PDF that was saved.
pub fn finish_pdf(len: u64, path: &str) -> (r: String)
    ensures
        r@ == "saved PDF ("@ + encoding::binary_size(len as nat) + ") to "@ + path@,
{
    let mut out = "saved PDF (".to_owned();
    out.append(human_size(len).as_str());
    out.append(") to ");
    out.append(path);
    out
}

/// The tool itself.
pub struct RetrieveWebpage {}

/// The text on a call.
pub open spec fn webpage_invocation(args: RetrieveWebpageArgs) -> Seq<char> {
    "Retrieving web page ("@ + action_name(chosen_action(args)) + "). URL: "@ + args.url@ + "."@
        + image_gen::noted(" Selector: "@, sanitize::opt_view(args.selector), "."@) + image_gen::noted(
        " Output: "@,
        sanitize::opt_view(args.output_path),
        "."@,
    )
}

impl RetrieveWebpage {
    /// The tool.
    pub fn new() -> (t: Self)
        ensures
            t == (RetrieveWebpage {  }),
    {
        RetrieveWebpage {  }
    }

    /// A short text on a call.
    pub fn describe_invocation(&self, args: &RetrieveWebpageArgs) -> (r: String)
        ensures
            r@ == webpage_invocation(*args),
    {
        let action = match args.action {
            Some(a) => a,
            None => WebpageAction::Content,
        };
        let selector = match &args.selector {
            Some(s) => note(" Selector: ", Some(s.as_str()), "."),
            None => String::new(),
        };
        let output = match &args.output_path {
            Some(p) => note(" Output: ", Some(p.as_str()), "."),
            None => String::new(),
        };
        let mut out = "Retrieving web page (".to_owned();
        out.append(action.as_str());
        out.append("). URL: ");
        out.append(args.url.as_str());
        out.append(".");
        out.append(selector.as_str());
        out.append(output.as_str());
        out
    }
}

/// The selector of a script is one text of JSON: the first quote of the script opens it, and it is
/// closed only where the selector ends.
pub proof fn law_selector_stays_in_its_quotes(selector: Seq<char>)
    ensures
        ({
            let before = "(() => { const e = document.querySelector("@;
            let s = html_script(selector);
            let t = text_script(Some(selector));
            &&& s.skip(before.len() as int)[0] == '"'
            &&& json::literal_end(s.skip(before.len() as int), 1) == json::json_quoted(selector).len() - 1
            &&& t.skip(before.len() as int)[0] == '"'
            &&& json::literal_end(t.skip(before.len() as int), 1) == json::json_quoted(selector).len() - 1
        }),
{
    let before = "(() => { const e = document.querySelector("@;
    let html_end = "); return e ? e.outerHTML : ''; })()"@;
    let text_end = "); return e ? e.innerText : ''; })()"@;
    let s = html_script(selector);
    let t = text_script(Some(selector));
    assert(s.skip(before.len() as int) =~= json::json_quoted(selector) + html_end);
    assert(t.skip(before.len() as int) =~= json::json_quoted(selector) + text_end);
    json::law_quoted_text_is_closed(selector, html_end);
    json::law_quoted_text_is_closed(selector, text_end);
}

/// A browser of a preferred name, in whatever directory, is looked for before any browser of a name
/// less preferred.
pub proof fn law_preferred_names_come_first(
    dirs: Seq<Seq<char>>,
    a: int,
    b: int,
    i: int,
    j: int,
)
    requires
        0 <= a < b < candidate_names().len(),
        0 <= i < dirs.len(),
        0 <= j < dirs.len(),
    ensures
        ({
            let places = on_path(dirs, candidate_names());
            let p = a * dirs.len() + i;
            let q = b * dirs.len() + j;
            &&& p < q
            &&& 0 <= p < places.len()
            &&& q < places.len()
            &&& places[p] == paths::joined(dirs[i], candidate_names()[a])
            &&& places[q] == paths::joined(dirs[j], candidate_names()[b])
        }),
{
    let names = candidate_names();
    lemma_on_path_at(dirs, names, a, i);
    lemma_on_path_at(dirs, names, b, j);
    let n = dirs.len() as int;
    assert(a * n + n <= b * n) by (nonlinear_arith)
        requires
            a + 1 <= b,
            n >= 0,
    ;
}

proof fn lemma_on_path_at(dirs: Seq<Seq<char>>, names: Seq<Seq<char>>, a: int, i: int)
    requires
        0 <= a < names.len(),
        0 <= i < dirs.len(),
    ensures
        on_path(dirs, names).len() == names.len() * dirs.len(),
        0 <= a * dirs.len() + i < on_path(dirs, names).len(),
        on_path(dirs, names)[a * dirs.len() + i] == paths::joined(dirs[i], names[a]),
    decreases names.len(),
{
    let n = dirs.len() as int;
    let front = names.drop_last();
    lemma_on_path_len(dirs, names);
    lemma_on_path_len(dirs, front);
    let k = names.len() as int;
    assert(k * n == (k - 1) * n + n) by (nonlinear_arith);
    assert(0 <= a * n) by (nonlinear_arith)
        requires
            0 <= a,
            0 <= n,
    ;
    if a == k - 1 {
        assert(on_path(dirs, names)[a * n + i] == in_dirs(dirs, names.last())[i]);
    } else {
        lemma_on_path_at(dirs, front, a, i);
        assert(a * n + n <= (k - 1) * n) by (nonlinear_arith)
            requires
                a + 1 <= k - 1,
                0 <= n,
        ;
        assert(on_path(dirs, names)[a * n + i] == on_path(dirs, front)[a * n + i]);
    }
}

proof fn lemma_on_path_len(dirs: Seq<Seq<char>>, names: Seq<Seq<char>>)
    ensures
        on_path(dirs, names).len() == names.len() * dirs.len(),
    decreases names.len(),
{
    let n = dirs.len() as int;
    let k = names.len() as int;
    if k > 0 {
        lemma_on_path_len(dirs, names.drop_last());
        assert(k * n == (k - 1) * n + n) by (nonlinear_arith);
    } else {
        assert(0 * n == 0) by (nonlinear_arith);
    }
}

} // verus!
