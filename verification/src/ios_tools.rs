//! `open_url`, `notify`, `clipboard_write` and `clipboard_read`: what is checked before the host is
//! asked, and what is made of its replies.

use crate::error::{ToolExecError, tool_error, tool_error_with};
use crate::http;
use crate::ios_bridge::{CancelFlags, MockBridge, MockView, run_bridge_tool};
use crate::ios_bridge;
use crate::json::{Json, JsonView, json_string};
use crate::json;
use crate::sanitize::is_control;
use crate::sanitize;
use crate::schema::{list_of, object_of};
use crate::text::{chars_of, push_decimal, same};
use crate::text;
use crate::urls::parse_scheme;
use crate::urls;
use vstd::prelude::*;
use vstd::string::*;

verus! {

/// The group of these tools.
pub const IOS_GROUP: &'static str = "ios";

/// Characters of a title that are accepted at most.
pub const NOTIFY_TITLE_MAX: usize = 200;

/// Characters of a body that are accepted at most.
pub const NOTIFY_BODY_MAX: usize = 2000;

/// Arguments of `open_url`.
#[derive(Debug)]
pub struct OpenUrlArgs {
    pub url: String,
}

/// Arguments of `notify`.
#[derive(Debug)]
pub struct NotifyArgs {
    pub title: String,
    pub body: String,
}

/// Arguments of `clipboard_write`.
#[derive(Debug)]
pub struct ClipboardWriteArgs {
    pub text: String,
}

/// Whether a text holds a control character.
pub open spec fn holds_control(s: Seq<char>) -> bool {
    exists|i: int| 0 <= i < s.len() && sanitize::control(#[trigger] s[i])
}

fn has_control(s: &str) -> (r: bool)
    ensures
        r == holds_control(s@),
{
    let cs = chars_of(s);
    for i in 0..cs.len()
        invariant
            cs@ == s@,
            forall|j: int| 0 <= j < i ==> !sanitize::control(#[trigger] s@[j]),
    {
        if is_control(cs[i]) {
            assert(sanitize::control(s@[i as int]));
            return true;
        }
    }
    false
}

/// A text as a debug rendering shows it.
pub uninterp spec fn debug_quoted(s: Seq<char>) -> Seq<char>;

/// A text as a debug rendering shows it.
///
/// Calls the `Debug` implementation of `str`; its rendering is named.
#[verifier::external_body]
fn quote_debug(s: &str) -> (r: String)
    ensures
        r@ == debug_quoted(s@),
{
    format!("{s:?}")
}

/// Whether the first colon of a URL is followed by two slashes, as it is where a host is named.
pub open spec fn names_host(url: Seq<char>) -> bool {
    exists|i: int|
        {
            &&& 0 <= i < url.len() - 2
            &&& #[trigger] url[i] == ':'
            &&& url[i + 1] == '/'
            &&& url[i + 2] == '/'
            &&& forall|j: int| 0 <= j < i ==> #[trigger] url[j] != ':'
        }
}

fn has_host(url: &str) -> (r: bool)
    ensures
        r == names_host(url@),
{
    let cs = chars_of(url);
    for i in 0..cs.len()
        invariant
            cs@ == url@,
            forall|j: int| 0 <= j < i ==> #[trigger] url@[j] != ':',
    {
        if cs[i] == ':' {
            assert(url@[i as int] == ':');
            let follows = cs.len() - i > 2 && cs[i + 1] == '/' && cs[i + 2] == '/';
            assert(follows == names_host(url@)) by {
                if names_host(url@) {
                    let k = choose|k: int|
                        {
                            &&& 0 <= k < url@.len() - 2
                            &&& #[trigger] url@[k] == ':'
                            &&& url@[k + 1] == '/'
                            &&& url@[k + 2] == '/'
                            &&& forall|j: int| 0 <= j < k ==> #[trigger] url@[j] != ':'
                        };
                    assert(k == i);
                }
            }
            return follows;
        }
    }
    false
}

/// Why a URL is not opened, where `scheme` is what it was read as and `shown` is that scheme as a
/// debug rendering shows it.
pub open spec fn open_url_fault(
    url: Seq<char>,
    scheme: Result<Seq<char>, Seq<char>>,
    shown: Seq<char>,
) -> Option<Seq<char>> {
    if holds_control(url) {
        Some("open_url: the URL must not contain control characters"@)
    } else {
        match scheme {
            Err(e) => Some(
                "open_url only supports https and mailto URLs (not a valid URL: "@ + e + ")"@,
            ),
            Ok(s) => if s == "https"@ && !names_host(url) {
                Some(
                    "open_url only supports https and mailto URLs (not a valid URL: no // behind https:)"@,
                )
            } else if s == "https"@ || s == "mailto"@ {
                None
            } else {
                Some("open_url only supports https and mailto URLs (got scheme: "@ + shown + ")"@)
            },
        }
    }
}

/// The scheme of a URL that has one.
pub open spec fn scheme_or_empty(scheme: Result<Seq<char>, Seq<char>>) -> Seq<char> {
    match scheme {
        Ok(s) => s,
        Err(_) => Seq::empty(),
    }
}

/// Checks a URL that was read as `scheme`.
pub fn check_open_url(url: &str, scheme: Result<String, String>) -> (r: Result<(), ToolExecError>)
    ensures
        match (
            open_url_fault(
                url@,
                http::scheme_view(scheme),
                debug_quoted(scheme_or_empty(http::scheme_view(scheme))),
            ),
            r,
        ) {
            (None, Ok(_)) => true,
            (Some(m), Err(e)) => e@ == m,
            _ => false,
        },
{
    if has_control(url) {
        return Err(tool_error("open_url: the URL must not contain control characters"));
    }
    match scheme {
        Err(e) => {
            let mut m =
                "open_url only supports https and mailto URLs (not a valid URL: ".to_owned();
            m.append(e.as_str());
            m.append(")");
            Err(ToolExecError(m))
        },
        Ok(s) => {
            if same(s.as_str(), "https") && !has_host(url) {
                Err(
                    tool_error(
                        "open_url only supports https and mailto URLs (not a valid URL: no // behind https:)",
                    ),
                )
            } else if same(s.as_str(), "https") || same(s.as_str(), "mailto") {
                Ok(())
            } else {
                let mut m = "open_url only supports https and mailto URLs (got scheme: ".to_owned();
                m.append(quote_debug(s.as_str()).as_str());
                m.append(")");
                Err(ToolExecError(m))
            }
        },
    }
}

/// Why the URL of a call is not opened.
pub open spec fn url_refusal(url: Seq<char>) -> Option<Seq<char>> {
    open_url_fault(url, urls::url_scheme(url), debug_quoted(scheme_or_empty(urls::url_scheme(url))))
}

impl OpenUrlArgs {
    /// Checks the URL: no control characters, a scheme that may be opened, and a host behind https.
    pub fn validate(&self) -> (r: Result<(), ToolExecError>)
        ensures
            match (url_refusal(self.url@), r) {
                (None, Ok(_)) => true,
                (Some(m), Err(e)) => e@ == m,
                _ => false,
            },
    {
        check_open_url(self.url.as_str(), parse_scheme(self.url.as_str()))
    }
}

/// The arguments of `open_url` as JSON.
pub open spec fn open_url_json(url: Seq<char>) -> Seq<char> {
    "{\"url\":"@ + json::json_quoted(url) + "}"@
}

/// The arguments of `notify` as JSON.
pub open spec fn notify_json(title: Seq<char>, body: Seq<char>) -> Seq<char> {
    "{\"body\":"@ + json::json_quoted(body) + ",\"title\":"@ + json::json_quoted(title) + "}"@
}

/// The arguments of `clipboard_write` as JSON.
pub open spec fn clipboard_json(text: Seq<char>) -> Seq<char> {
    "{\"text\":"@ + json::json_quoted(text) + "}"@
}

fn quoted(text: &str) -> (r: Result<String, ToolExecError>)
    ensures
        r matches Ok(s) && s@ == json::json_quoted(text@),
{
    match json_string(text) {
        Ok(s) => Ok(s),
        Err(e) => Err(tool_error_with("failed to encode ios tool arguments: ", e.as_str())),
    }
}

fn one_field(before: &str, value: &str) -> (r: Result<String, ToolExecError>)
    ensures
        r matches Ok(s) && s@ == before@ + json::json_quoted(value@) + "}"@,
{
    match quoted(value) {
        Ok(q) => {
            let mut s = before.to_owned();
            s.append(q.as_str());
            s.append("}");
            Ok(s)
        },
        Err(e) => Err(e),
    }
}

/// A truth value in a reply; true where it is not there.
pub open spec fn verdict(reply: JsonView, name: Seq<char>) -> bool {
    match reply {
        JsonView::Object(m) => match json::lookup(m, name) {
            Some(JsonView::Bool(b)) => b,
            _ => true,
        },
        _ => true,
    }
}

fn read_verdict(reply: &Json, name: &str) -> (b: bool)
    ensures
        b == verdict(reply@, name@),
{
    match reply.get(name) {
        Some(v) => match v.as_bool() {
            Some(b) => b,
            None => true,
        },
        None => true,
    }
}

/// What is said of a URL that the host was given.
pub fn open_url_result(reply: &Json) -> (r: String)
    ensures
        r@ == (if verdict(reply@, "opened"@) {
            "URL opened."@
        } else {
            "The system declined to open the URL."@
        }),
{
    if read_verdict(reply, "opened") {
        "URL opened.".to_owned()
    } else {
        "The system declined to open the URL.".to_owned()
    }
}

/// What is said of a notification that the host was given.
pub fn notify_result(reply: &Json) -> (r: String)
    ensures
        r@ == (if verdict(reply@, "scheduled"@) {
            "Notification posted."@
        } else {
            "The notification could not be scheduled (the system declined)."@
        }),
{
    if read_verdict(reply, "scheduled") {
        "Notification posted.".to_owned()
    } else {
        "The notification could not be scheduled (the system declined).".to_owned()
    }
}

/// The text in a reply; nothing where there is none.
pub open spec fn reply_text(reply: JsonView) -> Seq<char> {
    match reply {
        JsonView::Object(m) => match json::lookup(m, "text"@) {
            Some(JsonView::Text(t)) => t,
            _ => Seq::empty(),
        },
        _ => Seq::empty(),
    }
}

/// The text that the clipboard holds.
pub fn clipboard_result(reply: &Json) -> (r: String)
    ensures
        r@ == reply_text(reply@),
{
    match reply.get("text") {
        Some(v) => match v.as_str() {
            Some(t) => t.to_owned(),
            None => String::new(),
        },
        None => String::new(),
    }
}

/// What a call on a scripted bridge gives, where `say` is what is said of a reply.
pub open spec fn said(
    v: MockView,
    tool_name: Seq<char>,
    timeout: u64,
    flags: CancelFlags,
    say: spec_fn(JsonView) -> Seq<char>,
    r: Result<String, ToolExecError>,
) -> bool {
    if flags.at_entry {
        r matches Err(e) && e@ == "request was canceled"@
    } else {
        match (ios_bridge::settled(ios_bridge::scripted_reply(v), timeout, flags.before_wait, flags.at_reply), r) {
            (Ok(a), Ok(s)) => s@ == say(a@),
            (Err(e), Err(t)) => t@ == ios_bridge::tool_message(tool_name, e),
            _ => false,
        }
    }
}

/// What is said of a reply to `open_url`.
pub open spec fn say_opened() -> spec_fn(JsonView) -> Seq<char> {
    |v: JsonView|
        if verdict(v, "opened"@) {
            "URL opened."@
        } else {
            "The system declined to open the URL."@
        }
}

/// What is said of a reply to `notify`.
pub open spec fn say_posted() -> spec_fn(JsonView) -> Seq<char> {
    |v: JsonView|
        if verdict(v, "scheduled"@) {
            "Notification posted."@
        } else {
            "The notification could not be scheduled (the system declined)."@
        }
}

/// What is said of a reply to `clipboard_write`.
pub open spec fn say_written() -> spec_fn(JsonView) -> Seq<char> {
    |v: JsonView| "Clipboard updated."@
}

/// What is said of a reply to `clipboard_read`.
pub open spec fn say_read() -> spec_fn(JsonView) -> Seq<char> {
    |v: JsonView| reply_text(v)
}

/// Opens a URL through a scripted bridge; one that is refused never reaches it.
pub fn execute_open_url(
    args: &OpenUrlArgs,
    bridge: &mut MockBridge,
    timeout: u64,
    flags: CancelFlags,
) -> (r: Result<String, ToolExecError>)
    ensures
        match url_refusal(args.url@) {
            Some(m) => r matches Err(e) && e@ == m && final(bridge)@ == old(bridge)@,
            None => {
                &&& said(old(bridge)@, "open_url"@, timeout, flags, say_opened(), r)
                &&& final(bridge)@ == ios_bridge::bridge_after(
                    old(bridge)@,
                    "open_url"@,
                    open_url_json(args.url@),
                    timeout,
                    flags,
                )
            },
        },
{
    match args.validate() {
        Ok(_) => {},
        Err(e) => {
            return Err(e);
        },
    }
    let args_json = match one_field("{\"url\":", args.url.as_str()) {
        Ok(s) => s,
        Err(e) => {
            return Err(e);
        },
    };
    match run_bridge_tool(bridge, "open_url", args_json, timeout, flags) {
        Ok(v) => Ok(open_url_result(&v)),
        Err(e) => Err(e),
    }
}

/// What is wrong with a notification, if anything.
pub open spec fn notify_fault(args: NotifyArgs) -> Option<Seq<char>> {
    if args.title@.len() > NOTIFY_TITLE_MAX {
        Some("notify: title exceeds 200 characters"@)
    } else if args.body@.len() > NOTIFY_BODY_MAX {
        Some("notify: body exceeds 2000 characters"@)
    } else {
        None
    }
}

/// Checks the length of a notification.
pub fn check_notification(args: &NotifyArgs) -> (r: Result<(), ToolExecError>)
    ensures
        match (notify_fault(*args), r) {
            (None, Ok(_)) => true,
            (Some(m), Err(e)) => e@ == m,
            _ => false,
        },
{
    if args.title.as_str().unicode_len() > NOTIFY_TITLE_MAX {
        return Err(tool_error("notify: title exceeds 200 characters"));
    }
    if args.body.as_str().unicode_len() > NOTIFY_BODY_MAX {
        return Err(tool_error("notify: body exceeds 2000 characters"));
    }
    Ok(())
}

/// Posts a notification through a scripted bridge; one that is too long never reaches it.
pub fn execute_notify(
    args: &NotifyArgs,
    bridge: &mut MockBridge,
    timeout: u64,
    flags: CancelFlags,
) -> (r: Result<String, ToolExecError>)
    ensures
        match notify_fault(*args) {
            Some(m) => r matches Err(e) && e@ == m && final(bridge)@ == old(bridge)@,
            None => {
                &&& said(old(bridge)@, "notify"@, timeout, flags, say_posted(), r)
                &&& final(bridge)@ == ios_bridge::bridge_after(
                    old(bridge)@,
                    "notify"@,
                    notify_json(args.title@, args.body@),
                    timeout,
                    flags,
                )
            },
        },
{
    match check_notification(args) {
        Ok(_) => {},
        Err(e) => {
            return Err(e);
        },
    }
    let args_json = match notify_arguments(args) {
        Ok(s) => s,
        Err(e) => {
            return Err(e);
        },
    };
    match run_bridge_tool(bridge, "notify", args_json, timeout, flags) {
        Ok(v) => Ok(notify_result(&v)),
        Err(e) => Err(e),
    }
}

/// The arguments of `notify` as JSON.
pub fn notify_arguments(args: &NotifyArgs) -> (r: Result<String, ToolExecError>)
    ensures
        r matches Ok(s) && s@ == notify_json(args.title@, args.body@),
{
    let body = match quoted(args.body.as_str()) {
        Ok(q) => q,
        Err(e) => {
            return Err(e);
        },
    };
    let mut out = "{\"body\":".to_owned();
    out.append(body.as_str());
    out.append(",\"title\":");
    match quoted(args.title.as_str()) {
        Ok(q) => {
            out.append(q.as_str());
            out.append("}");
            Ok(out)
        },
        Err(e) => Err(e),
    }
}

/// The arguments of `open_url` as JSON.
pub fn open_url_arguments(args: &OpenUrlArgs) -> (r: Result<String, ToolExecError>)
    ensures
        r matches Ok(s) && s@ == open_url_json(args.url@),
{
    one_field("{\"url\":", args.url.as_str())
}

/// The arguments of `clipboard_write` as JSON.
pub fn clipboard_arguments(args: &ClipboardWriteArgs) -> (r: Result<String, ToolExecError>)
    ensures
        r matches Ok(s) && s@ == clipboard_json(args.text@),
{
    one_field("{\"text\":", args.text.as_str())
}

/// Puts a text on the clipboard through a scripted bridge.
pub fn execute_clipboard_write(
    args: &ClipboardWriteArgs,
    bridge: &mut MockBridge,
    timeout: u64,
    flags: CancelFlags,
) -> (r: Result<String, ToolExecError>)
    ensures
        said(old(bridge)@, "clipboard_write"@, timeout, flags, say_written(), r),
        final(bridge)@ == ios_bridge::bridge_after(
            old(bridge)@,
            "clipboard_write"@,
            clipboard_json(args.text@),
            timeout,
            flags,
        ),
{
    let args_json = match clipboard_arguments(args) {
        Ok(s) => s,
        Err(e) => {
            return Err(e);
        },
    };
    match run_bridge_tool(bridge, "clipboard_write", args_json, timeout, flags) {
        Ok(_) => Ok("Clipboard updated.".to_owned()),
        Err(e) => Err(e),
    }
}

/// Reads the clipboard through a scripted bridge.
pub fn execute_clipboard_read(bridge: &mut MockBridge, timeout: u64, flags: CancelFlags) -> (r:
    Result<String, ToolExecError>)
    ensures
        said(old(bridge)@, "clipboard_read"@, timeout, flags, say_read(), r),
        final(bridge)@ == ios_bridge::bridge_after(old(bridge)@, "clipboard_read"@, "{}"@, timeout, flags),
{
    match run_bridge_tool(bridge, "clipboard_read", "{}".to_owned(), timeout, flags) {
        Ok(v) => Ok(clipboard_result(&v)),
        Err(e) => Err(e),
    }
}

/// A short text on a call of `open_url`.
pub fn describe_open_url(args: &OpenUrlArgs) -> (r: String)
    ensures
        r@ == "Opening URL: "@ + args.url@ + "."@,
{
    let mut out = "Opening URL: ".to_owned();
    out.append(args.url.as_str());
    out.append(".");
    out
}

/// A short text on a call of `notify`.
pub fn describe_notify(args: &NotifyArgs) -> (r: String)
    ensures
        r@ == "Posting notification: "@ + args.title@ + "."@,
{
    let mut out = "Posting notification: ".to_owned();
    out.append(args.title.as_str());
    out.append(".");
    out
}

/// A short text on a call of `clipboard_write`.
pub fn describe_clipboard_write(args: &ClipboardWriteArgs) -> (r: String)
    ensures
        r@ == "Writing "@ + text::decimal(args.text@.len()) + " characters to the clipboard."@,
{
    let mut out = "Writing ".to_owned();
    push_decimal(&mut out, args.text.as_str().unicode_len() as u64);
    out.append(" characters to the clipboard.");
    out
}

/// No URL but one of the two schemes is opened, none of the first without a host, and none with a
/// control character in it.
pub proof fn law_opened_urls_are_safe(
    url: Seq<char>,
    scheme: Result<Seq<char>, Seq<char>>,
    shown: Seq<char>,
)
    requires
        open_url_fault(url, scheme, shown) is None,
    ensures
        scheme == Ok::<Seq<char>, Seq<char>>("https"@) || scheme == Ok::<Seq<char>, Seq<char>>(
            "mailto"@,
        ),
        scheme == Ok::<Seq<char>, Seq<char>>("https"@) ==> names_host(url),
        forall|i: int| 0 <= i < url.len() ==> !sanitize::control(#[trigger] url[i]),
{
}

/// The schema of the arguments of `open_url`: one text, of one of the two schemes.
pub open spec fn open_url_schema_view() -> JsonView {
    JsonView::Object(
        seq![
            ("type"@, JsonView::Text("object"@)),
            (
                "properties"@,
                JsonView::Object(
                    seq![
                        (
                            "url"@,
                            JsonView::Object(
                                seq![
                                    ("type"@, JsonView::Text("string"@)),
                                    ("pattern"@, JsonView::Text("^(https|mailto):"@)),
                                    (
                                        "description"@,
                                        JsonView::Text(
                                            "The URL to open. Only https and mailto schemes are allowed."@,
                                        ),
                                    ),
                                ],
                            ),
                        ),
                    ],
                ),
            ),
            ("required"@, JsonView::List(seq![JsonView::Text("url"@)])),
            ("additionalProperties"@, JsonView::Bool(false)),
        ],
    )
}

impl OpenUrlArgs {
    /// The schema of the arguments.
    pub fn json_schema() -> (r: Json)
        ensures
            r@ == open_url_schema_view(),
    {
        let mut url: Vec<(String, Json)> = Vec::new();
        url.push(("type".to_owned(), Json::Text("string".to_owned())));
        url.push(("pattern".to_owned(), Json::Text("^(https|mailto):".to_owned())));
        url.push(
            (
                "description".to_owned(),
                Json::Text(
                    "The URL to open. Only https and mailto schemes are allowed.".to_owned(),
                ),
            ),
        );
        let ghost url_entries = seq![
            ("type"@, JsonView::Text("string"@)),
            ("pattern"@, JsonView::Text("^(https|mailto):"@)),
            (
                "description"@,
                JsonView::Text("The URL to open. Only https and mailto schemes are allowed."@),
            ),
        ];
        assert(json::entry_views(url@) =~= url_entries);
        let mut properties: Vec<(String, Json)> = Vec::new();
        properties.push(("url".to_owned(), object_of(url)));
        assert(json::entry_views(properties@) =~= seq![("url"@, JsonView::Object(url_entries))]);
        let mut required: Vec<Json> = Vec::new();
        required.push(Json::Text("url".to_owned()));
        assert(json::item_views(required@) =~= seq![JsonView::Text("url"@)]);
        let mut root: Vec<(String, Json)> = Vec::new();
        root.push(("type".to_owned(), Json::Text("object".to_owned())));
        root.push(("properties".to_owned(), object_of(properties)));
        root.push(("required".to_owned(), list_of(required)));
        root.push(("additionalProperties".to_owned(), Json::Bool(false)));
        assert(json::entry_views(root@) =~= open_url_schema_view()->Object_0);
        object_of(root)
    }
}

} // verus!
