//! What the tools of the device are for: the host gets what the call says under the names that it
//! knows, and what it answers is what the call says.

use crate::error::ToolExecError;
use crate::ios_bridge::{CancelFlags, MockResponse, MockView, ToolBridgeError, WaitEvent, WaitStep};
use crate::ios_bridge;
use crate::ios_tools::NotifyArgs;
use crate::ios_tools;
use crate::json::{Json, JsonView};
use crate::json;
use crate::sanitize;
use crate::text;
use vstd::prelude::*;
use vstd::string::*;

verus! {

/// The arguments of a call are an object of JSON: the URL under `url`, the text under `text`, and a
/// notification's title under `title` and its body under `body`.
pub proof fn law_arguments_stand_under_their_names(a: Seq<char>, b: Seq<char>)
    ensures
        ios_tools::open_url_json(a) == json::json_text(
            JsonView::Object(seq![("url"@, JsonView::Text(a))]),
        ),
        ios_tools::clipboard_json(a) == json::json_text(
            JsonView::Object(seq![("text"@, JsonView::Text(a))]),
        ),
        ios_tools::notify_json(a, b) == json::json_text(
            JsonView::Object(seq![("body"@, JsonView::Text(b)), ("title"@, JsonView::Text(a))]),
        ),
{
    lemma_plain_name("url"@);
    lemma_plain_name("text"@);
    lemma_plain_name("body"@);
    lemma_plain_name("title"@);
    reveal_strlit("{\"url\":");
    reveal_strlit("{\"text\":");
    reveal_strlit("{\"body\":");
    reveal_strlit(",\"title\":");
    reveal_strlit("url");
    reveal_strlit("text");
    reveal_strlit("body");
    reveal_strlit("title");
    reveal_strlit("{");
    reveal_strlit(":");
    reveal_strlit(",");
    let qa = json::json_quoted(a);
    let qb = json::json_quoted(b);
    let u = seq![("url"@, JsonView::Text(a))];
    let t = seq![("text"@, JsonView::Text(a))];
    let n = seq![("body"@, JsonView::Text(b)), ("title"@, JsonView::Text(a))];
    reveal_with_fuel(json::entries_text, 3);
    assert(json::json_text(JsonView::Text(a)) == qa);
    assert(json::json_text(JsonView::Text(b)) == qb);
    assert("{\"url\":"@ =~= "{"@ + (seq!['"'] + "url"@ + seq!['"']) + ":"@);
    assert("{\"text\":"@ =~= "{"@ + (seq!['"'] + "text"@ + seq!['"']) + ":"@);
    assert("{\"body\":"@ =~= "{"@ + (seq!['"'] + "body"@ + seq!['"']) + ":"@);
    assert(",\"title\":"@ =~= ","@ + (seq!['"'] + "title"@ + seq!['"']) + ":"@);
    assert(json::entries_text(u, 1) == json::json_quoted("url"@) + ":"@ + qa);
    assert(ios_tools::open_url_json(a) =~= "{"@ + json::entries_text(u, 1) + "}"@);
    assert(json::entries_text(t, 1) == json::json_quoted("text"@) + ":"@ + qa);
    assert(ios_tools::clipboard_json(a) =~= "{"@ + json::entries_text(t, 1) + "}"@);
    assert(json::entries_text(n, 1) == json::json_quoted("body"@) + ":"@ + qb);
    assert(json::entries_text(n, 2) == json::entries_text(n, 1) + ","@ + (json::json_quoted(
        "title"@,
    ) + ":"@ + qa));
    assert(ios_tools::notify_json(a, b) =~= "{"@ + json::entries_text(n, 2) + "}"@);
}

/// A name of small letters is written between quotes as it is.
proof fn lemma_plain_name(s: Seq<char>)
    requires
        s == "url"@ || s == "text"@ || s == "body"@ || s == "title"@,
    ensures
        json::json_quoted(s) == seq!['"'] + s + seq!['"'],
{
    reveal_strlit("url");
    reveal_strlit("text");
    reveal_strlit("body");
    reveal_strlit("title");
    assert forall|i: int| 0 <= i < s.len() implies json::json_char()(#[trigger] s[i]) == seq![
        s[i],
    ] by {
        assert('a' <= s[i] <= 'z');
    }
    text::lemma_expand_fixed(s, json::json_char());
}

/// A call that nobody cancels and that has time gives what the host answered, and says that it could
/// not reach the host where there was no answer.
pub proof fn law_answer_is_given(r: Result<Json, ToolBridgeError>, timeout: u64)
    requires
        timeout > 0,
    ensures
        ios_bridge::settled(Some(r), timeout, false, false) == r,
        ios_bridge::settled(None, timeout, false, false) == Err::<Json, ToolBridgeError>(
            ToolBridgeError::BridgeUnavailable,
        ),
        ios_bridge::settled(Some(r), 0, false, false) == Err::<Json, ToolBridgeError>(
            ToolBridgeError::Timeout,
        ),
{
}

/// What the host says of a failure is what the call says.
pub proof fn law_failures_are_told(tool: Seq<char>, m: String)
    ensures
        ios_bridge::tool_message(tool, ToolBridgeError::Platform(m)) == m@,
        tool.is_prefix_of(ios_bridge::tool_message(tool, ToolBridgeError::Timeout)),
        tool.is_prefix_of(ios_bridge::tool_message(tool, ToolBridgeError::BridgeUnavailable)),
        ios_bridge::tool_message(tool, ToolBridgeError::Canceled) == "request was canceled"@,
{
    assert(ios_bridge::tool_message(tool, ToolBridgeError::Timeout).take(tool.len() as int)
        =~= tool);
    assert(ios_bridge::tool_message(tool, ToolBridgeError::BridgeUnavailable).take(
        tool.len() as int,
    ) =~= tool);
}

/// A URL counts as opened, and a notification as posted, unless the host says that it is not.
pub proof fn law_verdict_is_the_hosts(m: Seq<(Seq<char>, JsonView)>)
    ensures
        ({
            let v = JsonView::Object(m);
            let o = json::lookup(m, "opened"@);
            let s = json::lookup(m, "scheduled"@);
            &&& o == Some(JsonView::Bool(false)) ==> ios_tools::say_opened()(v)
                == "The system declined to open the URL."@
            &&& o == Some(JsonView::Bool(true)) || o is None ==> ios_tools::say_opened()(v)
                == "URL opened."@
            &&& s == Some(JsonView::Bool(false)) ==> ios_tools::say_posted()(v)
                == "The notification could not be scheduled (the system declined)."@
            &&& s == Some(JsonView::Bool(true)) || s is None ==> ios_tools::say_posted()(v)
                == "Notification posted."@
        }),
{
}

/// Reading the clipboard gives the text that the host found there, and nothing where it found none.
pub proof fn law_clipboard_text_is_given(m: Seq<(Seq<char>, JsonView)>)
    ensures
        ({
            let t = json::lookup(m, "text"@);
            &&& t matches Some(JsonView::Text(x)) ==> ios_tools::say_read()(JsonView::Object(m)) == x
            &&& !(t matches Some(JsonView::Text(_))) ==> ios_tools::say_read()(
                JsonView::Object(m),
            ).len() == 0
        }),
{
}

/// A notification is accepted exactly where its title has at most 200 characters and its body at most
/// 2000.
pub proof fn law_notifications_are_limited(args: NotifyArgs)
    ensures
        ios_tools::notify_fault(args) is None <==> args.title@.len() <= 200 && args.body@.len()
            <= 2000,
{
}

/// A URL of one of the two schemes, of the first with two slashes behind it, is opened wherever it
/// holds no control character.
pub proof fn law_proper_urls_are_opened(
    url: Seq<char>,
    rest: Seq<char>,
    scheme: Result<Seq<char>, Seq<char>>,
    shown: Seq<char>,
)
    requires
        forall|i: int| 0 <= i < url.len() ==> #[trigger] url[i] >= ' ' && !('\u{7f}' <= url[i] <= '\u{9f}'),
    ensures
        scheme == Ok::<Seq<char>, Seq<char>>("mailto"@) ==> ios_tools::open_url_fault(
            url,
            scheme,
            shown,
        ) is None,
        scheme == Ok::<Seq<char>, Seq<char>>("https"@) && url == "https://"@ + rest
            ==> ios_tools::open_url_fault(url, scheme, shown) is None,
{
    reveal_strlit("mailto");
    reveal_strlit("https");
    reveal_strlit("https://");
    assert("mailto"@.len() == 6 && "https"@.len() == 5);
    assert(!ios_tools::holds_control(url)) by {
        assert forall|i: int| 0 <= i < url.len() implies !sanitize::control(#[trigger] url[i]) by {}
    }
    if url == "https://"@ + rest {
        assert(url[5] == ':' && url[6] == '/' && url[7] == '/');
        assert forall|j: int| 0 <= j < 5 implies #[trigger] url[j] != ':' by {
            assert(url[j] == "https://"@[j]);
        }
        assert(ios_tools::names_host(url));
    }
}

/// A request reaches the bridge under the name of its tool with its arguments, behind those that came
/// before, and under a number of its own.
pub proof fn law_request_is_dispatched(v: MockView, name: Seq<char>, args: Seq<char>, more: Seq<char>)
    ensures
        ({
            let w = ios_bridge::after_dispatch(v, name, args);
            let x = ios_bridge::after_dispatch(w, name, more);
            &&& w.dispatched == v.dispatched.push((v.next_id, name, args))
            &&& x.dispatched.len() == v.dispatched.len() + 2
            &&& x.dispatched[v.dispatched.len() as int].0 != x.dispatched[v.dispatched.len() as int + 1].0
        }),
{
}

/// The replies of a script come in its order.
pub proof fn law_script_is_followed(v: MockView, name: Seq<char>, args: Seq<char>, i: int)
    requires
        0 < i < v.script.len(),
    ensures
        v.script[0] matches MockResponse::Reply(r) ==> ios_bridge::scripted_reply(v) == Some(r),
        v.script[0] is DropSender ==> ios_bridge::scripted_reply(v) is None,
        ios_bridge::after_dispatch(v, name, args).script.len() == v.script.len() - 1,
        ios_bridge::after_dispatch(v, name, args).script[i - 1] == v.script[i],
{
}

/// A wait is over once it was cancelled or its time is up, and not before.
pub proof fn law_wait_goes_to_its_deadline(deadline: nat, now: nat)
    requires
        deadline <= u64::MAX,
    ensures
        ios_bridge::wait_next(deadline, now, true) == WaitStep::Done(ToolBridgeError::Canceled),
        now < deadline ==> ios_bridge::wait_next(deadline, now, false) is Select,
        now >= deadline ==> ios_bridge::wait_next(deadline, now, false) == WaitStep::Done(
            ToolBridgeError::Timeout,
        ),
{
}

/// A reply that comes before the request is cancelled is what the wait gives; one that comes later
/// does not count; and a pause ends nothing.
pub proof fn law_reply_ends_the_wait(reply: Result<Json, ToolBridgeError>, canceled: bool)
    ensures
        ios_bridge::event_outcome(WaitEvent::Reply(reply), false) == Some(reply),
        ios_bridge::event_outcome(WaitEvent::Reply(reply), true) == Some(
            Err::<Json, ToolBridgeError>(ToolBridgeError::Canceled),
        ),
        ios_bridge::event_outcome(WaitEvent::Elapsed, canceled) is None,
        ios_bridge::event_outcome(WaitEvent::Disconnected, canceled) == Some(
            Err::<Json, ToolBridgeError>(ToolBridgeError::BridgeUnavailable),
        ),
{
}

/// A web URL that is opened names a host: two slashes stand behind its scheme.
pub proof fn law_opened_web_urls_name_a_host(url: Seq<char>, shown: Seq<char>)
    requires
        ios_tools::open_url_fault(url, Ok("https"@), shown) is None,
    ensures
        exists|i: int|
            0 <= i && i + 2 < url.len() && #[trigger] url[i] == ':' && url[i + 1] == '/' && url[i + 2]
                == '/',
        forall|i: int| 0 <= i < url.len() ==> #[trigger] url[i] >= ' ',
{
    assert(ios_tools::names_host(url));
    let i = choose|i: int|
        {
            &&& 0 <= i < url.len() - 2
            &&& #[trigger] url[i] == ':'
            &&& url[i + 1] == '/'
            &&& url[i + 2] == '/'
            &&& forall|j: int| 0 <= j < i ==> #[trigger] url[j] != ':'
        };
    assert(url[i] == ':');
    assert forall|i: int| 0 <= i < url.len() implies #[trigger] url[i] >= ' ' by {
        assert(!sanitize::control(url[i]));
    }
}

/// A call that is not cancelled and that the host answers in time says what the tool says of the
/// answer; a failure is an error in the words of the tool.
pub proof fn law_call_says_what_came_back(
    v: MockView,
    name: Seq<char>,
    timeout: u64,
    flags: CancelFlags,
    answer: Json,
    say: spec_fn(JsonView) -> Seq<char>,
    r: Result<String, ToolExecError>,
)
    requires
        timeout > 0,
        !flags.at_entry && !flags.before_wait && !flags.at_reply,
        v.script.len() > 0,
        v.script[0] == MockResponse::Reply(Ok(answer)),
        ios_tools::said(v, name, timeout, flags, say, r),
    ensures
        r matches Ok(s) && s@ == say(answer@),
{
}

/// What is said of a text that was put on the clipboard does not depend on what the host answered.
pub proof fn law_written_clipboard_is_told(a: JsonView)
    ensures
        ios_tools::say_written()(a) == "Clipboard updated."@,
{
}

/// A bridge gives what its script answers, and the script answers the calls in order.
pub proof fn law_bridge_gives_its_script(
    v: MockView,
    name: Seq<char>,
    timeout: u64,
    flags: CancelFlags,
    answer: Json,
    r: Result<Json, ToolExecError>,
)
    requires
        timeout > 0,
        !flags.at_entry && !flags.before_wait && !flags.at_reply,
        v.script.len() > 0,
        v.script[0] == MockResponse::Reply(Ok(answer)),
        ios_bridge::bridge_result(v, name, timeout, flags, r),
    ensures
        r == Ok::<Json, ToolExecError>(answer),
{
}

/// The errors of a bridge are told apart.
pub proof fn law_bridge_errors_are_told_apart(m: String)
    ensures
        ios_bridge::bridge_error_text(ToolBridgeError::BridgeUnavailable)
            == "iOS tool bridge unavailable"@,
        ios_bridge::bridge_error_text(ToolBridgeError::Canceled) == "request was canceled"@,
        ios_bridge::bridge_error_text(ToolBridgeError::Timeout) == "request timed out"@,
        ios_bridge::bridge_error_text(ToolBridgeError::Platform(m)) == "platform error: "@ + m@,
{
}

} // verus!
