//! What `http_request` is for: the request that is asked for is the one that is sent, and what the
//! server says is what comes back.

use crate::http::{HttpError, HttpMethod, HttpPlan, HttpRequestArgs, HttpResponse};
use crate::http;
use crate::matching;
use crate::order;
use crate::text;
use crate::text_laws;
use vstd::prelude::*;
use vstd::utf8::*;

verus! {

/// What tells the names of the methods apart.
proof fn lemma_method_names()
    ensures
        "GET"@ != "POST"@ && "GET"@ != "PUT"@ && "GET"@ != "DELETE"@ && "GET"@ != "PATCH"@ && "GET"@
            != "HEAD"@,
        "POST"@ != "PUT"@ && "POST"@ != "DELETE"@ && "POST"@ != "PATCH"@ && "POST"@ != "HEAD"@,
        "PUT"@ != "DELETE"@ && "PUT"@ != "PATCH"@ && "PUT"@ != "HEAD"@,
        "DELETE"@ != "PATCH"@ && "DELETE"@ != "HEAD"@,
        "PATCH"@ != "HEAD"@,
{
    reveal_strlit("GET");
    reveal_strlit("POST");
    reveal_strlit("PUT");
    reveal_strlit("DELETE");
    reveal_strlit("PATCH");
    reveal_strlit("HEAD");
    assert("GET"@.len() == 3 && "POST"@.len() == 4 && "PUT"@.len() == 3);
    assert("DELETE"@.len() == 6 && "PATCH"@.len() == 5 && "HEAD"@.len() == 4);
    assert("GET"@[0] == 'G' && "PUT"@[0] == 'P');
    assert("POST"@[0] == 'P' && "HEAD"@[0] == 'H');
}

/// A request goes out under the method that its arguments name.
pub proof fn law_method_is_the_named_one(args: HttpRequestArgs, plan: HttpPlan)
    requires
        http::planned(args, plan),
    ensures
        args.method@ == "GET"@ <==> plan.method is Get,
        args.method@ == "POST"@ <==> plan.method is Post,
        args.method@ == "PUT"@ <==> plan.method is Put,
        args.method@ == "DELETE"@ <==> plan.method is Delete,
        args.method@ == "PATCH"@ <==> plan.method is Patch,
        args.method@ == "HEAD"@ <==> plan.method is Head,
{
    lemma_method_names();
}

/// A given body is sent with every POST, PUT and PATCH request, character by character; where none
/// is given, none is sent.
pub proof fn law_given_body_is_sent(args: HttpRequestArgs, plan: HttpPlan)
    requires
        http::planned(args, plan),
        args.method@ == "POST"@ || args.method@ == "PUT"@ || args.method@ == "PATCH"@,
    ensures
        args.body is Some <==> plan.body is Some,
        args.body is Some ==> plan.body->0@ == args.body->0@,
{
    lemma_method_names();
}

/// The other methods send no body.
pub proof fn law_other_methods_send_no_body(args: HttpRequestArgs, plan: HttpPlan)
    requires
        http::planned(args, plan),
        args.method@ == "GET"@ || args.method@ == "DELETE"@ || args.method@ == "HEAD"@,
    ensures
        plan.body is None,
{
    lemma_method_names();
}

/// A request goes to the URL of its arguments, under the sender's name, with each of their headers
/// behind it in the order they were given.
pub proof fn law_request_is_the_one_asked_for(args: HttpRequestArgs, plan: HttpPlan, i: int)
    requires
        http::planned(args, plan),
    ensures
        plan.url@ == args.url@,
        plan.headers@.len() == args.headers@.len() + 1,
        plan.headers@[0].0@ == "User-Agent"@,
        plan.headers@[0].1@ == "choreographr/0.1"@,
        0 <= i < args.headers@.len() ==> plan.headers@[i + 1].0@ == args.headers@[i].0@
            && plan.headers@[i + 1].1@ == args.headers@[i].1@,
{
    let all = http::header_views(plan.headers@);
    let mine = http::header_views(args.headers@);
    assert(all.len() == mine.len() + 1);
    assert(all[0] == ("User-Agent"@, http::USER_AGENT@));
    assert(all[0] == (plan.headers@[0].0@, plan.headers@[0].1@));
    if 0 <= i < args.headers@.len() {
        assert(all[i + 1] == mine[i]);
        assert(all[i + 1] == (plan.headers@[i + 1].0@, plan.headers@[i + 1].1@));
    }
}

/// A request waits as long as it is asked to, but no less than one second and no more than thirty;
/// thirty where nothing is asked for.
pub proof fn law_timeout_is_the_wanted_one(args: HttpRequestArgs, plan: HttpPlan)
    requires
        http::planned(args, plan),
    ensures
        1 <= plan.timeout_secs <= 30,
        args.timeout_secs is None ==> plan.timeout_secs == 30,
        args.timeout_secs matches Some(t) ==> (1 <= t <= 30 ==> plan.timeout_secs == t) && (t > 30
            ==> plan.timeout_secs == 30) && (t == 0 ==> plan.timeout_secs == 1),
{
}

/// A request of a known method to a web URL whose headers are in order is never refused.
pub proof fn law_proper_requests_are_allowed(
    args: HttpRequestArgs,
    scheme: Result<Seq<char>, Seq<char>>,
)
    requires
        args.method@ == "GET"@ || args.method@ == "POST"@ || args.method@ == "PUT"@ || args.method@
            == "DELETE"@ || args.method@ == "PATCH"@ || args.method@ == "HEAD"@,
        scheme == Ok::<Seq<char>, Seq<char>>("http"@) || scheme == Ok::<Seq<char>, Seq<char>>(
            "https"@,
        ),
        forall|i: int| 0 <= i < args.headers@.len() ==> (#[trigger] args.headers@[i]).0@.len() > 0,
        forall|i: int, k: int|
            0 <= i < args.headers@.len() && 0 <= k < args.headers@[i].0@.len() ==> ' '
                <= #[trigger] args.headers@[i].0@[k] && args.headers@[i].0@[k] != '\u{7f}'
                && args.headers@[i].0@[k] != ':',
        forall|i: int, k: int|
            0 <= i < args.headers@.len() && 0 <= k < args.headers@[i].1@.len()
                ==> #[trigger] args.headers@[i].1@[k] != '\n' && args.headers@[i].1@[k] != '\r',
    ensures
        http::request_allowed(args, scheme),
{
    lemma_method_names();
    lemma_sound_headers(args.headers@);
}

proof fn lemma_sound_headers(h: Seq<(String, String)>)
    requires
        forall|i: int| 0 <= i < h.len() ==> (#[trigger] h[i]).0@.len() > 0,
        forall|i: int, k: int|
            0 <= i < h.len() && 0 <= k < h[i].0@.len() ==> ' ' <= #[trigger] h[i].0@[k]
                && h[i].0@[k] != '\u{7f}' && h[i].0@[k] != ':',
        forall|i: int, k: int|
            0 <= i < h.len() && 0 <= k < h[i].1@.len() ==> #[trigger] h[i].1@[k] != '\n'
                && h[i].1@[k] != '\r',
    ensures
        http::first_fault(h) is None,
    decreases h.len(),
{
    if h.len() > 0 {
        let t = h.skip(1);
        assert forall|i: int| 0 <= i < t.len() implies (#[trigger] t[i]).0@.len() > 0 by {
            assert(t[i] == h[i + 1]);
        }
        assert forall|i: int, k: int| 0 <= i < t.len() && 0 <= k < t[i].0@.len() implies ' '
            <= #[trigger] t[i].0@[k] && t[i].0@[k] != '\u{7f}' && t[i].0@[k] != ':' by {
            assert(t[i].0@[k] == h[i + 1].0@[k]);
        }
        assert forall|i: int, k: int|
            0 <= i < t.len() && 0 <= k < t[i].1@.len() implies #[trigger] t[i].1@[k] != '\n'
            && t[i].1@[k] != '\r' by {
            assert(t[i].1@[k] == h[i + 1].1@[k]);
        }
        lemma_sound_headers(t);
        let name = h[0].0@;
        let value = h[0].1@;
        assert(forall|i: int| 0 <= i < name.len() ==> !http::bad_name_char(#[trigger] name[i])) by {
            assert forall|i: int| 0 <= i < name.len() implies !http::bad_name_char(
                #[trigger] name[i],
            ) by {
                assert(h[0].0@[i] == name[i]);
            }
        }
        assert forall|i: int| 0 <= i < value.len() implies #[trigger] value[i] != '\n' && value[i]
            != '\r' by {
            assert(h[0].1@[i] == value[i]);
        }
    }
}

/// A text body comes back whole: where it is short enough for a result and holds only readable
/// lines, what is shown encodes to the very bytes that the server sent.
pub proof fn law_text_body_comes_back(bytes: Seq<u8>)
    requires
        valid_utf8(bytes),
        bytes.len() <= 131072,
        text_laws::readable_lines(decode_utf8(bytes)),
    ensures
        encode_utf8(http::body_text(bytes)) == bytes,
{
    let s = decode_utf8(bytes);
    decode_utf8_encode_utf8(bytes);
    text_laws::law_readable_lines_are_kept(s);
    text_laws::law_results_that_fit_are_whole(s, 131072);
}

/// What a response says is what comes back: its status first, and its body last.
pub proof fn law_response_begins_and_ends(
    status: Seq<char>,
    headers: Seq<(Seq<char>, Seq<char>)>,
    body: Seq<char>,
)
    ensures
        ("status: "@ + status).is_prefix_of(http::response_text(status, headers, body)),
        ("\n\n"@ + body).is_suffix_of(http::response_text(status, headers, body)),
{
    let r = http::response_text(status, headers, body);
    let a = "status: "@ + status;
    let b = "\n\n"@ + body;
    assert(r.take(a.len() as int) =~= a);
    assert(r.skip(r.len() - b.len()) =~= b);
}

/// Every header of a response is shown on a line of its own, name and value.
pub proof fn law_every_header_is_shown(h: Seq<(Seq<char>, Seq<char>)>, i: int)
    requires
        h.len() <= u64::MAX,
        0 <= i < h.len(),
        text_laws::readable_text(h[i].1),
    ensures
        http::header_lines(h).len() == h.len(),
        exists|k: int|
            0 <= k < h.len() && #[trigger] http::header_lines(h)[k] == "\n"@ + h[i].0 + ": "@
                + h[i].1,
{
    let names = http::header_names(h);
    let p = order::name_order(names);
    text_laws::law_readable_text_is_kept(h[i].1, false);
    order::lemma_every_place_is_used(names, i);
    let k = choose|k: int| 0 <= k < names.len() && #[trigger] p[k] == i;
    assert(http::header_lines(h)[k] == "\n"@ + h[i].0 + ": "@ + h[i].1);
}

/// A header is received under its name in lower case with the value that the server sent.
pub proof fn law_headers_are_received(raw: Seq<(String, Option<String>)>, i: int)
    requires
        0 <= i < raw.len(),
    ensures
        http::received_headers(raw).len() == raw.len(),
        http::received_headers(raw)[i].0.len() == raw[i].0@.len(),
        raw[i].1 matches Some(v) ==> http::received_headers(raw)[i].1 == v@,
        raw[i].1 is None ==> http::received_headers(raw)[i].1 == "<non-utf8>"@,
        forall|j: int|
            0 <= j < raw[i].0@.len() && !('A' <= raw[i].0@[j] <= 'Z')
                ==> #[trigger] http::received_headers(raw)[i].0[j] == raw[i].0@[j],
{
}

/// The body of a response whose content type begins with `text/` is read, whatever stands behind
/// it; that of a HEAD request never is.
pub proof fn law_text_is_read(method: HttpMethod, raw: Seq<(String, Option<String>)>, v: Seq<char>)
    requires
        http::content_type(raw) == "text/"@ + v,
    ensures
        http::reads_body(method, raw) <==> !(method is Head),
{
    let c = "text/"@ + v;
    reveal_strlit("text/");
    let head = text::split_on(c, ';')[0];
    lemma_first_piece(c, ';', 5);
    assert(head[4] == head.take(5)[4] && c.take(5)[4] == '/');
    assert(head[0] == head.take(5)[0] && c.take(5)[0] == 't');
    let end = text::trailing_end(head);
    lemma_trailing_end_behind(head, 5);
    let t = head.take(end as int);
    assert(t[0] == 't');
    assert(text::leading_white(t) == 0);
    assert(text::trimmed(head) =~= t);
    let m = matching::lowered(t);
    assert(m.subrange(0, 5) =~= "text/"@);
}

/// JSON is text, whatever its content type says of it behind a semicolon.
pub proof fn law_json_is_read(method: HttpMethod, raw: Seq<(String, Option<String>)>, more: Seq<char>)
    requires
        http::content_type(raw) == "application/json"@ + more,
        more.len() > 0 ==> more[0] == ';',
    ensures
        http::reads_body(method, raw) <==> !(method is Head),
{
    let j = "application/json"@;
    let c = j + more;
    lemma_json_name();
    assert forall|i: int| 0 <= i < 16 implies #[trigger] c[i] != ';' by {
        assert(c[i] == j[i]);
    }
    let head = text::split_on(c, ';')[0];
    if more.len() == 0 {
        assert(c =~= j);
        text::lemma_split_plain(c, ';');
    } else {
        lemma_first_piece_ends(c, ';', 16);
        assert(c.take(16) =~= j);
    }
    assert(head == j);
    text_laws::law_trimming_takes_only_white_space(j);
}

proof fn lemma_json_name()
    ensures
        ({
            let j = "application/json"@;
            &&& j.len() == 16
            &&& j[0] == 'a'
            &&& j.last() == 'n'
            &&& forall|i: int| 0 <= i < 16 ==> '-' <= #[trigger] j[i] <= 'z' && j[i] != ';'
            &&& matching::lowered(j) == j
        }),
{
    let j = "application/json"@;
    reveal_strlit("application/json");
    assert(forall|i: int|
        0 <= i < 16 ==> #[trigger] j[i] == '/' || 'a' <= j[i] <= 'z');
    assert forall|i: int| 0 <= i < 16 implies #[trigger] matching::lowered(j)[i] == j[i] by {
        assert(j[i] == '/' || 'a' <= j[i] <= 'z');
    }
    assert(matching::lowered(j) =~= j);
}

/// What begins a text and holds no separator begins its first piece.
proof fn lemma_first_piece(s: Seq<char>, sep: char, n: int)
    requires
        0 <= n <= s.len(),
        forall|i: int| 0 <= i < n ==> #[trigger] s[i] != sep,
    ensures
        text::split_on(s, sep)[0].len() >= n,
        text::split_on(s, sep)[0].take(n) == s.take(n),
    decreases s.len(),
{
    if n == s.len() {
        text::lemma_split_plain(s, sep);
    } else {
        let t = s.drop_last();
        lemma_first_piece(t, sep, n);
        text::lemma_split_nonempty(t, sep);
        let before = text::split_on(t, sep);
        assert(t.take(n) =~= s.take(n));
        assert(text::split_on(s, sep)[0].take(n) =~= before[0].take(n));
    }
}

/// The first piece ends at the first separator.
proof fn lemma_first_piece_ends(s: Seq<char>, sep: char, n: int)
    requires
        0 <= n < s.len(),
        s[n] == sep,
        forall|i: int| 0 <= i < n ==> #[trigger] s[i] != sep,
    ensures
        text::split_on(s, sep)[0] == s.take(n),
        text::split_on(s, sep).len() >= 2,
    decreases s.len(),
{
    let t = s.drop_last();
    if n == s.len() - 1 {
        text::lemma_split_plain(t, sep);
        assert(t =~= s.take(n));
    } else {
        lemma_first_piece_ends(t, sep, n);
        assert(t.take(n) =~= s.take(n));
    }
}

/// A visible character is not trimmed from the end, nor is what stands before it.
proof fn lemma_trailing_end_behind(s: Seq<char>, n: int)
    requires
        0 < n <= s.len(),
        !text::white_space(s[n - 1]),
    ensures
        n <= text::trailing_end(s) <= s.len(),
    decreases s.len(),
{
    if n < s.len() && text::white_space(s.last()) {
        lemma_trailing_end_behind(s.drop_last(), n);
    }
}

/// The content type is the value of the header of that name, however the name is written.
pub proof fn law_content_type_is_found(raw: Seq<(String, Option<String>)>, i: int)
    requires
        0 <= i < raw.len(),
        raw[i].0@ == "Content-Type"@ || raw[i].0@ == "content-type"@,
        forall|k: int| 0 <= k < i ==> (#[trigger] raw[k]).0@.len() != 12,
    ensures
        http::content_type(raw) == (match raw[i].1 {
            Some(v) => v@,
            None => Seq::empty(),
        }),
    decreases raw.len(),
{
    reveal_strlit("Content-Type");
    reveal_strlit("content-type");
    if i == 0 {
        assert(matching::lowered(raw[0].0@) =~= "content-type"@);
    } else {
        assert(matching::lowered(raw[0].0@).len() == raw[0].0@.len());
        assert(raw[0].0@.len() != 12);
        let t = raw.skip(1);
        assert(t[i - 1] == raw[i]);
        assert forall|k: int| 0 <= k < i - 1 implies (#[trigger] t[k]).0@.len() != 12 by {
            assert(t[k] == raw[k + 1]);
        }
        law_content_type_is_found(t, i - 1);
    }
}

/// A HEAD request shows no body, and one that is not text is left out.
pub proof fn law_unread_bodies_are_not_shown(
    method: HttpMethod,
    raw: Seq<(String, Option<String>)>,
    read: Result<Vec<u8>, String>,
)
    ensures
        method is Head ==> http::shown_body(method, raw, read).len() == 0,
        !(method is Head) && !http::reads_body(method, raw) ==> http::shown_body(method, raw, read)
            == "body omitted: non-text response"@,
        http::reads_body(method, raw) && read is Ok ==> http::shown_body(method, raw, read)
            == http::body_text(read->Ok_0@),
{
}

/// A request that may be sent holds no header whose name or value could add a line to it, and its URL
/// is one of the web.
pub proof fn law_sent_headers_stay_on_their_lines(
    args: HttpRequestArgs,
    scheme: Result<Seq<char>, Seq<char>>,
    i: int,
    k: int,
)
    requires
        http::request_allowed(args, scheme),
        0 <= i < args.headers@.len(),
    ensures
        args.headers@[i].0@.len() > 0,
        0 <= k < args.headers@[i].0@.len() ==> args.headers@[i].0@[k] >= ' ' && args.headers@[i].0@[k]
            != ':' && args.headers@[i].0@[k] != '\u{7f}',
        0 <= k < args.headers@[i].1@.len() ==> args.headers@[i].1@[k] != '\n' && args.headers@[i].1@[k]
            != '\r',
        scheme == Ok::<Seq<char>, Seq<char>>("http"@) || scheme == Ok::<Seq<char>, Seq<char>>(
            "https"@,
        ),
{
    http::law_planned_requests_are_safe(args, scheme, i);
    let name = args.headers@[i].0@;
    let value = args.headers@[i].1@;
    if 0 <= k < name.len() {
        assert(!http::bad_name_char(name[k]));
    }
    if 0 <= k < value.len() {
        let c = value[k];
        assert(!(c == '\n' || c == '\r'));
    }
}

/// The headers of a response come in the order of their names.
pub proof fn law_headers_come_in_order(h: Seq<(Seq<char>, Seq<char>)>, j: int, k: int)
    requires
        h.len() <= u64::MAX,
        0 <= j < k < h.len(),
    ensures
        exists|a: int, b: int|
            0 <= a < h.len() && 0 <= b < h.len() && order::text_le(h[a].0, h[b].0) && (
            #[trigger] h[a]).0.len() + 1 <= http::header_lines(h)[j].len() && ("\n"@ + h[a].0
                + ": "@).is_prefix_of(http::header_lines(h)[j]) && ("\n"@ + (#[trigger] h[b]).0
                + ": "@).is_prefix_of(http::header_lines(h)[k]),
{
    let names = http::header_names(h);
    let p = order::name_order(names);
    order::law_name_order_is_stable(names, j, k);
    let a = p[j];
    let b = p[k];
    reveal_strlit("\n");
    let x = "\n"@ + h[a].0 + ": "@;
    let y = "\n"@ + h[b].0 + ": "@;
    let lj = http::header_lines(h)[j];
    let lk = http::header_lines(h)[k];
    assert(lj.take(x.len() as int) =~= x);
    assert(lk.take(y.len() as int) =~= y);
    assert(x.is_prefix_of(lj));
    assert(y.is_prefix_of(lk));
    assert(names[a] == h[a].0 && names[b] == h[b].0);
}

/// What a call comes to is what the server answered, where the request could be sent, and why it
/// could not be, where it could not.
pub proof fn law_call_gives_the_answer(
    args: HttpRequestArgs,
    scheme: Result<Seq<char>, Seq<char>>,
    p: HttpResponse,
    m: String,
    r: Result<String, HttpError>,
    s: Result<String, HttpError>,
)
    requires
        http::request_allowed(args, scheme),
        http::http_outcome(args, scheme, Ok(p), r),
        http::http_outcome(args, scheme, Err(m), s),
    ensures
        r is Ok,
        ("status: "@ + p.status@).is_prefix_of(r->Ok_0@),
        args.method@ == "HEAD"@ ==> "\n\n"@.is_suffix_of(r->Ok_0@),
        s matches Err(HttpError::RequestFailed(e)) && e@ == m@,
{
    lemma_method_names();
    let body = http::shown_body(http::method_named(args.method@)->0, p.headers@, p.read);
    law_response_begins_and_ends(p.status@, http::received_headers(p.headers@), body);
    if args.method@ == "HEAD"@ {
        assert("\n\n"@ + body =~= "\n\n"@);
    }
}

/// Which media types are text: all of `text/`, the named ones of `application/`, and whatever ends as
/// JSON or XML does.
pub proof fn law_text_types(v: Seq<char>)
    ensures
        http::textual("text/"@ + v),
        http::textual(v + "+json"@),
        http::textual(v + "+xml"@),
        http::textual("application/json"@),
        http::textual("application/xml"@),
        http::textual("application/javascript"@),
        http::textual("application/x-javascript"@),
        http::textual("application/x-ndjson"@),
        http::textual("application/graphql-response+json"@),
{
    let a = "text/"@ + v;
    let b = v + "+json"@;
    let c = v + "+xml"@;
    assert(a.subrange(0, "text/"@.len() as int) =~= "text/"@);
    assert(b.subrange(v.len() as int, b.len() as int) =~= "+json"@);
    assert(c.subrange(v.len() as int, c.len() as int) =~= "+xml"@);
}

/// Pictures, sounds, films, fonts and documents are no text, but for those that end as JSON or XML
/// does.
pub proof fn law_other_types_are_no_text(m: Seq<char>)
    requires
        m.len() > 0,
        m[0] != 't' && m[0] != 'a',
        !m.contains('+'),
    ensures
        !http::textual(m),
{
    reveal_strlit("text/");
    reveal_strlit("+json");
    reveal_strlit("+xml");
    reveal_strlit("application/json");
    reveal_strlit("application/xml");
    reveal_strlit("application/javascript");
    reveal_strlit("application/x-javascript");
    reveal_strlit("application/x-ndjson");
    reveal_strlit("application/graphql-response+json");
    assert("application/json"@[0] == 'a' && "application/xml"@[0] == 'a'
        && "application/javascript"@[0] == 'a' && "application/x-javascript"@[0] == 'a'
        && "application/x-ndjson"@[0] == 'a' && "application/graphql-response+json"@[0] == 'a');
    if matching::begins(m, "text/"@) {
        assert(m.subrange(0, 5)[0] == 't');
    }
    if matching::ends(m, "+json"@) {
        let k = m.len() - 5;
        assert(m.subrange(k, k + 5)[0] == '+');
        assert(m[k] == '+');
    }
    if matching::ends(m, "+xml"@) {
        let k = m.len() - 4;
        assert(m.subrange(k, k + 4)[0] == '+');
        assert(m[k] == '+');
    }
}

/// A refused request says what it was refused for.
pub proof fn law_refusals_say_why(
    args: HttpRequestArgs,
    scheme: Result<Seq<char>, Seq<char>>,
    e: HttpError,
)
    requires
        http::request_fault(args, scheme, e),
    ensures
        http::method_named(args.method@) is None ==> http::http_error_text(e) == "unsupported method: "@
            + args.method@,
        http::method_named(args.method@) is Some && scheme is Err ==> http::http_error_text(e)
            == "invalid url: "@ + scheme->Err_0,
        http::method_named(args.method@) is Some && scheme is Ok && scheme->Ok_0 != "http"@
            && scheme->Ok_0 != "https"@ ==> http::http_error_text(e) == "unsupported URL scheme: "@
            + scheme->Ok_0,
{
}

proof fn lemma_concatenated_holds(parts: Seq<Seq<char>>, i: int)
    requires
        0 <= i < parts.len(),
    ensures
        exists|a: Seq<char>, b: Seq<char>|
            http::concatenated(parts) == #[trigger] ((a + parts[i]) + b),
    decreases parts.len(),
{
    let front = parts.drop_last();
    if i < front.len() {
        lemma_concatenated_holds(front, i);
        assert(front[i] == parts[i]);
        let (a, b) = choose|a: Seq<char>, b: Seq<char>|
            http::concatenated(front) == #[trigger] ((a + front[i]) + b);
        assert(http::concatenated(parts) =~= (a + parts[i]) + (b + parts.last()));
    } else {
        let a = http::concatenated(front);
        assert(http::concatenated(parts) =~= (a + parts[i]) + Seq::<char>::empty());
    }
}

/// What a call gives of a response is its status, every header on a line of its own, an empty line,
/// and the body: nothing of them is left out.
pub proof fn law_response_holds_every_header(
    status: Seq<char>,
    h: Seq<(Seq<char>, Seq<char>)>,
    body: Seq<char>,
    i: int,
)
    requires
        h.len() <= u64::MAX,
        0 <= i < h.len(),
        text_laws::readable_text(h[i].1),
    ensures
        matching::holds(
            http::response_text(status, h, body),
            "\n"@ + h[i].0 + ": "@ + h[i].1,
        ),
{
    law_every_header_is_shown(h, i);
    let lines = http::header_lines(h);
    let l = "\n"@ + h[i].0 + ": "@ + h[i].1;
    let k = choose|k: int| 0 <= k < h.len() && #[trigger] lines[k] == l;
    lemma_concatenated_holds(lines, k);
    let (a, b) = choose|a: Seq<char>, b: Seq<char>|
        http::concatenated(lines) == #[trigger] ((a + lines[k]) + b);
    let r = http::response_text(status, h, body);
    let before = "status: "@ + status + a;
    assert(r =~= before + l + (b + "\n\n"@ + body));
    let n = before.len() as int;
    assert(r.subrange(n, n + l.len()) =~= l);
    assert(matching::stands_at(r, l, n));
}

/// A text that the server sends comes back whole: what stands behind the empty line encodes to the
/// bytes that were read, as long as they hold readable lines and fit into a result.
pub proof fn law_text_answer_comes_back(
    args: HttpRequestArgs,
    scheme: Result<Seq<char>, Seq<char>>,
    p: HttpResponse,
    v: Seq<char>,
    bytes: Vec<u8>,
    r: Result<String, HttpError>,
)
    requires
        http::request_allowed(args, scheme),
        args.method@ != "HEAD"@,
        http::content_type(p.headers@) == "text/"@ + v,
        p.read == Ok::<Vec<u8>, String>(bytes),
        valid_utf8(bytes@),
        bytes@.len() <= 131072,
        text_laws::readable_lines(decode_utf8(bytes@)),
        http::http_outcome(args, scheme, Ok(p), r),
    ensures
        r is Ok,
        exists|out: Seq<char>|
            encode_utf8(out) == bytes@ && #[trigger] ("\n\n"@ + out).is_suffix_of(r->Ok_0@),
{
    let m = http::method_named(args.method@)->0;
    lemma_method_names();
    law_text_is_read(m, p.headers@, v);
    law_text_body_comes_back(bytes@);
    let out = http::body_text(bytes@);
    law_response_begins_and_ends(p.status@, http::received_headers(p.headers@), out);
    assert(encode_utf8(out) == bytes@ && ("\n\n"@ + out).is_suffix_of(r->Ok_0@));
}

} // verus!
