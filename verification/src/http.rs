//! `http_request`: what is checked before a request is sent, and the text made of its response.

use crate::bytes::{decode_text, lossy_text};
use crate::bytes;
use crate::matching::{ascii_lower, ends_with, starts_with};
use crate::matching;
use crate::order::order_by_name;
use crate::order;
use crate::sanitize::{MAX_TOOL_OUTPUT_BYTES, sanitize_multiline, sanitize_name, truncate_tool_output};
use crate::sanitize;
use crate::text::{byte_len, chars_of, push_decimal, same, split, trim};
use crate::text;
use crate::urls::{is_web_scheme, parse_scheme};
use crate::urls;
use vstd::prelude::*;
use vstd::string::*;
use vstd::utf8::*;

verus! {

/// Bytes of a response that are read at most.
pub const MAX_HTTP_BODY_BYTES: usize = 196608;

/// The name that requests are sent under.
pub const USER_AGENT: &'static str = "choreographr/0.1";

/// Why a request failed.
#[derive(Debug)]
pub enum HttpError {
    UnsupportedMethod(String),
    InvalidUrl(String),
    UnsupportedUrlScheme(String),
    InvalidHeader { name: String, error: String },
    RequestFailed(String),
}

/// Arguments of `http_request`.
#[derive(Debug)]
pub struct HttpRequestArgs {
    /// GET, POST, PUT, DELETE, PATCH or HEAD.
    pub method: String,
    pub url: String,
    /// Names and values.
    pub headers: Vec<(String, String)>,
    pub body: Option<String>,
    /// Seconds; 30 where it is left out.
    pub timeout_secs: Option<u64>,
}

/// The message of an error.
pub open spec fn http_error_text(e: HttpError) -> Seq<char> {
    match e {
        HttpError::UnsupportedMethod(m) => "unsupported method: "@ + m@,
        HttpError::InvalidUrl(m) => "invalid url: "@ + m@,
        HttpError::UnsupportedUrlScheme(m) => "unsupported URL scheme: "@ + m@,
        HttpError::InvalidHeader { name, error } => "invalid header "@ + name@ + ": "@ + error@,
        HttpError::RequestFailed(m) => "request failed: "@ + m@,
    }
}

fn labelled(label: &str, m: &str) -> (r: String)
    ensures
        r@ == label@ + m@,
{
    let mut out = label.to_owned();
    out.append(m);
    out
}

impl HttpError {
    /// The message of the error.
    pub fn to_string(&self) -> (r: String)
        ensures
            r@ == http_error_text(*self),
    {
        match self {
            HttpError::UnsupportedMethod(m) => labelled("unsupported method: ", m),
            HttpError::InvalidUrl(m) => labelled("invalid url: ", m),
            HttpError::UnsupportedUrlScheme(m) => labelled("unsupported URL scheme: ", m),
            HttpError::InvalidHeader { name, error } => {
                let mut out = labelled("invalid header ", name);
                out.append(": ");
                out.append(error);
                out
            },
            HttpError::RequestFailed(m) => labelled("request failed: ", m),
        }
    }
}

/// A method of a request.
#[derive(Debug, Clone, Copy, PartialEq, Eq, Structural)]
pub enum HttpMethod {
    Get,
    Post,
    Put,
    Delete,
    Patch,
    Head,
}

/// The method that a text names.
pub open spec fn method_named(s: Seq<char>) -> Option<HttpMethod> {
    if s == "GET"@ {
        Some(HttpMethod::Get)
    } else if s == "POST"@ {
        Some(HttpMethod::Post)
    } else if s == "PUT"@ {
        Some(HttpMethod::Put)
    } else if s == "DELETE"@ {
        Some(HttpMethod::Delete)
    } else if s == "PATCH"@ {
        Some(HttpMethod::Patch)
    } else if s == "HEAD"@ {
        Some(HttpMethod::Head)
    } else {
        None
    }
}

/// The method that a text names.
pub fn parse_method(s: &str) -> (r: Option<HttpMethod>)
    ensures
        r == method_named(s@),
{
    if same(s, "GET") {
        Some(HttpMethod::Get)
    } else if same(s, "POST") {
        Some(HttpMethod::Post)
    } else if same(s, "PUT") {
        Some(HttpMethod::Put)
    } else if same(s, "DELETE") {
        Some(HttpMethod::Delete)
    } else if same(s, "PATCH") {
        Some(HttpMethod::Patch)
    } else if same(s, "HEAD") {
        Some(HttpMethod::Head)
    } else {
        None
    }
}

/// Whether a request of this method carries a body.
pub open spec fn carries_body(m: HttpMethod) -> bool {
    m == HttpMethod::Post || m == HttpMethod::Put || m == HttpMethod::Patch
}

/// Whether a character may not stand in the name of a header.
pub open spec fn bad_name_char(c: char) -> bool {
    c <= '\u{1f}' || c == '\u{7f}' || c == ':'
}

/// What is wrong with a header, if anything: the name it is reported under, and why.
pub open spec fn header_fault(name: Seq<char>, value: Seq<char>) -> Option<(Seq<char>, Seq<char>)> {
    if name.len() == 0 {
        Some(("(empty)"@, "header name must not be empty"@))
    } else if exists|i: int| 0 <= i < name.len() && bad_name_char(#[trigger] name[i]) {
        Some((name, "header name contains invalid characters"@))
    } else if exists|i: int|
        0 <= i < value.len() && (#[trigger] value[i] == '\n' || value[i] == '\r') {
        Some((name, "header value contains newline characters"@))
    } else {
        None
    }
}

fn has_bad_name_char(name: &str) -> (r: bool)
    ensures
        r == (exists|i: int| 0 <= i < name@.len() && bad_name_char(#[trigger] name@[i])),
{
    let cs = chars_of(name);
    for i in 0..cs.len()
        invariant
            cs@ == name@,
            forall|j: int| 0 <= j < i ==> !bad_name_char(#[trigger] name@[j]),
    {
        let c = cs[i];
        if c <= '\u{1f}' || c == '\u{7f}' || c == ':' {
            assert(bad_name_char(name@[i as int]));
            return true;
        }
    }
    false
}

fn has_line_break(value: &str) -> (r: bool)
    ensures
        r == (exists|i: int|
            0 <= i < value@.len() && (#[trigger] value@[i] == '\n' || value@[i] == '\r')),
{
    let cs = chars_of(value);
    for i in 0..cs.len()
        invariant
            cs@ == value@,
            forall|j: int| 0 <= j < i ==> #[trigger] value@[j] != '\n' && value@[j] != '\r',
    {
        let c = cs[i];
        if c == '\n' || c == '\r' {
            assert(value@[i as int] == c);
            return true;
        }
    }
    false
}

/// Checks one header.
pub fn check_header(name: &str, value: &str) -> (r: Result<(), HttpError>)
    ensures
        match (header_fault(name@, value@), r) {
            (None, Ok(_)) => true,
            (Some(f), Err(HttpError::InvalidHeader { name: n, error })) => n@ == f.0 && error@
                == f.1,
            _ => false,
        },
{
    if name.is_empty() {
        return Err(
            HttpError::InvalidHeader {
                name: "(empty)".to_owned(),
                error: "header name must not be empty".to_owned(),
            },
        );
    }
    if has_bad_name_char(name) {
        return Err(
            HttpError::InvalidHeader {
                name: name.to_owned(),
                error: "header name contains invalid characters".to_owned(),
            },
        );
    }
    if has_line_break(value) {
        return Err(
            HttpError::InvalidHeader {
                name: name.to_owned(),
                error: "header value contains newline characters".to_owned(),
            },
        );
    }
    Ok(())
}

/// The first header at which something is wrong.
pub open spec fn first_fault(headers: Seq<(String, String)>) -> Option<(Seq<char>, Seq<char>)>
    decreases headers.len(),
{
    if headers.len() == 0 {
        None
    } else {
        match header_fault(headers[0].0@, headers[0].1@) {
            Some(f) => Some(f),
            None => first_fault(headers.skip(1)),
        }
    }
}

/// Checks the headers in order.
pub fn check_headers(headers: &Vec<(String, String)>) -> (r: Result<(), HttpError>)
    ensures
        match (first_fault(headers@), r) {
            (None, Ok(_)) => true,
            (Some(f), Err(HttpError::InvalidHeader { name, error })) => name@ == f.0 && error@
                == f.1,
            _ => false,
        },
{
    assert(headers@.skip(0) =~= headers@);
    for i in 0..headers.len()
        invariant
            first_fault(headers@) == first_fault(headers@.skip(i as int)),
    {
        assert(headers@.skip(i as int).skip(1) =~= headers@.skip(i + 1));
        assert(headers@.skip(i as int)[0] == headers@[i as int]);
        let (name, value) = &headers[i];
        match check_header(name, value) {
            Ok(_) => {},
            Err(e) => {
                return Err(e);
            },
        }
    }
    Ok(())
}

/// The timeout of a request: between one second and thirty.
pub open spec fn effective_timeout(wanted: Option<u64>) -> u64 {
    match wanted {
        None => 30,
        Some(t) => if t < 1 {
            1
        } else if t > 30 {
            30
        } else {
            t
        },
    }
}

/// A request that may be sent.
#[derive(Debug)]
pub struct HttpPlan {
    pub method: HttpMethod,
    pub url: String,
    /// The headers to send, in order: the name of the sender first.
    pub headers: Vec<(String, String)>,
    /// The body, where the method carries one and there is one.
    pub body: Option<String>,
    pub timeout_secs: u64,
}

/// The headers as pairs of texts.
pub open spec fn header_views(h: Seq<(String, String)>) -> Seq<(Seq<char>, Seq<char>)> {
    Seq::new(h.len(), |i: int| (h[i].0@, h[i].1@))
}

/// Why a request may not be sent, where `scheme` is what its URL was read as.
pub open spec fn request_fault(
    args: HttpRequestArgs,
    scheme: Result<Seq<char>, Seq<char>>,
    e: HttpError,
) -> bool {
    if method_named(args.method@) is None {
        e matches HttpError::UnsupportedMethod(m) && m@ == args.method@
    } else {
        match scheme {
            Err(why) => e matches HttpError::InvalidUrl(m) && m@ == why,
            Ok(s) => if !urls::web_scheme(s) {
                e matches HttpError::UnsupportedUrlScheme(m) && m@ == s
            } else {
                match first_fault(args.headers@) {
                    Some(f) => e matches HttpError::InvalidHeader { name, error } && name@ == f.0
                        && error@ == f.1,
                    None => false,
                }
            },
        }
    }
}

/// Whether a request may be sent, where `scheme` is what its URL was read as.
pub open spec fn request_allowed(
    args: HttpRequestArgs,
    scheme: Result<Seq<char>, Seq<char>>,
) -> bool {
    &&& method_named(args.method@) is Some
    &&& scheme matches Ok(s)
    &&& urls::web_scheme(s)
    &&& first_fault(args.headers@) is None
}

/// Whether `plan` is the request that `args` ask for.
pub open spec fn planned(args: HttpRequestArgs, plan: HttpPlan) -> bool {
    &&& method_named(args.method@) == Some(plan.method)
    &&& plan.url@ == args.url@
    &&& header_views(plan.headers@) == seq![("User-Agent"@, USER_AGENT@)] + header_views(
        args.headers@,
    )
    &&& sanitize::opt_view(plan.body) == (if carries_body(plan.method) {
        sanitize::opt_view(args.body)
    } else {
        None
    })
    &&& plan.timeout_secs == effective_timeout(args.timeout_secs)
}

/// A result of reading a URL, as texts.
pub open spec fn scheme_view(r: Result<String, String>) -> Result<Seq<char>, Seq<char>> {
    match r {
        Ok(s) => Ok(s@),
        Err(e) => Err(e@),
    }
}

/// Plans a request whose URL was read as `scheme`.
pub fn plan_request(args: &HttpRequestArgs, scheme: Result<String, String>) -> (r: Result<
    HttpPlan,
    HttpError,
>)
    ensures
        match r {
            Ok(plan) => request_allowed(*args, scheme_view(scheme)) && planned(*args, plan),
            Err(e) => request_fault(*args, scheme_view(scheme), e),
        },
{
    let method = match parse_method(args.method.as_str()) {
        Some(m) => m,
        None => {
            return Err(HttpError::UnsupportedMethod(args.method.clone()));
        },
    };
    match scheme {
        Err(e) => {
            return Err(HttpError::InvalidUrl(e));
        },
        Ok(s) => {
            if !is_web_scheme(s.as_str()) {
                return Err(HttpError::UnsupportedUrlScheme(s));
            }
        },
    }
    match check_headers(&args.headers) {
        Ok(_) => {},
        Err(e) => {
            return Err(e);
        },
    }
    let mut headers: Vec<(String, String)> = Vec::new();
    headers.push(("User-Agent".to_owned(), USER_AGENT.to_owned()));
    let ghost first = seq![("User-Agent"@, USER_AGENT@)];
    let ghost rest = header_views(args.headers@);
    assert(header_views(headers@) =~= first + rest.take(0));
    for i in 0..args.headers.len()
        invariant
            rest == header_views(args.headers@),
            header_views(headers@) == first + rest.take(i as int),
    {
        let (name, value) = &args.headers[i];
        let ghost before = headers@;
        headers.push((name.clone(), value.clone()));
        assert(header_views(headers@) =~= header_views(before).push(rest[i as int]));
        assert(rest.take(i + 1) =~= rest.take(i as int).push(rest[i as int]));
        assert(header_views(headers@) =~= first + rest.take(i + 1));
    }
    assert(rest.take(rest.len() as int) =~= rest);
    let with_body = match method {
        HttpMethod::Post => true,
        HttpMethod::Put => true,
        HttpMethod::Patch => true,
        _ => false,
    };
    let body = if with_body {
        match &args.body {
            Some(b) => Some(b.clone()),
            None => None,
        }
    } else {
        None
    };
    let timeout_secs: u64 = match args.timeout_secs {
        None => 30,
        Some(t) => if t < 1 {
            1
        } else if t > 30 {
            30
        } else {
            t
        },
    };
    Ok(HttpPlan { method, url: args.url.clone(), headers, body, timeout_secs })
}

/// Checks a request and plans how it is sent.
pub fn prepare_http_request(args: &HttpRequestArgs) -> (r: Result<HttpPlan, HttpError>)
    ensures
        match r {
            Ok(plan) => request_allowed(*args, urls::url_scheme(args.url@)) && planned(*args, plan),
            Err(e) => request_fault(*args, urls::url_scheme(args.url@), e),
        },
{
    plan_request(args, parse_scheme(args.url.as_str()))
}

/// The media type in a content type: what stands before the first semicolon, without white space
/// around it, in lower case.
pub open spec fn media_type(content_type: Seq<char>) -> Seq<char> {
    matching::lowered(text::trimmed(text::split_on(content_type, ';')[0]))
}

/// Whether a media type is one of text.
pub open spec fn textual(mime: Seq<char>) -> bool {
    ||| matching::begins(mime, "text/"@)
    ||| mime == "application/json"@
    ||| mime == "application/xml"@
    ||| mime == "application/javascript"@
    ||| mime == "application/x-javascript"@
    ||| mime == "application/x-ndjson"@
    ||| mime == "application/graphql-response+json"@
    ||| matching::ends(mime, "+json"@)
    ||| matching::ends(mime, "+xml"@)
}

/// Whether a response of this content type is text.
pub fn is_text_content_type(content_type: &str) -> (r: bool)
    ensures
        r == textual(media_type(content_type@)),
{
    let parts = split(content_type, ';');
    assert(text::views(parts@)[0] == parts@[0]@);
    let trimmed_part = trim(parts[0].as_str());
    let mime = ascii_lower(trimmed_part.as_str());
    let m = mime.as_str();
    starts_with(m, "text/") || same(m, "application/json") || same(m, "application/xml") || same(
        m,
        "application/javascript",
    ) || same(m, "application/x-javascript") || same(m, "application/x-ndjson") || same(
        m,
        "application/graphql-response+json",
    ) || ends_with(m, "+json") || ends_with(m, "+xml")
}

/// What is wrong with bytes that are not valid UTF-8.
pub uninterp spec fn utf8_fault(bytes: Seq<u8>) -> Seq<char>;

/// What is wrong with bytes that are not valid UTF-8.
///
/// Calls `String::from_utf8`, which refuses such bytes; the message of its error is named.
#[verifier::external_body]
fn decoding_fault(bytes: Vec<u8>) -> (r: String)
    requires
        !valid_utf8(bytes@),
    ensures
        r@ == utf8_fault(bytes@),
{
    match String::from_utf8(bytes) {
        Ok(s) => s,
        Err(e) => e.to_string(),
    }
}

/// Reads bytes as UTF-8; the error says what is wrong with them.
fn strict_text(bytes: Vec<u8>) -> (r: Result<String, String>)
    ensures
        match r {
            Ok(s) => valid_utf8(bytes@) && s@ == decode_utf8(bytes@),
            Err(e) => !valid_utf8(bytes@) && e@ == utf8_fault(bytes@),
        },
{
    match decode_text(bytes.as_slice()) {
        Ok(s) => Ok(s),
        Err(_) => Err(decoding_fault(bytes)),
    }
}

/// The text of a response that was read whole or up to the limit.
///
/// One that was cut is decoded with replacement characters, since the cut can fall within a
/// character; one that was not has to be valid.
pub open spec fn body_text(bytes: Seq<u8>) -> Seq<char> {
    if bytes.len() >= MAX_HTTP_BODY_BYTES {
        clean_body(bytes::utf8_lossy(bytes))
    } else if valid_utf8(bytes) {
        clean_body(decode_utf8(bytes))
    } else {
        "body omitted: failed to decode response text: "@ + utf8_fault(bytes)
    }
}

/// A text made safe line by line and cut to the byte budget of a tool result.
pub open spec fn clean_body(text: Seq<char>) -> Seq<char> {
    sanitize::truncated_at(text::join(sanitize::sanitized_lines(text), seq!['\n']), MAX_TOOL_OUTPUT_BYTES as nat)
}

/// The text of a response, made safe line by line and cut to the byte budget of a tool result.
/// `read` holds at most `MAX_HTTP_BODY_BYTES` bytes, or says why reading failed.
pub fn read_bounded_text_body(read: Result<Vec<u8>, String>) -> (r: String)
    ensures
        match read {
            Err(e) => r@ == "body omitted: failed to read response body: "@ + e@,
            Ok(b) => r@ == body_text(b@),
        },
{
    let bytes = match read {
        Err(e) => {
            return labelled("body omitted: failed to read response body: ", e.as_str());
        },
        Ok(b) => b,
    };
    let text = if bytes.len() >= MAX_HTTP_BODY_BYTES {
        lossy_text(bytes.as_slice())
    } else {
        match strict_text(bytes) {
            Ok(s) => s,
            Err(e) => {
                return labelled("body omitted: failed to decode response text: ", e.as_str());
            },
        }
    };
    let clean = sanitize_multiline(text.as_str());
    truncate_tool_output(clean.as_str())
}

/// The names of headers.
pub open spec fn header_names(h: Seq<(Seq<char>, Seq<char>)>) -> Seq<Seq<char>> {
    Seq::new(h.len(), |i: int| h[i].0)
}

/// One line for each header, in the order of the names, the value made safe.
pub open spec fn header_lines(h: Seq<(Seq<char>, Seq<char>)>) -> Seq<Seq<char>> {
    let order = order::name_order(header_names(h));
    Seq::new(
        h.len(),
        |k: int| "\n"@ + h[order[k]].0 + ": "@ + sanitize::sanitized(h[order[k]].1, false),
    )
}

/// Texts one behind the other.
pub open spec fn concatenated(parts: Seq<Seq<char>>) -> Seq<char>
    decreases parts.len(),
{
    if parts.len() == 0 {
        Seq::empty()
    } else {
        concatenated(parts.drop_last()) + parts.last()
    }
}

/// The text made of a response.
pub open spec fn response_text(
    status: Seq<char>,
    headers: Seq<(Seq<char>, Seq<char>)>,
    body: Seq<char>,
) -> Seq<char> {
    "status: "@ + status + concatenated(header_lines(headers)) + "\n\n"@ + body
}

/// The text made of a response: its status, its headers in the order of their names, its body.
pub fn format_http_response(status: &str, headers: &Vec<(String, String)>, body: &str) -> (r: String)
    ensures
        r@ == response_text(status@, header_views(headers@), body@),
{
    let mut names: Vec<String> = Vec::new();
    for i in 0..headers.len()
        invariant
            names@.len() == i,
            forall|j: int| 0 <= j < i ==> (#[trigger] names@[j])@ == headers@[j].0@,
    {
        names.push(headers[i].0.clone());
    }
    assert(text::views(names@) =~= header_names(header_views(headers@)));
    let order = order_by_name(&names);
    let mut out = labelled("status: ", status);
    let ghost first = out@;
    let ghost lines = header_lines(header_views(headers@));
    assert(lines.take(0) =~= Seq::<Seq<char>>::empty());
    assert(out@ =~= first + concatenated(lines.take(0)));
    for k in 0..order.len()
        invariant
            order@.len() == headers@.len(),
            lines == header_lines(header_views(headers@)),
            forall|j: int|
                0 <= j < order@.len() ==> #[trigger] order@[j] < headers@.len() && order@[j]
                    == order::name_order(header_names(header_views(headers@)))[j],
            out@ == first + concatenated(lines.take(k as int)),
    {
        let (name, value) = &headers[order[k]];
        let mut line = labelled("\n", name);
        line.append(": ");
        line.append(sanitize_name(value).as_str());
        assert(line@ == lines[k as int]);
        out.append(line.as_str());
        assert(lines.take(k + 1).drop_last() =~= lines.take(k as int));
        assert(out@ =~= first + concatenated(lines.take(k + 1)));
    }
    assert(lines.take(lines.len() as int) =~= lines);
    out.append("\n\n");
    out.append(body);
    out
}

/// A header of a response; a value that is not text is `None`.
pub open spec fn received_header(h: (String, Option<String>)) -> (Seq<char>, Seq<char>) {
    (matching::lowered(h.0@), match h.1 {
        Some(v) => v@,
        None => "<non-utf8>"@,
    })
}

/// The headers of a response as texts.
pub open spec fn received_headers(raw: Seq<(String, Option<String>)>) -> Seq<(Seq<char>, Seq<char>)> {
    Seq::new(raw.len(), |i: int| received_header(raw[i]))
}

/// The headers of a response, the names in lower case.
pub fn collect_headers(raw: &Vec<(String, Option<String>)>) -> (r: Vec<(String, String)>)
    ensures
        header_views(r@) == received_headers(raw@),
{
    let mut out: Vec<(String, String)> = Vec::new();
    for i in 0..raw.len()
        invariant
            out@.len() == i,
            forall|j: int|
                0 <= j < i ==> ((#[trigger] out@[j]).0@, out@[j].1@) == received_header(raw@[j]),
    {
        let (name, value) = &raw[i];
        let shown = match value {
            Some(v) => v.clone(),
            None => "<non-utf8>".to_owned(),
        };
        out.push((ascii_lower(name), shown));
    }
    assert(header_views(out@) =~= received_headers(raw@));
    out
}

/// The value of the first content type among the headers of a response; nothing where there is
/// none or it is not text.
pub open spec fn content_type(raw: Seq<(String, Option<String>)>) -> Seq<char>
    decreases raw.len(),
{
    if raw.len() == 0 {
        Seq::empty()
    } else if matching::lowered(raw[0].0@) == "content-type"@ {
        match raw[0].1 {
            Some(v) => v@,
            None => Seq::empty(),
        }
    } else {
        content_type(raw.skip(1))
    }
}

/// The content type of a response.
pub fn content_type_of(raw: &Vec<(String, Option<String>)>) -> (r: String)
    ensures
        r@ == content_type(raw@),
{
    assert(raw@.skip(0) =~= raw@);
    for i in 0..raw.len()
        invariant
            content_type(raw@) == content_type(raw@.skip(i as int)),
    {
        assert(raw@.skip(i as int)[0] == raw@[i as int]);
        assert(raw@.skip(i as int).skip(1) =~= raw@.skip(i + 1));
        let (name, value) = &raw[i];
        if same(ascii_lower(name).as_str(), "content-type") {
            return match value {
                Some(v) => v.clone(),
                None => String::new(),
            };
        }
    }
    String::new()
}

/// Whether the body of a response is read: not that of a HEAD request, and only where it is text.
pub open spec fn reads_body(method: HttpMethod, raw: Seq<(String, Option<String>)>) -> bool {
    method != HttpMethod::Head && textual(media_type(content_type(raw)))
}

/// Whether the body of a response is to be read.
pub fn wants_body(method: HttpMethod, raw: &Vec<(String, Option<String>)>) -> (r: bool)
    ensures
        r == reads_body(method, raw@),
{
    match method {
        HttpMethod::Head => false,
        _ => is_text_content_type(content_type_of(raw).as_str()),
    }
}

/// What stands for the body in the result. `read` is what was read of a body that is to be read.
pub open spec fn shown_body(
    method: HttpMethod,
    raw: Seq<(String, Option<String>)>,
    read: Result<Vec<u8>, String>,
) -> Seq<char> {
    if method == HttpMethod::Head {
        Seq::empty()
    } else if reads_body(method, raw) {
        match read {
            Err(e) => "body omitted: failed to read response body: "@ + e@,
            Ok(b) => body_text(b@),
        }
    } else {
        "body omitted: non-text response"@
    }
}

/// Makes the result of a response. `read` is what was read of its body, where it was to be read.
pub fn finish_http_response(
    method: HttpMethod,
    status: &str,
    raw: &Vec<(String, Option<String>)>,
    read: Result<Vec<u8>, String>,
) -> (r: String)
    ensures
        r@ == response_text(status@, received_headers(raw@), shown_body(method, raw@, read)),
{
    let headers = collect_headers(raw);
    let body = match method {
        HttpMethod::Head => String::new(),
        _ => if wants_body(method, raw) {
            read_bounded_text_body(read)
        } else {
            "body omitted: non-text response".to_owned()
        },
    };
    format_http_response(status, &headers, body.as_str())
}

/// The tool itself.
pub struct HttpRequest;

/// The text on a call.
pub open spec fn http_invocation(args: HttpRequestArgs) -> Seq<char> {
    "Making "@ + args.method@ + " HTTP request to "@ + args.url@ + "."@ + (if args.headers@.len()
        > 0 {
        " "@ + text::decimal(args.headers@.len()) + " header(s)."@
    } else {
        Seq::empty()
    }) + (match args.body {
        Some(b) => " Body: "@ + text::decimal(text::utf8_len(b@)) + " bytes."@,
        None => Seq::empty(),
    }) + " Timeout: "@ + text::decimal(match args.timeout_secs {
        Some(t) => t as nat,
        None => 30,
    }) + "s."@
}

impl HttpRequest {
    /// A short text on a call.
    pub fn describe_invocation(&self, args: &HttpRequestArgs) -> (r: String)
        ensures
            r@ == http_invocation(*args),
    {
        let mut counted = String::new();
        if args.headers.len() > 0 {
            let mut s = " ".to_owned();
            push_decimal(&mut s, args.headers.len() as u64);
            s.append(" header(s).");
            counted = s;
        }
        let sized = match &args.body {
            Some(b) => {
                let mut s = " Body: ".to_owned();
                push_decimal(&mut s, byte_len(b) as u64);
                s.append(" bytes.");
                s
            },
            None => String::new(),
        };
        let secs: u64 = match args.timeout_secs {
            Some(t) => t,
            None => 30,
        };
        let mut out = "Making ".to_owned();
        out.append(args.method.as_str());
        out.append(" HTTP request to ");
        out.append(args.url.as_str());
        out.append(".");
        out.append(counted.as_str());
        out.append(sized.as_str());
        out.append(" Timeout: ");
        push_decimal(&mut out, secs);
        out.append("s.");
        out
    }
}

/// No request is planned for anything but a web URL, and none with a header that could add lines to
/// the request.
pub proof fn law_planned_requests_are_safe(
    args: HttpRequestArgs,
    scheme: Result<Seq<char>, Seq<char>>,
    i: int,
)
    requires
        request_allowed(args, scheme),
        0 <= i < args.headers@.len(),
    ensures
        scheme == Ok::<Seq<char>, Seq<char>>("http"@) || scheme == Ok::<Seq<char>, Seq<char>>(
            "https"@,
        ),
        header_fault(args.headers@[i].0@, args.headers@[i].1@) is None,
{
    lemma_no_fault(args.headers@, i);
}

proof fn lemma_no_fault(h: Seq<(String, String)>, i: int)
    requires
        first_fault(h) is None,
        0 <= i < h.len(),
    ensures
        header_fault(h[i].0@, h[i].1@) is None,
    decreases h.len(),
{
    if i > 0 {
        lemma_no_fault(h.skip(1), i - 1);
        assert(h.skip(1)[i - 1] == h[i]);
    }
}

/// The value of a header stays on its line, whatever the server sent.
pub proof fn law_header_values_stay_on_their_line(h: Seq<(Seq<char>, Seq<char>)>, k: int)
    requires
        0 <= k < h.len(),
    ensures
        ({
            let at = order::name_order(header_names(h))[k];
            let value = sanitize::sanitized(h[at].1, false);
            &&& header_lines(h)[k] == "\n"@ + h[at].0 + ": "@ + value
            &&& !value.contains('\n')
            &&& !value.contains('\r')
        }),
{
    let at = order::name_order(header_names(h))[k];
    sanitize::law_sanitized_is_one_line(h[at].1, false);
}

/// A body is within the byte budget of a tool result, and the truncation suffix.
pub proof fn law_body_is_bounded(text: Seq<char>)
    ensures
        text::utf8_len(clean_body(text)) <= MAX_TOOL_OUTPUT_BYTES + 15,
{
    sanitize::lemma_suffix_len();
    sanitize::law_truncation_bound(text::join(sanitize::sanitized_lines(text), seq!['\n']), MAX_TOOL_OUTPUT_BYTES as nat);
}

/// A response as it came.
#[derive(Debug)]
pub struct HttpResponse {
    /// The status with its phrase, such as `200 OK`.
    pub status: String,
    /// The headers in the order they came; a value that is not text is `None`.
    pub headers: Vec<(String, Option<String>)>,
    /// What was read of the body, where it was to be read.
    pub read: Result<Vec<u8>, String>,
}

/// What a call comes to, where `scheme` is what its URL was read as and `sent` what sending the
/// request gave.
pub open spec fn http_outcome(
    args: HttpRequestArgs,
    scheme: Result<Seq<char>, Seq<char>>,
    sent: Result<HttpResponse, String>,
    r: Result<String, HttpError>,
) -> bool {
    if request_allowed(args, scheme) {
        match (sent, r) {
            (Err(m), Err(HttpError::RequestFailed(e))) => e@ == m@,
            (Ok(p), Ok(s)) => s@ == response_text(
                p.status@,
                received_headers(p.headers@),
                shown_body(method_named(args.method@)->0, p.headers@, p.read),
            ),
            _ => false,
        }
    } else {
        r matches Err(e) && request_fault(args, scheme, e)
    }
}

/// Makes the result of a call whose URL was read as `scheme`. `sent` is what sending the planned
/// request gave.
pub fn finish_http_request(
    args: &HttpRequestArgs,
    scheme: Result<String, String>,
    sent: Result<HttpResponse, String>,
) -> (r: Result<String, HttpError>)
    ensures
        http_outcome(*args, scheme_view(scheme), sent, r),
{
    let plan = match plan_request(args, scheme) {
        Ok(p) => p,
        Err(e) => {
            return Err(e);
        },
    };
    match sent {
        Err(m) => Err(HttpError::RequestFailed(m)),
        Ok(p) => Ok(finish_http_response(plan.method, p.status.as_str(), &p.headers, p.read)),
    }
}

/// Makes the result of a call. `sent` is what sending the planned request gave; it does not matter
/// where the request may not be sent.
pub fn execute_http_request_tool(args: &HttpRequestArgs, sent: Result<HttpResponse, String>) -> (r:
    Result<String, HttpError>)
    ensures
        http_outcome(*args, urls::url_scheme(args.url@), sent, r),
{
    finish_http_request(args, parse_scheme(args.url.as_str()), sent)
}

} // verus!
