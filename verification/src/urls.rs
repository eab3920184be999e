//! What the library needs to know of a URL.

use crate::text::same;
use vstd::prelude::*;
use vstd::string::*;

verus! {

/// The scheme of a text read as an absolute URL, or what is wrong with it.
pub uninterp spec fn url_scheme(text: Seq<char>) -> Result<Seq<char>, Seq<char>>;

/// Reads a text as an absolute URL.
///
/// Calls `url::Url::parse`; gives the scheme that `url::Url::scheme` names, or the message of the
/// parse error. Both are named by `url_scheme`.
#[verifier::external_body]
pub(crate) fn parse_scheme(text: &str) -> (r: Result<String, String>)
    ensures
        match r {
            Ok(s) => url_scheme(text@) == Ok::<Seq<char>, Seq<char>>(s@),
            Err(e) => url_scheme(text@) == Err::<Seq<char>, Seq<char>>(e@),
        },
{
    match url::Url::parse(text) {
        Ok(parsed) => Ok(parsed.scheme().to_owned()),
        Err(e) => Err(e.to_string()),
    }
}

/// Whether a scheme is that of the web.
pub open spec fn web_scheme(s: Seq<char>) -> bool {
    s == "http"@ || s == "https"@
}

/// Whether a scheme is that of the web.
pub fn is_web_scheme(s: &str) -> (r: bool)
    ensures
        r == web_scheme(s@),
{
    same(s, "http") || same(s, "https")
}

} // verus!
