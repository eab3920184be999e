//! What `retrieve_webpage` is for: the browser gets the window, the page and the time that the call
//! asks for, captures what it asks for, and what was captured is what the call gives.

use crate::encoding;
use crate::json::Json;
use crate::json;
use crate::label_laws;
use crate::paths;
use crate::retrieve_webpage::{Capture, HostOs, WebpageAction};
use crate::retrieve_webpage;
use crate::text;
use crate::text_laws;
use crate::webpage_run::{Phase, RunView, WebEvent, WebStep};
use crate::webpage_run;
use vstd::prelude::*;

verus! {

/// Whether the call is at a step, is answered by an event and goes on with `s`.
pub open spec fn goes_on(v: RunView, event: WebEvent, phase: Phase, s: WebStep) -> bool {
    &&& webpage_run::run_ok(v)
    &&& webpage_run::answers(v, event)
    &&& webpage_run::follows(v, event, phase, s)
}

/// Once a browser is found it is started with a window as wide and as high as the call asks for;
/// 1280 wide where it asks for no width, and 800 high where it asks for no height.
pub proof fn law_window_has_the_asked_size(v: RunView, phase: Phase, s: WebStep)
    requires
        goes_on(v, WebEvent::Fine, phase, s),
        v.phase is FindBrowser,
    ensures
        s matches WebStep::Launch(w, h) && {
            &&& v.args.width is Some ==> w == v.args.width->0
            &&& v.args.width is None ==> w == 1280
            &&& v.args.height is Some ==> h == v.args.height->0
            &&& v.args.height is None ==> h == 800
        },
{
}

/// The width of the window depends on the width that is asked for alone, and its height on the
/// height.
pub proof fn law_width_and_height_are_apart(
    v: RunView,
    phase: Phase,
    s: WebStep,
    u: RunView,
    other: Phase,
    t: WebStep,
)
    requires
        goes_on(v, WebEvent::Fine, phase, s),
        goes_on(u, WebEvent::Fine, other, t),
        v.phase is FindBrowser,
        u.phase is FindBrowser,
    ensures
        s is Launch && t is Launch,
        v.args.width == u.args.width ==> s->Launch_0 == t->Launch_0,
        v.args.height == u.args.height ==> s->Launch_1 == t->Launch_1,
{
}

/// The browser goes to the URL of the call, without the white space around it, and has as many
/// milliseconds as the call asks for; thirty thousand where it asks for none.
pub proof fn law_browser_goes_to_the_url(v: RunView, phase: Phase, s: WebStep)
    requires
        goes_on(v, WebEvent::Fine, phase, s),
        v.phase is OpenTab,
    ensures
        s matches WebStep::Navigate(u, t) && {
            &&& forall|k: int|
                0 <= k < v.args.url@.len() && '!' <= #[trigger] v.args.url@[k] <= '~'
                    ==> u@.contains(v.args.url@[k])
            &&& exists|i: int, j: int|
                0 <= i <= j <= v.args.url@.len() && u@ == #[trigger] v.args.url@.subrange(i, j)
            &&& v.args.url@.len() > 0 && '!' <= v.args.url@[0] <= '~' && '!' <= v.args.url@.last()
                <= '~' ==> u@ == v.args.url@
            &&& v.args.timeout_ms is Some ==> t == v.args.timeout_ms->0
            &&& v.args.timeout_ms is None ==> t == 30000
        },
{
    text_laws::law_trimming_takes_only_white_space(v.args.url@);
}

/// A loaded page is given the wait that the call asks for, and no wait where it asks for none.
pub proof fn law_page_settles_as_asked(v: RunView, phase: Phase, s: WebStep)
    requires
        goes_on(v, WebEvent::Fine, phase, s),
        v.phase is Load,
    ensures
        v.args.wait_ms matches Some(ms) && ms > 0 ==> s == WebStep::Settle(v.args.wait_ms->0),
        v.args.wait_ms is None || v.args.wait_ms == Some(0u64) ==> s is Capture || s is Finish,
{
}

/// What is captured is what the call asks for: the HTML of the page or of an element, its text, a
/// picture of the page or of an element, or a PDF for the named file. HTML where nothing is said.
pub proof fn law_capture_is_the_asked_one(v: RunView, event: WebEvent, phase: Phase, s: WebStep)
    requires
        goes_on(v, event, phase, s),
        s is Capture,
    ensures
        ({
            let c = s->Capture_0;
            let sel = v.args.selector;
            &&& v.args.action is None || v.args.action == Some(WebpageAction::Content) ==> (if sel is None {
                c is PageHtml
            } else {
                c is ElementHtml && c->ElementHtml_0@ == "(() => { const e = document.querySelector("@
                    + json::json_quoted(sel->0@) + "); return e ? e.outerHTML : ''; })()"@
            })
            &&& v.args.action == Some(WebpageAction::Text) ==> c is PageText && c->PageText_0@ == (
            if sel is None {
                "(() => { const e = document.body; return e ? e.innerText : ''; })()"@
            } else {
                "(() => { const e = document.querySelector("@ + json::json_quoted(sel->0@)
                    + "); return e ? e.innerText : ''; })()"@
            })
            &&& v.args.action == Some(WebpageAction::Screenshot) ==> (if sel is None {
                c is PageShot && (v.args.full_page is Some ==> c->PageShot_0 == v.args.full_page->0)
                    && (v.args.full_page is None ==> c->PageShot_0)
            } else {
                c is ElementShot && c->ElementShot_0@ == sel->0@
            })
            &&& v.args.action == Some(WebpageAction::Pdf) ==> c is PagePdf && v.args.output_path is Some
                && c->PagePdf_0@ == v.args.output_path->0@
        }),
{
}

/// A page that settled, or needs no wait, is captured, whatever is asked for but a PDF without a
/// file to save it in.
pub proof fn law_loaded_pages_are_captured(v: RunView, phase: Phase, s: WebStep)
    requires
        goes_on(v, WebEvent::Fine, phase, s),
        v.phase is Settle || (v.phase is Load && v.args.wait_ms is None),
    ensures
        v.args.output_path is Some || v.args.action != Some(WebpageAction::Pdf) ==> s is Capture,
        v.args.output_path is None && v.args.action == Some(WebpageAction::Pdf) ==> (s matches
            WebStep::Finish(Err(e)) && e@
            == "pdf action requires output_path so the binary can be saved"@),
{
}

/// The HTML of a page is given as the browser gave it.
pub proof fn law_html_is_given_whole(v: RunView, html: String, phase: Phase, s: WebStep)
    requires
        goes_on(v, WebEvent::Content(html), phase, s),
    ensures
        s matches WebStep::Finish(Ok(o)) && o.text@ == html@ && o.image is None,
{
}

/// The text that a script gave is given as it is; a script that gave no text gives none.
pub proof fn law_script_text_is_given_whole(v: RunView, value: Option<Json>, phase: Phase, s: WebStep)
    requires
        goes_on(v, WebEvent::Value(value), phase, s),
    ensures
        s matches WebStep::Finish(Ok(o)) && o.image is None && (match value {
            Some(Json::Text(t)) => o.text@ == t@,
            _ => o.text@.len() == 0,
        }),
{
}

/// A picture that is not to be saved is given at once, byte by byte, with its width and its height;
/// what is to be saved is written where the call says, byte by byte.
pub proof fn law_picture_is_given_whole(v: RunView, bytes: Vec<u8>, phase: Phase, s: WebStep)
    requires
        goes_on(v, WebEvent::Bytes(bytes), phase, s),
    ensures
        v.args.output_path is None ==> s is Finish && s->Finish_0 is Ok && s->Finish_0->Ok_0.image is Some && {
            let o = s->Finish_0->Ok_0;
            let p = o.image->0;
            &&& p.data@ == bytes@
            &&& p.mime_type@ == "image/png"@
            &&& encoding::image_size(bytes@) matches Some(d) ==> p.width == d.0 && p.height == d.1
                && o.text@ == "captured screenshot ("@ + text::decimal(d.0 as nat) + "x"@
                + text::decimal(d.1 as nat) + ", PNG, "@ + encoding::binary_size(bytes@.len())
                + ")"@
            &&& p.alt is Some && p.alt->0@ == "Screenshot of "@ + text::trimmed(v.args.url@)
        },
        v.args.output_path is Some ==> s is Save && s->Save_1@ == bytes@,
        v.args.output_path matches Some(p) && p@.len() > 0 && p@[0] == '/' ==> s is Save && s->Save_0@
            == v.args.output_path->0@,
{
    reveal_strlit("captured screenshot (");
    if v.args.output_path is None {
        let o = s->Finish_0->Ok_0;
        if let Some(d) = encoding::image_size(bytes@) {
            assert(o.text@ =~= "captured screenshot ("@ + text::decimal(d.0 as nat) + "x"@
                + text::decimal(d.1 as nat) + ", PNG, "@ + encoding::binary_size(bytes@.len())
                + ")"@);
        }
    }
}

/// What the environment names comes before everything else, the first variable first; and each name
/// on the search path is looked for in each of its directories.
pub proof fn law_named_browser_comes_first(
    chromium_bin: Option<String>,
    chrome_bin: Option<String>,
    dirs: Seq<Seq<char>>,
    os: HostOs,
)
    ensures
        ({
            let places = retrieve_webpage::browser_places(chromium_bin, chrome_bin, dirs, os);
            &&& chromium_bin matches Some(b) ==> places.len() > 0 && places[0] == b@
            &&& chromium_bin is None && chrome_bin is Some ==> places.len() > 0 && places[0]
                == chrome_bin->0@
            &&& chromium_bin is Some && chrome_bin is Some ==> places.len() > 1 && places[1]
                == chrome_bin->0@
        }),
{
}

/// A failure ends the call with an error that says which step failed and why.
pub proof fn law_failures_say_why(v: RunView, why: String, phase: Phase, s: WebStep)
    requires
        goes_on(v, WebEvent::Failed(why), phase, s),
    ensures
        phase is Done,
        s matches WebStep::Finish(Err(e)) && (!(v.phase is FindBrowser) ==> (": "@
            + why@).is_suffix_of(e@)),
        v.phase is Launch ==> s->Finish_0->Err_0@ == "failed to launch headless browser: "@ + why@,
        v.phase is OpenTab ==> s->Finish_0->Err_0@ == "failed to open a tab: "@ + why@,
        v.phase is Load ==> s->Finish_0->Err_0@ == "page never finished loading: "@ + why@,
{
    reveal_strlit("failed to launch headless browser: ");
    reveal_strlit("failed to launch headless browser");
    reveal_strlit("failed to open a tab: ");
    reveal_strlit("failed to open a tab");
    reveal_strlit("page never finished loading: ");
    reveal_strlit("page never finished loading");
    reveal_strlit(": ");
    let e = s->Finish_0->Err_0@;
    let end = ": "@ + why@;
    if !(v.phase is FindBrowser) {
        assert(e.skip(e.len() - end.len()) =~= end);
    }
    if v.phase is Launch {
        assert(e =~= "failed to launch headless browser: "@ + why@);
    }
    if v.phase is OpenTab {
        assert(e =~= "failed to open a tab: "@ + why@);
    }
    if v.phase is Load {
        assert(e =~= "page never finished loading: "@ + why@);
    }
}

/// A page is gone to exactly where its URL is one of the web.
pub proof fn law_only_web_pages_are_retrieved(url: Seq<char>, scheme: Result<Seq<char>, Seq<char>>)
    ensures
        retrieve_webpage::url_fault(url, scheme) is None <==> scheme == Ok::<Seq<char>, Seq<char>>(
            "http"@,
        ) || scheme == Ok::<Seq<char>, Seq<char>>("https"@),
{
}

/// What is saved under a relative name is saved below the working directory.
pub proof fn law_captures_are_saved_below_the_working_directory(
    v: RunView,
    bytes: Vec<u8>,
    phase: Phase,
    s: WebStep,
)
    requires
        goes_on(v, WebEvent::Bytes(bytes), phase, s),
        v.args.output_path is Some,
        v.working_dir is Some,
        label_laws::plain_relative(v.args.output_path->0@),
        v.args.output_path->0@[0] != '~',
    ensures
        s matches WebStep::Save(p, b) && p@ == label_laws::below(
            v.working_dir->0,
            v.args.output_path->0@,
        ) && b@ == bytes@,
{
    let rel = v.args.output_path->0@;
    let p = s->Save_0@;
    let home = choose|home: Option<Seq<char>>|
        p == #[trigger] paths::resolved_path(rel, v.working_dir, home);
    label_laws::law_relative_paths_lie_below_the_working_directory(rel, v.working_dir->0, home);
}

/// A picture that was saved is given as well, and the text on it says where it lies; a document that
/// was saved is told by its size and its place.
pub proof fn law_saved_capture_is_told(v: RunView, phase: Phase, s: WebStep)
    requires
        goes_on(v, WebEvent::Fine, phase, s),
        v.phase is Save,
    ensures
        ({
            let (bytes, path) = v.kept->0;
            &&& v.kept is Some
            &&& s is Finish && s->Finish_0 is Ok
            &&& v.args.action == Some(WebpageAction::Screenshot) ==> ("; saved to "@
                + path).is_suffix_of(s->Finish_0->Ok_0.text@) && s->Finish_0->Ok_0.image is Some
                && s->Finish_0->Ok_0.image->0.data@ == bytes
            &&& v.args.action == Some(WebpageAction::Pdf) ==> s->Finish_0->Ok_0.text@ == "saved PDF ("@
                + encoding::binary_size(bytes.len()) + ") to "@ + path && s->Finish_0->Ok_0.image is None
        }),
{
    let (bytes, path) = v.kept->0;
    if v.args.action == Some(WebpageAction::Screenshot) {
        let t = s->Finish_0->Ok_0.text@;
        let end = "; saved to "@ + path;
        assert(t.skip(t.len() - end.len()) =~= end);
    }
}

} // verus!
