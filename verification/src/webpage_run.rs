//! Driving a browser through a call of `retrieve_webpage`, step by step.
//!
//! Each step is carried out elsewhere and answered with an event; the next step follows from it.

use crate::encoding;
use crate::error::ToolExecError;
use crate::image_gen::PreparedImage;
use crate::json::Json;
use crate::paths::resolve_path;
use crate::paths;
use crate::registry::{ToolCall, ToolOutput, ToolOutputFormat};
use crate::registry;
use crate::retrieve_webpage::{Capture, LaunchPlan, RetrieveWebpage, RetrieveWebpageArgs, WebStage, WebpageAction, finish_pdf, finish_screenshot, no_browser_error, plan_capture, plan_launch, remote_text, stage_error};
use crate::retrieve_webpage;
use crate::sanitize;
use crate::text;
use vstd::prelude::*;
use vstd::string::*;

verus! {

/// How far a call has come.
#[derive(Debug, Clone, Copy, PartialEq, Eq, Structural)]
pub enum Phase {
    FindBrowser,
    Launch,
    OpenTab,
    Navigate,
    Load,
    Settle,
    Capture,
    Save,
    Done,
}

/// What became of a step.
#[derive(Debug)]
pub enum WebEvent {
    /// It went well.
    Fine,
    /// It went wrong.
    Failed(String),
    /// The element that was to be captured is not there.
    Missing(String),
    /// The directory of the file could not be made.
    NoDirectory(String),
    /// The HTML of the page.
    Content(String),
    /// What a script gave.
    Value(Option<Json>),
    /// A picture or a PDF.
    Bytes(Vec<u8>),
}

/// What a call gives.
#[derive(Debug)]
pub struct WebOutput {
    pub text: String,
    pub image: Option<PreparedImage>,
}

/// What is to be done next.
#[derive(Debug)]
pub enum WebStep {
    /// Look for a browser.
    FindBrowser,
    /// Start it with a window of this width and height.
    Launch(u32, u32),
    OpenTab,
    /// Go to a URL, and give every wait so many milliseconds.
    Navigate(String, u64),
    /// Wait until the page has loaded.
    AwaitLoad,
    /// Wait for so many milliseconds.
    Settle(u64),
    Capture(Capture),
    /// Write bytes to a file.
    Save(String, Vec<u8>),
    Finish(Result<WebOutput, ToolExecError>),
}

/// A call on its way.
#[derive(Debug)]
pub struct WebRun {
    args: RetrieveWebpageArgs,
    working_dir: Option<String>,
    plan: LaunchPlan,
    phase: Phase,
    /// What is being captured.
    capture: Option<Capture>,
    /// What was captured and is being saved, and where.
    kept: Option<(Vec<u8>, String)>,
}

/// A call on its way, as others see it.
pub struct RunView {
    pub args: RetrieveWebpageArgs,
    pub working_dir: Option<Seq<char>>,
    pub plan: LaunchPlan,
    pub phase: Phase,
    pub capture: Option<Capture>,
    /// The bytes being saved, and where.
    pub kept: Option<(Seq<u8>, Seq<char>)>,
}

impl View for WebRun {
    type V = RunView;

    closed spec fn view(&self) -> RunView {
        RunView {
            args: self.args,
            working_dir: sanitize::opt_view(self.working_dir),
            plan: self.plan,
            phase: self.phase,
            capture: self.capture,
            kept: match self.kept {
                Some(k) => Some((k.0@, k.1@)),
                None => None,
            },
        }
    }
}

/// Whether a call is in order: it was planned for its arguments, and it knows what it captures and
/// saves while it does so.
pub open spec fn run_ok(v: RunView) -> bool {
    &&& retrieve_webpage::launched(v.args, v.plan)
    &&& v.phase == Phase::Capture ==> v.capture is Some && retrieve_webpage::captured(
        v.args,
        retrieve_webpage::chosen_action(v.args),
        v.capture->0,
    )
    &&& v.phase == Phase::Save ==> v.kept is Some && (retrieve_webpage::chosen_action(v.args)
        == WebpageAction::Screenshot || retrieve_webpage::chosen_action(v.args) == WebpageAction::Pdf)
}

/// Whether an event can answer the step that a call is at.
pub open spec fn answers(v: RunView, event: WebEvent) -> bool {
    match v.phase {
        Phase::Done => false,
        Phase::Settle => event is Fine,
        Phase::Capture => event is Failed || (match v.capture {
            Some(Capture::PageHtml) => event is Content,
            Some(Capture::ElementHtml(_)) => event is Value,
            Some(Capture::PageText(_)) => event is Value,
            Some(Capture::ElementShot(_)) => event is Bytes || event is Missing,
            Some(Capture::PageShot(_)) => event is Bytes,
            Some(Capture::PagePdf(_)) => event is Bytes,
            None => false,
        }),
        Phase::Save => event is Fine || event is Failed || event is NoDirectory,
        _ => event is Fine || event is Failed,
    }
}

/// Whether a step ends a call with this error.
pub open spec fn fails(s: WebStep, message: Seq<char>) -> bool {
    s matches WebStep::Finish(Err(e)) && e@ == message
}

/// Whether a step ends a call with this text and no picture.
pub open spec fn gives_text(s: WebStep, text: Seq<char>) -> bool {
    s matches WebStep::Finish(Ok(o)) && o.text@ == text && o.image is None
}

/// Whether a step ends a call with a picture of `url`.
pub open spec fn gives_picture(
    s: WebStep,
    url: Seq<char>,
    bytes: Seq<u8>,
    saved: Option<Seq<char>>,
) -> bool {
    &&& s matches WebStep::Finish(Ok(o))
    &&& o.text@ == retrieve_webpage::screenshot_text(
        retrieve_webpage::shown_dims(encoding::image_size(bytes)),
        encoding::binary_size(bytes.len()),
        saved,
    )
    &&& o.image matches Some(p)
    &&& p.mime_type@ == "image/png"@
    &&& p.data@ == bytes
    &&& p.width == retrieve_webpage::shown_dims(encoding::image_size(bytes)).0
    &&& p.height == retrieve_webpage::shown_dims(encoding::image_size(bytes)).1
    &&& sanitize::opt_view(p.alt) == Some("Screenshot of "@ + url)
}

/// Whether a step begins to capture what the call asks for, or ends it where that cannot be.
pub open spec fn begins_capture(v: RunView, phase: Phase, s: WebStep) -> bool {
    match s {
        WebStep::Capture(c) => phase == Phase::Capture && retrieve_webpage::captured(
            v.args,
            retrieve_webpage::chosen_action(v.args),
            c,
        ),
        _ => phase == Phase::Done && retrieve_webpage::chosen_action(v.args) == WebpageAction::Pdf
            && v.args.output_path is None && fails(
            s,
            "pdf action requires output_path so the binary can be saved"@,
        ),
    }
}

/// Whether a step saves bytes where the call asks for it.
pub open spec fn saves(v: RunView, phase: Phase, s: WebStep, bytes: Seq<u8>) -> bool {
    &&& phase == Phase::Save
    &&& v.args.output_path is Some
    &&& s matches WebStep::Save(p, b)
    &&& b@ == bytes
    &&& exists|home: Option<Seq<char>>|
        p@ == #[trigger] paths::resolved_path(v.args.output_path->0@, v.working_dir, home)
}

/// What a call keeps while a file is written: its bytes and its path.
pub open spec fn remembers(kept: Option<(Seq<u8>, Seq<char>)>, s: WebStep) -> bool {
    s matches WebStep::Save(p, b) ==> kept == Some((b@, p@))
}

/// What follows an event: the phase that a call comes to and what is to be done.
pub open spec fn follows(v: RunView, event: WebEvent, phase: Phase, s: WebStep) -> bool {
    let failed = event is Failed;
    let why = event->Failed_0@;
    match v.phase {
        Phase::FindBrowser => if failed {
            phase == Phase::Done && fails(s, no_browser_message())
        } else {
            phase == Phase::Launch && s == WebStep::Launch(v.plan.width, v.plan.height)
        },
        Phase::Launch => if failed {
            phase == Phase::Done && fails(s, retrieve_webpage::stage_message(WebStage::Launch, why))
        } else {
            phase == Phase::OpenTab && s == WebStep::OpenTab
        },
        Phase::OpenTab => if failed {
            phase == Phase::Done && fails(s, retrieve_webpage::stage_message(WebStage::OpenTab, why))
        } else {
            phase == Phase::Navigate && (s matches WebStep::Navigate(u, t) && u@ == v.plan.url@ && t
                == v.plan.timeout_ms)
        },
        Phase::Navigate => if failed {
            phase == Phase::Done && fails(
                s,
                "navigation to "@ + v.plan.url@ + " failed"@ + ": "@ + why,
            )
        } else {
            phase == Phase::Load && s == WebStep::AwaitLoad
        },
        Phase::Load => if failed {
            phase == Phase::Done && fails(s, retrieve_webpage::stage_message(WebStage::Load, why))
        } else {
            match v.plan.settle_ms {
                Some(ms) => phase == Phase::Settle && s == WebStep::Settle(ms),
                None => begins_capture(v, phase, s),
            }
        },
        Phase::Settle => begins_capture(v, phase, s),
        Phase::Capture => capture_follows(v, event, phase, s),
        Phase::Save => save_follows(v, event, phase, s),
        Phase::Done => false,
    }
}

/// What follows an answer to a capture.
pub open spec fn capture_follows(v: RunView, event: WebEvent, phase: Phase, s: WebStep) -> bool {
    let failed = event is Failed;
    let why = event->Failed_0@;
    match v.capture {
        Some(Capture::PageHtml) => phase == Phase::Done && (if failed {
            fails(s, retrieve_webpage::stage_message(WebStage::PageHtml, why))
        } else {
            gives_text(s, event->Content_0@)
        }),
        Some(Capture::ElementHtml(_)) => phase == Phase::Done && (if failed {
            fails(s, retrieve_webpage::stage_message(WebStage::ElementHtml, why))
        } else {
            gives_text(s, given_text(event->Value_0))
        }),
        Some(Capture::PageText(_)) => phase == Phase::Done && (if failed {
            fails(s, retrieve_webpage::stage_message(WebStage::PageText, why))
        } else {
            gives_text(s, given_text(event->Value_0))
        }),
        Some(Capture::ElementShot(sel)) => if failed {
            phase == Phase::Done && fails(s, retrieve_webpage::stage_message(WebStage::ElementShot, why))
        } else if event is Missing {
            phase == Phase::Done && fails(
                s,
                "selector '"@ + sel@ + "' not found"@ + ": "@ + event->Missing_0@,
            )
        } else {
            shot_follows(v, event->Bytes_0@, phase, s)
        },
        Some(Capture::PageShot(_)) => if failed {
            phase == Phase::Done && fails(s, retrieve_webpage::stage_message(WebStage::PageShot, why))
        } else {
            shot_follows(v, event->Bytes_0@, phase, s)
        },
        Some(Capture::PagePdf(_)) => if failed {
            phase == Phase::Done && fails(s, retrieve_webpage::stage_message(WebStage::PagePdf, why))
        } else {
            saves(v, phase, s, event->Bytes_0@)
        },
        None => false,
    }
}

/// What follows a picture: it is saved where that is asked for, and the call ends otherwise.
pub open spec fn shot_follows(v: RunView, bytes: Seq<u8>, phase: Phase, s: WebStep) -> bool {
    if v.args.output_path is Some {
        saves(v, phase, s, bytes)
    } else {
        phase == Phase::Done && gives_picture(s, v.plan.url@, bytes, None)
    }
}

/// What follows an answer to saving.
pub open spec fn save_follows(v: RunView, event: WebEvent, phase: Phase, s: WebStep) -> bool {
    &&& phase == Phase::Done
    &&& match (event, v.kept) {
        (WebEvent::NoDirectory(why), _) => fails(s, retrieve_webpage::stage_message(WebStage::CreateDir, why@)),
        (WebEvent::Failed(why), Some(k)) => fails(
            s,
            "failed to write '"@ + k.1 + "'"@ + ": "@ + why@,
        ),
        (_, Some(k)) => if retrieve_webpage::chosen_action(v.args) == WebpageAction::Pdf {
            gives_text(s, "saved PDF ("@ + encoding::binary_size(k.0.len()) + ") to "@ + k.1)
        } else {
            gives_picture(s, v.plan.url@, k.0, Some(k.1))
        },
        _ => false,
    }
}

/// What is said where no browser is found.
pub open spec fn no_browser_message() -> Seq<char> {
    "no chromium or chrome binary found on PATH (or in standard locations). Install Chromium/Chrome, or set CHROMIUM_BIN / CHROME_BIN to its path"@
}

/// The text that a script gave.
pub open spec fn given_text(value: Option<Json>) -> Seq<char> {
    match value {
        Some(v) => retrieve_webpage::value_text(v),
        None => Seq::empty(),
    }
}

/// Begins a call: one whose URL is not of the web goes no further.
pub fn begin_retrieval(args: RetrieveWebpageArgs, working_dir: Option<String>) -> (r: Result<
    WebRun,
    ToolExecError,
>)
    ensures
        match (
            retrieve_webpage::url_fault(text::trimmed(args.url@), crate::urls::url_scheme(text::trimmed(args.url@))),
            r,
        ) {
            (None, Ok(run)) => {
                &&& run_ok(run@)
                &&& run@.phase == Phase::FindBrowser
                &&& run@.args == args
                &&& run@.working_dir == sanitize::opt_view(working_dir)
            },
            (Some(m), Err(e)) => e@ == m,
            _ => false,
        },
{
    match plan_launch(&args) {
        Ok(plan) => Ok(
            WebRun {
                args,
                working_dir,
                plan,
                phase: Phase::FindBrowser,
                capture: None,
                kept: None,
            },
        ),
        Err(e) => Err(e),
    }
}

fn plain(text: String) -> (s: WebStep)
    ensures
        gives_text(s, text@),
{
    WebStep::Finish(Ok(WebOutput { text, image: None }))
}

impl WebRun {
    fn end(&mut self, stage: WebStage, why: String) -> (s: WebStep)
        ensures
            fails(s, retrieve_webpage::stage_message(stage, why@)),
            final(self)@ == (RunView { phase: Phase::Done, ..old(self)@ }),
    {
        self.phase = Phase::Done;
        WebStep::Finish(Err(stage_error(&stage, why.as_str())))
    }

    fn start_capture(&mut self) -> (s: WebStep)
        requires
            run_ok(old(self)@),
        ensures
            begins_capture(old(self)@, final(self)@.phase, s),
            run_ok(final(self)@),
            final(self)@.args == old(self)@.args,
            final(self)@.plan == old(self)@.plan,
            final(self)@.working_dir == old(self)@.working_dir,
    {
        match plan_capture(&self.args) {
            Err(e) => {
                self.phase = Phase::Done;
                WebStep::Finish(Err(e))
            },
            Ok(c) => {
                let mine = copy_capture(&c);
                self.capture = Some(mine);
                self.phase = Phase::Capture;
                WebStep::Capture(c)
            },
        }
    }

    fn start_save(&mut self, bytes: Vec<u8>) -> (s: WebStep)
        requires
            run_ok(old(self)@),
            old(self)@.args.output_path is Some,
            retrieve_webpage::chosen_action(old(self)@.args) == WebpageAction::Screenshot || retrieve_webpage::chosen_action(
                old(self)@.args,
            ) == WebpageAction::Pdf,
        ensures
            saves(old(self)@, final(self)@.phase, s, bytes@),
            remembers(final(self)@.kept, s),
            run_ok(final(self)@),
            final(self)@.args == old(self)@.args,
            final(self)@.plan == old(self)@.plan,
            final(self)@.working_dir == old(self)@.working_dir,
    {
        let dir = match &self.working_dir {
            Some(d) => Some(d.as_str()),
            None => None,
        };
        let path = match &self.args.output_path {
            Some(p) => resolve_path(p.as_str(), dir),
            None => String::new(),
        };
        let ghost home = choose|home: Option<Seq<char>>|
            path@ == #[trigger] paths::resolved_path(
                self.args.output_path->0@,
                sanitize::opt_view(self.working_dir),
                home,
            );
        assert(path@ == paths::resolved_path(
            old(self)@.args.output_path->0@,
            old(self)@.working_dir,
            home,
        ));
        let copy = crate::stream_cap::copy_bytes(bytes.as_slice());
        self.kept = Some((copy, path.clone()));
        self.phase = Phase::Save;
        WebStep::Save(path, bytes)
    }

    fn take_shot(&mut self, bytes: Vec<u8>) -> (s: WebStep)
        requires
            run_ok(old(self)@),
            retrieve_webpage::chosen_action(old(self)@.args) == WebpageAction::Screenshot,
        ensures
            shot_follows(old(self)@, bytes@, final(self)@.phase, s),
            remembers(final(self)@.kept, s),
            run_ok(final(self)@),
            final(self)@.args == old(self)@.args,
            final(self)@.plan == old(self)@.plan,
            final(self)@.working_dir == old(self)@.working_dir,
    {
        match &self.args.output_path {
            Some(_) => self.start_save(bytes),
            None => {
                self.phase = Phase::Done;
                let shot = finish_screenshot(self.plan.url.as_str(), bytes, None);
                WebStep::Finish(Ok(WebOutput { text: shot.text, image: Some(shot.image) }))
            },
        }
    }

    fn after_capture(&mut self, event: WebEvent) -> (s: WebStep)
        requires
            run_ok(old(self)@),
            old(self)@.phase == Phase::Capture,
            answers(old(self)@, event),
        ensures
            capture_follows(old(self)@, event, final(self)@.phase, s),
            remembers(final(self)@.kept, s),
            run_ok(final(self)@),
            final(self)@.args == old(self)@.args,
            final(self)@.plan == old(self)@.plan,
            final(self)@.working_dir == old(self)@.working_dir,
    {
        match (&self.capture, event) {
            (Some(Capture::PageHtml), WebEvent::Failed(why)) => self.end(WebStage::PageHtml, why),
            (Some(Capture::ElementHtml(_)), WebEvent::Failed(why)) => self.end(
                WebStage::ElementHtml,
                why,
            ),
            (Some(Capture::PageText(_)), WebEvent::Failed(why)) => self.end(
                WebStage::PageText,
                why,
            ),
            (Some(Capture::ElementShot(_)), WebEvent::Failed(why)) => self.end(
                WebStage::ElementShot,
                why,
            ),
            (Some(Capture::PageShot(_)), WebEvent::Failed(why)) => self.end(
                WebStage::PageShot,
                why,
            ),
            (Some(Capture::PagePdf(_)), WebEvent::Failed(why)) => self.end(WebStage::PagePdf, why),
            (Some(Capture::ElementShot(sel)), WebEvent::Missing(why)) => {
                let stage = WebStage::FindElement(sel.clone());
                self.end(stage, why)
            },
            (Some(Capture::PageHtml), WebEvent::Content(text)) => {
                self.phase = Phase::Done;
                plain(text)
            },
            (Some(Capture::ElementHtml(_)), WebEvent::Value(v)) => {
                self.phase = Phase::Done;
                plain(remote_text(&v))
            },
            (Some(Capture::PageText(_)), WebEvent::Value(v)) => {
                self.phase = Phase::Done;
                plain(remote_text(&v))
            },
            (Some(Capture::ElementShot(_)), WebEvent::Bytes(b)) => self.take_shot(b),
            (Some(Capture::PageShot(_)), WebEvent::Bytes(b)) => self.take_shot(b),
            (Some(Capture::PagePdf(_)), WebEvent::Bytes(b)) => self.start_save(b),
            _ => {
                assert(false);
                WebStep::FindBrowser
            },
        }
    }

    fn after_save(&mut self, event: WebEvent) -> (s: WebStep)
        requires
            run_ok(old(self)@),
            old(self)@.phase == Phase::Save,
            answers(old(self)@, event),
        ensures
            save_follows(old(self)@, event, final(self)@.phase, s),
            run_ok(final(self)@),
            final(self)@.args == old(self)@.args,
            final(self)@.plan == old(self)@.plan,
            final(self)@.working_dir == old(self)@.working_dir,
    {
        self.phase = Phase::Done;
        let (bytes, path) = match self.kept.take() {
            Some(k) => k,
            None => {
                assert(false);
                (Vec::new(), String::new())
            },
        };
        match event {
            WebEvent::NoDirectory(why) => WebStep::Finish(
                Err(stage_error(&WebStage::CreateDir, why.as_str())),
            ),
            WebEvent::Failed(why) => {
                let stage = WebStage::Write(path);
                WebStep::Finish(Err(stage_error(&stage, why.as_str())))
            },
            _ => {
                let pdf = match self.args.action {
                    Some(WebpageAction::Pdf) => true,
                    _ => false,
                };
                if pdf {
                    plain(finish_pdf(bytes.len() as u64, path.as_str()))
                } else {
                    let shot = finish_screenshot(
                        self.plan.url.as_str(),
                        bytes,
                        Some(path.as_str()),
                    );
                    WebStep::Finish(Ok(WebOutput { text: shot.text, image: Some(shot.image) }))
                }
            },
        }
    }

    /// What is to be done after an event.
    pub fn advance(&mut self, event: WebEvent) -> (s: WebStep)
        requires
            run_ok(old(self)@),
            answers(old(self)@, event),
        ensures
            follows(old(self)@, event, final(self)@.phase, s),
            remembers(final(self)@.kept, s),
            run_ok(final(self)@),
            final(self)@.args == old(self)@.args,
            final(self)@.plan == old(self)@.plan,
            final(self)@.working_dir == old(self)@.working_dir,
    {
        match self.phase {
            Phase::FindBrowser => match event {
                WebEvent::Failed(_) => {
                    self.phase = Phase::Done;
                    WebStep::Finish(Err(no_browser_error()))
                },
                _ => {
                    self.phase = Phase::Launch;
                    WebStep::Launch(self.plan.width, self.plan.height)
                },
            },
            Phase::Launch => match event {
                WebEvent::Failed(why) => self.end(WebStage::Launch, why),
                _ => {
                    self.phase = Phase::OpenTab;
                    WebStep::OpenTab
                },
            },
            Phase::OpenTab => match event {
                WebEvent::Failed(why) => self.end(WebStage::OpenTab, why),
                _ => {
                    self.phase = Phase::Navigate;
                    WebStep::Navigate(self.plan.url.clone(), self.plan.timeout_ms)
                },
            },
            Phase::Navigate => match event {
                WebEvent::Failed(why) => {
                    let stage = WebStage::Navigate(self.plan.url.clone());
                    self.end(stage, why)
                },
                _ => {
                    self.phase = Phase::Load;
                    WebStep::AwaitLoad
                },
            },
            Phase::Load => match event {
                WebEvent::Failed(why) => self.end(WebStage::Load, why),
                _ => match self.plan.settle_ms {
                    Some(ms) => {
                        self.phase = Phase::Settle;
                        WebStep::Settle(ms)
                    },
                    None => self.start_capture(),
                },
            },
            Phase::Settle => self.start_capture(),
            Phase::Capture => self.after_capture(event),
            Phase::Save => self.after_save(event),
            Phase::Done => {
                assert(false);
                WebStep::FindBrowser
            },
        }
    }
}

fn copy_capture(c: &Capture) -> (r: Capture)
    ensures
        forall|args: RetrieveWebpageArgs, action: WebpageAction| #[trigger]
            retrieve_webpage::captured(args, action, *c) ==> retrieve_webpage::captured(args, action, r),
{
    match c {
        Capture::PageHtml => Capture::PageHtml,
        Capture::ElementHtml(e) => Capture::ElementHtml(e.clone()),
        Capture::PageText(e) => Capture::PageText(e.clone()),
        Capture::ElementShot(e) => Capture::ElementShot(e.clone()),
        Capture::PageShot(f) => Capture::PageShot(*f),
        Capture::PagePdf(p) => Capture::PagePdf(p.clone()),
    }
}

/// The place of a phase in the order of a call.
pub open spec fn phase_rank(p: Phase) -> nat {
    match p {
        Phase::FindBrowser => 0,
        Phase::Launch => 1,
        Phase::OpenTab => 2,
        Phase::Navigate => 3,
        Phase::Load => 4,
        Phase::Settle => 5,
        Phase::Capture => 6,
        Phase::Save => 7,
        Phase::Done => 8,
    }
}

/// A call goes forward with every event, and so it ends; it captures only once the page has loaded.
pub proof fn law_retrieval_goes_forward(v: RunView, event: WebEvent, phase: Phase, s: WebStep)
    requires
        run_ok(v),
        answers(v, event),
        follows(v, event, phase, s),
    ensures
        phase_rank(v.phase) < phase_rank(phase),
        s is Capture ==> v.phase == Phase::Load || v.phase == Phase::Settle,
        s is Finish <==> phase == Phase::Done,
{
}

/// What was captured is what is written and what comes back: a call that saves its capture and
/// could do so gives the very picture that was captured, or the size of the document that was, and
/// the path that it lies at.
pub proof fn law_saved_capture_comes_back(
    v: RunView,
    event: WebEvent,
    saving: RunView,
    s: WebStep,
    phase: Phase,
    end: WebStep,
)
    requires
        v.phase == Phase::Capture,
        run_ok(v),
        answers(v, event),
        follows(v, event, saving.phase, s),
        s is Save,
        saving.args == v.args,
        saving.plan == v.plan,
        remembers(saving.kept, s),
        follows(saving, WebEvent::Fine, phase, end),
    ensures
        event matches WebEvent::Bytes(bytes) && s matches WebStep::Save(path, written) && {
            &&& written@ == bytes@
            &&& if retrieve_webpage::chosen_action(v.args) == WebpageAction::Pdf {
                gives_text(
                    end,
                    "saved PDF ("@ + encoding::binary_size(bytes@.len()) + ") to "@ + path@,
                )
            } else {
                gives_picture(end, v.plan.url@, bytes@, Some(path@))
            }
        },
{
}

/// Whether an image is a picture of `url` that holds `bytes`.
pub open spec fn shows(image: Option<PreparedImage>, url: Seq<char>, bytes: Seq<u8>) -> bool {
    &&& image matches Some(p)
    &&& p.mime_type@ == "image/png"@
    &&& p.data@ == bytes
    &&& p.width == retrieve_webpage::shown_dims(encoding::image_size(bytes)).0
    &&& p.height == retrieve_webpage::shown_dims(encoding::image_size(bytes)).1
    &&& sanitize::opt_view(p.alt) == Some("Screenshot of "@ + url)
}

/// Whether two images are the same.
pub open spec fn same_image(a: Option<PreparedImage>, b: Option<PreparedImage>) -> bool {
    match (a, b) {
        (None, None) => true,
        (Some(p), Some(q)) => {
            &&& p.mime_type@ == q.mime_type@
            &&& p.data@ == q.data@
            &&& p.width == q.width
            &&& p.height == q.height
            &&& sanitize::opt_view(p.alt) == sanitize::opt_view(q.alt)
        },
        _ => false,
    }
}

impl RetrieveWebpage {
    /// The image that a call returned, where it did; the call keeps its own.
    pub fn extract_image(&self, ret: &WebOutput) -> (r: Option<PreparedImage>)
        ensures
            same_image(r, ret.image),
    {
        match &ret.image {
            None => None,
            Some(image) => {
                let alt = match &image.alt {
                    Some(a) => Some(a.clone()),
                    None => None,
                };
                let data = crate::stream_cap::copy_bytes(image.data.as_slice());
                Some(
                    PreparedImage {
                        mime_type: image.mime_type.clone(),
                        data,
                        width: image.width,
                        height: image.height,
                        alt,
                    },
                )
            },
        }
    }
}

/// An image belongs to the result of its own call. Of any calls that ended with pictures, in
/// whatever order they ran, whichever image is taken out of whichever result, at any time and
/// however often, it is the picture of that result's own call; and it is the image that is shown
/// along with that call's output.
pub proof fn law_image_belongs_to_its_call(
    results: Seq<WebOutput>,
    urls: Seq<Seq<char>>,
    shots: Seq<Seq<u8>>,
    saved: Seq<Option<Seq<char>>>,
    taken: Seq<(int, Option<PreparedImage>)>,
    calls: Seq<ToolCall>,
    format: ToolOutputFormat,
    outputs: Seq<(ToolOutput, Option<PreparedImage>)>,
)
    requires
        forall|k: int|
            0 <= k < results.len() ==> gives_picture(
                WebStep::Finish(Ok(#[trigger] results[k])),
                urls[k],
                shots[k],
                saved[k],
            ),
        forall|t: int|
            0 <= t < taken.len() ==> 0 <= (#[trigger] taken[t]).0 < results.len() && same_image(
                taken[t].1,
                results[taken[t].0].image,
            ),
        calls.len() == taken.len(),
        outputs.len() == taken.len(),
        forall|t: int|
            0 <= t < taken.len() ==> ((#[trigger] calls[t]).returned matches Ok(ret) && ret.image
                == taken[t].1) && registry::call_output(
                calls[t],
                format,
                true,
                outputs[t].0,
                outputs[t].1,
            ),
    ensures
        forall|t: int|
            0 <= t < taken.len() ==> shows(
                (#[trigger] taken[t]).1,
                urls[taken[t].0],
                shots[taken[t].0],
            ) && shows(outputs[t].1, urls[taken[t].0], shots[taken[t].0]),
{
    assert forall|t: int| 0 <= t < taken.len() implies shows(
        (#[trigger] taken[t]).1,
        urls[taken[t].0],
        shots[taken[t].0],
    ) && shows(outputs[t].1, urls[taken[t].0], shots[taken[t].0]) by {
        let k = taken[t].0;
        assert(gives_picture(WebStep::Finish(Ok(results[k])), urls[k], shots[k], saved[k]));
        assert(calls[t].returned is Ok);
    }
}

/// A failure ends a call at once.
pub proof fn law_failure_ends_the_retrieval(v: RunView, event: WebEvent, phase: Phase, s: WebStep)
    requires
        run_ok(v),
        answers(v, event),
        follows(v, event, phase, s),
        event is Failed || event is Missing || event is NoDirectory,
    ensures
        phase == Phase::Done,
        s matches WebStep::Finish(Err(_)),
{
}

} // verus!
