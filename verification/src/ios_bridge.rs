//! The bridge to the host of an iOS app: requests, replies, and waiting for them.
//!
//! Time passes and replies arrive elsewhere. What follows from each moment is decided here.

use crate::error::{ToolExecError, tool_error};
use crate::json::Json;
use vstd::prelude::*;
use vstd::string::*;

verus! {

/// Milliseconds that the clipboard has to answer.
pub const CLIPBOARD_TIMEOUT: u64 = 1500;

/// Milliseconds that opening a URL may take.
pub const OPEN_URL_TIMEOUT: u64 = 3000;

/// Milliseconds that posting a notification may take.
pub const NOTIFY_TIMEOUT: u64 = 5000;

/// Milliseconds after which a wait looks again whether the request was cancelled.
pub const CANCEL_POLL_SLICE: u64 = 50;

/// Why a request failed.
#[derive(Debug)]
pub enum ToolBridgeError {
    /// The host never replied.
    BridgeUnavailable,
    Canceled,
    Timeout,
    /// What the host said.
    Platform(String),
}

/// The message of an error.
pub open spec fn bridge_error_text(e: ToolBridgeError) -> Seq<char> {
    match e {
        ToolBridgeError::BridgeUnavailable => "iOS tool bridge unavailable"@,
        ToolBridgeError::Canceled => "request was canceled"@,
        ToolBridgeError::Timeout => "request timed out"@,
        ToolBridgeError::Platform(m) => "platform error: "@ + m@,
    }
}

impl ToolBridgeError {
    /// The message of the error.
    pub fn to_string(&self) -> (r: String)
        ensures
            r@ == bridge_error_text(*self),
    {
        match self {
            ToolBridgeError::BridgeUnavailable => "iOS tool bridge unavailable".to_owned(),
            ToolBridgeError::Canceled => "request was canceled".to_owned(),
            ToolBridgeError::Timeout => "request timed out".to_owned(),
            ToolBridgeError::Platform(m) => {
                let mut s = "platform error: ".to_owned();
                s.append(m.as_str());
                s
            },
        }
    }
}

/// A request to the host.
#[derive(Debug)]
pub struct IosToolRequest {
    /// Given by the bridge.
    pub request_id: u64,
    pub name: String,
    /// The arguments as JSON.
    pub args_json: String,
}

/// What a wait does next.
#[derive(Debug)]
pub enum WaitStep {
    /// It is over.
    Done(ToolBridgeError),
    /// Wait for a reply, for so many milliseconds.
    Select(u64),
}

/// A wait for a reply.
#[derive(Debug)]
pub struct Waiter {
    deadline_at: u64,
}

/// What a wait does at the moment `now`: a request that was cancelled is over at once, even where
/// its reply has come, and so is one whose time is up.
pub open spec fn wait_next(deadline_at: nat, now: nat, canceled: bool) -> WaitStep {
    if canceled {
        WaitStep::Done(ToolBridgeError::Canceled)
    } else if now >= deadline_at {
        WaitStep::Done(ToolBridgeError::Timeout)
    } else if deadline_at - now < CANCEL_POLL_SLICE {
        WaitStep::Select((deadline_at - now) as u64)
    } else {
        WaitStep::Select(CANCEL_POLL_SLICE)
    }
}

/// What became of a wait.
#[derive(Debug)]
pub enum WaitEvent {
    /// A reply came.
    Reply(Result<Json, ToolBridgeError>),
    /// The host is gone.
    Disconnected,
    /// The time to wait is up.
    Elapsed,
}

impl Waiter {
    /// The moment at which the time is up.
    pub closed spec fn deadline(&self) -> nat {
        self.deadline_at as nat
    }

    /// A wait that begins at `now` and may take `timeout` milliseconds. One whose end lies beyond
    /// the last moment that can be told ends at that moment.
    pub fn new(now: u64, timeout: u64) -> (w: Self)
        ensures
            w.deadline() == (if now + timeout <= u64::MAX {
                (now + timeout) as nat
            } else {
                u64::MAX as nat
            }),
    {
        match now.checked_add(timeout) {
            Some(d) => Waiter { deadline_at: d },
            None => Waiter { deadline_at: u64::MAX },
        }
    }

    /// What the wait does at the moment `now`.
    pub fn step(&self, now: u64, canceled: bool) -> (s: WaitStep)
        ensures
            s == wait_next(self.deadline(), now as nat, canceled),
    {
        if canceled {
            return WaitStep::Done(ToolBridgeError::Canceled);
        }
        if now >= self.deadline_at {
            return WaitStep::Done(ToolBridgeError::Timeout);
        }
        let left: u64 = self.deadline_at - now;
        if left < CANCEL_POLL_SLICE {
            WaitStep::Select(left)
        } else {
            WaitStep::Select(CANCEL_POLL_SLICE)
        }
    }
}

/// What an event comes to; nothing where the wait goes on.
pub open spec fn event_outcome(event: WaitEvent, canceled: bool) -> Option<
    Result<Json, ToolBridgeError>,
> {
    match event {
        WaitEvent::Elapsed => None,
        WaitEvent::Disconnected => Some(Err(ToolBridgeError::BridgeUnavailable)),
        WaitEvent::Reply(reply) => if canceled {
            Some(Err(ToolBridgeError::Canceled))
        } else {
            Some(reply)
        },
    }
}

/// What follows an event; nothing where the wait goes on. A reply that came after the request was
/// cancelled does not count.
pub fn after_event(event: WaitEvent, canceled: bool) -> (r: Option<Result<Json, ToolBridgeError>>)
    ensures
        r == event_outcome(event, canceled),
{
    match event {
        WaitEvent::Elapsed => None,
        WaitEvent::Disconnected => Some(Err(ToolBridgeError::BridgeUnavailable)),
        WaitEvent::Reply(reply) => if canceled {
            Some(Err(ToolBridgeError::Canceled))
        } else {
            Some(reply)
        },
    }
}

/// A request whose fate is settled: its reply has come, or nobody is left to send one.
#[derive(Debug)]
pub struct IosToolPending {
    pub request_id: u64,
    pub reply: Option<Result<Json, ToolBridgeError>>,
}

/// What the wait for a settled request comes to: `canceled` and `canceled_late` say whether it was
/// cancelled before the wait, and by the time its reply was taken.
pub open spec fn settled(
    reply: Option<Result<Json, ToolBridgeError>>,
    timeout: u64,
    canceled: bool,
    canceled_late: bool,
) -> Result<Json, ToolBridgeError> {
    if canceled {
        Err(ToolBridgeError::Canceled)
    } else if timeout == 0 {
        Err(ToolBridgeError::Timeout)
    } else {
        match reply {
            None => Err(ToolBridgeError::BridgeUnavailable),
            Some(r) => if canceled_late {
                Err(ToolBridgeError::Canceled)
            } else {
                r
            },
        }
    }
}

impl IosToolPending {
    /// Waits for the reply.
    pub fn wait(self, timeout: u64, canceled: bool, canceled_late: bool) -> (r: Result<
        Json,
        ToolBridgeError,
    >)
        ensures
            r == settled(self.reply, timeout, canceled, canceled_late),
    {
        let waiter = Waiter::new(0, timeout);
        match waiter.step(0, canceled) {
            WaitStep::Done(e) => Err(e),
            WaitStep::Select(_) => {
                let event = match self.reply {
                    Some(reply) => WaitEvent::Reply(reply),
                    None => WaitEvent::Disconnected,
                };
                match after_event(event, canceled_late) {
                    Some(r) => r,
                    None => Err(ToolBridgeError::Timeout),
                }
            },
        }
    }
}

/// What a scripted bridge does with one request.
#[derive(Debug)]
pub enum MockResponse {
    /// It replies.
    Reply(Result<Json, ToolBridgeError>),
    /// It goes away.
    DropSender,
}

/// A bridge that replies as it was told to, in order; one that was told nothing goes away.
#[derive(Debug)]
pub struct MockBridge {
    script: Vec<MockResponse>,
    dispatched: Vec<IosToolRequest>,
    cancels: Vec<u64>,
    next_id: u64,
}

/// A scripted bridge as lists.
#[verifier::ext_equal]
pub struct MockView {
    pub script: Seq<MockResponse>,
    /// Numbers, names and arguments of the requests that came.
    pub dispatched: Seq<(u64, Seq<char>, Seq<char>)>,
    /// Numbers of the requests that were cancelled.
    pub cancels: Seq<u64>,
    pub next_id: u64,
}

/// A request as texts.
pub open spec fn request_view(r: IosToolRequest) -> (u64, Seq<char>, Seq<char>) {
    (r.request_id, r.name@, r.args_json@)
}

/// Requests as texts.
pub open spec fn request_views(v: Seq<IosToolRequest>) -> Seq<(u64, Seq<char>, Seq<char>)> {
    Seq::new(v.len(), |i: int| request_view(v[i]))
}

impl View for MockBridge {
    type V = MockView;

    closed spec fn view(&self) -> MockView {
        MockView {
            script: self.script@,
            dispatched: request_views(self.dispatched@),
            cancels: self.cancels@,
            next_id: self.next_id,
        }
    }
}

/// The number after `n`; after the greatest comes zero.
pub open spec fn next_number(n: u64) -> u64 {
    if n == u64::MAX {
        0
    } else {
        (n + 1) as u64
    }
}

/// The bridge after a request.
pub open spec fn after_dispatch(v: MockView, name: Seq<char>, args_json: Seq<char>) -> MockView {
    MockView {
        script: if v.script.len() > 0 {
            v.script.skip(1)
        } else {
            v.script
        },
        dispatched: v.dispatched.push((v.next_id, name, args_json)),
        cancels: v.cancels,
        next_id: next_number(v.next_id),
    }
}

/// The reply that the next request gets.
pub open spec fn scripted_reply(v: MockView) -> Option<Result<Json, ToolBridgeError>> {
    if v.script.len() > 0 {
        match v.script[0] {
            MockResponse::Reply(r) => Some(r),
            MockResponse::DropSender => None,
        }
    } else {
        None
    }
}

impl MockBridge {
    /// A bridge that was told nothing.
    pub fn new() -> (b: Self)
        ensures
            b@ == (MockView {
                script: Seq::empty(),
                dispatched: Seq::empty(),
                cancels: Seq::empty(),
                next_id: 0,
            }),
    {
        let b = MockBridge {
            script: Vec::new(),
            dispatched: Vec::new(),
            cancels: Vec::new(),
            next_id: 0,
        };
        assert(request_views(b.dispatched@) =~= Seq::empty());
        b
    }

    /// Tells the bridge what to do with a request, after those it was told about before.
    pub fn script(&mut self, response: MockResponse)
        ensures
            final(self)@ == (MockView { script: old(self)@.script.push(response), ..old(self)@ }),
    {
        self.script.push(response);
    }

    /// The requests that came, in order.
    pub fn dispatched(&self) -> (r: &Vec<IosToolRequest>)
        ensures
            request_views(r@) == self@.dispatched,
    {
        &self.dispatched
    }

    /// The numbers of the requests that were cancelled, in order.
    pub fn cancels(&self) -> (r: &Vec<u64>)
        ensures
            r@ == self@.cancels,
    {
        &self.cancels
    }

    /// Takes a request and gives it a number.
    pub fn dispatch(&mut self, request: IosToolRequest) -> (p: IosToolPending)
        ensures
            final(self)@ == after_dispatch(old(self)@, request.name@, request.args_json@),
            p.request_id == old(self)@.next_id,
            p.reply == scripted_reply(old(self)@),
    {
        let request_id: u64 = self.next_id;
        self.next_id = if request_id == u64::MAX {
            0
        } else {
            request_id + 1
        };
        let ghost before = request_views(self.dispatched@);
        self.dispatched.push(
            IosToolRequest { request_id, name: request.name, args_json: request.args_json },
        );
        assert(request_views(self.dispatched@) =~= before.push(
            (request_id, request.name@, request.args_json@),
        ));
        let reply = if self.script.len() > 0 {
            let first = self.script.remove(0);
            assert(self.script@ =~= old(self).script@.skip(1));
            match first {
                MockResponse::Reply(r) => Some(r),
                MockResponse::DropSender => None,
            }
        } else {
            None
        };
        assert(self@ =~= after_dispatch(old(self)@, request.name@, request.args_json@));
        IosToolPending { request_id, reply }
    }

    /// Takes note that a request was cancelled.
    pub fn cancel(&mut self, request_id: u64)
        ensures
            final(self)@ == (MockView { cancels: old(self)@.cancels.push(request_id), ..old(self)@
            }),
    {
        self.cancels.push(request_id);
    }
}

impl Default for MockBridge {
    fn default() -> (b: Self)
        ensures
            b@ == (MockView {
                script: Seq::empty(),
                dispatched: Seq::empty(),
                cancels: Seq::empty(),
                next_id: 0,
            }),
    {
        MockBridge::new()
    }
}

/// When a request was found to be cancelled.
#[derive(Debug, Clone, Copy)]
pub struct CancelFlags {
    /// Before it was sent.
    pub at_entry: bool,
    /// Before the wait for its reply.
    pub before_wait: bool,
    /// By the time its reply was taken.
    pub at_reply: bool,
}

/// What a tool says of an error of the bridge.
pub open spec fn tool_message(tool_name: Seq<char>, e: ToolBridgeError) -> Seq<char> {
    match e {
        ToolBridgeError::Canceled => "request was canceled"@,
        ToolBridgeError::Timeout => tool_name + " timed out waiting for the iOS host"@,
        ToolBridgeError::BridgeUnavailable => tool_name
            + " could not reach the iOS host (bridge unavailable)"@,
        ToolBridgeError::Platform(m) => m@,
    }
}

/// The error of a tool for an error of the bridge.
pub fn bridge_err_to_tool_err(tool_name: &str, e: ToolBridgeError) -> (r: ToolExecError)
    ensures
        r@ == tool_message(tool_name@, e),
{
    match e {
        ToolBridgeError::Canceled => tool_error("request was canceled"),
        ToolBridgeError::Timeout => {
            let mut m = tool_name.to_owned();
            m.append(" timed out waiting for the iOS host");
            ToolExecError(m)
        },
        ToolBridgeError::BridgeUnavailable => {
            let mut m = tool_name.to_owned();
            m.append(" could not reach the iOS host (bridge unavailable)");
            ToolExecError(m)
        },
        ToolBridgeError::Platform(m) => ToolExecError(m),
    }
}

/// Makes the request of a call; one that was cancelled makes none.
pub fn begin_bridge_call(tool_name: &str, args_json: String, canceled: bool) -> (r: Result<
    IosToolRequest,
    ToolExecError,
>)
    ensures
        match r {
            Ok(q) => !canceled && request_view(q) == (0u64, tool_name@, args_json@),
            Err(e) => canceled && e@ == "request was canceled"@,
        },
{
    if canceled {
        return Err(tool_error("request was canceled"));
    }
    Ok(IosToolRequest { request_id: 0, name: tool_name.to_owned(), args_json })
}

/// What a call comes to, and whether the host is to be told to give the request up: only where it
/// was cancelled.
pub fn finish_bridge_call(tool_name: &str, reply: Result<Json, ToolBridgeError>) -> (r: (
    Result<Json, ToolExecError>,
    bool,
))
    ensures
        r.1 == (reply matches Err(ToolBridgeError::Canceled)),
        match (reply, r.0) {
            (Ok(v), Ok(w)) => w == v,
            (Err(e), Err(t)) => t@ == tool_message(tool_name@, e),
            _ => false,
        },
{
    match reply {
        Ok(v) => (Ok(v), false),
        Err(e) => {
            let give_up = match &e {
                ToolBridgeError::Canceled => true,
                _ => false,
            };
            (Err(bridge_err_to_tool_err(tool_name, e)), give_up)
        },
    }
}

/// What a call on a scripted bridge comes to.
pub open spec fn bridge_result(
    v: MockView,
    tool_name: Seq<char>,
    timeout: u64,
    flags: CancelFlags,
    r: Result<Json, ToolExecError>,
) -> bool {
    if flags.at_entry {
        r matches Err(e) && e@ == "request was canceled"@
    } else {
        match (settled(scripted_reply(v), timeout, flags.before_wait, flags.at_reply), r) {
            (Ok(a), Ok(b)) => a == b,
            (Err(e), Err(t)) => t@ == tool_message(tool_name, e),
            _ => false,
        }
    }
}

/// The bridge after a call.
pub open spec fn bridge_after(
    v: MockView,
    tool_name: Seq<char>,
    args_json: Seq<char>,
    timeout: u64,
    flags: CancelFlags,
) -> MockView {
    if flags.at_entry {
        v
    } else {
        let w = after_dispatch(v, tool_name, args_json);
        if settled(
            scripted_reply(v),
            timeout,
            flags.before_wait,
            flags.at_reply,
        ) matches Err(ToolBridgeError::Canceled) {
            MockView { cancels: w.cancels.push(v.next_id), ..w }
        } else {
            w
        }
    }
}

/// Makes a call on a scripted bridge.
pub fn run_bridge_tool(
    bridge: &mut MockBridge,
    tool_name: &str,
    args_json: String,
    timeout: u64,
    flags: CancelFlags,
) -> (r: Result<Json, ToolExecError>)
    ensures
        bridge_result(old(bridge)@, tool_name@, timeout, flags, r),
        final(bridge)@ == bridge_after(old(bridge)@, tool_name@, args_json@, timeout, flags),
{
    let request = match begin_bridge_call(tool_name, args_json, flags.at_entry) {
        Ok(q) => q,
        Err(e) => {
            return Err(e);
        },
    };
    let pending = bridge.dispatch(request);
    let id: u64 = pending.request_id;
    let reply = pending.wait(timeout, flags.before_wait, flags.at_reply);
    let (r, give_up) = finish_bridge_call(tool_name, reply);
    if give_up {
        bridge.cancel(id);
    }
    r
}

/// Cancelling wins: whatever the time and whatever has come, a request that was cancelled before
/// the wait comes to nothing, and so does one that was cancelled by the time its reply was taken.
pub proof fn law_cancel_wins(
    reply: Option<Result<Json, ToolBridgeError>>,
    timeout: u64,
    canceled: bool,
    canceled_late: bool,
)
    requires
        canceled || (canceled_late && timeout > 0 && reply is Some),
    ensures
        settled(reply, timeout, canceled, canceled_late) == Err::<Json, ToolBridgeError>(
            ToolBridgeError::Canceled,
        ),
{
}

/// A call that was cancelled at entry never reaches the bridge.
pub proof fn law_cancel_at_entry_never_dispatches(
    v: MockView,
    tool_name: Seq<char>,
    args_json: Seq<char>,
    timeout: u64,
    flags: CancelFlags,
)
    requires
        flags.at_entry,
    ensures
        bridge_after(v, tool_name, args_json, timeout, flags) == v,
{
}

/// Every wait is short enough to notice a cancellation soon, and never goes past the deadline.
pub proof fn law_waits_are_sliced(deadline_at: nat, now: nat, canceled: bool)
    requires
        deadline_at <= u64::MAX,
    ensures
        wait_next(deadline_at, now, canceled) matches WaitStep::Select(ms) ==> 0 < ms
            <= CANCEL_POLL_SLICE && now + ms <= deadline_at,
{
}

/// No time to wait means no waiting.
pub proof fn law_zero_timeout_never_waits(now: nat, canceled: bool)
    ensures
        wait_next(now, now, canceled) is Done,
{
}

} // verus!
