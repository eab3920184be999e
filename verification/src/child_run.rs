//! The life of a child process that runs a command: started, waited for under a watchdog, and
//! torn down with every thread that read from it.

use crate::bytes;
use crate::error::ToolExecError;
use crate::shell_util::{Delivery, collect_capped_drain};
use crate::stream_cap::format_shell_output;
use crate::stream_cap;
use vstd::prelude::*;
use vstd::string::*;

verus! {

/// Milliseconds that a reader is given to deliver once the child is gone.
pub const DRAIN_COMPLETION_GRACE: u64 = 1000;

/// Milliseconds that a thread is given once it has had every chance to finish.
pub const DRAIN_DETACH_GRACE: u64 = 5000;

/// Milliseconds after which a reader looks whether it is to stop.
pub const DRAIN_POLL_INTERVAL: u64 = 100;

/// What became of a process.
#[derive(Debug)]
pub struct ProcessOutput {
    pub stdout: Vec<u8>,
    pub stderr: Vec<u8>,
    /// The exit code, where the process has one.
    pub exit_code: Option<i32>,
    /// Whether it was killed because it took too long.
    pub was_killed: bool,
}

/// How the output of a child is had.
#[derive(Debug, Clone, Copy, PartialEq, Eq, Structural)]
pub enum ChildMode {
    /// Each stream by itself, once the child is gone.
    Buffered,
    /// Both streams line by line, in the order in which the lines come.
    Streamed,
}

/// What holds a child and all that it starts together.
#[derive(Debug, Clone, Copy, PartialEq, Eq, Structural)]
pub enum Isolation {
    /// A process group.
    Group,
    /// A job, whose end closes the pipes of all in it.
    Job,
}

/// Where a run is.
#[derive(Debug, Clone, Copy, PartialEq, Eq, Structural)]
pub enum ChildPhase {
    Spawning,
    Isolating,
    Reaping,
    TakingPipes,
    Waiting,
    StoppingDrains,
    CollectingOut,
    CollectingErr,
    CollectingMerger,
    JoiningWatchdog,
    Done,
}

/// What became of a step.
#[derive(Debug)]
pub enum ChildEvent {
    /// It went well.
    Fine,
    /// It went wrong.
    Failed(String),
    /// The child ended, with this exit code where it has one.
    Exited(Option<i32>),
    /// A thread that was waited for answered, or did not; `None` where there is no such thread.
    Collected(Option<Delivery>),
    /// The watchdog ended; says whether it killed the child.
    Watched(bool),
}

/// What is to be done next.
#[derive(Debug)]
pub enum ChildStep {
    Spawn,
    /// Bind the child and all that it starts together.
    Isolate,
    /// Kill the child, which nothing holds, and wait for it.
    KillAndReap,
    /// Take both pipes, start to read them, and start the watchdog.
    TakePipes,
    /// Wait until the child ends.
    Wait,
    /// Tell the readers to stop, and the watchdog that the child ended where it did.
    StopDrains(bool),
    CollectOut,
    CollectErr,
    CollectMerger,
    JoinWatchdog,
    Finish(Result<ProcessOutput, ToolExecError>),
}

/// A child on its way.
#[derive(Debug)]
pub struct ChildRun {
    mode: ChildMode,
    phase: ChildPhase,
    /// Why it failed, where it did.
    error: Option<String>,
    code: Option<i32>,
    out: Vec<u8>,
    err: Vec<u8>,
    killed: bool,
}

/// A child on its way, as others see it.
#[verifier::ext_equal]
pub struct ChildView {
    pub mode: ChildMode,
    pub phase: ChildPhase,
    pub error: Option<Seq<char>>,
    pub code: Option<i32>,
    pub out: Seq<u8>,
    pub err: Seq<u8>,
    pub killed: bool,
}

impl View for ChildRun {
    type V = ChildView;

    closed spec fn view(&self) -> ChildView {
        ChildView {
            mode: self.mode,
            phase: self.phase,
            error: crate::sanitize::opt_view(self.error),
            code: self.code,
            out: self.out@,
            err: self.err@,
            killed: self.killed,
        }
    }
}

/// A child that is yet to be started.
pub open spec fn unborn(mode: ChildMode) -> ChildView {
    ChildView {
        mode,
        phase: ChildPhase::Spawning,
        error: None,
        code: None,
        out: Seq::empty(),
        err: Seq::empty(),
        killed: false,
    }
}

/// Whether an event can answer the step that a run is at.
pub open spec fn answered_by(phase: ChildPhase, event: ChildEvent) -> bool {
    match phase {
        ChildPhase::Spawning | ChildPhase::Isolating | ChildPhase::TakingPipes => event is Fine
            || event is Failed,
        ChildPhase::Reaping | ChildPhase::StoppingDrains => event is Fine,
        ChildPhase::Waiting => event is Exited || event is Failed,
        ChildPhase::CollectingOut | ChildPhase::CollectingErr | ChildPhase::CollectingMerger =>
            event is Collected,
        ChildPhase::JoiningWatchdog => event is Watched,
        ChildPhase::Done => false,
    }
}

/// The bytes that a thread delivered; none where it did not answer.
pub open spec fn delivered_bytes(d: Option<Delivery>) -> Seq<u8> {
    match d {
        Some(Delivery::Bytes(b)) => b@,
        _ => Seq::empty(),
    }
}

/// What a run is after an event.
pub open spec fn child_next(v: ChildView, event: ChildEvent) -> ChildView {
    match (v.phase, event) {
        (ChildPhase::Spawning, ChildEvent::Fine) => ChildView { phase: ChildPhase::Isolating, ..v },
        (ChildPhase::Spawning, ChildEvent::Failed(m)) => ChildView {
            phase: ChildPhase::Done,
            error: Some(m@),
            ..v
        },
        (ChildPhase::Isolating, ChildEvent::Fine) => ChildView {
            phase: ChildPhase::TakingPipes,
            ..v
        },
        (ChildPhase::Isolating, ChildEvent::Failed(m)) => ChildView {
            phase: ChildPhase::Reaping,
            error: Some(m@),
            ..v
        },
        (ChildPhase::Reaping, _) => ChildView { phase: ChildPhase::Done, ..v },
        (ChildPhase::TakingPipes, ChildEvent::Fine) => ChildView { phase: ChildPhase::Waiting, ..v },
        (ChildPhase::TakingPipes, ChildEvent::Failed(m)) => ChildView {
            phase: ChildPhase::Done,
            error: Some(m@),
            ..v
        },
        (ChildPhase::Waiting, ChildEvent::Exited(code)) => ChildView {
            phase: ChildPhase::StoppingDrains,
            code,
            ..v
        },
        (ChildPhase::Waiting, ChildEvent::Failed(m)) => ChildView {
            phase: if v.mode == ChildMode::Streamed {
                ChildPhase::StoppingDrains
            } else {
                ChildPhase::Done
            },
            error: Some(m@),
            ..v
        },
        (ChildPhase::StoppingDrains, _) => ChildView {
            phase: if v.mode == ChildMode::Streamed {
                ChildPhase::CollectingOut
            } else {
                ChildPhase::JoiningWatchdog
            },
            ..v
        },
        (ChildPhase::CollectingOut, ChildEvent::Collected(d)) => ChildView {
            phase: ChildPhase::CollectingErr,
            out: if v.mode == ChildMode::Buffered {
                delivered_bytes(d)
            } else {
                v.out
            },
            ..v
        },
        (ChildPhase::CollectingErr, ChildEvent::Collected(d)) => ChildView {
            phase: if v.mode == ChildMode::Streamed {
                ChildPhase::CollectingMerger
            } else {
                ChildPhase::Done
            },
            err: if v.mode == ChildMode::Buffered {
                delivered_bytes(d)
            } else {
                v.err
            },
            ..v
        },
        (ChildPhase::CollectingMerger, ChildEvent::Collected(d)) => ChildView {
            phase: ChildPhase::JoiningWatchdog,
            out: delivered_bytes(d),
            ..v
        },
        (ChildPhase::JoiningWatchdog, ChildEvent::Watched(killed)) => ChildView {
            phase: if v.mode == ChildMode::Streamed {
                ChildPhase::Done
            } else {
                ChildPhase::CollectingOut
            },
            killed,
            ..v
        },
        _ => v,
    }
}

/// Whether a step is what a run that is at `v` has to do; one that is over gives its error, or its
/// output.
pub open spec fn step_of(v: ChildView, s: ChildStep) -> bool {
    match v.phase {
        ChildPhase::Spawning => s is Spawn,
        ChildPhase::Isolating => s is Isolate,
        ChildPhase::Reaping => s is KillAndReap,
        ChildPhase::TakingPipes => s is TakePipes,
        ChildPhase::Waiting => s is Wait,
        ChildPhase::StoppingDrains => s == ChildStep::StopDrains(v.error is None),
        ChildPhase::CollectingOut => s is CollectOut,
        ChildPhase::CollectingErr => s is CollectErr,
        ChildPhase::CollectingMerger => s is CollectMerger,
        ChildPhase::JoiningWatchdog => s is JoinWatchdog,
        ChildPhase::Done => match v.error {
            Some(m) => s matches ChildStep::Finish(Err(e)) && e@ == m,
            None => s matches ChildStep::Finish(Ok(o)) && o.stdout@ == v.out && o.stderr@ == v.err
                && o.exit_code == v.code && o.was_killed == v.killed,
        },
    }
}

/// Begins the run of a child whose output is wanted once it is gone.
pub fn spawn_with_watchdog() -> (r: (ChildRun, ChildStep))
    ensures
        r.0@ == unborn(ChildMode::Buffered),
        step_of(r.0@, r.1),
{
    begin_child(ChildMode::Buffered)
}

/// Begins the run of a child whose output is wanted as it comes.
pub fn spawn_with_streaming() -> (r: (ChildRun, ChildStep))
    ensures
        r.0@ == unborn(ChildMode::Streamed),
        step_of(r.0@, r.1),
{
    begin_child(ChildMode::Streamed)
}

fn begin_child(mode: ChildMode) -> (r: (ChildRun, ChildStep))
    ensures
        r.0@ == unborn(mode),
        step_of(r.0@, r.1),
{
    let run = ChildRun {
        mode,
        phase: ChildPhase::Spawning,
        error: None,
        code: None,
        out: Vec::new(),
        err: Vec::new(),
        killed: false,
    };
    assert(run@ =~= unborn(mode));
    (run, ChildStep::Spawn)
}

fn bytes_delivered(d: Option<Delivery>) -> (b: Vec<u8>)
    ensures
        b@ == delivered_bytes(d),
{
    match collect_capped_drain(d).0 {
        Some(b) => {
            assert(b@ =~= delivered_bytes(d));
            b
        },
        None => {
            assert(delivered_bytes(d) =~= Seq::empty());
            Vec::new()
        },
    }
}

impl ChildRun {
    /// Takes in what became of a step and says what is to be done next.
    pub fn advance(&mut self, event: ChildEvent) -> (s: ChildStep)
        requires
            answered_by(old(self)@.phase, event),
        ensures
            final(self)@ == child_next(old(self)@, event),
            step_of(final(self)@, s),
    {
        let streamed = self.mode == ChildMode::Streamed;
        match event {
            ChildEvent::Fine => {
                self.phase = match self.phase {
                    ChildPhase::Spawning => ChildPhase::Isolating,
                    ChildPhase::Isolating => ChildPhase::TakingPipes,
                    ChildPhase::TakingPipes => ChildPhase::Waiting,
                    ChildPhase::StoppingDrains => if streamed {
                        ChildPhase::CollectingOut
                    } else {
                        ChildPhase::JoiningWatchdog
                    },
                    _ => ChildPhase::Done,
                };
            },
            ChildEvent::Failed(m) => {
                self.error = Some(m);
                self.phase = match self.phase {
                    ChildPhase::Isolating => ChildPhase::Reaping,
                    ChildPhase::Waiting => if streamed {
                        ChildPhase::StoppingDrains
                    } else {
                        ChildPhase::Done
                    },
                    _ => ChildPhase::Done,
                };
            },
            ChildEvent::Exited(code) => {
                self.code = code;
                self.phase = ChildPhase::StoppingDrains;
            },
            ChildEvent::Collected(d) => match self.phase {
                ChildPhase::CollectingOut => {
                    if !streamed {
                        self.out = bytes_delivered(d);
                    }
                    self.phase = ChildPhase::CollectingErr;
                },
                ChildPhase::CollectingErr => {
                    if streamed {
                        self.phase = ChildPhase::CollectingMerger;
                    } else {
                        self.err = bytes_delivered(d);
                        self.phase = ChildPhase::Done;
                    }
                },
                _ => {
                    self.out = bytes_delivered(d);
                    self.phase = ChildPhase::JoiningWatchdog;
                },
            },
            ChildEvent::Watched(killed) => {
                self.killed = killed;
                self.phase = if streamed {
                    ChildPhase::Done
                } else {
                    ChildPhase::CollectingOut
                };
            },
        }
        assert(self@ =~= child_next(old(self)@, event));
        self.next_step()
    }

    /// What is to be done next; the output is handed over where the run is done.
    fn next_step(&mut self) -> (s: ChildStep)
        ensures
            final(self)@ == old(self)@,
            step_of(old(self)@, s),
    {
        match self.phase {
            ChildPhase::Spawning => ChildStep::Spawn,
            ChildPhase::Isolating => ChildStep::Isolate,
            ChildPhase::Reaping => ChildStep::KillAndReap,
            ChildPhase::TakingPipes => ChildStep::TakePipes,
            ChildPhase::Waiting => ChildStep::Wait,
            ChildPhase::StoppingDrains => ChildStep::StopDrains(self.error.is_none()),
            ChildPhase::CollectingOut => ChildStep::CollectOut,
            ChildPhase::CollectingErr => ChildStep::CollectErr,
            ChildPhase::CollectingMerger => ChildStep::CollectMerger,
            ChildPhase::JoiningWatchdog => ChildStep::JoinWatchdog,
            ChildPhase::Done => match &self.error {
                Some(m) => ChildStep::Finish(Err(ToolExecError(m.clone()))),
                None => ChildStep::Finish(
                    Ok(
                        ProcessOutput {
                            stdout: stream_cap::copy_bytes(self.out.as_slice()),
                            stderr: stream_cap::copy_bytes(self.err.as_slice()),
                            exit_code: self.code,
                            was_killed: self.killed,
                        },
                    ),
                ),
            },
        }
    }
}

/// Makes the record of a command.
pub fn shell_result(
    display_cmd: &str,
    timeout_ms: u64,
    ran: Result<ProcessOutput, ToolExecError>,
) -> (r: Result<String, ToolExecError>)
    ensures
        shell_record(display_cmd@, timeout_ms, ran, r),
{
    match ran {
        Err(e) => Err(e),
        Ok(o) => Ok(
            format_shell_output(
                display_cmd,
                o.stdout.as_slice(),
                o.stderr.as_slice(),
                o.exit_code,
                timeout_ms,
                o.was_killed,
            ),
        ),
    }
}

/// Makes the record of a command whose output was streamed, with room for the record held back
/// while it was.
pub fn run_shell_streaming(
    display_cmd: &str,
    timeout_ms: u64,
    ran: Result<ProcessOutput, ToolExecError>,
) -> (r: Result<String, ToolExecError>)
    ensures
        shell_record(display_cmd@, timeout_ms, ran, r),
{
    shell_result(display_cmd, timeout_ms, ran)
}

/// Whether `r` is what is recorded of a command that ran so.
pub open spec fn shell_record(
    display_cmd: Seq<char>,
    timeout_ms: u64,
    ran: Result<ProcessOutput, ToolExecError>,
    r: Result<String, ToolExecError>,
) -> bool {
    match (ran, r) {
        (Err(e), Err(f)) => f@ == e@,
        (Ok(o), Ok(s)) => if o.was_killed {
            s@ == stream_cap::killed_record(display_cmd, timeout_ms as nat)
        } else {
            &&& s@ == stream_cap::ended_record(
                display_cmd,
                bytes::utf8_lossy(o.stdout@ + o.stderr@),
                stream_cap::shown_code(o.exit_code),
            )
            &&& vstd::utf8::valid_utf8(o.stdout@ + o.stderr@) ==> s@ == stream_cap::ended_record(
                display_cmd,
                vstd::utf8::decode_utf8(o.stdout@ + o.stderr@),
                stream_cap::shown_code(o.exit_code),
            )
        },
        _ => false,
    }
}

/// What is done about a thread that was waited for.
#[derive(Debug, Clone, Copy, PartialEq, Eq, Structural)]
pub enum CollectStep {
    /// Join it: it is over.
    Join,
    /// End the job, which closes the pipe that it reads, and wait once more.
    TerminateJob,
    /// Leave it to itself.
    Detach,
}

/// What is done about a reader that was waited for: one that did not answer is freed by ending the
/// job, where there is one, and left to itself where that is no help or was none.
pub open spec fn collect_next(isolation: Isolation, terminated: bool, d: Delivery) -> CollectStep {
    match d {
        Delivery::Bytes(_) => CollectStep::Join,
        Delivery::TimedOut => if isolation == Isolation::Job && !terminated {
            CollectStep::TerminateJob
        } else {
            CollectStep::Detach
        },
        Delivery::Disconnected => if terminated {
            CollectStep::Detach
        } else {
            CollectStep::Join
        },
    }
}

/// Says what is done about a reader that was waited for; `terminated` says whether the job was
/// ended for it.
pub fn collect_step(isolation: Isolation, terminated: bool, d: &Delivery) -> (s: CollectStep)
    ensures
        s == collect_next(isolation, terminated, *d),
{
    match d {
        Delivery::Bytes(_) => CollectStep::Join,
        Delivery::TimedOut => if isolation == Isolation::Job && !terminated {
            CollectStep::TerminateJob
        } else {
            CollectStep::Detach
        },
        Delivery::Disconnected => if terminated {
            CollectStep::Detach
        } else {
            CollectStep::Join
        },
    }
}

/// What a run is after some events.
pub open spec fn child_after(v: ChildView, events: Seq<ChildEvent>) -> ChildView
    decreases events.len(),
{
    if events.len() == 0 {
        v
    } else {
        child_next(child_after(v, events.drop_last()), events.last())
    }
}

/// Whether each event answers the step that the run is at when it comes.
pub open spec fn answered(v: ChildView, events: Seq<ChildEvent>) -> bool
    decreases events.len(),
{
    events.len() > 0 ==> answered(v, events.drop_last()) && answered_by(
        child_after(v, events.drop_last()).phase,
        events.last(),
    )
}

/// How far a run has come.
pub open spec fn child_progress(v: ChildView) -> int {
    match v.phase {
        ChildPhase::Spawning => 0,
        ChildPhase::Isolating => 1,
        ChildPhase::Reaping => 2,
        ChildPhase::TakingPipes => 2,
        ChildPhase::Waiting => 3,
        ChildPhase::StoppingDrains => 4,
        ChildPhase::CollectingOut => if v.mode == ChildMode::Streamed {
            5
        } else {
            6
        },
        ChildPhase::CollectingErr => if v.mode == ChildMode::Streamed {
            6
        } else {
            7
        },
        ChildPhase::CollectingMerger => 7,
        ChildPhase::JoiningWatchdog => if v.mode == ChildMode::Streamed {
            8
        } else {
            5
        },
        ChildPhase::Done => 9,
    }
}

/// A run goes forward with every event, so it is over after nine at most.
pub proof fn law_child_run_ends(mode: ChildMode, events: Seq<ChildEvent>)
    requires
        answered(unborn(mode), events),
    ensures
        events.len() <= 9,
        events.len() <= child_progress(child_after(unborn(mode), events)),
        child_after(unborn(mode), events).mode == mode,
        child_after(unborn(mode), events).phase == ChildPhase::CollectingMerger ==> mode
            == ChildMode::Streamed,
    decreases events.len(),
{
    if events.len() > 0 {
        law_child_run_ends(mode, events.drop_last());
    }
}

/// A wait that failed while the output was streamed is what the run comes to, whatever else
/// happens, and the readers, the merger and the watchdog are waited for all the same: the run is
/// over only after five more events, one for each of them and one for the signal to stop.
pub proof fn law_failed_wait_tears_down(v: ChildView, m: String, events: Seq<ChildEvent>)
    requires
        v.mode == ChildMode::Streamed,
        v.phase == ChildPhase::Waiting,
        answered(child_next(v, ChildEvent::Failed(m)), events),
    ensures
        ({
            let end = child_after(child_next(v, ChildEvent::Failed(m)), events);
            &&& end.error == Some(m@)
            &&& end.phase == ChildPhase::Done <==> events.len() == 5
        }),
{
    lemma_teardown(v, ChildEvent::Failed(m), events);
}

/// After the wait, a run whose output is streamed goes through its teardown in one order.
proof fn lemma_teardown(v: ChildView, first: ChildEvent, events: Seq<ChildEvent>)
    requires
        v.mode == ChildMode::Streamed,
        v.phase == ChildPhase::Waiting,
        first is Failed || first is Exited,
        answered(child_next(v, first), events),
    ensures
        ({
            let start = child_next(v, first);
            let end = child_after(start, events);
            &&& end.mode == ChildMode::Streamed
            &&& end.error == start.error
            &&& end.code == start.code
            &&& end.err == start.err
            &&& events.len() <= 5
            &&& end.phase == (if events.len() == 0 {
                ChildPhase::StoppingDrains
            } else if events.len() == 1 {
                ChildPhase::CollectingOut
            } else if events.len() == 2 {
                ChildPhase::CollectingErr
            } else if events.len() == 3 {
                ChildPhase::CollectingMerger
            } else if events.len() == 4 {
                ChildPhase::JoiningWatchdog
            } else {
                ChildPhase::Done
            })
            &&& events.len() == 5 ==> end.out == delivered_bytes(events[3]->Collected_0) && end.killed
                == events[4]->Watched_0
            &&& events.len() == 4 ==> end.out == delivered_bytes(events[3]->Collected_0)
        }),
    decreases events.len(),
{
    if events.len() > 0 {
        lemma_teardown(v, first, events.drop_last());
    }
}

/// The output of a child that ended while it was streamed is what the merger delivered, with
/// nothing on the side, and it counts as killed exactly where the watchdog says so.
pub proof fn law_streamed_output_is_the_merged_body(
    v: ChildView,
    code: Option<i32>,
    events: Seq<ChildEvent>,
)
    requires
        v.mode == ChildMode::Streamed,
        v.phase == ChildPhase::Waiting,
        v.error is None,
        v.err == Seq::<u8>::empty(),
        answered(child_next(v, ChildEvent::Exited(code)), events),
        events.len() == 5,
    ensures
        ({
            let end = child_after(child_next(v, ChildEvent::Exited(code)), events);
            &&& end.phase == ChildPhase::Done
            &&& end.error is None
            &&& end.code == code
            &&& end.out == delivered_bytes(events[3]->Collected_0)
            &&& end.err == Seq::<u8>::empty()
            &&& end.killed == events[4]->Watched_0
        }),
{
    lemma_teardown(v, ChildEvent::Exited(code), events);
}

/// A reader is waited for twice at most: once the job was ended for it, it is joined or left.
pub proof fn law_collecting_ends(isolation: Isolation, d: Delivery)
    ensures
        collect_next(isolation, true, d) != CollectStep::TerminateJob,
        collect_next(Isolation::Group, false, d) != CollectStep::TerminateJob,
{
}

} // verus!
