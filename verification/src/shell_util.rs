//! The decisions taken around a child process: how its output is drained, how it is killed when it
//! takes too long, and what becomes of a thread that does not answer.
//!
//! The system calls are made elsewhere; each is answered with an event, and the next step follows
//! from it.

use crate::paths::resolve_path;
use crate::paths;
use crate::stream_cap::{ByteBudget, DrainAccumulate, accumulate_chunk};
use vstd::prelude::*;
use vstd::string::*;

verus! {

/// The directory asked for, or a dot.
pub open spec fn wanted_dir(workdir: Option<&str>) -> Seq<char> {
    match workdir {
        Some(w) => w@,
        None => "."@,
    }
}

/// The working directory of a child: the one asked for, else the session's own.
pub fn resolve_workdir(workdir: Option<&str>, working_dir: Option<&str>) -> (r: String)
    ensures
        ({
            let wanted = wanted_dir(workdir);
            &&& exists|home: Option<Seq<char>>|
                r@ == #[trigger] paths::resolved_path(wanted, paths::opt_str(working_dir), home)
            &&& !paths::tilde_form(wanted) ==> r@ == paths::resolved_path(wanted, paths::opt_str(working_dir), None)
        }),
{
    match workdir {
        Some(w) => resolve_path(w, working_dir),
        None => resolve_path(".", working_dir),
    }
}

/// Whether a child must not inherit the variable `name`: loaders and interpreters run code that it
/// names.
pub open spec fn injects_code(name: Seq<char>) -> bool {
    name == "LD_PRELOAD"@ || name == "LD_LIBRARY_PATH"@ || name == "LD_AUDIT"@ || name
        == "LD_DEBUG"@ || name == "PYTHONPATH"@ || name == "PERL5LIB"@ || name == "RUBYLIB"@ || name
        == "DYLD_INSERT_LIBRARIES"@
}

/// The variables that a child must not inherit.
pub fn stripped_variables() -> (v: Vec<&'static str>)
    ensures
        forall|name: Seq<char>|
            injects_code(name) <==> exists|i: int| 0 <= i < v@.len() && #[trigger] v@[i]@ == name,
        v@.len() == 8,
{
    let mut v: Vec<&'static str> = Vec::new();
    v.push("LD_PRELOAD");
    v.push("LD_LIBRARY_PATH");
    v.push("LD_AUDIT");
    v.push("LD_DEBUG");
    v.push("PYTHONPATH");
    v.push("PERL5LIB");
    v.push("RUBYLIB");
    v.push("DYLD_INSERT_LIBRARIES");
    proof {
        assert forall|name: Seq<char>| injects_code(name) implies exists|i: int|
            0 <= i < v@.len() && #[trigger] v@[i]@ == name by {
            assert(v@[0]@ == "LD_PRELOAD"@);
            assert(v@[1]@ == "LD_LIBRARY_PATH"@);
            assert(v@[2]@ == "LD_AUDIT"@);
            assert(v@[3]@ == "LD_DEBUG"@);
            assert(v@[4]@ == "PYTHONPATH"@);
            assert(v@[5]@ == "PERL5LIB"@);
            assert(v@[6]@ == "RUBYLIB"@);
            assert(v@[7]@ == "DYLD_INSERT_LIBRARIES"@);
        }
    }
    v
}

/// How a wait for readable output ended.
#[derive(Debug, Clone, Copy, PartialEq, Eq, Structural)]
pub enum PollOutcome {
    /// Nothing came within the slice.
    Idle,
    /// There is output, or its end.
    Ready,
    Interrupted,
    Failed,
}

/// What follows a wait.
#[derive(Debug, Clone, Copy, PartialEq, Eq, Structural)]
pub enum PollStep {
    Again,
    Read,
    Stop,
}

/// What follows a wait; `stopped` says whether the child is gone and draining is to end.
pub open spec fn poll_next(outcome: PollOutcome, stopped: bool) -> PollStep {
    match outcome {
        PollOutcome::Ready => PollStep::Read,
        PollOutcome::Failed => PollStep::Stop,
        PollOutcome::Interrupted => PollStep::Again,
        PollOutcome::Idle => if stopped {
            PollStep::Stop
        } else {
            PollStep::Again
        },
    }
}

/// What follows a wait.
pub fn poll_step(outcome: PollOutcome, stopped: bool) -> (s: PollStep)
    ensures
        s == poll_next(outcome, stopped),
{
    match outcome {
        PollOutcome::Ready => PollStep::Read,
        PollOutcome::Failed => PollStep::Stop,
        PollOutcome::Interrupted => PollStep::Again,
        PollOutcome::Idle => if stopped {
            PollStep::Stop
        } else {
            PollStep::Again
        },
    }
}

/// How a read ended.
#[derive(Debug, Clone, Copy, PartialEq, Eq, Structural)]
pub enum ReadOutcome {
    /// Nobody can write any more.
    End,
    /// There is a chunk.
    Data,
    /// Nothing is left for now.
    WouldBlock,
    Interrupted,
    Failed,
}

/// What a drain does next.
#[derive(Debug, Clone, Copy, PartialEq, Eq, Structural)]
pub enum DrainStep {
    Poll,
    Read,
    Finish,
}

/// What a drain does after a read: where a read could block, it waits before each.
pub open spec fn drain_next(outcome: ReadOutcome, nonblocking: bool) -> DrainStep {
    match outcome {
        ReadOutcome::End => DrainStep::Finish,
        ReadOutcome::Failed => DrainStep::Finish,
        ReadOutcome::WouldBlock => DrainStep::Poll,
        ReadOutcome::Data => if nonblocking {
            DrainStep::Read
        } else {
            DrainStep::Poll
        },
        ReadOutcome::Interrupted => if nonblocking {
            DrainStep::Read
        } else {
            DrainStep::Poll
        },
    }
}

/// A pipe that is being drained.
#[derive(Debug)]
pub struct Drain {
    nonblocking: bool,
    budget: Option<ByteBudget>,
    full: Vec<u8>,
}

/// Bytes kept of `all` under a cap.
pub open spec fn kept_bytes(all: Seq<u8>, cap: Option<nat>) -> Seq<u8> {
    match cap {
        Some(n) if all.len() > n => all.take(n as int),
        _ => all,
    }
}

impl Drain {
    /// Whether reads come back at once.
    pub closed spec fn never_blocks(&self) -> bool {
        self.nonblocking
    }

    /// What was kept so far.
    pub closed spec fn kept(&self) -> Seq<u8> {
        self.full@
    }

    /// Whether `self` has seen `all` under `cap`.
    pub closed spec fn has_seen(&self, all: Seq<u8>, cap: Option<nat>) -> bool {
        &&& self.full@ == kept_bytes(all, cap)
        &&& match (self.budget, cap) {
            (Some(b), Some(n)) => b@.left == (if all.len() > n {
                0
            } else {
                n - all.len()
            }),
            (None, None) => true,
            _ => false,
        }
    }

    /// A drain of which `accumulate` says how much it keeps.
    pub fn new(nonblocking: bool, accumulate: DrainAccumulate) -> (d: Self)
        ensures
            d.never_blocks() == nonblocking,
            d.kept() == Seq::<u8>::empty(),
            d.has_seen(
                Seq::empty(),
                match accumulate {
                    DrainAccumulate::All => None,
                    DrainAccumulate::Capped(n) => Some(n as nat),
                },
            ),
    {
        let budget = match accumulate {
            DrainAccumulate::All => None,
            DrainAccumulate::Capped(n) => Some(ByteBudget::new(n)),
        };
        let full: Vec<u8> = Vec::new();
        assert(full@ =~= Seq::<u8>::empty());
        Drain { nonblocking, budget, full }
    }

    /// What follows a read. `chunk` is what was read; it counts only where there is data.
    pub fn after_read(&mut self, outcome: ReadOutcome, chunk: &[u8]) -> (s: DrainStep)
        ensures
            s == drain_next(outcome, old(self).never_blocks()),
            final(self).never_blocks() == old(self).never_blocks(),
            outcome != ReadOutcome::Data ==> *final(self) == *old(self),
            outcome == ReadOutcome::Data ==> forall|all: Seq<u8>, cap: Option<nat>| #[trigger]
                old(self).has_seen(all, cap) ==> final(self).has_seen(all + chunk@, cap),
    {
        match outcome {
            ReadOutcome::End => DrainStep::Finish,
            ReadOutcome::Failed => DrainStep::Finish,
            ReadOutcome::WouldBlock => DrainStep::Poll,
            ReadOutcome::Data => {
                accumulate_chunk(&mut self.budget, &mut self.full, chunk);
                proof {
                    assert forall|all: Seq<u8>, cap: Option<nat>| #[trigger]
                        old(self).has_seen(all, cap) implies self.has_seen(all + chunk@, cap) by {
                        let whole = all + chunk@;
                        if cap is Some {
                            let n = cap->0;
                            if all.len() > n {
                                assert(chunk@.take(0) =~= Seq::<u8>::empty());
                                assert(whole.take(n as int) =~= all.take(n as int));
                            } else if whole.len() > n {
                                assert(whole.take(n as int) =~= all + chunk@.take(n - all.len()));
                            } else {
                                assert(chunk@.take(chunk@.len() as int) =~= chunk@);
                            }
                        }
                        assert(self.full@ =~= kept_bytes(whole, cap));
                    }
                }
                if self.nonblocking {
                    DrainStep::Read
                } else {
                    DrainStep::Poll
                }
            },
            ReadOutcome::Interrupted => if self.nonblocking {
                DrainStep::Read
            } else {
                DrainStep::Poll
            },
        }
    }

    /// What was kept.
    pub fn into_bytes(self) -> (v: Vec<u8>)
        ensures
            v@ == self.kept(),
    {
        self.full
    }
}

/// A drain keeps the first bytes up to its cap of all that it has seen.
pub proof fn law_drain_keeps_the_first_bytes(d: Drain, all: Seq<u8>, cap: Option<nat>)
    requires
        d.has_seen(all, cap),
    ensures
        d.kept() == kept_bytes(all, cap),
{
}

/// What a thread that was waited for had to say.
#[derive(Debug)]
pub enum Delivery {
    Bytes(Vec<u8>),
    /// It did not answer in time.
    TimedOut,
    /// It ended without an answer.
    Disconnected,
}

/// Whether a thread can be joined: one that did not answer in time is left to itself.
pub open spec fn can_join(d: Delivery) -> bool {
    !(d is TimedOut)
}

/// Whether a thread can be joined.
pub fn joins(d: &Delivery) -> (b: bool)
    ensures
        b == can_join(*d),
{
    match d {
        Delivery::TimedOut => false,
        _ => true,
    }
}

/// Whether `r` is what a drain delivered, and whether its thread can be joined.
pub open spec fn collects(delivery: Option<Delivery>, r: (Option<Vec<u8>>, bool)) -> bool {
    match delivery {
        None => r.0 is None && !r.1,
        Some(Delivery::TimedOut) => r.0 is None && !r.1,
        Some(Delivery::Bytes(b)) => r.0 == Some(b) && r.1,
        Some(Delivery::Disconnected) => r.0 is Some && r.0->0@.len() == 0 && r.1,
    }
}

/// What a drain delivered, and whether its thread can be joined. Nothing is had of a pipe that was
/// never opened, nor of a drain that did not answer in time.
pub fn collect_capped_drain(delivery: Option<Delivery>) -> (r: (Option<Vec<u8>>, bool))
    ensures
        collects(delivery, r),
{
    match delivery {
        None => (None, false),
        Some(Delivery::TimedOut) => (None, false),
        Some(Delivery::Bytes(b)) => (Some(b), true),
        Some(Delivery::Disconnected) => (Some(Vec::new()), true),
    }
}

/// What the merger delivered, and whether its thread can be joined.
pub fn collect_merger_body(delivery: Delivery) -> (r: (Vec<u8>, bool))
    ensures
        r.1 == can_join(delivery),
        match delivery {
            Delivery::Bytes(b) => r.0 == b,
            _ => r.0@.len() == 0,
        },
{
    match delivery {
        Delivery::Bytes(b) => (b, true),
        Delivery::TimedOut => (Vec::new(), false),
        Delivery::Disconnected => (Vec::new(), true),
    }
}

/// What a watchdog reports: a kill only where the time was up and the kill landed. The stream is
/// told to give up along with it.
pub fn watchdog_report(done_in_time: bool, kill_landed: bool) -> (killed: bool)
    ensures
        killed == (!done_in_time && kill_landed),
{
    !done_in_time && kill_landed
}

/// A step of killing a child and all that it started.
#[derive(Debug, Clone, Copy, PartialEq, Eq, Structural)]
pub enum KillStep {
    /// Signal the child through the handle that pins it.
    SignalPinned,
    /// Signal what is left of the child's group.
    SweepGroup,
    /// Find out whether the child leads its group.
    AskGroup,
    /// Signal the child's group.
    KillGroup,
    /// Signal the child alone.
    KillChild,
    /// Nothing more to do; whether a kill landed.
    Done(bool),
}

/// How a step went.
#[derive(Debug, Clone, Copy, PartialEq, Eq, Structural)]
pub enum KillEvent {
    /// The signal landed, or the child leads its group.
    Yes,
    /// There is no such process.
    Gone,
    /// It failed otherwise, or the child does not lead its group.
    No,
}

/// The first step: a process number of zero names no child.
pub open spec fn kill_start(pid: u32, pinned: bool) -> KillStep {
    if pid == 0 {
        KillStep::Done(false)
    } else if pinned {
        KillStep::SignalPinned
    } else {
        KillStep::AskGroup
    }
}

/// The step that follows.
pub open spec fn kill_after(step: KillStep, event: KillEvent) -> KillStep {
    match step {
        KillStep::SignalPinned => match event {
            KillEvent::Yes => KillStep::SweepGroup,
            KillEvent::Gone => KillStep::Done(false),
            KillEvent::No => KillStep::AskGroup,
        },
        KillStep::SweepGroup => KillStep::Done(true),
        KillStep::AskGroup => if event == KillEvent::Yes {
            KillStep::KillGroup
        } else {
            KillStep::KillChild
        },
        KillStep::KillGroup => if event == KillEvent::Yes {
            KillStep::Done(true)
        } else {
            KillStep::KillChild
        },
        KillStep::KillChild => KillStep::Done(event == KillEvent::Yes),
        KillStep::Done(b) => KillStep::Done(b),
    }
}

/// The first step of killing a child.
pub fn first_kill_step(pid: u32, pinned: bool) -> (s: KillStep)
    ensures
        s == kill_start(pid, pinned),
{
    if pid == 0 {
        KillStep::Done(false)
    } else if pinned {
        KillStep::SignalPinned
    } else {
        KillStep::AskGroup
    }
}

/// The step that follows `event`.
pub fn next_kill_step(step: KillStep, event: KillEvent) -> (s: KillStep)
    ensures
        s == kill_after(step, event),
{
    match step {
        KillStep::SignalPinned => match event {
            KillEvent::Yes => KillStep::SweepGroup,
            KillEvent::Gone => KillStep::Done(false),
            KillEvent::No => KillStep::AskGroup,
        },
        KillStep::SweepGroup => KillStep::Done(true),
        KillStep::AskGroup => match event {
            KillEvent::Yes => KillStep::KillGroup,
            _ => KillStep::KillChild,
        },
        KillStep::KillGroup => match event {
            KillEvent::Yes => KillStep::Done(true),
            _ => KillStep::KillChild,
        },
        KillStep::KillChild => match event {
            KillEvent::Yes => KillStep::Done(true),
            _ => KillStep::Done(false),
        },
        KillStep::Done(b) => KillStep::Done(b),
    }
}

/// The steps that a list of events leads through.
pub open spec fn kill_run(start: KillStep, events: Seq<KillEvent>) -> KillStep
    decreases events.len(),
{
    if events.len() == 0 {
        start
    } else {
        kill_after(kill_run(start, events.drop_last()), events.last())
    }
}

/// How many steps can still follow.
pub open spec fn kill_steps_left(step: KillStep) -> nat {
    match step {
        KillStep::SignalPinned => 4,
        KillStep::AskGroup => 3,
        KillStep::KillGroup => 2,
        KillStep::KillChild => 1,
        KillStep::SweepGroup => 1,
        KillStep::Done(_) => 0,
    }
}

/// A group is signalled by its number only right after the child was found to lead it, or once
/// the handle that pins the child proved that the number is still the child's.
pub proof fn law_group_signals_are_aimed(start: KillStep, events: Seq<KillEvent>)
    requires
        start is Done || start is SignalPinned || start is AskGroup,
    ensures
        ({
            let step = kill_run(start, events);
            let before = kill_run(start, events.drop_last());
            &&& step is KillGroup ==> events.len() > 0 && before is AskGroup && events.last()
                == KillEvent::Yes
            &&& step is SweepGroup ==> events.len() > 0 && before is SignalPinned && events.last()
                == KillEvent::Yes
        }),
{
}

/// A kill is reported only where a signal landed; a child that was gone already is never reported
/// as killed.
pub proof fn law_reported_kills_landed(start: KillStep, events: Seq<KillEvent>)
    requires
        start == KillStep::Done(false) || start is SignalPinned || start is AskGroup,
        kill_run(start, events) == KillStep::Done(true),
    ensures
        exists|i: int| 0 <= i < events.len() && #[trigger] events[i] == KillEvent::Yes,
    decreases events.len(),
{
    if events.len() > 0 {
        let front = events.drop_last();
        let before = kill_run(start, front);
        if before == KillStep::Done(true) {
            law_reported_kills_landed(start, front);
            let i = choose|i: int| 0 <= i < front.len() && #[trigger] front[i] == KillEvent::Yes;
            assert(events[i] == KillEvent::Yes);
        } else if before is SweepGroup {
            law_group_signals_are_aimed(start, front);
            assert(events[front.len() - 1] == KillEvent::Yes);
        } else {
            assert(events[events.len() - 1] == KillEvent::Yes);
        }
    }
}

/// Killing ends after at most four events, whatever they are.
pub proof fn law_killing_ends(start: KillStep, events: Seq<KillEvent>)
    requires
        events.len() >= 4,
    ensures
        kill_run(start, events) is Done,
{
    lemma_kill_progress(start, events);
}

proof fn lemma_kill_progress(start: KillStep, events: Seq<KillEvent>)
    ensures
        kill_steps_left(kill_run(start, events)) + events.len() <= kill_steps_left(start)
            || kill_run(start, events) is Done,
    decreases events.len(),
{
    if events.len() > 0 {
        lemma_kill_progress(start, events.drop_last());
    }
}

} // verus!
