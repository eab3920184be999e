//! What running a command is for: the command that is asked for runs where and as long as it may, and
//! its record says what it wrote and how it ended.

use crate::bytes;
use crate::child_run::{ChildEvent, ChildMode, ChildStep, ChildView, ProcessOutput};
use crate::child_run;
use crate::encoding;
use crate::error::ToolExecError;
use crate::powershell::{CommandLine, PsArgs, PsShell};
use crate::powershell;
use crate::sanitize;
use crate::shell_util::{Delivery, KillStep, PollOutcome, ReadOutcome};
use crate::shell_util;
use crate::stream_cap;
use crate::text;
use crate::text_laws;
use vstd::prelude::*;
use vstd::string::*;
use vstd::utf8::*;

verus! {

/// Whether `c` stands in a record as it is.
pub open spec fn recordable(c: char) -> bool {
    text_laws::readable(c) || c == '\t' || c == '\n' || c == '\r' || c == '\u{1b}'
}

/// Whether a text stands in a record as it is.
pub open spec fn recordable_text(s: Seq<char>) -> bool {
    forall|i: int| 0 <= i < s.len() ==> recordable(#[trigger] s[i])
}

proof fn lemma_recorded_as_it_is(s: Seq<char>)
    requires
        recordable_text(s),
    ensures
        sanitize::transcript(s) == s,
{
    assert forall|i: int| 0 <= i < s.len() implies sanitize::transcript_char()(#[trigger] s[i])
        == seq![s[i]] by {
        assert(recordable(s[i]));
    }
    text::lemma_expand_fixed(s, sanitize::transcript_char());
}

/// The exit code as it is shown: with a minus sign where it is negative, and -1 where there is none.
pub open spec fn code_digits(code: Option<i32>) -> Seq<char> {
    match code {
        None => seq!['-', '1'],
        Some(c) => if c < 0 {
            seq!['-'] + text::decimal((0 - c) as nat)
        } else {
            text::decimal(c as nat)
        },
    }
}

/// The record of a command that ended is the command behind a dollar sign, all that it wrote, what
/// went to standard output before what went to standard error, and its exit code; as long as the
/// whole of it has room.
pub proof fn law_record_says_what_ran(
    cmd: Seq<char>,
    timeout_ms: u64,
    o: ProcessOutput,
    s: String,
)
    requires
        child_run::shell_record(cmd, timeout_ms, Ok(o), Ok(s)),
        !o.was_killed,
        valid_utf8(o.stdout@ + o.stderr@),
        recordable_text(cmd),
        recordable_text(decode_utf8(o.stdout@ + o.stderr@)),
        encode_utf8(cmd).len() + o.stdout@.len() + o.stderr@.len() <= 130000,
    ensures
        exists|out: Seq<char>|
            encode_utf8(out) == o.stdout@ + o.stderr@ && s@ == "$ "@ + cmd + "\n"@ + #[trigger] (out
                + "\n\nExit code: "@) + code_digits(o.exit_code),
{
    let all = o.stdout@ + o.stderr@;
    let out = decode_utf8(all);
    decode_utf8_encode_utf8(all);
    let body = "$ "@ + cmd + "\n"@ + out;
    reveal_strlit("$ ");
    reveal_strlit("\n");
    reveal_strlit("\nExit code: ");
    reveal_strlit("\n\nExit code: ");
    assert forall|i: int| 0 <= i < body.len() implies recordable(#[trigger] body[i]) by {
        if i < 2 {
            assert(body[i] == "$ "@[i]);
        } else if i < 2 + cmd.len() {
            assert(body[i] == cmd[i - 2]);
        } else if i == 2 + cmd.len() {
            assert(body[i] == "\n"@[0]);
        } else {
            assert(body[i] == out[i - 3 - cmd.len()]);
        }
    }
    lemma_recorded_as_it_is(body);
    is_ascii_chars_encode_utf8("$ "@);
    is_ascii_chars_encode_utf8("\n"@);
    text::lemma_utf8_len_concat("$ "@, cmd);
    text::lemma_utf8_len_concat("$ "@ + cmd, "\n"@);
    text::lemma_utf8_len_concat("$ "@ + cmd + "\n"@, out);
    let code = stream_cap::shown_code(o.exit_code);
    let marker = "\nExit code: "@ + text::signed_decimal(code);
    lemma_code(o.exit_code);
    is_ascii_chars_encode_utf8("\nExit code: "@);
    text::lemma_utf8_len_concat("\nExit code: "@, text::signed_decimal(code));
    sanitize::lemma_suffix_len();
    assert(text::utf8_len(body) <= sanitize::body_room(marker));
    assert(s@ == body + "\n"@ + marker);
    assert(s@ =~= "$ "@ + cmd + "\n"@ + (out + "\n\nExit code: "@) + code_digits(o.exit_code));
}

proof fn lemma_code(code: Option<i32>)
    ensures
        text::signed_decimal(stream_cap::shown_code(code)) == code_digits(code),
        text::utf8_len(text::signed_decimal(stream_cap::shown_code(code))) <= 11,
{
    match code {
        Some(c) => {
            text::lemma_signed_decimal_len(c);
        },
        None => {
            text::lemma_signed_decimal_len(-1i32);
            reveal_with_fuel(text::decimal, 2);
            assert(text::signed_decimal(-1) =~= seq!['-', '1']);
        },
    }
}

/// The record of a command that took too long says so, and how long it had.
pub proof fn law_killed_record_says_so(cmd: Seq<char>, timeout_ms: u64, o: ProcessOutput, s: String)
    requires
        child_run::shell_record(cmd, timeout_ms, Ok(o), Ok(s)),
        o.was_killed,
        recordable_text(cmd),
        encode_utf8(cmd).len() <= 100000,
    ensures
        s@ == "$ "@ + cmd + "\n\n[command timed out after "@ + text::decimal(timeout_ms as nat)
            + "ms]\n\nExit code: -1"@,
{
    let body = "$ "@ + cmd;
    reveal_strlit("$ ");
    reveal_strlit("\n");
    reveal_strlit("\n[command timed out after ");
    reveal_strlit("\n\n[command timed out after ");
    reveal_strlit("ms]\n\nExit code: -1");
    assert forall|i: int| 0 <= i < body.len() implies recordable(#[trigger] body[i]) by {
        if i < 2 {
            assert(body[i] == "$ "@[i]);
        } else {
            assert(body[i] == cmd[i - 2]);
        }
    }
    lemma_recorded_as_it_is(body);
    is_ascii_chars_encode_utf8("$ "@);
    text::lemma_utf8_len_concat("$ "@, cmd);
    let n = timeout_ms as nat;
    let marker = "\n[command timed out after "@ + text::decimal(n) + "ms]\n\nExit code: -1"@;
    text::lemma_decimal_ascii(n);
    lemma_twenty_digits(n);
    is_ascii_chars_encode_utf8("\n[command timed out after "@);
    is_ascii_chars_encode_utf8("ms]\n\nExit code: -1"@);
    text::lemma_utf8_len_concat("\n[command timed out after "@, text::decimal(n));
    text::lemma_utf8_len_concat(
        "\n[command timed out after "@ + text::decimal(n),
        "ms]\n\nExit code: -1"@,
    );
    sanitize::lemma_suffix_len();
    assert(text::utf8_len(body) <= sanitize::body_room(marker));
    assert(s@ =~= "$ "@ + cmd + "\n\n[command timed out after "@ + text::decimal(n)
        + "ms]\n\nExit code: -1"@);
}

spec fn ten_to(k: nat) -> nat
    decreases k,
{
    if k == 0 {
        1
    } else {
        10 * ten_to((k - 1) as nat)
    }
}

proof fn lemma_twenty_digits(n: nat)
    requires
        n <= u64::MAX,
    ensures
        text::decimal(n).len() <= 20,
{
    assert(ten_to(20) > u64::MAX) by {
        reveal_with_fuel(ten_to, 21);
    }
    lemma_digits(n, 20);
}

proof fn lemma_digits(n: nat, k: nat)
    requires
        n < ten_to(k),
        k >= 1,
    ensures
        text::decimal(n).len() <= k,
    decreases k,
{
    if n >= 10 {
        assert(k >= 2) by {
            if k == 1 {
                reveal_with_fuel(ten_to, 2);
            }
        }
        lemma_digits(n / 10, (k - 1) as nat);
    }
}

/// A command that could not be run is an error, with the words in which it was refused.
pub proof fn law_failed_runs_are_errors(
    cmd: Seq<char>,
    timeout_ms: u64,
    e: ToolExecError,
    r: Result<String, ToolExecError>,
)
    requires
        child_run::shell_record(cmd, timeout_ms, Err(e), r),
    ensures
        r matches Err(f) && f@ == e@,
{
}

/// What a child whose streams are read apart gives once it ended: its standard output, its standard
/// error, its exit code, and whether the watchdog killed it.
pub proof fn law_buffered_output_is_what_was_read(
    code: Option<i32>,
    killed: bool,
    out: Vec<u8>,
    err: Vec<u8>,
    s: ChildStep,
)
    requires
        child_run::step_of(
            child_run::child_after(
                child_run::unborn(ChildMode::Buffered),
                seq![
                    ChildEvent::Fine,
                    ChildEvent::Fine,
                    ChildEvent::Fine,
                    ChildEvent::Exited(code),
                    ChildEvent::Fine,
                    ChildEvent::Watched(killed),
                    ChildEvent::Collected(Some(Delivery::Bytes(out))),
                    ChildEvent::Collected(Some(Delivery::Bytes(err))),
                ],
            ),
            s,
        ),
    ensures
        s matches ChildStep::Finish(Ok(o)) && o.stdout@ == out@ && o.stderr@ == err@ && o.exit_code
            == code && o.was_killed == killed,
{
    let v = child_run::unborn(ChildMode::Buffered);
    let e = seq![
        ChildEvent::Fine,
        ChildEvent::Fine,
        ChildEvent::Fine,
        ChildEvent::Exited(code),
        ChildEvent::Fine,
        ChildEvent::Watched(killed),
        ChildEvent::Collected(Some(Delivery::Bytes(out))),
        ChildEvent::Collected(Some(Delivery::Bytes(err))),
    ];
    lemma_steps(v, e);
    let a3 = child_run::child_next(
        child_run::child_next(child_run::child_next(v, e[0]), e[1]),
        e[2],
    );
    assert(a3.phase is Waiting);
    let a6 = child_run::child_next(
        child_run::child_next(child_run::child_next(a3, e[3]), e[4]),
        e[5],
    );
    assert(a6.phase is CollectingOut);
}

/// What a child whose streams are merged gives once it ended: all that it wrote, in the order in which
/// it came.
pub proof fn law_streamed_output_is_what_was_merged(
    code: Option<i32>,
    killed: bool,
    out: Vec<u8>,
    a: Option<Delivery>,
    b: Option<Delivery>,
    s: ChildStep,
)
    requires
        child_run::step_of(
            child_run::child_after(
                child_run::unborn(ChildMode::Streamed),
                seq![
                    ChildEvent::Fine,
                    ChildEvent::Fine,
                    ChildEvent::Fine,
                    ChildEvent::Exited(code),
                    ChildEvent::Fine,
                    ChildEvent::Collected(a),
                    ChildEvent::Collected(b),
                    ChildEvent::Collected(Some(Delivery::Bytes(out))),
                    ChildEvent::Watched(killed),
                ],
            ),
            s,
        ),
    ensures
        s matches ChildStep::Finish(Ok(o)) && o.stdout@ == out@ && o.stderr@.len() == 0
            && o.exit_code == code && o.was_killed == killed,
{
    let v = child_run::unborn(ChildMode::Streamed);
    let e = seq![
        ChildEvent::Fine,
        ChildEvent::Fine,
        ChildEvent::Fine,
        ChildEvent::Exited(code),
        ChildEvent::Fine,
        ChildEvent::Collected(a),
        ChildEvent::Collected(b),
        ChildEvent::Collected(Some(Delivery::Bytes(out))),
        ChildEvent::Watched(killed),
    ];
    let front = e.drop_last();
    lemma_steps(v, front);
    assert(front =~= seq![e[0], e[1], e[2], e[3], e[4], e[5], e[6], e[7]]);
    let a3 = child_run::child_next(
        child_run::child_next(child_run::child_next(v, e[0]), e[1]),
        e[2],
    );
    assert(a3.phase is Waiting);
    let a6 = child_run::child_next(
        child_run::child_next(child_run::child_next(a3, e[3]), e[4]),
        e[5],
    );
    assert(a6.phase is CollectingErr);
    assert(child_run::child_after(v, e) == child_run::child_next(
        child_run::child_after(v, front),
        e[8],
    ));
}

/// Eight events one by one.
proof fn lemma_steps(v: ChildView, e: Seq<ChildEvent>)
    requires
        e.len() == 8,
    ensures
        child_run::child_after(v, e) == {
            let a1 = child_run::child_next(v, e[0]);
            let a2 = child_run::child_next(a1, e[1]);
            let a3 = child_run::child_next(a2, e[2]);
            let a4 = child_run::child_next(a3, e[3]);
            let a5 = child_run::child_next(a4, e[4]);
            let a6 = child_run::child_next(a5, e[5]);
            let a7 = child_run::child_next(a6, e[6]);
            child_run::child_next(a7, e[7])
        },
{
    lemma_last_step(v, e, 8);
    lemma_last_step(v, e, 7);
    lemma_last_step(v, e, 6);
    lemma_last_step(v, e, 5);
    lemma_last_step(v, e, 4);
    lemma_last_step(v, e, 3);
    lemma_last_step(v, e, 2);
    lemma_last_step(v, e, 1);
    assert(e.take(8) =~= e);
    assert(e.take(0).len() == 0);
}

proof fn lemma_last_step(v: ChildView, e: Seq<ChildEvent>, k: int)
    requires
        0 < k <= e.len(),
    ensures
        child_run::child_after(v, e.take(k)) == child_run::child_next(
            child_run::child_after(v, e.take(k - 1)),
            e[k - 1],
        ),
{
    assert(e.take(k).drop_last() =~= e.take(k - 1));
}

/// A child that cannot be started, bound or read is an error with the words of the failure.
pub proof fn law_child_failures_are_told(v: ChildView, m: String, s: ChildStep)
    requires
        v.phase is Spawning || v.phase is TakingPipes || (v.phase is Waiting && v.mode is Buffered),
        child_run::step_of(child_run::child_next(v, ChildEvent::Failed(m)), s),
    ensures
        s matches ChildStep::Finish(Err(e)) && e@ == m@,
{
}

/// A pipe is read while it has output, even of a child that is gone, and is never given up on for a
/// pause or an interruption while the child is there.
pub proof fn law_output_is_read_to_its_end(outcome: ReadOutcome, nonblocking: bool, stopped: bool)
    ensures
        shell_util::poll_next(PollOutcome::Ready, stopped) is Read,
        shell_util::poll_next(PollOutcome::Idle, false) is Again,
        shell_util::poll_next(PollOutcome::Idle, true) is Stop,
        shell_util::poll_next(PollOutcome::Interrupted, stopped) is Again,
        shell_util::drain_next(outcome, nonblocking) is Finish <==> outcome is End || outcome is Failed,
{
}

/// A cap keeps the first bytes and no more; without one every byte is kept.
pub proof fn law_cap_keeps_the_first_bytes(all: Seq<u8>, n: nat)
    ensures
        shell_util::kept_bytes(all, None) == all,
        all.len() <= n ==> shell_util::kept_bytes(all, Some(n)) == all,
        all.len() > n ==> shell_util::kept_bytes(all, Some(n)) == all.take(n as int),
{
}

/// What is streamed of an output is the output itself as far as its budget goes, and behind it one
/// marker where there was more.
pub proof fn law_streamed_bytes_are_the_output(all: Seq<u8>, limit: nat)
    ensures
        all.len() <= limit ==> stream_cap::capped_stream(all, limit) == all,
        all.len() > limit ==> stream_cap::capped_stream(all, limit) == all.take(limit as int)
            + encode_utf8("\n...[truncated]"@),
{
}

/// A command runs in the shell that is asked for: the fourth argument of its process is the base64 of
/// the UTF-16 of a script that ends with the command, letter for letter.
pub proof fn law_command_runs_in_its_shell(c: CommandLine, shell: PsShell, command: Seq<char>, dir: Seq<char>)
    requires
        powershell::runs(c, shell, command, dir),
    ensures
        shell is Powershell ==> c.program@ == "powershell"@,
        shell is Pwsh ==> c.program@ == "pwsh"@,
        c.workdir@ == dir,
        c.arguments@.len() == 4,
        c.arguments@[2]@ == "-EncodedCommand"@,
        exists|script: Seq<char>|
            command.is_suffix_of(script) && c.arguments@[3]@ == encoding::base64_text(
                #[trigger] powershell::utf16_bytes(script),
            ) && powershell::utf16_text(powershell::utf16_bytes(script)) == Some(script),
{
    let script = powershell::ps_script(command);
    assert(script.skip(script.len() - command.len()) =~= command);
    powershell::law_script_reads_back(script);
    let args = text::views(c.arguments@);
    assert(args.len() == 4);
    assert(args[2] == c.arguments@[2]@);
    assert(args[3] == c.arguments@[3]@);
}

/// A command has the time that is asked for; thirty seconds where nothing is.
pub proof fn law_command_has_its_time(args: PsArgs)
    ensures
        args.timeout is Some ==> powershell::ps_timeout(args) == args.timeout->0,
        args.timeout is None ==> powershell::ps_timeout(args) == 30000,
{
}

/// A command runs in the directory that is asked for, and in the session's own where none is.
pub proof fn law_command_runs_in_its_directory(workdir: Option<String>)
    ensures
        workdir is Some ==> powershell::chosen_workdir(workdir) == workdir->0@,
        workdir is None ==> powershell::chosen_workdir(workdir) == seq!['.'],
{
    reveal_strlit(".");
    assert("."@ =~= seq!['.']);
}

/// Killing begins with the child itself: through the handle that pins it, where there is one; and
/// there is nothing to kill where there is no child.
pub proof fn law_killing_begins_with_the_child(pid: u32)
    ensures
        pid > 0 ==> shell_util::kill_start(pid, true) is SignalPinned,
        pid > 0 ==> shell_util::kill_start(pid, false) is AskGroup,
        shell_util::kill_start(0, true) == KillStep::Done(false),
        shell_util::kill_start(0, false) == KillStep::Done(false),
{
}

/// A thread that answered, or ended, is joined; only one that did not answer in time is left.
pub proof fn law_threads_are_joined(b: Vec<u8>)
    ensures
        shell_util::can_join(Delivery::Bytes(b)),
        shell_util::can_join(Delivery::Disconnected),
        !shell_util::can_join(Delivery::TimedOut),
{
}

/// A line that is readable, or holds colours, is passed on byte by byte.
pub proof fn law_readable_lines_are_passed_on(line: Seq<u8>)
    requires
        recordable_text(bytes::utf8_lossy(line)),
    ensures
        stream_cap::streamed_line(line) == encode_utf8(bytes::utf8_lossy(line)),
{
    lemma_recorded_as_it_is(bytes::utf8_lossy(line));
}

/// A child runs in the directory that is asked for, and in the session's own where none is.
pub proof fn law_child_runs_in_its_directory(workdir: Option<&str>)
    ensures
        workdir is Some ==> shell_util::wanted_dir(workdir) == workdir->0@,
        workdir is None ==> shell_util::wanted_dir(workdir) == seq!['.'],
{
    reveal_strlit(".");
    assert("."@ =~= seq!['.']);
}

/// A child inherits its search path, its home and its language; it does not inherit what loaders run
/// code from.
pub proof fn law_child_keeps_its_surroundings(name: Seq<char>)
    ensures
        name == "PATH"@ || name == "HOME"@ || name == "LANG"@ || name == "USER"@
            ==> !shell_util::injects_code(name),
        name == "LD_PRELOAD"@ || name == "LD_LIBRARY_PATH"@ || name == "DYLD_INSERT_LIBRARIES"@ || name
            == "PYTHONPATH"@ ==> shell_util::injects_code(name),
        name.len() < 8 ==> !(shell_util::injects_code(name) && name != "RUBYLIB"@),
{
    reveal_strlit("PATH");
    reveal_strlit("HOME");
    reveal_strlit("LANG");
    reveal_strlit("USER");
    reveal_strlit("LD_PRELOAD");
    reveal_strlit("LD_LIBRARY_PATH");
    reveal_strlit("LD_AUDIT");
    reveal_strlit("LD_DEBUG");
    reveal_strlit("PYTHONPATH");
    reveal_strlit("PERL5LIB");
    reveal_strlit("RUBYLIB");
    reveal_strlit("DYLD_INSERT_LIBRARIES");
    assert("PATH"@.len() == 4 && "HOME"@.len() == 4 && "LANG"@.len() == 4 && "USER"@.len() == 4);
    assert("LD_PRELOAD"@.len() == 10 && "LD_LIBRARY_PATH"@.len() == 15 && "LD_AUDIT"@.len() == 8
        && "LD_DEBUG"@.len() == 8 && "PYTHONPATH"@.len() == 10 && "PERL5LIB"@.len() == 8
        && "RUBYLIB"@.len() == 7 && "DYLD_INSERT_LIBRARIES"@.len() == 21);
}

/// What a reader delivered is what is had of it, and only a reader that did not answer in time gives
/// nothing and is left to itself.
pub proof fn law_delivered_output_is_had(b: Vec<u8>, r: (Option<Vec<u8>>, bool), s: (Option<Vec<u8>>, bool))
    requires
        shell_util::collects(Some(Delivery::Bytes(b)), r),
        shell_util::collects(Some(Delivery::TimedOut), s),
    ensures
        r.0 is Some,
        r.0->0@ == b@,
        r.1,
        s.0 is None,
        !s.1,
{
}

} // verus!
