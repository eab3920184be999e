use choreo_tools::child_run::{
    ChildEvent, ChildRun, ChildStep, CollectStep, Isolation, ProcessOutput, collect_step,
    run_shell_streaming, spawn_with_streaming, spawn_with_watchdog,
};
use choreo_tools::error::ToolExecError;
use choreo_tools::line_split::{
    MAX_PENDING_LINE_BYTES, flush_remainder, forward_complete_lines, partial_tail_len,
};
use choreo_tools::sanitize::{MAX_TOOL_OUTPUT_BYTES, TRUNCATION_SUFFIX};
use choreo_tools::shell_util::{
    Delivery, Drain, DrainStep, KillEvent, KillStep, PollOutcome, PollStep, ReadOutcome,
    collect_capped_drain, collect_merger_body, first_kill_step, joins, next_kill_step, poll_step,
    resolve_workdir, stripped_variables, watchdog_report,
};
use choreo_tools::stream_cap::{
    DrainAccumulate, RecordFraming, StreamByteCap, StreamMerger, format_shell_output,
    record_delivered, shell_output_framing_reservation, stream_budget,
};

/// Drains a pipe that holds `data` in chunks and whose end, or a stop signal, follows.
fn drain(data: &[u8], chunk: usize, ended: bool, accumulate: DrainAccumulate) -> (Vec<u8>, usize) {
    let mut d = Drain::new(true, accumulate);
    let mut seen = 0;
    let mut at = 0;
    let mut step = DrainStep::Poll;
    loop {
        match step {
            DrainStep::Poll => {
                let outcome = if at < data.len() || ended {
                    PollOutcome::Ready
                } else {
                    PollOutcome::Idle
                };
                match poll_step(outcome, true) {
                    PollStep::Again => {}
                    PollStep::Read => step = DrainStep::Read,
                    PollStep::Stop => return (d.into_bytes(), seen),
                }
            }
            DrainStep::Read => {
                if at < data.len() {
                    let end = data.len().min(at + chunk);
                    seen += end - at;
                    step = d.after_read(ReadOutcome::Data, &data[at..end]);
                    at = end;
                } else if ended {
                    step = d.after_read(ReadOutcome::End, &[]);
                } else {
                    step = d.after_read(ReadOutcome::WouldBlock, &[]);
                }
            }
            DrainStep::Finish => return (d.into_bytes(), seen),
        }
    }
}

#[test]
fn drain_fd_reads_to_eof_without_stop_signal() {
    let (got, _) = drain(b"line1\nline2\n", 8192, true, DrainAccumulate::All);
    assert_eq!(got, b"line1\nline2\n");
}

#[test]
fn drain_fd_captures_output_larger_than_one_chunk() {
    let payload = vec![b'x'; 20 * 1024];
    let (got, _) = drain(&payload, 8192, true, DrainAccumulate::All);
    assert_eq!(got, payload);
}

#[test]
fn drain_fd_stops_when_signalled_even_with_open_writer() {
    let (got, _) = drain(b"hello", 8192, false, DrainAccumulate::All);
    assert_eq!(got, b"hello", "buffered data must be drained before stopping");
}

#[test]
fn drain_fd_caps_accumulation_at_requested_limit() {
    let payload = vec![b'x'; 12 * 1024];
    let (got, seen) = drain(&payload, 8192, true, DrainAccumulate::Capped(8 * 1024));
    assert_eq!(got.len(), 8 * 1024, "accumulation must stop at the cap");
    assert_eq!(seen, payload.len(), "every byte past the cap must still be observed");
}

#[test]
fn forward_complete_lines_splits_lines_and_folds_crlf() {
    let mut pending: Vec<u8> = Vec::new();
    let mut lines: Vec<Vec<u8>> = Vec::new();
    forward_complete_lines(b"a\r\nb", &mut pending, &mut lines);
    // "a\r\n" is a complete line (CRLF folded to LF); "b" stays pending.
    assert_eq!(lines, vec![b"a\n".to_vec()]);
    assert_eq!(pending, b"b");

    forward_complete_lines(b"\nc", &mut pending, &mut lines);
    assert_eq!(lines, vec![b"a\n".to_vec(), b"b\n".to_vec()]);
    assert_eq!(pending, b"c");

    // Final flush at EOF emits the unterminated remainder.
    if !pending.is_empty() {
        lines.push(std::mem::take(&mut pending));
    }
    assert_eq!(lines, vec![b"a\n".to_vec(), b"b\n".to_vec(), b"c".to_vec()]);
}

#[test]
fn forward_complete_lines_flushes_oversized_unterminated_lines() {
    // A child that never emits a newline must not balloon daemon memory:
    // the pending buffer is flushed forward in partial chunks (each at
    // most the threshold) as soon as it grows past MAX_PENDING_LINE_BYTES.
    // The byte stream is unchanged — only the chunking differs.
    let mut pending: Vec<u8> = Vec::new();
    let mut parts: Vec<Vec<u8>> = Vec::new();
    forward_complete_lines(
        &vec![b'x'; MAX_PENDING_LINE_BYTES * 3],
        &mut pending,
        &mut parts,
    );
    let mut merged: Vec<u8> = parts.iter().flatten().copied().collect();
    merged.extend_from_slice(&pending);
    assert_eq!(
        merged.len(),
        MAX_PENDING_LINE_BYTES * 3,
        "no bytes lost across the partial flushes"
    );
    assert!(
        parts.iter().all(|p| p.len() <= MAX_PENDING_LINE_BYTES),
        "no partial chunk may exceed the threshold"
    );
    assert!(pending.is_empty(), "pure 'x' input leaves nothing pending");

    // A CRLF whose `\r` is flushed inside a partial chunk (the `\n`
    // arrives in a later chunk) must still fold: the flush holds the
    // trailing `\r` back so the fold can happen.
    let mut pending: Vec<u8> = vec![b'x'; MAX_PENDING_LINE_BYTES - 1];
    let mut parts = Vec::new();
    forward_complete_lines(b"\r", &mut pending, &mut parts);
    assert_eq!(parts, vec![vec![b'x'; MAX_PENDING_LINE_BYTES - 1]]);
    assert_eq!(pending, b"\r", "trailing CR held back for CRLF folding");
    forward_complete_lines(b"\n", &mut pending, &mut parts);
    assert_eq!(parts[1], b"\n", "the held-back CR folds with the LF");
    assert!(pending.is_empty());
}

#[test]
fn forward_complete_lines_holds_back_partial_utf8_at_flush() {
    // A multi-byte char split across the flush boundary must be held back
    // whole: the emitted chunks stay valid UTF-8, so the client's
    // per-chunk lossy decode never renders a replacement char where the
    // final record (a whole-stream decode) shows the real character.
    // Deterministic — pure byte-buffer manipulation, no I/O.
    let mut pending: Vec<u8> = vec![b'x'; MAX_PENDING_LINE_BYTES - 2];
    let mut parts: Vec<Vec<u8>> = Vec::new();
    // Two of the three bytes of € (U+20AC: E2 82 AC) cross the threshold:
    // the flush must hold the partial char back instead of splitting it.
    forward_complete_lines(b"\xe2\x82", &mut pending, &mut parts);
    assert_eq!(
        parts,
        vec![vec![b'x'; MAX_PENDING_LINE_BYTES - 2]],
        "the complete prefix is flushed; nothing past it"
    );
    assert_eq!(pending, b"\xe2\x82", "partial char held back whole");

    // The final byte completes the char; the EOF flush emits it whole.
    forward_complete_lines(b"\xac", &mut pending, &mut parts);
    assert!(
        !pending.is_empty(),
        "the char is still pending (no newline)"
    );
    let joined: Vec<u8> = parts.concat();
    assert_eq!(
        joined.len(),
        MAX_PENDING_LINE_BYTES - 2,
        "no bytes lost across the flush"
    );
    // The pending € completes the stream; a whole-stream decode sees the
    // real char, never a replacement.
    let stream: Vec<u8> = joined
        .into_iter()
        .chain(std::mem::take(&mut pending))
        .collect();
    assert_eq!(
        String::from_utf8_lossy(&stream),
        format!("{}€", "x".repeat(MAX_PENDING_LINE_BYTES - 2)),
        "chunks must join back into the original valid UTF-8"
    );
}

#[test]
fn format_shell_output_was_killed_shows_timeout() {
    let result = format_shell_output("sleep 10", b"some output", b"", Some(0), 5000, true);
    assert!(result.contains("timed out after 5000ms"));
    assert!(result.contains("Exit code: -1"));
}

#[test]
fn format_shell_output_not_killed_shows_exit_code() {
    let result = format_shell_output("echo hello", b"hello\nworld", b"", Some(0), 5000, false);
    assert!(!result.contains("timed out"));
    assert!(result.contains("hello"));
    assert!(result.contains("world"));
    assert!(result.contains("Exit code: 0"));
}

#[test]
fn format_shell_output_includes_stderr() {
    let result = format_shell_output("cmd", b"stdout", b"stderr", Some(1), 1000, false);
    assert!(result.contains("stdout"));
    assert!(result.contains("stderr"));
    assert!(result.contains("Exit code: 1"));
    assert_eq!(result, "$ cmd\nstdoutstderr\n\nExit code: 1");
    let signalled = format_shell_output("cmd", b"", b"", None, 1000, false);
    assert!(signalled.contains("Exit code: -1"), "{signalled}");
}

/// Sends what the cap lets through; nothing is sent once the receiver stalls.
fn forward(
    cap: &mut StreamByteCap,
    chunk: &[u8],
    tx: &crossbeam_channel::Sender<Vec<u8>>,
    out: &mut Vec<u8>,
) -> bool {
    let pieces = cap.push(chunk);
    let mut delivered = 0;
    for piece in &pieces {
        if tx.try_send(piece.clone()).is_err() {
            break;
        }
        delivered += 1;
    }
    record_delivered(out, &pieces, delivered)
}

#[test]
fn stream_byte_cap_accumulates_what_it_forwards() {
    let (tx, rx) = crossbeam_channel::unbounded::<Vec<u8>>();
    let mut cap = StreamByteCap::new(10);
    let mut out = Vec::new();

    assert!(forward(&mut cap, b"abcd", &tx, &mut out));
    assert!(forward(&mut cap, b"0123456789", &tx, &mut out));
    assert!(forward(&mut cap, b"xyz", &tx, &mut out));

    let streamed: Vec<u8> = rx.try_iter().flatten().collect();
    assert_eq!(out, streamed, "recorded body must equal the forwarded stream");
    assert_eq!(out, b"abcd012345\n...[truncated]");
}

#[test]
fn stream_byte_cap_abort_interrupts_a_blocked_send() {
    let (tx, rx) = crossbeam_channel::bounded::<Vec<u8>>(1);
    let mut cap = StreamByteCap::new(100);
    let mut out = Vec::new();

    // Fill the channel: the next piece cannot be sent.
    tx.try_send(b"full".to_vec()).expect("fill channel");
    assert!(
        !forward(&mut cap, b"blocked", &tx, &mut out),
        "abort must interrupt a blocked send"
    );
    // The client-side chunk stays queued; the aborted chunk was neither delivered nor
    // accumulated.
    assert_eq!(rx.try_recv().expect("queued chunk"), b"full");
    assert!(rx.try_recv().is_err(), "aborted send must not deliver");
    assert!(out.is_empty(), "aborted send must not be accumulated");
}

#[test]
fn framing_reservation_covers_prefix_footer_and_markers() {
    let prefix = "$ echo\n".len();
    let worst_footer = "\n\nExit code: -2147483648".len();
    assert_eq!(
        shell_output_framing_reservation("echo"),
        prefix + worst_footer + 2 * TRUNCATION_SUFFIX.len()
    );
    // Sanity: the framing is small relative to the budget.
    assert!(shell_output_framing_reservation("echo") < MAX_TOOL_OUTPUT_BYTES / 100);

    // A Cf char in the display command expands when escaped; the reservation must cover the
    // escaped header or the final cap could still re-cut the body.
    assert!(
        shell_output_framing_reservation("echo\u{200b}")
            > shell_output_framing_reservation("echo"),
        "Cf chars in the display command must be reserved at escaped size"
    );
    assert_eq!(RecordFraming::none().bytes(), 0);
    assert_eq!(stream_budget(RecordFraming::none()), MAX_TOOL_OUTPUT_BYTES);
}

/// The lines of a stream that comes in chunks.
fn lines_of(chunks: &[&[u8]]) -> Vec<Vec<u8>> {
    let mut pending: Vec<u8> = Vec::new();
    let mut lines: Vec<Vec<u8>> = Vec::new();
    for c in chunks {
        forward_complete_lines(c, &mut pending, &mut lines);
    }
    flush_remainder(pending, &mut lines);
    lines
}

#[test]
fn merged_streams_preserve_each_streams_line_order() {
    let (merge_tx, merge_rx) = crossbeam_channel::unbounded::<Vec<u8>>();
    let outs = lines_of(&[b"o1\no2", b"\no3\n"]);
    let errs = lines_of(&[b"e1\ne2\n"]);
    for i in 0..3 {
        merge_tx.send(outs[i].clone()).unwrap();
        if i < errs.len() {
            merge_tx.send(errs[i].clone()).unwrap();
        }
    }
    drop(merge_tx);
    let merged: Vec<String> =
        merge_rx.try_iter().map(|l| String::from_utf8_lossy(&l).into_owned()).collect();
    let outs: Vec<&String> = merged.iter().filter(|l| l.starts_with('o')).collect();
    let errs: Vec<&String> = merged.iter().filter(|l| l.starts_with('e')).collect();
    assert_eq!(outs, vec!["o1\n", "o2\n", "o3\n"], "stdout lines keep their relative order");
    assert_eq!(errs, vec!["e1\n", "e2\n"], "stderr lines keep their order");
    assert_eq!(merged.len(), 5, "every line from both streams is merged");
}

#[test]
fn collect_capped_drain_detaches_when_drain_never_delivers() {
    let (got, join) = collect_capped_drain(Some(Delivery::TimedOut));
    assert!(got.is_none(), "a never-delivering drain must detach, not hang");
    assert!(!join);
    let (got, join) = collect_capped_drain(Some(Delivery::Bytes(vec![1, 2])));
    assert_eq!(got, Some(vec![1, 2]));
    assert!(join);
}

#[test]
fn collect_line_drains_detaches_when_drain_never_delivers() {
    assert!(!joins(&Delivery::TimedOut));
    assert!(joins(&Delivery::Disconnected));
    assert_eq!(collect_merger_body(Delivery::TimedOut), (vec![], false));
    assert_eq!(collect_merger_body(Delivery::Bytes(vec![7])), (vec![7], true));
}

#[test]
fn chunking_does_not_matter() {
    let whole = lines_of(&[b"a\r\nb\xe2\x82\xac\nc"]);
    assert_eq!(whole, lines_of(&[b"a\r", b"\nb\xe2", b"\x82\xac\n", b"c"]));
    assert_eq!(whole, vec![b"a\n".to_vec(), b"b\xe2\x82\xac\n".to_vec(), b"c".to_vec()]);
    assert_eq!(partial_tail_len(b"a\xe2\x82"), 2);
    assert_eq!(partial_tail_len(b"a\xe2\x82\xac"), 0);
    assert_eq!(partial_tail_len(b"a\r"), 1);
}

#[test]
fn a_record_is_what_was_streamed() {
    let mut m = StreamMerger::new(RecordFraming::shell("cmd"));
    let mut streamed: Vec<u8> = Vec::new();
    for line in [&b"one\n"[..], "b\u{202e}c\n".as_bytes(), b"\xff\n"] {
        let pieces = m.line(line);
        for p in &pieces {
            streamed.extend_from_slice(p);
        }
        assert!(m.delivered(&pieces, pieces.len()));
    }
    let body = m.body();
    assert_eq!(body, streamed);
    assert_eq!(String::from_utf8(body).unwrap(), "one\nb\\u{202e}c\n\u{fffd}\n");
}

#[test]
fn an_exit_code_survives_a_full_record() {
    let big = vec![b'x'; 2 * MAX_TOOL_OUTPUT_BYTES];
    let out = format_shell_output("cmd", &big, b"", Some(-7), 1000, false);
    assert!(out.ends_with("Exit code: -7"));
    assert!(out.len() <= MAX_TOOL_OUTPUT_BYTES);
}

#[test]
fn a_child_is_killed_in_order() {
    assert_eq!(first_kill_step(0, true), KillStep::Done(false));
    assert_eq!(first_kill_step(7, true), KillStep::SignalPinned);
    assert_eq!(next_kill_step(KillStep::SignalPinned, KillEvent::Yes), KillStep::SweepGroup);
    assert_eq!(next_kill_step(KillStep::SweepGroup, KillEvent::No), KillStep::Done(true));
    // Without a handle the group is signalled only where the child leads it.
    assert_eq!(first_kill_step(7, false), KillStep::AskGroup);
    assert_eq!(next_kill_step(KillStep::AskGroup, KillEvent::Yes), KillStep::KillGroup);
    assert_eq!(next_kill_step(KillStep::AskGroup, KillEvent::No), KillStep::KillChild);
    assert_eq!(next_kill_step(KillStep::KillChild, KillEvent::Yes), KillStep::Done(true));
    assert!(watchdog_report(false, true));
    assert!(!watchdog_report(true, true));
    assert!(!watchdog_report(false, false));
}

#[test]
fn a_child_gets_a_clean_place() {
    assert_eq!(resolve_workdir(Some("sub"), Some("/w")), "/w/sub");
    assert_eq!(resolve_workdir(None, Some("/w")), "/w");
    assert!(stripped_variables().contains(&"LD_PRELOAD"));
    assert_eq!(stripped_variables().len(), 8);
}

/// Runs a child that does what it is told; its wait and its threads end as given.
fn run_child(
    (mut run, mut step): (ChildRun, ChildStep),
    wait: Result<Option<i32>, &str>,
    merged: &[u8],
    killed: bool,
) -> (Result<ProcessOutput, ToolExecError>, Vec<String>) {
    let mut done: Vec<String> = Vec::new();
    loop {
        done.push(format!("{step:?}"));
        let event = match step {
            ChildStep::Finish(result) => {
                done.pop();
                return (result, done);
            }
            ChildStep::Wait => match wait {
                Ok(code) => ChildEvent::Exited(code),
                Err(m) => ChildEvent::Failed(m.to_string()),
            },
            ChildStep::CollectOut => {
                ChildEvent::Collected(Some(Delivery::Bytes(b"out".to_vec())))
            }
            ChildStep::CollectErr => {
                ChildEvent::Collected(Some(Delivery::Bytes(b"err".to_vec())))
            }
            ChildStep::CollectMerger => {
                ChildEvent::Collected(Some(Delivery::Bytes(merged.to_vec())))
            }
            ChildStep::JoinWatchdog => ChildEvent::Watched(killed),
            _ => ChildEvent::Fine,
        };
        step = run.advance(event);
    }
}

#[test]
fn a_buffered_child_gives_both_streams() {
    let (result, done) = run_child(spawn_with_watchdog(), Ok(Some(3)), b"", false);
    let out = result.unwrap();
    assert_eq!((out.stdout.as_slice(), out.stderr.as_slice()), (&b"out"[..], &b"err"[..]));
    assert_eq!(out.exit_code, Some(3));
    assert!(!out.was_killed);
    assert_eq!(
        done,
        vec![
            "Spawn", "Isolate", "TakePipes", "Wait", "StopDrains(true)", "JoinWatchdog",
            "CollectOut", "CollectErr"
        ]
    );
}

#[test]
fn a_streamed_child_gives_the_merged_body() {
    let (result, done) = run_child(spawn_with_streaming(), Ok(None), b"o1\ne1\n", true);
    let out = result.unwrap();
    assert_eq!(out.stdout, b"o1\ne1\n");
    assert!(out.stderr.is_empty());
    assert!(out.was_killed);
    assert_eq!(
        done,
        vec![
            "Spawn", "Isolate", "TakePipes", "Wait", "StopDrains(true)", "CollectOut",
            "CollectErr", "CollectMerger", "JoinWatchdog"
        ]
    );
}

#[test]
fn a_failed_wait_tears_everything_down() {
    let (result, done) = run_child(spawn_with_streaming(), Err("lost"), b"body", false);
    assert_eq!(result.unwrap_err().to_string(), "lost");
    assert_eq!(
        &done[3..],
        ["Wait", "StopDrains(false)", "CollectOut", "CollectErr", "CollectMerger", "JoinWatchdog"]
    );
    // A child that cannot be held together is killed at once.
    let (mut run, _) = spawn_with_watchdog();
    assert!(matches!(run.advance(ChildEvent::Fine), ChildStep::Isolate));
    assert!(matches!(
        run.advance(ChildEvent::Failed("no job".to_string())),
        ChildStep::KillAndReap
    ));
    assert!(matches!(
        run.advance(ChildEvent::Fine),
        ChildStep::Finish(Err(e)) if e.to_string() == "no job"
    ));
}

#[test]
fn a_silent_reader_is_freed_or_left() {
    assert_eq!(collect_step(Isolation::Group, false, &Delivery::TimedOut), CollectStep::Detach);
    assert_eq!(
        collect_step(Isolation::Job, false, &Delivery::TimedOut),
        CollectStep::TerminateJob
    );
    assert_eq!(collect_step(Isolation::Job, true, &Delivery::TimedOut), CollectStep::Detach);
    assert_eq!(
        collect_step(Isolation::Job, false, &Delivery::Disconnected),
        CollectStep::Join
    );
}

#[test]
fn a_streamed_command_is_recorded() {
    let ran = ProcessOutput {
        stdout: b"body\n".to_vec(),
        stderr: vec![],
        exit_code: Some(0),
        was_killed: false,
    };
    assert_eq!(
        run_shell_streaming("cmd", 1000, Ok(ran)).unwrap(),
        "$ cmd\nbody\n\n\nExit code: 0"
    );
    let err = run_shell_streaming("cmd", 1000, Err(ToolExecError("x".to_string())));
    assert_eq!(err.unwrap_err().to_string(), "x");
}

#[test]
fn a_stream_is_kept_from_any_pending_bytes() {
    let mut pending: Vec<u8> = b"ab\r".to_vec();
    let mut lines: Vec<Vec<u8>> = vec![b"first\n".to_vec()];
    forward_complete_lines(b"\nc\rd\r", &mut pending, &mut lines);
    assert_eq!(lines, vec![b"first\n".to_vec(), b"ab\n".to_vec()]);
    assert_eq!(pending, b"c\rd\r");
    forward_complete_lines(b"\n", &mut pending, &mut lines);
    assert_eq!(lines.concat(), b"first\nab\nc\rd\n".to_vec());
    assert!(pending.is_empty());
}
