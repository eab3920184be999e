use choreo_tools::error::ToolExecError;
use choreo_tools::read_file::{
    MAX_READ_FILE_LINES, ReadFileArgs, default_max_lines, default_start_line,
    describe_read_file_invocation, display_path_label, execute_read_file_tool,
};

fn run(content: &str) -> Result<String, ToolExecError> {
    run_bytes(content.as_bytes())
}

fn run_bytes(content: &[u8]) -> Result<String, ToolExecError> {
    run_args(content, 1, MAX_READ_FILE_LINES)
}

fn run_args(content: &[u8], start_line: usize, max_lines: usize) -> Result<String, ToolExecError> {
    execute_read_file_tool(
        &ReadFileArgs { path: "/tmp/sample".to_string(), start_line, max_lines },
        "/tmp/sample",
        None,
        content,
    )
}

#[test]
fn reads_whole_file_numbered_with_header() {
    let out = run("alpha\nbeta\ngamma\n").unwrap();
    assert!(out.contains("lines: 1-3 of 3"), "{out}");
    assert!(out.contains("1 | alpha"), "{out}");
    assert!(out.contains("3 | gamma"), "{out}");
}

#[test]
fn reads_file_without_trailing_newline() {
    let out = run("alpha\nbeta").unwrap();
    assert!(out.contains("lines: 1-2 of 2"), "{out}");
    assert!(out.ends_with("2 | beta\n"), "{out:?}");
}

#[test]
fn normalizes_crlf_line_endings() {
    let out = run("alpha\r\nbeta\r\n").unwrap();
    assert!(out.contains("1 | alpha\n"), "{out:?}");
    assert!(!out.contains('\r'), "CRLF must be normalized: {out:?}");
}

#[test]
fn empty_file_reports_empty() {
    let out = run("").unwrap();
    assert!(out.contains("lines: none (empty file)"), "{out}");
}

#[test]
fn reads_numbered_line_chunk() {
    let out = run_args(b"alpha\nbeta\ngamma\ndelta\n", 2, 2).unwrap();
    assert!(out.contains("lines: 2-3 of 4"), "{out}");
    assert!(out.contains("2 | beta"), "{out}");
    assert!(out.contains("3 | gamma"), "{out}");
    assert!(!out.contains("1 | alpha"), "{out}");
    assert!(!out.contains("4 | delta"), "{out}");
}

#[test]
fn read_file_clamps_to_eof() {
    let out = run_args(b"alpha\nbeta\ngamma\n", 2, 10).unwrap();
    assert!(out.contains("lines: 2-3 of 3"), "{out}");
}

#[test]
fn omitted_ranges_default_to_whole_file() {
    assert_eq!(default_start_line(), 1);
    assert_eq!(default_max_lines(), MAX_READ_FILE_LINES);
}

#[test]
fn read_file_rejects_missing_path() {
    let err = execute_read_file_tool(
        &ReadFileArgs {
            path: "  ".into(),
            start_line: 1,
            max_lines: MAX_READ_FILE_LINES,
        },
        "  ",
        None,
        b"",
    )
    .unwrap_err();
    assert!(err.to_string().contains("missing required"), "{}", err.to_string());
}

#[test]
fn read_file_rejects_start_line_zero() {
    let err = run_args(b"alpha\n", 0, 1).unwrap_err();
    assert!(err.to_string().contains("start_line must be >= 1"), "{}", err.to_string());
}

#[test]
fn read_file_rejects_max_lines_zero() {
    let err = run_args(b"alpha\n", 1, 0).unwrap_err();
    assert!(err.to_string().contains("max_lines must be >= 1"), "{}", err.to_string());
}

#[test]
fn read_file_rejects_excessive_max_lines() {
    let err = run_args(b"alpha\n", 1, MAX_READ_FILE_LINES + 1).unwrap_err();
    assert!(err.to_string().contains("max_lines must be <="), "{}", err.to_string());
}

#[test]
fn read_file_rejects_start_line_past_eof() {
    let err = run_args(b"alpha\nbeta\n", 5, 1).unwrap_err();
    assert!(err.to_string().contains("past end of file"), "{}", err.to_string());
}

#[test]
fn read_file_rejects_binary_file() {
    let err = run_bytes(b"\x89PNG\r\n\x1a\n\x00\x00").unwrap_err();
    assert!(err.to_string().contains("binary file"), "{}", err.to_string());
}

#[test]
fn rejects_nul_past_sniff_head() {
    // NUL beyond the 8 KiB head-sniff window: caught by the per-line
    // check on the returned line, not the up-front sniff.
    let mut content = vec![b'a'; 9 * 1024];
    content.push(0);
    let err = run_bytes(&content).unwrap_err();
    assert!(err.to_string().contains("binary file"), "{}", err.to_string());
}

#[test]
fn rejects_invalid_utf8() {
    let err = run_bytes(b"ok\n\xff\xfe").unwrap_err();
    assert!(err.to_string().contains("not valid UTF-8"), "{}", err.to_string());
}

#[test]
fn rejects_invalid_utf8_past_sniff_head() {
    // Invalid bytes beyond the 8 KiB head-sniff window: the up-front sniff
    // only sees the head, so these are caught by per-line validation when
    // the line is returned.
    let mut content = vec![b'a'; 9 * 1024];
    content.extend_from_slice(b"\xff\xfe");
    let err = run_bytes(&content).unwrap_err();
    assert!(err.to_string().contains("not valid UTF-8"), "{}", err.to_string());
}

#[test]
fn ignores_invalid_utf8_outside_requested_window() {
    // Content outside the returned window is not validated: line 2 is
    // invalid UTF-8 but excluded, so a read starting at line 3 succeeds
    // (the documented contract).
    let mut content = vec![b'a'; 9 * 1024];
    content.extend_from_slice(b"\n\xff\xfe\nok\n");
    let out = run_args(&content, 3, 1).unwrap();
    assert!(out.contains("3 | ok"), "{out}");
    assert!(out.contains("lines: 3-3 of 3"), "{out}");
}

#[test]
fn reports_totals_and_resume_line_when_truncated() {
    // 3000 lines × 100 bytes, but the final line has no trailing newline,
    // so the file is 299,999 bytes > 128 KiB budget.
    let content = (0..3000)
        .map(|i| format!("{i:>8} {}", "x".repeat(90)))
        .collect::<Vec<_>>()
        .join("\n");
    let out = run(&content).unwrap();
    assert!(out.contains("...[truncated: showing"), "{out}");
    assert!(out.contains("of 299999 bytes"), "{out}");
    assert!(out.contains("of 3000 lines)"), "{out}");
    assert!(out.contains("continue with start_line="), "{out}");
}

#[test]
fn truncation_report_counts_header_bytes() {
    // The "showing X of Y bytes" figure must match the bytes actually
    // returned — body + prepended header + the marker's separator
    // newline — not just the body.
    let content = (0..3000)
        .map(|i| format!("{i:>8} {}", "y".repeat(96)))
        .collect::<Vec<_>>()
        .join("\n");
    let out = run(&content).unwrap();
    let marker_prefix = "...[truncated: showing ";
    let marker_tail = out.rsplit(marker_prefix).next().expect("marker present");
    let shown: usize = marker_tail.split(" of ").next().unwrap().parse().unwrap();
    let returned = out.len() - marker_tail.len() - marker_prefix.len();
    assert_eq!(shown, returned, "reported bytes != returned bytes: {out}");
}

#[test]
fn window_cap_reports_resume_line() {
    // 3000 short lines fit under the byte budget, so the 2000-line window
    // is what cuts the output — the result must still name the resume line
    // so the follow-up call is mechanical.
    let content = (1..=3000)
        .map(|i| format!("line {i}"))
        .collect::<Vec<_>>()
        .join("\n")
        + "\n";
    let out = run(&content).unwrap();
    assert!(out.contains("lines: 1-2000 of 3000"), "{out}");
    assert!(out.contains("more lines follow"), "{out}");
    assert!(out.contains("continue with start_line=2001"), "{out}");
}

#[test]
fn read_file_marks_over_cap_line_truncated() {
    // A single 100 KiB line (no newline) exceeds the 64 KiB per-line cap.
    let big = "x".repeat(100 * 1024);
    let out = run(&big).unwrap();
    assert!(out.contains("...[line truncated: exceeds 64 KiB]"), "{out}");
}

#[test]
fn reads_lines_after_over_cap_line() {
    // A 100 KiB line followed by a normal line: the over-cap line is
    // drained (counted, never buffered) and reading resumes cleanly.
    let mut content = vec![b'x'; 100 * 1024];
    content.extend_from_slice(b"\nbeta\n");
    let out = run_bytes(&content).unwrap();
    assert!(out.contains("...[line truncated: exceeds 64 KiB]"), "{out}");
    assert!(out.contains("2 | beta"), "{out}");
}

#[test]
fn describe_invocation_default_and_ranged() {
    let whole = ReadFileArgs {
        path: "src/main.rs".into(),
        start_line: 1,
        max_lines: MAX_READ_FILE_LINES,
    };
    assert_eq!(
        describe_read_file_invocation(&whole),
        "Reading file `src/main.rs`."
    );
    let ranged = ReadFileArgs {
        path: "src/lib.rs".into(),
        start_line: 10,
        max_lines: 50,
    };
    assert_eq!(
        describe_read_file_invocation(&ranged),
        "Reading file `src/lib.rs` from line 10 (max 50 lines)."
    );
}

#[test]
fn a_path_is_labelled_below_the_working_directory() {
    assert_eq!(display_path_label("/w/a.txt", Some("/w")), "a.txt");
    assert_eq!(display_path_label("/v/a.txt", Some("/w")), "/v/a.txt");
    assert_eq!(display_path_label("/v/a.txt", None), "/v/a.txt");
}

#[test]
fn a_whole_view_is_exact() {
    assert_eq!(
        run("alpha\nbeta\n").unwrap(),
        "path: /tmp/sample\nlines: 1-2 of 2\n\n1 | alpha\n2 | beta\n"
    );
}

#[test]
fn reading_on_gives_every_line_once() {
    let content: String =
        (1..=300).map(|i| format!("{i} {}\n", "x".repeat(if i % 7 == 0 { 60000 } else { 5 }))).collect();
    let mut start = 1;
    let mut lines: Vec<String> = Vec::new();
    let mut calls = 0;
    loop {
        let out = run_args(content.as_bytes(), start, 40).unwrap();
        calls += 1;
        assert!(calls <= 300, "reading on must come to an end");
        lines.extend(out.lines().filter(|l| l.contains(" | ")).map(|l| l.to_string()));
        match out.rsplit_once("continue with start_line=") {
            Some((_, n)) => start = n.trim_end_matches(']').parse().unwrap(),
            None => break,
        }
    }
    let all: Vec<String> = content.lines().enumerate().map(|(i, l)| format!("{} | {l}", i + 1)).collect();
    assert_eq!(lines, all);
}
