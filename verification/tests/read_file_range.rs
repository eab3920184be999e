use choreo_tools::error::ToolExecError;
use choreo_tools::read_file_range::{
    ReadFileRangeArgs, describe_read_file_range_invocation, execute_read_file_range_tool,
};

fn run(content: &str, start_line: usize, max_lines: usize) -> Result<String, ToolExecError> {
    run_bytes(content.as_bytes(), start_line, max_lines)
}

fn run_bytes(
    content: &[u8],
    start_line: usize,
    max_lines: usize,
) -> Result<String, ToolExecError> {
    execute_read_file_range_tool(
        &ReadFileRangeArgs { path: "/tmp/sample".to_string(), start_line, max_lines },
        "/tmp/sample",
        content,
    )
}

#[test]
fn reads_numbered_line_chunks() {
    let out = run("alpha\nbeta\ngamma\ndelta\n", 2, 2).unwrap();
    assert!(out.contains("lines: 2-3 of 4"), "{out}");
    assert!(out.contains("2 | beta"), "{out}");
    assert!(out.contains("3 | gamma"), "{out}");
}

#[test]
fn read_file_range_clamps_to_eof() {
    let out = run("alpha\nbeta\ngamma\n", 2, 10).unwrap();
    assert!(out.contains("lines: 2-3 of 3"), "{out}");
    assert!(out.contains("2 | beta"), "{out}");
    assert!(out.contains("3 | gamma"), "{out}");
}

#[test]
fn read_file_range_rejects_start_line_past_eof() {
    let err = run("alpha\nbeta\n", 5, 1).unwrap_err();
    assert!(err.to_string().contains("past end of file"), "{}", err.to_string());
}

#[test]
fn read_file_range_rejects_start_line_zero() {
    let err = run("alpha\n", 0, 1).unwrap_err();
    assert!(err.to_string().contains("start_line must be >= 1"), "{}", err.to_string());
}

#[test]
fn read_file_range_rejects_max_lines_zero() {
    let err = run("alpha\n", 1, 0).unwrap_err();
    assert!(err.to_string().contains("max_lines must be >= 1"), "{}", err.to_string());
}

#[test]
fn read_file_range_rejects_excessive_max_lines() {
    let err = run("alpha\n", 1, 501).unwrap_err();
    assert!(
        err.to_string().contains("max_lines must be <= 500"),
        "{}",
        err.to_string()
    );
}

#[test]
fn accepts_max_lines_at_cap() {
    let content = (1..=500)
        .map(|i| format!("line {i}"))
        .collect::<Vec<_>>()
        .join("\n")
        + "\n";
    let out = run(&content, 1, 500).unwrap();
    assert!(out.contains("lines: 1-500 of 500"), "{out}");
}

#[test]
fn read_file_range_rejects_binary_file() {
    let err = run_bytes(b"\x00\x01\x02binary", 1, 5).unwrap_err();
    assert!(err.to_string().contains("binary file"), "{}", err.to_string());
}

#[test]
fn rejects_invalid_utf8_in_range() {
    let err = run_bytes(b"ok\n\xff\xfe\n", 1, 5).unwrap_err();
    assert!(err.to_string().contains("not valid UTF-8"), "{}", err.to_string());
}

#[test]
fn read_file_range_marks_over_cap_line_truncated() {
    // A 100 KiB line (no newline) exceeds the 64 KiB per-line cap.
    let big = "x".repeat(100 * 1024);
    let out = run(&big, 1, 5).unwrap();
    assert!(out.contains("...[line truncated: exceeds 64 KiB]"), "{out}");
}

#[test]
fn reports_truncation_when_lines_exceed_byte_budget() {
    // 300 lines × ~500 bytes = ~150 KiB > 128 KiB budget; each line is
    // well under the per-line cap so the byte budget binds.
    let content = (0..300)
        .map(|i| format!("{i:>3} {}", "y".repeat(496)))
        .collect::<Vec<_>>()
        .join("\n");
    let out = run(&content, 1, 500).unwrap();
    assert!(out.contains("...[truncated: showing"), "{out}");
    assert!(out.contains("of 300 lines)"), "{out}");
}

#[test]
fn describe_invocation() {
    let args = ReadFileRangeArgs {
        path: "src/lib.rs".into(),
        start_line: 10,
        max_lines: 50,
    };
    assert_eq!(
        describe_read_file_range_invocation(&args),
        "Reading file `src/lib.rs` from line 10 (max 50 lines)."
    );
}
