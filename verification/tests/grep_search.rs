use choreo_tools::grep::{GrepArgs, execute_grep_tool, include_subject, run_grep_walk};
use choreo_tools::grep_sink::{ContextKind, GrepOutputMode, GrepSink};
use grep_searcher::{
    BinaryDetection, Searcher, SearcherBuilder, Sink, SinkContext, SinkContextKind, SinkMatch,
};

/// Hands what a searcher finds to the library.
struct Reports<'a>(&'a mut GrepSink);

impl Sink for Reports<'_> {
    type Error = std::io::Error;

    fn matched(&mut self, _: &Searcher, m: &SinkMatch<'_>) -> Result<bool, Self::Error> {
        Ok(self.0.matched(m.line_number(), m.bytes()))
    }

    fn context(&mut self, _: &Searcher, c: &SinkContext<'_>) -> Result<bool, Self::Error> {
        let kind = match c.kind() {
            SinkContextKind::Before => ContextKind::Before,
            SinkContextKind::After => ContextKind::After,
            SinkContextKind::Other => ContextKind::Other,
        };
        Ok(self.0.context(kind, c.line_number(), c.bytes()))
    }

    fn context_break(&mut self, _: &Searcher) -> Result<bool, Self::Error> {
        Ok(self.0.context_break())
    }

    fn binary_data(&mut self, _: &Searcher, _: u64) -> Result<bool, Self::Error> {
        Ok(self.0.binary_data())
    }
}

fn args(pattern: &str) -> GrepArgs {
    GrepArgs {
        pattern: pattern.to_string(),
        regex: false,
        ignore_case: false,
        context: 0,
        output_mode: GrepOutputMode::Content,
        include_glob: None,
        path: Some("/root".to_string()),
        max_results: None,
    }
}

/// A glob of a star and an extension, or a plain name.
fn glob_matches(glob: &str, subject: &str) -> bool {
    match glob.strip_prefix('*') {
        Some(rest) => subject.ends_with(rest),
        None => glob == subject,
    }
}

/// Searches files that lie below a root, or one file that was asked for by itself.
fn search(mut args: GrepArgs, files: &[(&str, &[u8])], single: bool) -> String {
    if single {
        args.path = Some(format!("/root/{}", files[0].0));
    }
    let (resolved, config) = execute_grep_tool(&args, None);
    let mut run = run_grep_walk(&resolved, &config, None, single).expect("a good pattern");
    let mut builder = SearcherBuilder::new();
    let around = if config.output_mode == GrepOutputMode::Content {
        config.context.min(100) as usize
    } else {
        0
    };
    builder.before_context(around).after_context(around);
    builder.max_matches(run.max_matches);
    builder.binary_detection(BinaryDetection::quit(0));
    let mut searcher = builder.build();
    for (name, bytes) in files {
        let included = match &config.include_glob {
            Some(g) => glob_matches(g, &include_subject(g, name)),
            None => true,
        };
        let wanted = if single {
            run.consider_single(included)
        } else {
            run.consider(&format!("/root/{name}"), true, included)
        };
        if !wanted {
            continue;
        }
        let found = searcher.search_slice(&run.matcher, bytes, Reports(&mut run.sink));
        let error = found.err().map(|e| e.to_string());
        if single {
            return run.finish_single(error.as_deref()).unwrap();
        }
        if !run.searched(error.as_deref()) {
            break;
        }
    }
    run.finish_walk(None).unwrap()
}

const FILES: &[(&str, &[u8])] = &[
    ("test1.rs", b"fn hello() {}\nfn world() {}\n// this is a comment\n"),
    ("test2.py", b"def hello(): pass\ndef world(): pass\n"),
    ("data.txt", b"hello world\ngoodbye world\nfoo bar\n"),
];

#[test]
fn test_plain_text_match() {
    let result = search(args("hello"), FILES, false);
    assert!(result.contains("test1.rs:1:fn hello()"), "expected match in test1.rs:\n{result}");
    assert!(
        result.contains("test2.py:1:def hello(): pass"),
        "expected match in test2.py:\n{result}"
    );
    assert!(result.contains("data.txt:1:hello world"), "expected match in data.txt:\n{result}");
}

#[test]
fn test_regex_match() {
    let mut a = args(r"fn \w+");
    a.regex = true;
    a.include_glob = Some("*.rs".to_string());
    let result = search(a, FILES, false);
    assert!(result.contains("test1.rs:1:fn hello()"), "expected fn hello():\n{result}");
    assert!(result.contains("test1.rs:2:fn world()"), "expected fn world():\n{result}");
    assert!(!result.contains("test2.py"), "the glob should leave .py files out");
    assert!(!result.contains("data.txt"), "the glob should leave .txt files out");
}

#[test]
fn test_include_filter() {
    let mut a = args("world");
    a.include_glob = Some("*.rs".to_string());
    let result = search(a, FILES, false);
    assert!(result.contains("test1.rs:2:fn world()"), "expected match in test1.rs:\n{result}");
    assert!(!result.contains("test2.py"));
    assert!(!result.contains("data.txt"));
}

#[test]
fn test_max_results_cap() {
    let mut a = args("world");
    a.max_results = Some(1);
    let result = search(a, FILES, false);
    assert_eq!(result.lines().count(), 2, "expected 1 match + truncation marker:\n{result}");
    assert!(
        result.contains("...[truncated at 1 matches]"),
        "expected truncation marker:\n{result}"
    );
}

#[test]
fn test_no_match() {
    assert_eq!(search(args("nonexistent"), FILES, false), "No matches found.");
}

#[test]
fn test_case_sensitivity() {
    let result = search(args("HELLO"), FILES, false);
    assert!(result.contains("No matches found."), "got:\n{result}");
}

#[test]
fn test_ignore_case() {
    let mut a = args("hello");
    a.ignore_case = true;
    let result = search(a, &[("test.txt", b"Hello World\nfoo\n")], false);
    assert!(
        result.contains("test.txt:1:Hello World"),
        "expected case-insensitive match:\n{result}"
    );
}

#[test]
fn test_ignore_case_with_regex() {
    let mut a = args("^hello");
    a.regex = true;
    a.ignore_case = true;
    let result = search(a, &[("test.txt", b"Hello World\n")], false);
    assert!(
        result.contains("test.txt:1:Hello World"),
        "expected case-insensitive regex match:\n{result}"
    );
}

#[test]
fn test_crlf_content_strips_carriage_return() {
    let result = search(args("hello"), &[("crlf.txt", b"hello world\r\nfoo\r\n")], false);
    assert!(
        result.contains("crlf.txt:1:hello world"),
        "expected match without CR:\n{result:?}"
    );
    assert!(!result.contains('\r'), "carriage return must not leak:\n{result:?}");
}

#[test]
fn test_content_control_chars_escaped() {
    let result = search(args("hello"), &[("esc.txt", b"hello \x1b[31mred\x1b[0m\n")], false);
    assert!(result.contains("\\u{1b}"), "ESC must be escaped:\n{result:?}");
    assert!(!result.contains('\x1b'), "raw ESC must not pass through:\n{result:?}");
}

#[test]
fn test_content_unicode_line_separator_escaped() {
    let result =
        search(args("hello"), &[("ls.txt", "hello\u{2028}world\n".as_bytes())], false);
    assert!(result.contains("\\u{2028}"), "U+2028 must be escaped:\n{result:?}");
    assert!(!result.contains('\u{2028}'), "raw U+2028 must not pass through:\n{result:?}");
}

#[test]
fn test_line_terminator_strip_preserves_embedded_cr() {
    let result = search(args("hello"), &[("cr.txt", b"hello world\r\r\nfoo\n")], false);
    assert!(
        result.contains("cr.txt:1:hello world\\r"),
        "embedded CR must be preserved (escaped), got:\n{result:?}"
    );
}

#[test]
fn test_content_tabs_preserved() {
    let result = search(args("hello"), &[("tabbed.txt", b"hello\tworld\n")], false);
    assert!(result.contains("hello\tworld"), "tabs are legitimate content:\n{result:?}");
}

#[test]
fn binary_file_is_not_searched() {
    let result = search(args("hello"), &[("bin.dat", b"\0hello\n")], false);
    assert_eq!(result, "No matches found.", "{result}");
}

#[test]
fn count_mode_discards_partial_tally_on_binary_file() {
    let mut a = args("hello");
    a.output_mode = GrepOutputMode::Count;
    let result = search(a, &[("bin.txt", b"hello\nhello\n\0hello\n")], false);
    assert_eq!(result, "No matches found.", "{result}");
}

#[test]
fn content_mode_discards_binary_partial_matches() {
    let result = search(args("hello"), &[("bin.txt", b"hello\nhello\n\0hello\n")], false);
    assert_eq!(result, "No matches found.", "{result}");
}

#[test]
fn binary_file_skipped_among_text_files() {
    let files: &[(&str, &[u8])] =
        &[("a.txt", b"hello one\n"), ("bin.txt", b"hello\n\0\n"), ("c.txt", b"hello three\n")];
    let result = search(args("hello"), files, false);
    assert!(result.contains("a.txt:1:hello one"), "{result}");
    assert!(result.contains("c.txt:1:hello three"), "{result}");
    assert!(!result.contains("bin.txt"), "binary file must not appear:\n{result}");
}

#[test]
fn test_over_cap_line_truncated_with_marker() {
    let mut big = String::with_capacity(300_000);
    big.push_str("hello");
    big.push_str(&"a".repeat(256 * 1024));
    big.push('\n');
    let result = search(args("hello"), &[("big.txt", big.as_bytes())], false);
    let line = result.lines().next().expect("one match line");
    assert!(line.starts_with("big.txt:1:hello"), "{result}");
    assert!(
        line.contains("...[line truncated: exceeds 64 KiB]"),
        "over-cap line must carry the truncation marker:\n{result}"
    );
    assert!(line.len() < 100 * 1024, "capped line unexpectedly large: {} bytes", line.len());
    assert_eq!(result.lines().count(), 1, "{result}");
}

#[test]
fn content_mode_stops_collecting_past_byte_budget() {
    let mut contents: Vec<(String, String)> = Vec::new();
    for i in 0..8 {
        contents.push((format!("f{i}.txt"), format!("file{i} {}\n", "a".repeat(20 * 1024))));
    }
    let files: Vec<(&str, &[u8])> =
        contents.iter().map(|(n, c)| (n.as_str(), c.as_bytes())).collect();
    let result = search(args("file"), &files, false);
    assert!(
        result.len() < 128 * 1024,
        "result exceeded the byte budget: {} bytes",
        result.len()
    );
    assert!(
        result.contains("...[truncated at 6 matches]"),
        "expected honest byte-budget marker:\n{result}"
    );
    assert!(
        !result.contains("...[truncated at 200 matches]"),
        "the byte budget, not max_results, stopped the walk:\n{result}"
    );
}

#[test]
fn test_context_lines() {
    let mut a = args("hello");
    a.context = 2;
    let result =
        search(a, &[("test.txt", b"line1\nline2\nhello world\nline4\nline5\n")], false);
    assert!(result.contains("test.txt-1-line1"), "{result}");
    assert!(result.contains("test.txt-2-line2"), "{result}");
    assert!(result.contains("test.txt:3:hello world"), "{result}");
    assert!(result.contains("test.txt-4-line4"), "{result}");
    assert!(result.contains("test.txt-5-line5"), "{result}");
    assert_eq!(result.lines().count(), 5, "{result}");
}

#[test]
fn test_context_break_separator() {
    let mut a = args("world");
    a.context = 1;
    let result = search(a, &[("test.txt", b"world\na\nb\nc\nd\ne\nworld\n")], false);
    assert!(result.contains("test.txt:1:world"), "{result}");
    assert!(result.contains("test.txt-2-a"), "{result}");
    assert!(result.contains("test.txt-6-e"), "{result}");
    assert!(result.contains("test.txt:7:world"), "{result}");
    assert!(result.contains("--"), "expected context break separator:\n{result}");
}

#[test]
fn test_context_does_not_count_against_max_results() {
    let mut a = args("hello");
    a.context = 2;
    a.max_results = Some(1);
    let result = search(a, &[("test.txt", b"a\nb\nhello\n")], false);
    assert_eq!(result.lines().count(), 4, "expected 2 context + match + marker:\n{result}");
    assert!(result.contains("test.txt:3:hello"), "expected match line:\n{result}");
    assert!(
        result.contains("...[truncated at 1 matches]"),
        "expected truncation marker:\n{result}"
    );
}

#[test]
fn capped_match_includes_after_context() {
    let mut a = args("hello");
    a.context = 2;
    a.max_results = Some(1);
    let result = search(a, &[("test.txt", b"a\nb\nhello\nc\nd\ne\n")], false);
    assert_eq!(result.lines().count(), 6, "2 before + match + 2 after + marker:\n{result}");
    assert!(result.contains("test.txt:3:hello"), "{result}");
    assert!(result.contains("test.txt-4-c"), "{result}");
    assert!(result.contains("test.txt-5-d"), "{result}");
    assert!(
        !result.contains("test.txt-6-e"),
        "drain must stop at the after-context window:\n{result}"
    );
    assert!(
        result.contains("...[truncated at 1 matches]"),
        "expected truncation marker:\n{result}"
    );
}

#[test]
fn capped_match_context_window_includes_within_window_match() {
    let mut a = args("hello");
    a.context = 2;
    a.max_results = Some(1);
    let result = search(a, &[("test.txt", b"a\nb\nhello\nc\nhello\nd\n")], false);
    assert_eq!(
        result.lines().count(),
        6,
        "2 before + match + 2 after (incl. within-window match) + marker:\n{result}"
    );
    assert!(result.contains("test.txt:3:hello"), "{result}");
    assert!(result.contains("test.txt-4-c"), "{result}");
    assert!(
        result.contains("test.txt-5-hello"),
        "within-window match must render as a context line:\n{result}"
    );
    assert!(
        !result.contains("test.txt:5:hello"),
        "within-window match must not render as a second match:\n{result}"
    );
    assert!(
        !result.contains("test.txt-6-d"),
        "drain must stop at the after-context window:\n{result}"
    );
    assert!(
        result.contains("...[truncated at 1 matches]"),
        "expected truncation marker:\n{result}"
    );
}

#[test]
fn capped_match_drain_stops_at_truncated_context_line() {
    let mut a = args("hello");
    a.context = 2;
    a.max_results = Some(1);
    let content = format!("hello\n{}\nc\nd\n", "x".repeat(300 * 1024));
    let result = search(a, &[("test.txt", content.as_bytes())], false);
    assert!(result.contains("test.txt:1:hello"), "{result}");
    assert!(
        result.contains("test.txt-2-xxxx"),
        "over-cap context line should be delivered (capped):\n{result}"
    );
    assert!(
        result.contains("...[line truncated: exceeds 64 KiB]"),
        "over-cap line must carry the truncation marker:\n{result}"
    );
    assert!(
        !result.contains("test.txt-3-c"),
        "drain must stop at the pathological line:\n{result}"
    );
    assert!(
        !result.contains("test.txt-4-d"),
        "drain must stop at the pathological line:\n{result}"
    );
    assert!(
        result.contains("...[truncated at 1 matches]"),
        "expected truncation marker:\n{result}"
    );
}

#[test]
fn test_files_with_matches() {
    let mut a = args("hello");
    a.output_mode = GrepOutputMode::FilesWithMatches;
    let result = search(a, FILES, false);
    assert_eq!(result, "data.txt\ntest1.rs\ntest2.py", "{result}");
}

#[test]
fn test_count_mode() {
    let mut a = args("world");
    a.output_mode = GrepOutputMode::Count;
    let result = search(a, FILES, false);
    assert!(result.contains("data.txt: 2"), "{result}");
    assert!(result.contains("test1.rs: 1"), "{result}");
    assert!(result.contains("test2.py: 1"), "{result}");
    assert_eq!(result.lines().count(), 3, "{result}");
}

#[test]
fn test_files_mode_truncation() {
    let mut a = args("world");
    a.output_mode = GrepOutputMode::FilesWithMatches;
    a.max_results = Some(1);
    let result = search(a, FILES, false);
    assert_eq!(result.lines().count(), 2, "1 file + marker:\n{result}");
    assert!(
        result.contains("...[truncated at 1 files]"),
        "expected files truncation marker:\n{result}"
    );
}

#[test]
fn test_count_mode_ignores_context() {
    let mut a = args("hello");
    a.output_mode = GrepOutputMode::Count;
    a.context = 5;
    let result = search(a, &[("test.txt", b"a\nhello\nc\n")], false);
    assert_eq!(result, "test.txt: 1", "{result}");
}

#[test]
fn test_single_file_files_mode() {
    let mut a = args("hello");
    a.output_mode = GrepOutputMode::FilesWithMatches;
    assert_eq!(search(a, &FILES[..1], true), "test1.rs");
}

#[test]
fn test_single_file_count_mode() {
    let mut a = args("world");
    a.output_mode = GrepOutputMode::Count;
    assert_eq!(search(a, &FILES[2..], true), "data.txt: 2");
}

#[test]
fn test_single_file_files_mode_no_truncation_marker() {
    let mut a = args("world");
    a.output_mode = GrepOutputMode::FilesWithMatches;
    a.max_results = Some(1);
    assert_eq!(search(a, &FILES[2..], true), "data.txt");
}

#[test]
fn test_single_file_count_mode_no_truncation_marker() {
    let mut a = args("world");
    a.output_mode = GrepOutputMode::Count;
    a.max_results = Some(1);
    assert_eq!(search(a, &FILES[2..], true), "data.txt: 2");
}

#[test]
fn test_bare_filename_include_matches_at_any_depth() {
    let files: &[(&str, &[u8])] =
        &[("Cargo.toml", b"name = 1\n"), ("a/b/Cargo.toml", b"name = 2\n"), ("a/x.rs", b"name\n")];
    let mut a = args("name");
    a.include_glob = Some("Cargo.toml".to_string());
    let result = search(a, files, false);
    assert!(result.contains("Cargo.toml:1:name = 1"), "{result}");
    assert!(result.contains("a/b/Cargo.toml:1:name = 2"), "{result}");
    assert!(!result.contains("x.rs"), "{result}");
}

#[test]
fn include_filtered_single_file_reports_plain_no_match() {
    let mut a = args("foo|bar");
    a.include_glob = Some("*.py".to_string());
    let result = search(a, &FILES[..1], true);
    assert_eq!(result, "No matches found.", "{result}");
}

#[test]
fn include_filtered_all_files_suppresses_regex_hint() {
    let mut a = args("foo|bar");
    a.include_glob = Some("*.rs".to_string());
    let result = search(a, &[("a.txt", b"hello\n")], false);
    assert_eq!(result, "No matches found.", "{result}");
}

#[test]
fn single_file_read_error_is_reported() {
    let mut a = args("hello");
    a.path = Some("/root/locked.txt".to_string());
    let (resolved, config) = execute_grep_tool(&a, None);
    let mut run = run_grep_walk(&resolved, &config, None, true).unwrap();
    assert!(run.consider_single(true));
    let err = run.finish_single(Some("Permission denied")).unwrap_err();
    assert_eq!(err.to_string(), "failed to search '/root/locked.txt': Permission denied");
}

#[test]
fn test_regex_hint_on_empty_result() {
    let result = search(args("foo|bar"), FILES, false);
    assert!(
        result.contains("No matches found."),
        "expected explicit no-match message:\n{result}"
    );
    assert!(result.contains("regex:true"), "expected hint pointing at regex:true:\n{result}");
}

#[test]
fn test_no_hint_when_regex_enabled() {
    let mut a = args("zxyz|quux");
    a.regex = true;
    let result = search(a, FILES, false);
    assert!(result.contains("No matches found."), "expected no-match message:\n{result}");
    assert!(
        !result.contains("Note: pattern matched literally"),
        "expected no hint with regex:true:\n{result}"
    );
}

#[test]
fn test_no_hint_on_successful_match() {
    let result = search(args("hello"), FILES, false);
    assert!(!result.contains("No matches found."), "expected results, got:\n{result}");
    assert!(!result.contains("regex"), "expected no hint about regex, got:\n{result}");
}

#[test]
fn bounds_count_only_within_their_limits() {
    let result = |max_results: Option<u32>, context: u32, output_mode: GrepOutputMode| {
        let mut a = args("o");
        a.max_results = max_results;
        a.context = context;
        a.output_mode = output_mode;
        search(a, FILES, false)
    };
    let content = GrepOutputMode::Content;
    assert_eq!(result(Some(0), 0, content), result(Some(1), 0, content));
    assert_ne!(result(Some(1), 0, content), result(Some(2), 0, content));
    assert_eq!(result(Some(200), 0, content), result(Some(4000), 0, content));
    assert_eq!(result(None, 0, content), result(Some(50), 0, content));
    assert_eq!(result(None, 100, content), result(None, 70000, content));
    let count = GrepOutputMode::Count;
    assert_eq!(result(None, 0, count), result(None, 3, count));
    let files = GrepOutputMode::FilesWithMatches;
    assert_eq!(result(None, 0, files), result(None, 3, files));
}

#[test]
fn case_is_ignored_only_on_request() {
    let mut a = args("HELLO");
    assert!(search(args("HELLO"), FILES, false).starts_with("No matches found"));
    a.ignore_case = true;
    assert!(search(a, FILES, false).contains("test1.rs:1:fn hello()"));
}

#[test]
fn match_lines_are_the_first_up_to_the_cap() {
    let lines: String = (1..=7).map(|i| format!("hit {i}\n")).collect();
    let shown = |cap: u32| {
        let mut a = args("hit");
        a.max_results = Some(cap);
        search(a, &[("a.txt", lines.as_bytes())], false)
    };
    for cap in [1u32, 6, 7, 8] {
        let out = shown(cap);
        let n = out.lines().filter(|l| l.starts_with("a.txt:")).count();
        assert_eq!(n, cap.min(7) as usize, "{out}");
        assert_eq!(out.contains(&format!("...[truncated at {cap} ")), cap <= 7, "{out}");
    }
}
