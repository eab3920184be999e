use choreo_tools::grep::{
    Grep, GrepArgs, WalkFailure, assemble_grep_output, empty_result, execute_grep_tool,
    include_subject, regex_mode_hint, render_content, render_files,
    run_grep_walk,
};
use choreo_tools::grep_sink::{
    ContextKind, GrepItem, GrepOutputMode, GrepSink, StopReason, decimal_len, display_line,
};

fn test_args(pattern: &str, path: Option<&str>) -> GrepArgs {
    GrepArgs {
        pattern: pattern.to_string(),
        regex: false,
        ignore_case: false,
        context: 0,
        output_mode: GrepOutputMode::Content,
        include_glob: None,
        path: path.map(|p| p.to_string()),
        max_results: None,
    }
}

fn content_sink() -> GrepSink {
    GrepSink::new(GrepOutputMode::Content, 10, 0, "root", false)
}

#[test]
fn drop_current_bucket_refunds_exact_charged_bytes() {
    let mut sink = content_sink();
    sink.begin_file("a.txt");
    sink.push_item(GrepItem::Match { line_number: 1, content: "x".into() });
    // push_item does not tally matches; the `matched` handler does.
    sink.content_match_count += 1;
    sink.push_item(GrepItem::Context { line_number: 2, content: "y".into() });
    assert!(sink.content_bytes > 0, "items must charge bytes");
    assert_eq!(sink.result_count(), 1);

    sink.abort_file();
    sink.end_file();
    assert!(sink.content_files.is_empty(), "bucket must be dropped");
    assert_eq!(sink.content_bytes, 0, "charged bytes must be refunded");
    assert_eq!(sink.result_count(), 0, "match tally must be refunded");
}

#[test]
fn byte_budget_charges_exact_rendered_size() {
    let mut sink = content_sink();
    sink.begin_file("a.txt");
    sink.push_item(GrepItem::Match { line_number: 1, content: "x".into() });
    sink.push_item(GrepItem::Context { line_number: 2, content: "y".into() });
    sink.push_item(GrepItem::Break);
    sink.push_item(GrepItem::Match { line_number: 4, content: "z".into() });

    let rendered = render_content(&sink);
    assert_eq!(sink.content_bytes, rendered.len(), "charged bytes must match rendered output");
    assert_eq!(rendered, "a.txt:1:x\na.txt-2-y\n--\na.txt:4:z");
}

#[test]
fn decimal_len_counts_digits_without_allocation() {
    assert_eq!(decimal_len(0), 1);
    assert_eq!(decimal_len(1), 1);
    assert_eq!(decimal_len(9), 1);
    assert_eq!(decimal_len(10), 2);
    assert_eq!(decimal_len(99), 2);
    assert_eq!(decimal_len(100), 3);
    assert_eq!(decimal_len(u64::MAX), 20);
}

#[test]
fn count_mode_discards_partial_tally_on_failed_file() {
    let mut sink = GrepSink::new(GrepOutputMode::Count, 10, 0, "root", false);
    sink.begin_file("a.txt");
    sink.count_file_lines = 3; // matches observed before the read failed
    sink.abort_file();
    sink.end_file();
    assert!(sink.count_entries.is_empty(), "partial tally must be discarded");
    assert!(sink.stop.is_none(), "no entry means no cap met");

    // A completed search flushes normally.
    sink.count_file_lines = 2;
    sink.end_file();
    assert_eq!(sink.count_entries.len(), 1);
    assert_eq!(sink.count_entries[0].0, "a.txt");
    assert_eq!(sink.count_entries[0].1, 2);
    // The tally is reset after each file, so a partial leak can't happen.
    assert_eq!(sink.count_file_lines, 0);
}

#[test]
fn push_item_drops_stray_break_and_collapses_consecutive() {
    let mut sink = content_sink();
    sink.begin_file("a.txt");
    // A Break with no open bucket has nothing to separate: dropped.
    sink.push_item(GrepItem::Break);
    sink.push_item(GrepItem::Match { line_number: 1, content: "m".into() });
    sink.push_item(GrepItem::Break);
    // A second consecutive Break would render doubled: collapsed.
    sink.push_item(GrepItem::Break);
    sink.push_item(GrepItem::Context { line_number: 2, content: "c".into() });
    let items = &sink.content_files[0].1;
    assert_eq!(items.len(), 3, "stray + duplicated breaks must not render");
    assert!(matches!(items[0], GrepItem::Match { .. }));
    assert!(matches!(items[1], GrepItem::Break));
    assert!(matches!(items[2], GrepItem::Context { .. }));
}

#[test]
fn describe_invocation_includes_pattern_and_path() {
    let desc = Grep.describe_invocation(&test_args("fn main", Some("src")));
    assert!(desc.contains("Searching for `fn main`."));
    assert!(desc.contains("In path: `src`."));
}

#[test]
fn describe_invocation_includes_regex_and_include() {
    let mut args = test_args("fn \\w+", None);
    args.regex = true;
    args.include_glob = Some("*.rs".into());
    args.max_results = Some(50);
    let desc = Grep.describe_invocation(&args);
    assert!(desc.contains("Searching for `fn \\w+`."));
    assert!(desc.contains("Using regex."));
    assert!(desc.contains("Include pattern: `*.rs`."));
    assert!(desc.contains("Max results: 50."));
}

#[test]
fn describe_invocation_includes_new_options() {
    let mut args = test_args("fn \\w+", None);
    args.regex = true;
    args.ignore_case = true;
    args.output_mode = GrepOutputMode::Count;
    args.include_glob = Some("*.rs".into());
    args.max_results = Some(25);
    let desc = Grep.describe_invocation(&args);
    assert!(desc.contains("Searching for `fn \\w+`."));
    assert!(desc.contains("Using regex."));
    assert!(desc.contains("Ignoring case."));
    assert!(desc.contains("Output mode: count."));
    assert!(desc.contains("Include pattern: `*.rs`."));
    assert!(desc.contains("Max results: 25."));
}

#[test]
fn describe_invocation_context_reported_only_in_content_mode() {
    let mut args = test_args("foo", None);
    args.context = 3;
    let desc = Grep.describe_invocation(&args);
    assert!(desc.contains("Showing 3 context line(s)."), "{desc}");
    args.output_mode = GrepOutputMode::Count;
    let desc = Grep.describe_invocation(&args);
    assert!(!desc.contains("Showing"), "{desc}");
    args.output_mode = GrepOutputMode::FilesWithMatches;
    let desc = Grep.describe_invocation(&args);
    assert!(!desc.contains("Showing"), "{desc}");
}

#[test]
fn describe_invocation_clamps_context() {
    let mut args = test_args("foo", None);
    args.context = 500;
    let desc = Grep.describe_invocation(&args);
    assert!(
        desc.contains("Showing 100 context line(s)."),
        "clamped context should be reported: {desc}"
    );
    assert!(!desc.contains("500"), "unclamped context must not be advertised: {desc}");
}

#[test]
fn describe_invocation_clamps_max_results() {
    let mut args = test_args("foo", None);
    args.max_results = Some(5000);
    let desc = Grep.describe_invocation(&args);
    assert!(
        desc.contains("Max results: 200."),
        "clamped max_results should be reported: {desc}"
    );
    assert!(!desc.contains("5000"), "unclamped max_results must not be advertised: {desc}");
    // In-range requests pass through unchanged.
    args.max_results = Some(42);
    assert!(Grep.describe_invocation(&args).contains("Max results: 42."));
}

#[test]
fn a_walk_collects_lines_from_each_file() {
    let mut args = test_args("hello", Some("/w"));
    args.context = 1;
    let (resolved, config) = execute_grep_tool(&args, None);
    assert_eq!(resolved, "/w");
    let mut run = match run_grep_walk(&resolved, &config, None, false) {
        Ok(run) => run,
        Err(e) => panic!("{}", e.to_string()),
    };
    assert!(run.consider("/w/a.rs", true, true));
    assert!(run.sink.matched(Some(1), b"fn hello() {}\n"));
    assert!(run.sink.context(ContextKind::After, Some(2), b"fn world() {}\n"));
    run.searched(None);
    // A directory and a file that the glob leaves out are not searched.
    assert!(!run.consider("/w/d", false, true));
    assert!(!run.consider("/w/b.txt", true, false));
    assert!(run.consider("/w/c.py", true, true));
    assert!(run.sink.matched(Some(7), b"def hello(): pass\r\n"));
    run.searched(None);
    let out = match run.finish_walk(None) {
        Ok(s) => s,
        Err(e) => panic!("{}", e.to_string()),
    };
    assert_eq!(out, "a.rs:1:fn hello() {}\na.rs-2-fn world() {}\nc.py:7:def hello(): pass");
}

#[test]
fn a_walk_stops_at_the_cap_and_says_so() {
    let mut args = test_args("x", Some("/w"));
    args.max_results = Some(2);
    let (resolved, config) = execute_grep_tool(&args, None);
    let mut run = match run_grep_walk(&resolved, &config, None, false) {
        Ok(run) => run,
        Err(e) => panic!("{}", e.to_string()),
    };
    assert!(run.consider("/w/a", true, true));
    assert!(run.sink.matched(Some(1), b"x1\n"));
    assert!(!run.sink.matched(Some(2), b"x2\n"));
    assert!(run.sink.should_stop());
    run.searched(None);
    let out = match run.finish_walk(None) {
        Ok(s) => s,
        Err(e) => panic!("{}", e.to_string()),
    };
    assert_eq!(out, "a:1:x1\na:2:x2\n...[truncated at 2 matches]");
}

#[test]
fn a_binary_file_leaves_nothing() {
    let args = test_args("x", Some("/w"));
    let (resolved, config) = execute_grep_tool(&args, None);
    let mut run = match run_grep_walk(&resolved, &config, None, false) {
        Ok(run) => run,
        Err(e) => panic!("{}", e.to_string()),
    };
    assert!(run.consider("/w/bin", true, true));
    assert!(run.sink.matched(Some(1), b"x\n"));
    assert!(!run.sink.binary_data());
    run.searched(None);
    let out = match run.finish_walk(None) {
        Ok(s) => s,
        Err(e) => panic!("{}", e.to_string()),
    };
    assert_eq!(out, empty_result("x", false));
}

#[test]
fn a_bad_pattern_is_an_error_and_a_good_one_is_not() {
    let mut args = test_args("(", Some("/w"));
    args.regex = true;
    let (resolved, config) = execute_grep_tool(&args, None);
    assert!(run_grep_walk(&resolved, &config, None, false).is_err());
    // The same text taken literally is a pattern.
    let args = test_args("(", Some("/w"));
    let (resolved, config) = execute_grep_tool(&args, None);
    assert!(run_grep_walk(&resolved, &config, None, false).is_ok());
}

#[test]
fn a_bad_glob_is_an_error() {
    let args = test_args("x", Some("/w"));
    let (resolved, config) = execute_grep_tool(&args, None);
    assert!(run_grep_walk(&resolved, &config, Some("unclosed"), false).is_err());
}

#[test]
fn the_hint_is_given_for_patterns_that_look_like_expressions() {
    assert!(regex_mode_hint("a.*b", false, false).is_some());
    assert!(regex_mode_hint("a.*b", true, false).is_none());
    assert!(regex_mode_hint("a.*b", false, true).is_none());
    assert!(regex_mode_hint("plain", false, false).is_none());
}

#[test]
fn collected_lines_are_clean() {
    let (text, cut) = display_line("a\u{1b}[31m\tb\u{202e}");
    assert_eq!(text, "a\\u{1b}[31m\tb\\u{202e}");
    assert!(!cut);
}

#[test]
fn the_cap_is_reported_with_its_noun() {
    assert_eq!(
        assemble_grep_output("body".to_string(), true, 5, "files"),
        "body\n...[truncated at 5 files]"
    );
    assert_eq!(assemble_grep_output("body".to_string(), false, 5, "files"), "body");
}

#[test]
fn an_aborted_file_gives_everything_back() {
    let mut sink = content_sink();
    sink.begin_file("a");
    assert!(sink.matched(Some(1), b"kept\n"));
    sink.end_file();
    let bytes = sink.content_bytes;
    sink.begin_file("b");
    assert!(sink.matched(Some(1), b"lost\n"));
    sink.abort_file();
    sink.end_file();
    assert_eq!(sink.content_bytes, bytes);
    assert_eq!(sink.result_count(), 1);
    assert_eq!(render_content(&sink), "a:1:kept");
}

#[test]
fn a_spent_budget_stops_the_search_for_good() {
    let mut sink = GrepSink::new(GrepOutputMode::Content, 1000, 0, "root", false);
    sink.begin_file("a");
    let line = vec![b'x'; 60 * 1024];
    let mut n = 1;
    while sink.matched(Some(n), &line) {
        n += 1;
        assert!(n < 10);
    }
    assert!(matches!(sink.stop, Some(StopReason::ByteBudget)));
    assert!(sink.should_stop());
    let before = sink.content_bytes;
    assert!(!sink.matched(Some(n + 1), b"more\n"));
    assert_eq!(sink.content_bytes, before);
}

#[test]
fn a_walk_that_fails_is_an_error() {
    let (resolved, config) = execute_grep_tool(&test_args("x", Some("/w")), None);
    let run = run_grep_walk(&resolved, &config, None, false).unwrap();
    let err = run.finish_walk(Some(WalkFailure::Create("bad root".to_string()))).unwrap_err();
    assert_eq!(err.to_string(), "failed to create walker: bad root");
    let err = run.finish_walk(Some(WalkFailure::Walk("gone".to_string()))).unwrap_err();
    assert_eq!(err.to_string(), "walk error: gone");
}

#[test]
fn globs_without_a_slash_are_held_against_names() {
    assert_eq!(include_subject("*.rs", "src/main.rs"), "main.rs");
    assert_eq!(include_subject("src/*.rs", "src/main.rs"), "src/main.rs");
    assert_eq!(include_subject("Cargo.toml", "a/b/Cargo.toml"), "Cargo.toml");
}

#[test]
fn hit_files_are_listed_once_and_in_order() {
    let mut sink = GrepSink::new(GrepOutputMode::FilesWithMatches, 10, 0, "root", false);
    for path in ["root/b.txt", "root/a.txt", "root/a.txt"] {
        sink.begin_file(path);
        assert!(!sink.matched(Some(1), b"x\n"));
        sink.end_file();
    }
    assert_eq!(render_files(&sink), "a.txt\nb.txt");
}

#[test]
fn an_aborted_hit_is_not_listed() {
    let mut sink = GrepSink::new(GrepOutputMode::FilesWithMatches, 2, 0, "root", false);
    sink.begin_file("root/a.txt");
    sink.matched(Some(1), b"x\n");
    sink.end_file();
    sink.begin_file("root/b.txt");
    sink.matched(Some(1), b"x\n");
    assert!(matches!(sink.stop, Some(StopReason::Cap)));
    assert!(!sink.binary_data());
    sink.end_file();
    assert_eq!(sink.result_count(), 1);
    assert_eq!(render_files(&sink), "a.txt");
    assert!(!sink.should_stop(), "one result is left below the cap");
    sink.begin_file("root/c.txt");
    sink.matched(Some(1), b"x\n");
    sink.end_file();
    assert_eq!(render_files(&sink), "a.txt\nc.txt");
    assert!(matches!(sink.stop, Some(StopReason::Cap)));
}

#[test]
fn an_aborted_file_takes_its_cap_along() {
    let mut sink = GrepSink::new(GrepOutputMode::Content, 1, 2, "root", false);
    sink.begin_file("root/a");
    assert!(sink.matched(Some(1), b"lost\n"));
    assert!(matches!(sink.stop, Some(StopReason::Cap)));
    sink.abort_file();
    sink.end_file();
    assert!(sink.stop.is_none());
    sink.begin_file("root/b");
    assert!(sink.matched(Some(3), b"kept\n"));
    sink.end_file();
    assert_eq!(render_content(&sink), "b:3:kept");
    assert!(matches!(sink.stop, Some(StopReason::Cap)));
}
