use choreo_tools::sanitize::{
    MAX_TOOL_OUTPUT_BYTES, escaped_len, finish_tool_output, finish_tool_output_sanitized,
    is_unsafe_unicode, sanitize_content, sanitize_keeps, sanitize_multiline, sanitize_name,
    sanitize_text_len, sanitize_transcript, strip_cr, truncate_at, truncate_tool_output,
    truncation_marker,
};

#[test]
fn sanitize_name_escapes_control_chars() {
    assert_eq!(sanitize_name("plain.txt"), "plain.txt");
    assert_eq!(sanitize_name("a\nb"), "a\\nb");
    assert_eq!(sanitize_name("a\tb"), "a\\tb");
}

#[test]
fn sanitize_name_escapes_unicode_separators_and_format_chars() {
    // U+2028/U+2029 are Zl/Zp — not is_control — but terminals render
    // them as line breaks, so they must be escaped to keep the
    // one-line-per-result invariant. Unicode format chars (Cf) are
    // invisible but can reorder, hide, or spoof rendered text: the bidi
    // marks/embeddings/overrides/isolates, zero-width space, word joiner,
    // invisible operators, and BOM must all be escaped.
    assert_eq!(sanitize_name("a\u{2028}b"), "a\\u{2028}b");
    assert_eq!(sanitize_name("a\u{2029}b"), "a\\u{2029}b");
    assert_eq!(sanitize_name("a\u{200e}b"), "a\\u{200e}b");
    assert_eq!(sanitize_name("a\u{200f}b"), "a\\u{200f}b");
    assert_eq!(sanitize_name("a\u{061c}b"), "a\\u{61c}b");
    assert_eq!(sanitize_name("a\u{202e}b"), "a\\u{202e}b");
    assert_eq!(sanitize_name("a\u{2066}b"), "a\\u{2066}b");
    // Zero-width space / word joiner / BOM hide or split text — escaped.
    assert_eq!(sanitize_name("a\u{200b}b"), "a\\u{200b}b");
    assert_eq!(sanitize_name("a\u{2060}b"), "a\\u{2060}b");
    assert_eq!(sanitize_name("a\u{feff}b"), "a\\u{feff}b");
    // Mongolian vowel separator is a Cf too — escaped, not passed through.
    assert_eq!(sanitize_name("a\u{180e}b"), "a\\u{180e}b");
    // Joiners do not reorder or hide text and are legitimate in some
    // scripts (Persian ZWNJ, Indic conjuncts) — they pass through.
    assert_eq!(sanitize_name("a\u{200c}b"), "a\u{200c}b");
    assert_eq!(sanitize_name("a\u{200d}b"), "a\u{200d}b");
    // Non-ASCII but safe chars pass through untouched.
    assert_eq!(sanitize_name("café"), "café");
}

#[test]
fn sanitize_content_keeps_tabs_but_escapes_separators_and_format_chars() {
    // Content keeps tabs literal (legitimate in source) but still escapes
    // every other control/separator and every invisible format char.
    assert_eq!(sanitize_content("a\tb"), "a\tb");
    assert_eq!(sanitize_content("a\nb"), "a\\nb");
    assert_eq!(sanitize_content("a\u{2028}b"), "a\\u{2028}b");
    assert_eq!(sanitize_content("a\u{2029}b"), "a\\u{2029}b");
    assert_eq!(sanitize_content("a\u{200f}b"), "a\\u{200f}b");
    assert_eq!(sanitize_content("a\u{202e}b"), "a\\u{202e}b");
    assert_eq!(sanitize_content("a\u{1b}b"), "a\\u{1b}b");
    assert_eq!(sanitize_content("a\u{200b}b"), "a\\u{200b}b");
    assert_eq!(sanitize_content("a\u{2060}b"), "a\\u{2060}b");
    assert_eq!(sanitize_content("a\u{feff}b"), "a\\u{feff}b");
    assert_eq!(sanitize_content("a\u{180e}b"), "a\\u{180e}b");
    assert_eq!(sanitize_content("a\u{200c}b"), "a\u{200c}b");
}

#[test]
fn sanitize_multiline_preserves_structural_newlines() {
    // Unlike `sanitize_content`, structural newlines must survive: the
    // body is displayed as-is (just with per-line escaping), never
    // flattened onto one line.
    assert_eq!(sanitize_multiline("a\nb\nc"), "a\nb\nc");
    assert_eq!(sanitize_multiline("a\n\nb"), "a\n\nb");
}

#[test]
fn sanitize_multiline_folds_crlf() {
    // CRLF line endings fold to bare '\n' per line — Windows line-ending
    // residue, not hostile content, so it is stripped rather than escaped.
    assert_eq!(sanitize_multiline("a\r\nb"), "a\nb");
    assert_eq!(sanitize_multiline("a\r\nb\r\n"), "a\nb\n");
}

#[test]
fn sanitize_multiline_preserves_trailing_newline() {
    // A manual split on '\n' (not str::lines()) keeps the trailing empty
    // segment, so a body ending in a newline round-trips exactly.
    assert_eq!(sanitize_multiline("a\n"), "a\n");
    assert_eq!(sanitize_multiline("\n"), "\n");
}

#[test]
fn sanitize_multiline_escapes_controls_on_any_line() {
    // ESC and bidi overrides anywhere in the body are escaped per line,
    // so a hostile line cannot inject terminal sequences or spoof text
    // regardless of which line it sits on.
    assert_eq!(
        sanitize_multiline("ok\u{1b}[31m\nplain"),
        "ok\\u{1b}[31m\nplain"
    );
    assert_eq!(sanitize_multiline("a\u{202e}b\nc"), "a\\u{202e}b\nc");
    assert_eq!(sanitize_multiline("a\n\u{1b}b"), "a\n\\u{1b}b");
}

#[test]
fn sanitize_multiline_keeps_tabs_and_ascii() {
    // Tabs are legitimate content and pass through; plain ASCII text is
    // unchanged end to end.
    assert_eq!(sanitize_multiline("a\tb\nc\td"), "a\tb\nc\td");
    assert_eq!(sanitize_multiline("plain text"), "plain text");
    assert_eq!(sanitize_multiline("café\n日本語"), "café\n日本語");
}

#[test]
fn sanitize_transcript_escapes_only_format_chars() {
    // Bidi overrides and other invisible format chars (the spoofing
    // threat) are escaped; joiners, ANSI/ESC, newlines, tabs, CJK, and
    // plain ASCII all pass through untouched.
    assert_eq!(sanitize_transcript("a\u{202e}b"), "a\\u{202e}b");
    assert_eq!(sanitize_transcript("a\u{200b}b"), "a\\u{200b}b");
    assert_eq!(sanitize_transcript("a\u{2066}b"), "a\\u{2066}b");
    // Joiners are legitimate in some scripts and must pass through.
    assert_eq!(sanitize_transcript("a\u{200c}b"), "a\u{200c}b");
    assert_eq!(sanitize_transcript("a\u{200d}b"), "a\u{200d}b");
    // ANSI color sequences are C0 (ESC), not Cf — kept so shell/VM
    // output keeps its colors in the final view.
    assert_eq!(
        sanitize_transcript("\u{1b}[31mred\u{1b}[0m"),
        "\u{1b}[31mred\u{1b}[0m"
    );
    // Structure (newlines, tabs) and safe non-ASCII pass through.
    assert_eq!(sanitize_transcript("a\nb\tc"), "a\nb\tc");
    assert_eq!(sanitize_transcript("café 日本語"), "café 日本語");
    // Pure ASCII hits the fast path and is returned unchanged.
    assert_eq!(
        sanitize_transcript("plain text\nline two"),
        "plain text\nline two"
    );
    // A Cf char past the end is still caught (fast path is per-byte).
    assert_eq!(sanitize_transcript("tail\u{feff}"), "tail\\u{feff}");
}

#[test]
fn sanitize_transcript_then_truncate_stays_within_budget() {
    // Escaping *expands* (a Cf char becomes `\u{202e}`),
    // so content that was byte-capped at the source as raw bytes (shell /
    // VM / series) could exceed MAX_TOOL_OUTPUT_BYTES after
    // `sanitize_transcript`. `record_tool_completion` re-applies the cap
    // after escaping; this test pins that composition — a cap-sized,
    // Cf-heavy body must stay within budget + marker, and the marker must
    // survive.
    let raw = "\u{00ad}".repeat(MAX_TOOL_OUTPUT_BYTES / 2); // 2-byte Cf char
    let sanitized = sanitize_transcript(&raw);
    assert!(
        sanitized.len() > MAX_TOOL_OUTPUT_BYTES,
        "escaping must expand past the raw byte cap: {} > {}",
        sanitized.len(),
        MAX_TOOL_OUTPUT_BYTES
    );
    let capped = truncate_tool_output(&sanitized);
    assert!(
        capped.len() <= MAX_TOOL_OUTPUT_BYTES + "\n...[truncated]".len(),
        "sanitize-then-truncate must stay within budget + marker: {}",
        capped.len()
    );
    assert!(
        capped.ends_with("...[truncated]"),
        "the truncation marker must survive the composition"
    );
    std::str::from_utf8(capped.as_bytes()).expect("capped output must be valid UTF-8");
}

#[test]
fn finish_tool_output_sanitized_tail_survives_transcript_recap() {
    // The residual gap: escaping *expands* (a 2-byte soft hyphen becomes
    // the 6-byte `\u{ad}`), so a tail reserved inside the budget against
    // the RAW body length gets cut by the transcript choke point's re-cap
    // when the body is Cf-heavy and near the cap. `finish_tool_output_sanitized`
    // escapes BEFORE the cap, making the choke point's re-sanitize (a
    // no-op on ASCII escape output) and re-cap (a no-op on content already
    // ≤ the budget) both inert — the tool's critical tail survives end to
    // end. This pins the composition the VM footer / shell exit code /
    // pdf framing delimiter all rely on.
    let footer = "[VM: exited with code 0 in 100 cycles]";
    // ~128 KiB of 2-byte soft hyphens — expands to ~384 KiB when escaped.
    let body = "\u{00ad}".repeat(MAX_TOOL_OUTPUT_BYTES / 2);
    let finished = finish_tool_output_sanitized(&body, Some(footer.to_string()));
    assert!(
        finished.len() <= MAX_TOOL_OUTPUT_BYTES,
        "body + tail must stay within the budget: {} bytes",
        finished.len()
    );
    // The transcript choke point's composition (sanitize then re-cap)
    // must be a no-op on already-sanitized, within-budget content.
    let recapped = truncate_tool_output(&sanitize_transcript(&finished));
    assert_eq!(recapped, finished, "re-sanitize + re-cap must be a no-op");
    assert!(
        recapped.ends_with(footer),
        "footer must survive the transcript re-cap"
    );
    // Sanitizing at the source really did escape the Cf chars: the body
    // is inert ASCII in the finished output, not live bidi.
    assert!(
        !recapped.contains('\u{00ad}'),
        "soft hyphens must be escaped, not passed through"
    );
    std::str::from_utf8(recapped.as_bytes()).expect("capped output must be valid UTF-8");
}

#[test]
fn sanitize_text_len_matches_actual_sanitized_length() {
    // The grep byte-budget pre-check must predict the exact rendered
    // length with no allocation: equal to what the sanitizer produces,
    // for both the content policy (tabs kept) and the name policy
    // (tabs escaped), across controls, separators, format chars, and
    // multi-byte text.
    for s in [
        "plain ascii",
        "tab\there",
        "new\nline",
        "esc \u{1b}[31m",
        "sep\u{2028}arator",
        "bidi\u{202e}evil",
        "mongolian\u{180e}vowel",
        "café \u{200b} zwsp",
        "",
    ] {
        assert_eq!(
            sanitize_text_len(s, true),
            sanitize_content(s).len(),
            "{s:?}"
        );
        assert_eq!(sanitize_text_len(s, false), sanitize_name(s).len(), "{s:?}");
    }
}

#[test]
fn sanitize_keeps_matches_policy_for_all_chars() {
    // The keep-predicate must agree with the policy for *every* char:
    // escape C0/C1 controls plus every char the shared spoofing predicate
    // flags; pass through everything else (plus tabs under the content
    // policy). The predicate's own correctness against the Unicode tables
    // is guarded by the code-space sweep in choreo-sanitize; this sweep
    // validates the daemon's keep policy against that shared predicate.
    for c in '\u{0}'..=char::MAX {
        let is_control = c.is_control();
        let is_unsafe = is_unsafe_unicode(c);
        // Name policy (tabs escaped): every control and spoofing char is
        // escaped; nothing else.
        assert_eq!(
            sanitize_keeps(c, false),
            !is_control && !is_unsafe,
            "name-policy keep drift for U+{:04X}",
            c as u32
        );
        // Content policy (tabs literal): identical, but TAB passes through.
        assert_eq!(
            sanitize_keeps(c, true),
            (c == '\t') || (!is_control && !is_unsafe),
            "content-policy keep drift for U+{:04X}",
            c as u32
        );
    }
}

#[test]
fn truncation_marker_only_when_capped() {
    assert_eq!(truncation_marker(false, 50, "results"), None);
    assert_eq!(
        truncation_marker(true, 50, "results").as_deref(),
        Some("...[truncated at 50 results]")
    );
    assert_eq!(
        truncation_marker(true, 200, "matches").as_deref(),
        Some("...[truncated at 200 matches]")
    );
}

#[test]
fn sanitizing_twice_changes_nothing() {
    for s in ["a\u{202e}b", "a\tb\nc", "\u{1b}[0m", "plain", "\u{feff}"] {
        let once = sanitize_name(s);
        assert_eq!(sanitize_name(&once), once);
        let once = sanitize_content(s);
        assert_eq!(sanitize_content(&once), once);
        let once = sanitize_transcript(s);
        assert_eq!(sanitize_transcript(&once), once);
    }
}

#[test]
fn an_escape_has_its_announced_length() {
    assert_eq!(escaped_len('\n'), 2);
    assert_eq!(escaped_len('\u{7}'), "\\u{7}".len());
    assert_eq!(escaped_len('\u{202e}'), "\\u{202e}".len());
    assert_eq!(escaped_len('\u{e0001}'), "\\u{e0001}".len());
}

#[test]
fn a_cut_lies_between_characters() {
    assert_eq!(truncate_at("aé", 2), "a\n...[truncated]");
    assert_eq!(truncate_at("aé", 3), "aé");
    assert_eq!(truncate_at("", 0), "");
    assert_eq!(strip_cr("a\r"), "a");
    assert_eq!(strip_cr("a\rb"), "a\rb");
}

#[test]
fn a_marker_is_kept_at_the_end_of_a_full_body() {
    let body = "x".repeat(MAX_TOOL_OUTPUT_BYTES + 10);
    let out = finish_tool_output(&body, Some("END".to_string()));
    assert!(out.ends_with("\nEND"));
    assert!(out.len() <= MAX_TOOL_OUTPUT_BYTES);
    assert_eq!(finish_tool_output("body", None), "body");
    assert_eq!(finish_tool_output("body", Some("END".to_string())), "body\nEND");
}
