use choreo_tools::session_inspect::{
    ChatReasoningField, ReasoningArtifact, ReasoningPassback, ReasoningProducer, ReportInput,
    Resolution, SessionInspectArgs, SessionRecord, TurnRecord, WireMessage, build_report,
    describe_session_inspect, dominant_producer, fmt_artifact, fmt_field, found_session,
    found_turns, own_preview, resolve_model, resolve_provider, session_not_found, target_session,
    truncate, written_messages,
};

fn record(selected_model: &str) -> SessionRecord {
    SessionRecord {
        title: Some("t".into()),
        working_dir: None,
        account_name: None,
        active_tool_groups: vec!["core".into()],
        selected_model: Some(selected_model.into()),
    }
}

fn chat_artifact(text: &str) -> ReasoningArtifact {
    ReasoningArtifact::ChatReasoning {
        field: ChatReasoningField::ReasoningContent,
        bytes: text.as_bytes().to_vec(),
    }
}

fn tool_turn(
    artifact: Option<ReasoningArtifact>,
    producer: Option<ReasoningProducer>,
    has_reasoning: bool,
    include_artifact: bool,
) -> TurnRecord {
    TurnRecord {
        undone: false,
        has_error: false,
        user_text: Some("run it".into()),
        assistant_text: None,
        has_reasoning,
        tool_calls: 1,
        tool_results: 0,
        artifact,
        producer,
        include_artifact,
    }
}

fn text_turn(
    text: &str,
    artifact: Option<ReasoningArtifact>,
    producer: Option<ReasoningProducer>,
    include_artifact: bool,
) -> TurnRecord {
    TurnRecord {
        undone: false,
        has_error: false,
        user_text: Some("hi".into()),
        assistant_text: Some(text.into()),
        has_reasoning: false,
        tool_calls: 0,
        tool_results: 0,
        artifact,
        producer,
        include_artifact,
    }
}

fn producer(provider_slug: &str, model: &str) -> ReasoningProducer {
    ReasoningProducer { provider_slug: provider_slug.into(), model: model.into() }
}

fn ds_producer() -> ReasoningProducer {
    producer("deepseek", "deepseek-v4-flash")
}

const GROQ_MODEL: &str = "groq/llama-3.3-70b-versatile";

fn groq_producer() -> ReasoningProducer {
    producer("groq", GROQ_MODEL)
}

fn user_message(text: &str) -> WireMessage {
    WireMessage {
        from_assistant: false,
        has_reasoning_content: false,
        tool_calls: 0,
        content: Some(text.into()),
        reasoning: vec![],
    }
}

fn assistant_message(reasoning: Option<&str>, tool_calls: usize, content: Option<&str>) -> WireMessage {
    WireMessage {
        from_assistant: true,
        has_reasoning_content: reasoning.is_some(),
        tool_calls,
        content: content.map(|c| c.to_string()),
        reasoning: reasoning.map(|r| r.to_string()).into_iter().collect(),
    }
}

fn input(
    ids: (u64, u64),
    provider: &str,
    model: &str,
    requires_rc: bool,
    turns: Vec<(u32, TurnRecord)>,
    messages: Vec<WireMessage>,
    guard_problems: usize,
) -> ReportInput {
    ReportInput {
        session_id: ids.1,
        caller_id: ids.0,
        include_raw: false,
        max_turns: None,
        resolution: Resolution {
            model: model.into(),
            model_source: "session".into(),
            provider: provider.into(),
            provider_source: "catalog".into(),
        },
        passback: ReasoningPassback::ToolLoop,
        requires_rc,
        record: record(model),
        turns,
        guard_problems,
        messages,
    }
}

fn groq(turns: Vec<(u32, TurnRecord)>, messages: Vec<WireMessage>, problems: usize) -> ReportInput {
    input((42, 42), "groq", GROQ_MODEL, false, turns, messages, problems)
}

fn deepseek(turns: Vec<(u32, TurnRecord)>, messages: Vec<WireMessage>, problems: usize) -> ReportInput {
    input((42, 42), "deepseek", "deepseek-v4-flash", true, turns, messages, problems)
}

#[test]
fn tool_turn_without_artifact_is_flagged_as_risk() {
    let inp = groq(
        vec![
            (0, tool_turn(Some(chat_artifact("think one")), Some(groq_producer()), true, true)),
            (1, tool_turn(None, Some(groq_producer()), true, false)),
        ],
        vec![
            user_message("run it"),
            assistant_message(Some("think one"), 1, None),
            user_message("run it"),
            assistant_message(None, 1, None),
        ],
        1,
    );
    let out = build_report(&inp);
    assert!(out.contains("t    0"), "t0 must appear in ledger: {out}");
    assert!(out.contains("echo=yes"), "t0 must echo: {out}");
    assert!(out.contains("t    1"), "t1 must appear: {out}");
    assert!(out.contains("no:reasoning-without-artifact"), "{out}");
    assert!(out.contains("RISK (tool-call turns"), "{out}");
    assert!(out.contains("ledger vs wire: OK"), "{out}");
    // The daemon's own guard must flag the one bare tool turn too.
    assert!(out.contains("1 problem(s)"), "{out}");
}

#[test]
fn deepseek_tool_turn_without_any_reasoning_is_injected_empty() {
    let inp = deepseek(
        vec![(0, tool_turn(None, Some(ds_producer()), false, false))],
        vec![user_message("run it"), assistant_message(Some(""), 1, None)],
        0,
    );
    let out = build_report(&inp);
    assert!(out.contains("echo=yes(empty)"), "{out}");
    assert!(
        out.contains("RISK (tool-call turns with reasoning evidence but no wire echo): none"),
        "{out}"
    );
    assert!(!out.contains("NOTE (tool calls with no reasoning evidence"), "{out}");
    assert!(out.contains("carry NONE (provider-reject risk); "), "{out}");
    assert!(out.contains("0 assistant tool-call message(s) carry NONE"), "{out}");
    assert!(out.contains("ledger vs wire: OK"), "{out}");
}

#[test]
fn tool_turn_without_any_reasoning_still_counts_toward_wire_parity() {
    let inp = groq(
        vec![(0, tool_turn(None, Some(groq_producer()), false, false))],
        vec![user_message("run it"), assistant_message(None, 1, None)],
        0,
    );
    let out = build_report(&inp);
    assert!(out.contains("echo=no:no-artifact"), "{out}");
    assert!(out.contains("NOTE (tool calls with no reasoning evidence"), "{out}");
    // Both the ledger and the wire must count this one bare tool message.
    assert!(out.contains("ledger vs wire: OK"), "{out}");
}

#[test]
fn producer_mismatch_drops_echo_as_risk() {
    let inp = groq(
        vec![(
            0,
            tool_turn(
                Some(chat_artifact("think one")),
                Some(producer("openai", "gpt-4")),
                true,
                false,
            ),
        )],
        vec![user_message("run it"), assistant_message(None, 1, None)],
        1,
    );
    let out = build_report(&inp);
    assert!(out.contains("no:producer-mismatch"), "{out}");
    assert!(out.contains("RISK (tool-call turns"), "{out}");
}

#[test]
fn plain_text_turn_artifact_is_info_not_risk() {
    let inp = groq(
        vec![(0, text_turn("answer", Some(chat_artifact("think one")), Some(groq_producer()), false))],
        vec![user_message("hi"), assistant_message(None, 0, Some("answer"))],
        0,
    );
    let out = build_report(&inp);
    assert!(out.contains("no:tool-loop-skip"), "{out}");
    assert!(out.contains("INFO (policy-skips"), "{out}");
    assert!(!out.contains("no:producer-mismatch"), "{out}");
    // The RISK section must be the "none" variant, not a list.
    assert!(
        out.contains("RISK (tool-call turns with reasoning evidence but no wire echo): none"),
        "{out}"
    );
}

#[test]
fn requires_rc_empty_content_turn_echoes_artifact_on_wire() {
    let inp = deepseek(
        vec![(0, text_turn("", Some(chat_artifact("real reasoning text")), Some(ds_producer()), true))],
        vec![user_message("hi"), assistant_message(Some("real reasoning text"), 0, Some(""))],
        0,
    );
    let out = build_report(&inp);
    assert!(out.contains("echo=yes"), "artifact echoed: {out}");
    assert!(
        out.contains("empty assistant message(s) on the wire: none"),
        "no empty assistant message on the wire: {out}"
    );
    assert!(
        out.contains("daemon guard warn_on_missing_reasoning_artifacts: 0 problem(s)"),
        "guard clean: {out}"
    );
    assert!(out.contains("ledger vs wire: OK"), "{out}");
}

#[test]
fn requires_rc_empty_content_turn_without_artifact_is_reported() {
    let inp = deepseek(
        vec![(0, text_turn("", None, Some(ds_producer()), false))],
        vec![user_message("hi"), assistant_message(Some(""), 0, Some(""))],
        1,
    );
    let out = build_report(&inp);
    assert!(
        out.contains("empty assistant message(s) on the wire (\"must not be empty\" 400 candidates)"),
        "wire-empty candidate surfaced: {out}"
    );
    assert!(
        out.contains("daemon guard warn_on_missing_reasoning_artifacts: 1 problem(s)"),
        "guard flags the unfixable turn: {out}"
    );
    assert!(out.contains("ledger vs wire: OK"), "{out}");
}

#[test]
fn unknown_session_is_an_error() {
    let args = SessionInspectArgs {
        session_id: Some(999),
        provider: None,
        model: None,
        include_raw: false,
        max_turns: None,
    };
    let target = target_session(&args, Some(42)).unwrap();
    assert_eq!(target, 999);
    let err = found_session(target, Ok(None)).unwrap_err();
    assert!(err.0.contains("not found"), "{err:?}");
    assert_eq!(err.0, "session 999 not found");
    assert_eq!(session_not_found(target).0, err.0);
    assert_eq!(
        found_session(target, Err("disk".to_string())).unwrap_err().0,
        "read session 999: disk"
    );
    let there = found_session(42, Ok(Some(record("deepseek-v4-flash")))).unwrap();
    assert_eq!(there.selected_model.as_deref(), Some("deepseek-v4-flash"));
    assert!(target_session(&args, None).is_err());
}

#[test]
fn raw_reasoning_only_for_own_session() {
    let secret = "SECRET THINKING PAYLOAD";
    let turns = |_: u8| {
        vec![(0, tool_turn(Some(chat_artifact(secret)), Some(ds_producer()), true, true))]
    };
    let messages = |_: u8| vec![user_message("run it"), assistant_message(Some(secret), 1, None)];
    // Same-session inspection with include_raw: raw snippets rendered.
    let mut inp =
        input((7, 7), "deepseek", "deepseek-v4-flash", true, turns(0), messages(0), 0);
    inp.include_raw = true;
    let out = build_report(&inp);
    assert!(out.contains("RAW reasoning"), "{out}");
    assert!(out.contains(secret), "{out}");

    // Cross-session inspection: metadata only — the raw thinking text must not leak, while the
    // artifact descriptor still shows.
    let mut inp =
        input((7, 99), "deepseek", "deepseek-v4-flash", true, turns(0), messages(0), 0);
    let out = build_report(&inp);
    assert!(!out.contains(secret), "raw reasoning leaked across sessions: {out}");
    assert!(out.contains("art=chat[reasoning_content;"), "{out}");
    inp.include_raw = true;
    assert!(!build_report(&inp).contains(secret));
}

#[test]
fn a_foreign_report_does_not_depend_on_the_texts() {
    let one = input(
        (7, 99),
        "groq",
        GROQ_MODEL,
        false,
        vec![(0, text_turn("first", None, None, false))],
        vec![],
        0,
    );
    let other = input(
        (7, 99),
        "groq",
        GROQ_MODEL,
        false,
        vec![(0, text_turn("other", None, None, false))],
        vec![],
        0,
    );
    assert_eq!(build_report(&one), build_report(&other));
}

#[test]
fn a_ledger_is_capped() {
    let turns = (0..30).map(|i| (i, text_turn("a", None, None, false))).collect();
    let mut inp = groq(turns, vec![], 0);
    inp.max_turns = Some(5);
    let out = build_report(&inp);
    assert!(out.contains("per-turn ledger (first 5 of 30):"), "{out}");
    assert!(out.contains("t    4 ["), "{out}");
    assert!(!out.contains("t    5 ["), "{out}");
}

#[test]
fn the_most_frequent_producer_dominates() {
    let turns = vec![
        (0, tool_turn(None, Some(groq_producer()), false, false)),
        (1, tool_turn(None, Some(ds_producer()), false, false)),
        (2, tool_turn(None, Some(ds_producer()), false, false)),
    ];
    assert_eq!(dominant_producer(&turns).unwrap().provider_slug, "deepseek");
    assert!(dominant_producer(&vec![(0, text_turn("a", None, None, false))]).is_none());
}

#[test]
fn the_model_and_provider_are_resolved() {
    let mut args = SessionInspectArgs {
        session_id: None,
        provider: None,
        model: None,
        include_raw: false,
        max_turns: None,
    };
    let (model, _) = resolve_model(&args, &record("m"), &None).unwrap();
    assert_eq!(model, "m");
    let mut bare = record("m");
    bare.selected_model = None;
    assert!(resolve_model(&args, &bare, &None).is_err());
    let (provider, _) = resolve_provider(&args, &None, Some("groq".to_string()));
    assert_eq!(provider, "groq");
    args.model = Some("x".to_string());
    args.provider = Some("p".to_string());
    assert_eq!(resolve_model(&args, &bare, &None).unwrap().0, "x");
    assert_eq!(resolve_provider(&args, &None, Some("groq".to_string())).0, "p");
    assert_eq!(
        describe_session_inspect(&args),
        "Inspecting current session reasoning-echo status."
    );
}

#[test]
fn parts_of_a_report_are_formatted() {
    assert_eq!(fmt_field(&ChatReasoningField::ReasoningText), "reasoning_text");
    assert!(fmt_artifact(&chat_artifact("abc")).starts_with("chat[reasoning_content;"));
    assert_eq!(truncate("abcdef", 10), "abcdef");
    assert!(truncate("abcdef", 3).starts_with("abc"));
    assert!(!own_preview(Some("secret"), false).contains("secret"));
    assert!(own_preview(Some("secret"), true).contains("secret"));
    assert_eq!(ReasoningPassback::Never.name(), "None");
}

#[test]
fn the_cap_only_shortens_the_ledger() {
    let turns = || {
        (0..5).map(|i| (i, tool_turn(None, Some(groq_producer()), i % 2 == 0, false))).collect()
    };
    let mut short = groq(turns(), vec![user_message("a"), assistant_message(None, 1, None)], 2);
    let long = build_report(&groq(turns(), vec![user_message("a"), assistant_message(None, 1, None)], 2));
    short.max_turns = Some(2);
    let short = build_report(&short);
    let (head, ledger) = short.split_once("\nper-turn ledger").unwrap();
    let (all_head, all_ledger) = long.split_once("\nper-turn ledger").unwrap();
    assert_eq!(head, all_head);
    let rows = ledger.strip_prefix(" (first 2 of 5):\n").unwrap();
    let all_rows = all_ledger.strip_prefix(":\n").unwrap();
    assert_eq!(rows.lines().count(), 2);
    assert_eq!(all_rows.lines().count(), 5);
    assert!(all_rows.starts_with(rows));
}

#[test]
fn a_store_that_cannot_be_read_is_an_error() {
    assert_eq!(
        found_turns(7, Err("disk".to_string())).unwrap_err().0,
        "read turns for session 7: disk"
    );
    assert_eq!(found_turns(7, Ok(vec![])).unwrap().len(), 0);
    assert_eq!(
        written_messages(Err("key".to_string())).unwrap_err().0,
        "serialize request message: key"
    );
    assert_eq!(written_messages(Ok(vec![user_message("a")])).unwrap().len(), 1);
}
