//! `session_inspect`: a report on which assistant turns of a session carry the provider's
//! reasoning field on the wire.
//!
//! The session's record and turns, the policy that applies, and the messages that would be sent
//! are handed in; the report is made here.

use crate::bytes::lossy_text;
use crate::bytes;
use crate::error::{ToolExecError, tool_error, tool_error_with};
use crate::order::precedes;
use crate::order;
use crate::sanitize;
use crate::text::{byte_len, chars_of, from_chars, join_lines, push_decimal, same};
use crate::text;
use vstd::prelude::*;
use vstd::string::*;

verus! {

/// Turns in the ledger where no other number is asked for.
pub const DEFAULT_MAX_TURNS: usize = 512;

/// Characters of a message that a preview shows.
pub const PREVIEW_LEN: usize = 120;

/// Characters of raw reasoning that the report shows.
pub const RAW_LEN: usize = 400;

/// Arguments of `session_inspect`.
#[derive(Debug)]
pub struct SessionInspectArgs {
    /// The session to inspect; the calling one where it is left out.
    pub session_id: Option<u64>,
    pub provider: Option<String>,
    pub model: Option<String>,
    /// Whether raw reasoning is shown, for the calling session only.
    pub include_raw: bool,
    /// Cap on the turns in the ledger.
    pub max_turns: Option<usize>,
}

/// Who produced a turn's reasoning.
#[derive(Debug)]
pub struct ReasoningProducer {
    pub provider_slug: String,
    pub model: String,
}

/// The wire field of a chat message that holds reasoning.
#[derive(Debug, Clone, Copy, PartialEq, Eq, Structural)]
pub enum ChatReasoningField {
    ReasoningContent,
    Reasoning,
    ReasoningText,
}

/// Reasoning as a provider gave it.
#[derive(Debug)]
pub enum ReasoningArtifact {
    ChatReasoning { field: ChatReasoningField, bytes: Vec<u8> },
    AnthropicThinking(Vec<u8>),
    GoogleSignatures(Vec<u8>),
    ResponsesItems(Vec<u8>),
}

/// Which reasoning a model wants passed back.
#[derive(Debug, Clone, Copy, PartialEq, Eq, Structural)]
pub enum ReasoningPassback {
    /// Nothing at all.
    Never,
    ResponseId,
    ToolLoop,
    AllTurns,
    Signature,
}

/// What the report needs of one turn.
#[derive(Debug)]
pub struct TurnRecord {
    pub undone: bool,
    pub has_error: bool,
    pub user_text: Option<String>,
    pub assistant_text: Option<String>,
    /// Whether reasoning was displayed.
    pub has_reasoning: bool,
    pub tool_calls: usize,
    pub tool_results: usize,
    pub artifact: Option<ReasoningArtifact>,
    pub producer: Option<ReasoningProducer>,
    /// Whether the request builder passes this turn's artifact back.
    pub include_artifact: bool,
}

/// What the report needs of one message that would be sent.
#[derive(Debug)]
pub struct WireMessage {
    pub from_assistant: bool,
    /// Whether the message has a `reasoning_content` field.
    pub has_reasoning_content: bool,
    pub tool_calls: usize,
    /// The content, where it is text.
    pub content: Option<String>,
    /// The texts of the fields that can hold reasoning.
    pub reasoning: Vec<String>,
}

/// What the report needs of a session's record.
#[derive(Debug)]
pub struct SessionRecord {
    pub title: Option<String>,
    pub working_dir: Option<String>,
    pub account_name: Option<String>,
    pub active_tool_groups: Vec<String>,
    pub selected_model: Option<String>,
}

/// The model and the provider of a report, each with where it was found.
#[derive(Debug)]
pub struct Resolution {
    pub model: String,
    pub model_source: String,
    pub provider: String,
    pub provider_source: String,
}

/// All that a report is made of.
#[derive(Debug)]
pub struct ReportInput {
    pub session_id: u64,
    /// The session that asks for the report.
    pub caller_id: u64,
    pub include_raw: bool,
    pub max_turns: Option<usize>,
    pub resolution: Resolution,
    pub passback: ReasoningPassback,
    /// Whether the model wants the reasoning field on every assistant message.
    pub requires_rc: bool,
    pub record: SessionRecord,
    /// The turns in the order of their numbers.
    pub turns: Vec<(u32, TurnRecord)>,
    /// Number of turns that the daemon's own guard complains of.
    pub guard_problems: usize,
    /// The messages that would be sent.
    pub messages: Vec<WireMessage>,
}

/// The name of a policy.
pub open spec fn passback_name(p: ReasoningPassback) -> Seq<char> {
    match p {
        ReasoningPassback::Never => "None"@,
        ReasoningPassback::ResponseId => "ResponseId"@,
        ReasoningPassback::ToolLoop => "ToolLoop"@,
        ReasoningPassback::AllTurns => "AllTurns"@,
        ReasoningPassback::Signature => "Signature"@,
    }
}

impl ReasoningPassback {
    /// The name of the policy.
    pub fn name(self) -> (r: &'static str)
        ensures
            r@ == passback_name(self),
    {
        match self {
            ReasoningPassback::Never => "None",
            ReasoningPassback::ResponseId => "ResponseId",
            ReasoningPassback::ToolLoop => "ToolLoop",
            ReasoningPassback::AllTurns => "AllTurns",
            ReasoningPassback::Signature => "Signature",
        }
    }
}

/// The first `max` characters of `text`, with an ellipsis where there are more.
pub open spec fn shortened(text: Seq<char>, max: nat) -> Seq<char> {
    if text.len() <= max {
        text
    } else {
        text.take(max as int) + "…"@
    }
}

/// Cuts `text` to `max` characters.
pub fn truncate(text: &str, max: usize) -> (r: String)
    ensures
        r@ == shortened(text@, max as nat),
{
    let cs = chars_of(text);
    if cs.len() <= max {
        text.to_owned()
    } else {
        let head = &cs[0..max];
        let mut out = from_chars(head);
        assert(out@ =~= text@.take(max as int));
        out.append("…");
        out
    }
}

/// The preview of a message: a dash unless the report is for the calling session.
pub open spec fn preview(text: Option<Seq<char>>, own_session: bool) -> Seq<char> {
    match text {
        Some(t) if own_session => shortened(t, PREVIEW_LEN as nat),
        _ => "-"@,
    }
}

/// The preview of a message.
pub fn own_preview(text: Option<&str>, own_session: bool) -> (r: String)
    ensures
        r@ == preview(crate::paths::opt_str(text), own_session),
{
    match text {
        Some(t) => if own_session {
            truncate(t, PREVIEW_LEN)
        } else {
            "-".to_owned()
        },
        None => "-".to_owned(),
    }
}

/// The name of a wire field.
pub open spec fn field_name(field: ChatReasoningField) -> Seq<char> {
    match field {
        ChatReasoningField::ReasoningContent => "reasoning_content"@,
        ChatReasoningField::Reasoning => "reasoning"@,
        ChatReasoningField::ReasoningText => "reasoning_text"@,
    }
}

/// The name of a wire field.
pub fn fmt_field(field: &ChatReasoningField) -> (r: &'static str)
    ensures
        r@ == field_name(*field),
{
    match field {
        ChatReasoningField::ReasoningContent => "reasoning_content",
        ChatReasoningField::Reasoning => "reasoning",
        ChatReasoningField::ReasoningText => "reasoning_text",
    }
}

/// An artifact in the ledger: its form, its wire field and its size, never its bytes.
pub open spec fn artifact_label(a: ReasoningArtifact) -> Seq<char> {
    match a {
        ReasoningArtifact::ChatReasoning { field, bytes } => "chat["@ + field_name(field) + ";"@
            + text::decimal(bytes@.len()) + "B]"@,
        ReasoningArtifact::AnthropicThinking(bytes) => "anthropic["@ + text::decimal(bytes@.len()) + "B]"@,
        ReasoningArtifact::GoogleSignatures(bytes) => "google-sig["@ + text::decimal(bytes@.len()) + "B]"@,
        ReasoningArtifact::ResponsesItems(bytes) => "responses["@ + text::decimal(bytes@.len()) + "B]"@,
    }
}

fn sized(before: &str, n: usize) -> (r: String)
    ensures
        r@ == before@ + text::decimal(n as nat) + "B]"@,
{
    let mut out = before.to_owned();
    push_decimal(&mut out, n as u64);
    out.append("B]");
    out
}

/// An artifact in the ledger.
pub fn fmt_artifact(artifact: &ReasoningArtifact) -> (r: String)
    ensures
        r@ == artifact_label(*artifact),
{
    match artifact {
        ReasoningArtifact::ChatReasoning { field, bytes } => {
            let mut out = "chat[".to_owned();
            out.append(fmt_field(field));
            out.append(";");
            push_decimal(&mut out, bytes.len() as u64);
            out.append("B]");
            out
        },
        ReasoningArtifact::AnthropicThinking(bytes) => sized("anthropic[", bytes.len()),
        ReasoningArtifact::GoogleSignatures(bytes) => sized("google-sig[", bytes.len()),
        ReasoningArtifact::ResponsesItems(bytes) => sized("responses[", bytes.len()),
    }
}

/// A producer as a pair of texts.
pub open spec fn producer_key(p: ReasoningProducer) -> (Seq<char>, Seq<char>) {
    (p.provider_slug@, p.model@)
}

/// The producer of a turn, where one is recorded.
pub open spec fn turn_producer(t: (u32, TurnRecord)) -> Option<(Seq<char>, Seq<char>)> {
    match t.1.producer {
        Some(p) => Some(producer_key(p)),
        None => None,
    }
}

/// Number of turns that `key` produced.
pub open spec fn produced(turns: Seq<(u32, TurnRecord)>, key: (Seq<char>, Seq<char>)) -> nat
    decreases turns.len(),
{
    if turns.len() == 0 {
        0
    } else {
        produced(turns.drop_last(), key) + (if turn_producer(turns.last()) == Some(key) {
            1nat
        } else {
            0nat
        })
    }
}

/// The order of producers: by provider, then by model.
pub open spec fn key_le(a: (Seq<char>, Seq<char>), b: (Seq<char>, Seq<char>)) -> bool {
    if a.0 == b.0 {
        order::text_le(a.1, b.1)
    } else {
        order::text_le(a.0, b.0)
    }
}

/// Whether `key` produced more turns than any other producer; of several, it is the last in the
/// order of producers.
pub open spec fn dominates(turns: Seq<(u32, TurnRecord)>, key: (Seq<char>, Seq<char>)) -> bool {
    &&& exists|i: int| 0 <= i < turns.len() && turn_producer(#[trigger] turns[i]) == Some(key)
    &&& forall|i: int|
        0 <= i < turns.len() ==> (turn_producer(#[trigger] turns[i]) matches Some(k) ==> produced(
            turns,
            k,
        ) < produced(turns, key) || (produced(turns, k) == produced(turns, key) && key_le(k, key)))
}

fn count_produced(turns: &Vec<(u32, TurnRecord)>, key: &ReasoningProducer) -> (n: usize)
    ensures
        n == produced(turns@, producer_key(*key)),
{
    let mut n: usize = 0;
    let ghost k = producer_key(*key);
    assert(turns@.take(0) =~= Seq::<(u32, TurnRecord)>::empty());
    for i in 0..turns.len()
        invariant
            k == producer_key(*key),
            n == produced(turns@.take(i as int), k),
            n <= i,
    {
        assert(turns@.take(i + 1).drop_last() =~= turns@.take(i as int));
        assert(turns@.take(i + 1).last() == turns@[i as int]);
        match &turns[i].1.producer {
            Some(p) => {
                if same(&p.provider_slug, &key.provider_slug) && same(&p.model, &key.model) {
                    n = n + 1;
                }
            },
            None => {},
        }
    }
    assert(turns@.take(turns@.len() as int) =~= turns@);
    n
}

fn key_precedes(a: &ReasoningProducer, b: &ReasoningProducer) -> (r: bool)
    ensures
        r == key_le(producer_key(*a), producer_key(*b)),
{
    if same(&a.provider_slug, &b.provider_slug) {
        precedes(&a.model, &b.model)
    } else {
        precedes(&a.provider_slug, &b.provider_slug)
    }
}

proof fn lemma_key_le_transitive(
    a: (Seq<char>, Seq<char>),
    b: (Seq<char>, Seq<char>),
    c: (Seq<char>, Seq<char>),
)
    requires
        key_le(a, b),
        key_le(b, c),
    ensures
        key_le(a, c),
{
    if a.0 == b.0 && b.0 == c.0 {
        order::lemma_text_le_transitive(a.1, b.1, c.1);
    } else if a.0 != b.0 && b.0 != c.0 {
        order::lemma_text_le_transitive(a.0, b.0, c.0);
        if a.0 == c.0 {
            order::lemma_text_le_antisymmetric(a.0, b.0);
        }
    }
}

proof fn lemma_key_le_total(a: (Seq<char>, Seq<char>), b: (Seq<char>, Seq<char>))
    ensures
        key_le(a, b) || key_le(b, a),
{
    order::lemma_text_le_total(a.0, b.0);
    order::lemma_text_le_total(a.1, b.1);
}

/// The producer that most turns were produced by.
pub fn dominant_producer(turns: &Vec<(u32, TurnRecord)>) -> (r: Option<ReasoningProducer>)
    ensures
        match r {
            Some(p) => dominates(turns@, producer_key(p)),
            None => forall|i: int|
                0 <= i < turns@.len() ==> turn_producer(#[trigger] turns@[i]) is None,
        },
{
    let mut best: Option<(ReasoningProducer, usize)> = None;
    for i in 0..turns.len()
        invariant
            match best {
                Some(b) => {
                    let key = producer_key(b.0);
                    &&& b.1 == produced(turns@, key)
                    &&& exists|j: int|
                        0 <= j < i && turn_producer(#[trigger] turns@[j]) == Some(key)
                    &&& forall|j: int|
                        0 <= j < i ==> (turn_producer(#[trigger] turns@[j]) matches Some(k)
                            ==> produced(turns@, k) < produced(turns@, key) || (produced(
                            turns@,
                            k,
                        ) == produced(turns@, key) && key_le(k, key)))
                },
                None => forall|j: int|
                    0 <= j < i ==> turn_producer(#[trigger] turns@[j]) is None,
            },
    {
        match &turns[i].1.producer {
            Some(p) => {
                let n: usize = count_produced(turns, p);
                let ghost k = producer_key(*p);
                assert(turn_producer(turns@[i as int]) == Some(k));
                let better = match &best {
                    Some(b) => {
                        proof {
                            lemma_key_le_total(k, producer_key(b.0));
                        }
                        n > b.1 || (n == b.1 && key_precedes(&b.0, p))
                    },
                    None => true,
                };
                if better {
                    proof {
                        if best is Some {
                            let (b, _) = best->0;
                            let key = producer_key(b);
                            assert forall|j: int| 0 <= j < i + 1 implies (turn_producer(
                                #[trigger] turns@[j],
                            ) matches Some(x) ==> produced(turns@, x) < produced(turns@, k) || (
                            produced(turns@, x) == produced(turns@, k) && key_le(x, k))) by {
                                if j == i {
                                    lemma_key_le_total(k, k);
                                } else if turn_producer(turns@[j]) is Some {
                                    let x = turn_producer(turns@[j])->0;
                                    if produced(turns@, x) == produced(turns@, k) {
                                        lemma_key_le_transitive(x, key, k);
                                    }
                                }
                            }
                        } else {
                            lemma_key_le_total(k, k);
                        }
                    }
                    best = Some(
                        (
                            ReasoningProducer {
                                provider_slug: p.provider_slug.clone(),
                                model: p.model.clone(),
                            },
                            n,
                        ),
                    );
                    
                }
            },
            None => {},
        }
    }
    match best {
        Some((p, _)) => Some(p),
        None => None,
    }
}

/// The model of a report: what is asked for, else the session's own, else that of the dominant
/// producer.
pub open spec fn resolved_model(
    arg: Option<Seq<char>>,
    selected: Option<Seq<char>>,
    dominant: Option<(Seq<char>, Seq<char>)>,
) -> (Seq<char>, Seq<char>) {
    match (arg, selected, dominant) {
        (Some(m), _, _) => (m, "arg"@),
        (None, Some(m), _) => (m, "record"@),
        (None, None, Some(p)) => (p.1, "dominant-producer"@),
        (None, None, None) => (Seq::empty(), "unresolved"@),
    }
}

/// The provider of a report: what is asked for, else that of the dominant producer, else what the
/// catalog names for the model.
pub open spec fn resolved_provider(
    arg: Option<Seq<char>>,
    dominant: Option<(Seq<char>, Seq<char>)>,
    catalog: Option<Seq<char>>,
) -> (Seq<char>, Seq<char>) {
    match arg {
        Some(p) => (p, "arg"@),
        None => match dominant {
            Some(p) if p.0.len() > 0 => (p.0, "dominant-producer"@),
            _ => match catalog {
                Some(s) => (s, "catalog"@),
                None => ("unknown"@, "unresolved"@),
            },
        },
    }
}

/// A producer as a pair of texts, where there is one.
pub open spec fn opt_producer_key(p: Option<ReasoningProducer>) -> Option<(Seq<char>, Seq<char>)> {
    match p {
        Some(x) => Some(producer_key(x)),
        None => None,
    }
}

/// Finds the model of a report; none is an error.
pub fn resolve_model(
    args: &SessionInspectArgs,
    record: &SessionRecord,
    dominant: &Option<ReasoningProducer>,
) -> (r: Result<(String, String), ToolExecError>)
    ensures
        ({
            let m = resolved_model(
                sanitize::opt_view(args.model),
                sanitize::opt_view(record.selected_model),
                opt_producer_key(*dominant),
            );
            match r {
                Ok(x) => x.0@ == m.0 && x.1@ == m.1 && m.0.len() > 0,
                Err(e) => m.0.len() == 0 && e@
                    == "no model resolved: pass `model` or set the session's selected model"@,
            }
        }),
{
    let (model, source) = match &args.model {
        Some(m) => (m.clone(), "arg".to_owned()),
        None => match &record.selected_model {
            Some(m) => (m.clone(), "record".to_owned()),
            None => match dominant {
                Some(p) => (p.model.clone(), "dominant-producer".to_owned()),
                None => (String::new(), "unresolved".to_owned()),
            },
        },
    };
    if model.as_str().is_empty() {
        return Err(
            tool_error("no model resolved: pass `model` or set the session's selected model"),
        );
    }
    Ok((model, source))
}

/// Finds the provider of a report. `catalog` is what the catalog names for the model.
pub fn resolve_provider(
    args: &SessionInspectArgs,
    dominant: &Option<ReasoningProducer>,
    catalog: Option<String>,
) -> (r: (String, String))
    ensures
        (r.0@, r.1@) == resolved_provider(
            sanitize::opt_view(args.provider),
            opt_producer_key(*dominant),
            sanitize::opt_view(catalog),
        ),
{
    match &args.provider {
        Some(p) => {
            return (p.clone(), "arg".to_owned());
        },
        None => {},
    }
    match dominant {
        Some(p) => {
            if !p.provider_slug.as_str().is_empty() {
                return (p.provider_slug.clone(), "dominant-producer".to_owned());
            }
        },
        None => {},
    }
    match catalog {
        Some(s) => (s, "catalog".to_owned()),
        None => ("unknown".to_owned(), "unresolved".to_owned()),
    }
}

/// The session to inspect: the one asked for, else the one that asks.
pub open spec fn inspected(wanted: Option<u64>, caller: u64) -> u64 {
    match wanted {
        Some(x) => x,
        None => caller,
    }
}

/// The session to inspect; a call without a session is an error.
pub fn target_session(args: &SessionInspectArgs, caller: Option<u64>) -> (r: Result<
    u64,
    ToolExecError,
>)
    ensures
        match (caller, r) {
            (None, Err(e)) => e@ == "session_inspect requires a session context"@,
            (Some(c), Ok(id)) => id == inspected(args.session_id, c),
            _ => false,
        },
{
    match caller {
        None => Err(tool_error("session_inspect requires a session context")),
        Some(c) => Ok(
            match args.session_id {
                Some(x) => x,
                None => c,
            },
        ),
    }
}

/// The error for a session that is not there.
pub fn session_not_found(session_id: u64) -> (e: ToolExecError)
    ensures
        e@ == "session "@ + text::decimal(session_id as nat) + " not found"@,
{
    let mut m = "session ".to_owned();
    push_decimal(&mut m, session_id);
    m.append(" not found");
    ToolExecError(m)
}

/// The record of a session that was looked up; one that is not there is an error, and so is a store
/// that cannot be read.
pub fn found_session(session_id: u64, read: Result<Option<SessionRecord>, String>) -> (r: Result<
    SessionRecord,
    ToolExecError,
>)
    ensures
        match read {
            Ok(Some(record)) => r == Ok::<SessionRecord, ToolExecError>(record),
            Ok(None) => r matches Err(e) && e@ == "session "@ + text::decimal(session_id as nat)
                + " not found"@,
            Err(why) => r matches Err(e) && e@ == "read session "@ + text::decimal(
                session_id as nat,
            ) + ": "@ + why@,
        },
{
    match read {
        Ok(Some(record)) => Ok(record),
        Ok(None) => Err(session_not_found(session_id)),
        Err(why) => {
            let mut m = "read session ".to_owned();
            push_decimal(&mut m, session_id);
            m.append(": ");
            m.append(why.as_str());
            Err(ToolExecError(m))
        },
    }
}

/// The turns of a session that were looked up; a store that cannot be read is an error.
pub fn found_turns(session_id: u64, read: Result<Vec<(u32, TurnRecord)>, String>) -> (r: Result<
    Vec<(u32, TurnRecord)>,
    ToolExecError,
>)
    ensures
        match read {
            Ok(turns) => r == Ok::<Vec<(u32, TurnRecord)>, ToolExecError>(turns),
            Err(why) => r matches Err(e) && e@ == "read turns for session "@ + text::decimal(
                session_id as nat,
            ) + ": "@ + why@,
        },
{
    match read {
        Ok(turns) => Ok(turns),
        Err(why) => {
            let mut m = "read turns for session ".to_owned();
            push_decimal(&mut m, session_id);
            m.append(": ");
            m.append(why.as_str());
            Err(ToolExecError(m))
        },
    }
}

/// The messages of a request that was built for a session; one that cannot be written down is an
/// error.
pub fn written_messages(written: Result<Vec<WireMessage>, String>) -> (r: Result<
    Vec<WireMessage>,
    ToolExecError,
>)
    ensures
        match written {
            Ok(messages) => r == Ok::<Vec<WireMessage>, ToolExecError>(messages),
            Err(why) => r matches Err(e) && e@ == "serialize request message: "@ + why@,
        },
{
    match written {
        Ok(messages) => Ok(messages),
        Err(why) => Err(tool_error_with("serialize request message: ", why.as_str())),
    }
}

/// Whether the assistant said or did something in a turn.
pub open spec fn spoke(t: TurnRecord) -> bool {
    t.assistant_text is Some || t.tool_calls > 0
}

/// Whether a turn's reasoning was produced by the model of the report.
pub open spec fn same_model(t: TurnRecord, r: Resolution) -> bool {
    match t.producer {
        Some(p) => p.provider_slug@ == r.provider@ && p.model@ == r.model@,
        None => false,
    }
}

/// Whether a turn's artifact is passed back.
pub open spec fn echoes_artifact(t: TurnRecord) -> bool {
    t.include_artifact && t.artifact is Some
}

/// Whether a turn's message carries the reasoning field: with its artifact, or empty where the
/// model wants the field.
pub open spec fn on_wire(t: TurnRecord, requires_rc: bool) -> bool {
    !t.undone && spoke(t) && (echoes_artifact(t) || requires_rc)
}

/// What becomes of a turn's reasoning, and why.
pub open spec fn echo_label(t: TurnRecord, inp: ReportInput) -> Seq<char> {
    if !spoke(t) {
        "n/a"@
    } else if echoes_artifact(t) {
        "yes"@
    } else if on_wire(t, inp.requires_rc) {
        "yes(empty)"@
    } else if !same_model(t, inp.resolution) {
        "no:producer-mismatch"@
    } else if t.artifact is None {
        if t.has_reasoning {
            "no:reasoning-without-artifact"@
        } else {
            "no:no-artifact"@
        }
    } else {
        match inp.passback {
            ReasoningPassback::Never => "no:passback-none"@,
            ReasoningPassback::ResponseId => "no:passback-response-id"@,
            ReasoningPassback::ToolLoop if t.tool_calls == 0 && t.tool_results == 0 =>
                "no:tool-loop-skip"@,
            _ => "no:policy-drift"@,
        }
    }
}

/// `s` with spaces before it up to `width` characters.
pub open spec fn padded(s: Seq<char>, width: nat) -> Seq<char>
    decreases width - s.len(),
{
    if s.len() >= width {
        s
    } else {
        padded(seq![' '] + s, width)
    }
}

/// Byte length of an optional text.
pub open spec fn opt_len(s: Option<String>) -> nat {
    match s {
        Some(t) => text::utf8_len(t@),
        None => 0,
    }
}

/// A turn's line in the ledger.
pub open spec fn ledger_line(id: u32, t: TurnRecord, inp: ReportInput) -> Seq<char> {
    "  t"@ + padded(text::decimal(id as nat), 5) + " ["@ + (if t.undone {
        "U"@
    } else {
        "-"@
    }) + (if t.has_error {
        "E"@
    } else {
        "-"@
    }) + "] u="@ + text::decimal(opt_len(t.user_text)) + " a="@ + text::decimal(opt_len(t.assistant_text))
        + " tc="@ + text::decimal(t.tool_calls as nat) + " r="@ + text::decimal(t.tool_results as nat)
        + " art="@ + (match t.artifact {
        Some(a) => artifact_label(a),
        None => "-"@,
    }) + " prod="@ + (match t.producer {
        Some(p) => p.provider_slug@ + "/"@ + p.model@,
        None => "-"@,
    }) + " same="@ + (if same_model(t, inp.resolution) {
        "y"@
    } else {
        "n"@
    }) + " echo="@ + echo_label(t, inp)
}

/// Whether a turn leaves messages on the wire at all.
pub open spec fn speaks(t: TurnRecord) -> bool {
    t.user_text is Some || spoke(t)
}

/// Whether the report is for the session that asks for it.
pub open spec fn own(inp: ReportInput) -> bool {
    inp.session_id == inp.caller_id
}

/// Number of turns that the ledger may show.
pub open spec fn ledger_cap(inp: ReportInput) -> nat {
    match inp.max_turns {
        Some(n) => n as nat,
        None => DEFAULT_MAX_TURNS as nat,
    }
}

/// The ledger's line of turn `i`, where it has one.
pub open spec fn ledger_at(inp: ReportInput) -> spec_fn(int) -> Option<Seq<char>> {
    |i: int|
        if speaks(inp.turns@[i].1) && i < ledger_cap(inp) {
            Some(ledger_line(inp.turns@[i].0, inp.turns@[i].1, inp))
        } else {
            None
        }
}

/// Whether a turn calls tools and carries no reasoning field.
pub open spec fn bare_tool_turn(t: TurnRecord, inp: ReportInput) -> bool {
    t.tool_calls > 0 && !on_wire(t, inp.requires_rc)
}

/// The risk that turn `i` is: it calls tools, there is evidence of reasoning, and none is passed
/// back.
pub open spec fn risk_at(inp: ReportInput) -> spec_fn(int) -> Option<Seq<char>> {
    |i: int|
        {
            let t = inp.turns@[i].1;
            if speaks(t) && bare_tool_turn(t, inp) && (t.artifact is Some || t.has_reasoning) {
                Some(
                    "  t"@ + text::decimal(inp.turns@[i].0 as nat) + ": "@ + echo_label(t, inp)
                        + " (user: "@ + preview(sanitize::opt_view(t.user_text), own(inp)) + ")"@,
                )
            } else {
                None
            }
        }
}

/// The note on turn `i`: it calls tools and there is no evidence of reasoning at all.
pub open spec fn note_at(inp: ReportInput) -> spec_fn(int) -> Option<Seq<char>> {
    |i: int|
        {
            let t = inp.turns@[i].1;
            if speaks(t) && bare_tool_turn(t, inp) && t.artifact is None && !t.has_reasoning
                && !t.undone {
                Some(
                    "  t"@ + text::decimal(inp.turns@[i].0 as nat)
                        + ": tool call with no artifact and no displayed reasoning"@,
                )
            } else {
                None
            }
        }
}

/// The information on turn `i`: its reasoning is left out because the policy passes back only
/// that of tool turns.
pub open spec fn info_at(inp: ReportInput) -> spec_fn(int) -> Option<Seq<char>> {
    |i: int|
        {
            let t = inp.turns@[i].1;
            if speaks(t) && spoke(t) && t.tool_calls == 0 && !on_wire(t, inp.requires_rc)
                && t.artifact is Some && same_model(t, inp.resolution) && inp.passback
                == ReasoningPassback::ToolLoop {
                Some(
                    "  t"@ + text::decimal(inp.turns@[i].0 as nat)
                        + ": short answer with reasoning artifact — ToolLoop echoes only tool turns, so this turn is sent bare (harmless unless the provider requires an all-turns echo)"@,
                )
            } else {
                None
            }
        }
}

/// The raw reasoning of turn `i`, where it may be shown.
pub open spec fn raw_at(inp: ReportInput) -> spec_fn(int) -> Option<Seq<char>> {
    |i: int|
        {
            let t = inp.turns@[i].1;
            match t.artifact {
                Some(ReasoningArtifact::ChatReasoning { field, bytes }) if speaks(t) && own(inp)
                    && inp.include_raw => Some(
                    "  t"@ + text::decimal(inp.turns@[i].0 as nat) + " ["@ + field_name(field) + "]: "@
                        + shortened(bytes::utf8_lossy(bytes@), RAW_LEN as nat),
                ),
                _ => None,
            }
        }
}

/// The lines that `f` gives for 0 up to `n`.
pub open spec fn lines_of(n: nat, f: spec_fn(int) -> Option<Seq<char>>) -> Seq<Seq<char>>
    decreases n,
{
    if n == 0 {
        Seq::empty()
    } else {
        match f(n - 1) {
            Some(l) => lines_of((n - 1) as nat, f).push(l),
            None => lines_of((n - 1) as nat, f),
        }
    }
}

/// Number of `i` from 0 up to `n` for which `p` holds.
pub open spec fn count_of(n: nat, p: spec_fn(int) -> bool) -> nat
    decreases n,
{
    if n == 0 {
        0
    } else {
        count_of((n - 1) as nat, p) + (if p(n - 1) {
            1nat
        } else {
            0nat
        })
    }
}

/// Whether turn `i` carries the reasoning field.
pub open spec fn echo_at(inp: ReportInput) -> spec_fn(int) -> bool {
    |i: int| speaks(inp.turns@[i].1) && on_wire(inp.turns@[i].1, inp.requires_rc)
}

/// Whether turn `i` is sent, calls tools and carries no reasoning field.
pub open spec fn bare_at(inp: ReportInput) -> spec_fn(int) -> bool {
    |i: int|
        {
            let t = inp.turns@[i].1;
            speaks(t) && !t.undone && bare_tool_turn(t, inp)
        }
}

/// Whether message `i` is the assistant's.
pub open spec fn assistant_at(inp: ReportInput) -> spec_fn(int) -> bool {
    |i: int| inp.messages@[i].from_assistant
}

/// Whether message `i` is the assistant's and has the reasoning field.
pub open spec fn wire_rc_at(inp: ReportInput) -> spec_fn(int) -> bool {
    |i: int| inp.messages@[i].from_assistant && inp.messages@[i].has_reasoning_content
}

/// Whether message `i` is the assistant's, calls tools and lacks the reasoning field.
pub open spec fn wire_bare_at(inp: ReportInput) -> spec_fn(int) -> bool {
    |i: int|
        {
            let m = inp.messages@[i];
            m.from_assistant && m.tool_calls > 0 && !m.has_reasoning_content
        }
}

/// Whether a message says nothing at all: no content, no tool calls, no reasoning.
pub open spec fn says_nothing(m: WireMessage) -> bool {
    &&& match m.content {
        Some(c) => c@.len() == 0,
        None => true,
    }
    &&& m.tool_calls == 0
    &&& forall|k: int| 0 <= k < m.reasoning@.len() ==> (#[trigger] m.reasoning@[k])@.len() == 0
}

/// The line for message `i` where it is an assistant message that says nothing.
pub open spec fn empty_at(inp: ReportInput) -> spec_fn(int) -> Option<Seq<char>> {
    |i: int|
        if inp.messages@[i].from_assistant && says_nothing(inp.messages@[i]) {
            Some("  position "@ + text::decimal(i as nat) + ": \"must not be empty\" 400 candidate"@)
        } else {
            None
        }
}

/// A list of texts as a debug rendering shows it.
pub uninterp spec fn debug_list(items: Seq<Seq<char>>) -> Seq<char>;

/// A list of texts as a debug rendering shows it.
///
/// Calls the `Debug` implementation of `Vec<String>`; its rendering is named.
#[verifier::external_body]
fn debug_text(items: &Vec<String>) -> (s: String)
    ensures
        s@ == debug_list(text::views(items@)),
{
    format!("{items:?}")
}

/// An optional text, or a dash.
pub open spec fn or_dash(s: Option<String>) -> Seq<char> {
    match s {
        Some(t) => t@,
        None => "-"@,
    }
}

fn dash_or(s: &Option<String>) -> (r: String)
    ensures
        r@ == or_dash(*s),
{
    match s {
        Some(t) => t.clone(),
        None => "-".to_owned(),
    }
}

/// The head of a report: session, model, provider, record.
pub open spec fn report_head(inp: ReportInput) -> Seq<char> {
    "session_inspect: session "@ + text::decimal(inp.session_id as nat) + "\n"@ + "  model="@
        + inp.resolution.model@ + " (from: "@ + inp.resolution.model_source@ + ")\n"@
        + "  provider="@ + inp.resolution.provider@ + " (from: "@ + inp.resolution.provider_source@
        + ") passback="@ + passback_name(inp.passback) + "\n"@ + "  record: title="@ + or_dash(
        inp.record.title,
    ) + " working_dir="@ + or_dash(inp.record.working_dir) + " account="@ + or_dash(
        inp.record.account_name,
    ) + " groups="@ + debug_list(text::views(inp.record.active_tool_groups@)) + "\n"@
}

/// What the wire carries, and whether the ledger agrees.
pub open spec fn report_wire(inp: ReportInput) -> Seq<char> {
    let n = inp.messages@.len();
    let t = inp.turns@.len();
    let assistants = count_of(n, assistant_at(inp));
    let rc = count_of(n, wire_rc_at(inp));
    let bare = count_of(n, wire_bare_at(inp));
    let agrees = count_of(t, echo_at(inp)) == rc && count_of(t, bare_at(inp)) == bare;
    "  turns="@ + text::decimal(t) + " assistant_messages="@ + text::decimal(assistants)
        + " messages_on_wire="@ + text::decimal(n) + "\n\n"@
        + "  daemon guard warn_on_missing_reasoning_artifacts: "@ + text::decimal(
        inp.guard_problems as nat,
    ) + " problem(s)\n"@ + "  wire dry-run: "@ + text::decimal(rc) + "/"@ + text::decimal(assistants)
        + " assistant messages carry reasoning_content;\n"@ + "  "@ + text::decimal(bare)
        + " assistant tool-call message(s) carry NONE (provider-reject risk); ledger vs wire: "@ + (
    if agrees {
        "OK"@
    } else {
        "MISMATCH"@
    }) + "\n"@
}

/// A titled list, or another text where the list is empty.
pub open spec fn section(title: Seq<char>, lines: Seq<Seq<char>>, otherwise: Seq<char>) -> Seq<
    char,
> {
    if lines.len() == 0 {
        otherwise
    } else {
        title + text::join(lines, seq!['\n']) + "\n"@
    }
}

/// What the report finds.
pub open spec fn report_findings(inp: ReportInput) -> Seq<char> {
    let t = inp.turns@.len();
    section(
        "  empty assistant message(s) on the wire (\"must not be empty\" 400 candidates):\n"@,
        lines_of(inp.messages@.len(), empty_at(inp)),
        "  empty assistant message(s) on the wire: none\n"@,
    ) + "\n"@ + section(
        "RISK (tool-call turns with reasoning evidence but no wire echo — DeepSeek-style 400 candidates):\n"@,
        lines_of(t, risk_at(inp)),
        "RISK (tool-call turns with reasoning evidence but no wire echo): none\n"@,
    ) + section(
        "NOTE (tool calls with no reasoning evidence at all — unverifiable):\n"@,
        lines_of(t, note_at(inp)),
        Seq::empty(),
    ) + section(
        "INFO (policy-skips — expected under this passback policy):\n"@,
        lines_of(t, info_at(inp)),
        Seq::empty(),
    ) + section(
        "RAW reasoning (include_raw, own session):\n"@,
        lines_of(t, raw_at(inp)),
        Seq::empty(),
    )
}

/// The ledger.
pub open spec fn report_ledger(inp: ReportInput) -> Seq<char> {
    let t = inp.turns@.len();
    "\nper-turn ledger"@ + (if t > ledger_cap(inp) {
        " (first "@ + text::decimal(ledger_cap(inp)) + " of "@ + text::decimal(t) + ")"@
    } else {
        Seq::empty()
    }) + ":\n"@ + text::join(lines_of(t, ledger_at(inp)), seq!['\n']) + "\n"@
}

/// The whole report.
pub open spec fn report(inp: ReportInput) -> Seq<char> {
    report_head(inp) + report_wire(inp) + report_findings(inp) + report_ledger(inp)
}

fn bool_mark(b: bool, yes: &'static str, no: &'static str) -> (r: &'static str)
    ensures
        r@ == (if b {
            yes@
        } else {
            no@
        }),
{
    if b {
        yes
    } else {
        no
    }
}

fn is_same_model(t: &TurnRecord, r: &Resolution) -> (b: bool)
    ensures
        b == same_model(*t, *r),
{
    match &t.producer {
        Some(p) => same(&p.provider_slug, &r.provider) && same(&p.model, &r.model),
        None => false,
    }
}

/// Whether a turn's message carries the reasoning field.
pub fn carries_reasoning(t: &TurnRecord, requires_rc: bool) -> (b: bool)
    ensures
        b == on_wire(*t, requires_rc),
{
    !t.undone && (t.assistant_text.is_some() || t.tool_calls > 0) && ((t.include_artifact
        && t.artifact.is_some()) || requires_rc)
}

/// What becomes of a turn's reasoning, and why.
pub fn echo_of(t: &TurnRecord, inp: &ReportInput) -> (r: &'static str)
    ensures
        r@ == echo_label(*t, *inp),
{
    if !(t.assistant_text.is_some() || t.tool_calls > 0) {
        "n/a"
    } else if t.include_artifact && t.artifact.is_some() {
        "yes"
    } else if carries_reasoning(t, inp.requires_rc) {
        "yes(empty)"
    } else if !is_same_model(t, &inp.resolution) {
        "no:producer-mismatch"
    } else if t.artifact.is_none() {
        if t.has_reasoning {
            "no:reasoning-without-artifact"
        } else {
            "no:no-artifact"
        }
    } else {
        match inp.passback {
            ReasoningPassback::Never => "no:passback-none",
            ReasoningPassback::ResponseId => "no:passback-response-id",
            ReasoningPassback::ToolLoop => if t.tool_calls == 0 && t.tool_results == 0 {
                "no:tool-loop-skip"
            } else {
                "no:policy-drift"
            },
            _ => "no:policy-drift",
        }
    }
}

fn padded_decimal(n: u32, width: usize) -> (r: String)
    ensures
        r@ == padded(text::decimal(n as nat), width as nat),
{
    let mut s = String::new();
    push_decimal(&mut s, n as u64);
    assert(s@ =~= text::decimal(n as nat));
    let mut len: usize = s.as_str().unicode_len();
    while len < width
        invariant
            len == s@.len(),
            padded(s@, width as nat) == padded(text::decimal(n as nat), width as nat),
        decreases width - len,
    {
        let mut next = String::new();
        next.push(' ');
        next.append(s.as_str());
        assert(next@ =~= seq![' '] + s@);
        s = next;
        len = len + 1;
    }
    s
}

fn opt_byte_len(s: &Option<String>) -> (n: usize)
    ensures
        n == opt_len(*s),
{
    match s {
        Some(t) => byte_len(t),
        None => 0,
    }
}

fn ledger_row(id: u32, t: &TurnRecord, inp: &ReportInput) -> (r: String)
    ensures
        r@ == ledger_line(id, *t, *inp),
{
    let art = match &t.artifact {
        Some(a) => fmt_artifact(a),
        None => "-".to_owned(),
    };
    let prod = match &t.producer {
        Some(p) => {
            let mut s = p.provider_slug.clone();
            s.append("/");
            s.append(p.model.as_str());
            s
        },
        None => "-".to_owned(),
    };
    let mut out = "  t".to_owned();
    out.append(padded_decimal(id, 5).as_str());
    out.append(" [");
    out.append(bool_mark(t.undone, "U", "-"));
    out.append(bool_mark(t.has_error, "E", "-"));
    out.append("] u=");
    push_decimal(&mut out, opt_byte_len(&t.user_text) as u64);
    out.append(" a=");
    push_decimal(&mut out, opt_byte_len(&t.assistant_text) as u64);
    out.append(" tc=");
    push_decimal(&mut out, t.tool_calls as u64);
    out.append(" r=");
    push_decimal(&mut out, t.tool_results as u64);
    out.append(" art=");
    out.append(art.as_str());
    out.append(" prod=");
    out.append(prod.as_str());
    out.append(" same=");
    out.append(bool_mark(is_same_model(t, &inp.resolution), "y", "n"));
    out.append(" echo=");
    out.append(echo_of(t, inp));
    out
}

fn turn_line(id: u32) -> (r: String)
    ensures
        r@ == "  t"@ + text::decimal(id as nat),
{
    let mut out = "  t".to_owned();
    push_decimal(&mut out, id as u64);
    out
}

fn ledger_entry(inp: &ReportInput, i: usize) -> (r: Option<String>)
    requires
        i < inp.turns@.len(),
    ensures
        sanitize::opt_view(r) == ledger_at(*inp)(i as int),
{
    let (id, t) = &inp.turns[i];
    let cap: usize = match inp.max_turns {
        Some(n) => n,
        None => DEFAULT_MAX_TURNS,
    };
    if (t.user_text.is_some() || t.assistant_text.is_some() || t.tool_calls > 0) && i < cap {
        Some(ledger_row(*id, t, inp))
    } else {
        None
    }
}

fn as_opt_str(s: &Option<String>) -> (r: Option<&str>)
    ensures
        crate::paths::opt_str(r) == sanitize::opt_view(*s),
{
    match s {
        Some(t) => Some(t.as_str()),
        None => None,
    }
}

fn risk_entry(inp: &ReportInput, i: usize) -> (r: Option<String>)
    requires
        i < inp.turns@.len(),
    ensures
        sanitize::opt_view(r) == risk_at(*inp)(i as int),
{
    let (id, t) = &inp.turns[i];
    if t.tool_calls > 0 && !carries_reasoning(t, inp.requires_rc) && (t.artifact.is_some()
        || t.has_reasoning) {
        let mut out = turn_line(*id);
        out.append(": ");
        out.append(echo_of(t, inp));
        out.append(" (user: ");
        let shown = own_preview(as_opt_str(&t.user_text), inp.session_id == inp.caller_id);
        out.append(shown.as_str());
        out.append(")");
        Some(out)
    } else {
        None
    }
}

fn note_entry(inp: &ReportInput, i: usize) -> (r: Option<String>)
    requires
        i < inp.turns@.len(),
    ensures
        sanitize::opt_view(r) == note_at(*inp)(i as int),
{
    let (id, t) = &inp.turns[i];
    if t.tool_calls > 0 && !carries_reasoning(t, inp.requires_rc) && t.artifact.is_none()
        && !t.has_reasoning && !t.undone {
        let mut out = turn_line(*id);
        out.append(": tool call with no artifact and no displayed reasoning");
        Some(out)
    } else {
        None
    }
}

fn info_entry(inp: &ReportInput, i: usize) -> (r: Option<String>)
    requires
        i < inp.turns@.len(),
    ensures
        sanitize::opt_view(r) == info_at(*inp)(i as int),
{
    let (id, t) = &inp.turns[i];
    let tool_loop = match inp.passback {
        ReasoningPassback::ToolLoop => true,
        _ => false,
    };
    if t.assistant_text.is_some() && t.tool_calls == 0 && !carries_reasoning(t, inp.requires_rc)
        && t.artifact.is_some() && is_same_model(t, &inp.resolution) && tool_loop {
        let mut out = turn_line(*id);
        out.append(
            ": short answer with reasoning artifact — ToolLoop echoes only tool turns, so this turn is sent bare (harmless unless the provider requires an all-turns echo)",
        );
        Some(out)
    } else {
        None
    }
}

fn raw_entry(inp: &ReportInput, i: usize) -> (r: Option<String>)
    requires
        i < inp.turns@.len(),
    ensures
        sanitize::opt_view(r) == raw_at(*inp)(i as int),
{
    let (id, t) = &inp.turns[i];
    if !(t.user_text.is_some() || t.assistant_text.is_some() || t.tool_calls > 0)
        || inp.session_id != inp.caller_id || !inp.include_raw {
        return None;
    }
    match &t.artifact {
        Some(ReasoningArtifact::ChatReasoning { field, bytes }) => {
            let mut out = turn_line(*id);
            out.append(" [");
            out.append(fmt_field(field));
            out.append("]: ");
            let text = lossy_text(bytes.as_slice());
            let shown = truncate(text.as_str(), RAW_LEN);
            out.append(shown.as_str());
            Some(out)
        },
        _ => None,
    }
}

fn push_entry(lines: &mut Vec<String>, line: Option<String>)
    ensures
        text::views(final(lines)@) == (match sanitize::opt_view(line) {
            Some(l) => text::views(old(lines)@).push(l),
            None => text::views(old(lines)@),
        }),
{
    match line {
        Some(l) => {
            lines.push(l);
            assert(text::views(lines@) =~= text::views(old(lines)@).push(l@));
        },
        None => {},
    }
}

/// What the turns of a session come to.
pub struct TurnSummary {
    pub ledger: Vec<String>,
    pub risks: Vec<String>,
    pub notes: Vec<String>,
    pub infos: Vec<String>,
    pub raw: Vec<String>,
    /// Turns that carry the reasoning field.
    pub echoed: usize,
    /// Turns that are sent, call tools and carry no reasoning field.
    pub bare: usize,
}

/// Whether `s` is what the turns of `inp` before `n` come to.
pub open spec fn summarizes(s: TurnSummary, inp: ReportInput, n: nat) -> bool {
    &&& text::views(s.ledger@) == lines_of(n, ledger_at(inp))
    &&& text::views(s.risks@) == lines_of(n, risk_at(inp))
    &&& text::views(s.notes@) == lines_of(n, note_at(inp))
    &&& text::views(s.infos@) == lines_of(n, info_at(inp))
    &&& text::views(s.raw@) == lines_of(n, raw_at(inp))
    &&& s.echoed == count_of(n, echo_at(inp))
    &&& s.bare == count_of(n, bare_at(inp))
}

/// Goes through the turns of a session.
pub fn summarize_turns(inp: &ReportInput) -> (s: TurnSummary)
    ensures
        summarizes(s, *inp, inp.turns@.len()),
{
    let mut s = TurnSummary {
        ledger: Vec::new(),
        risks: Vec::new(),
        notes: Vec::new(),
        infos: Vec::new(),
        raw: Vec::new(),
        echoed: 0,
        bare: 0,
    };
    assert(text::views(s.ledger@) =~= Seq::empty());
    assert(text::views(s.risks@) =~= Seq::empty());
    assert(text::views(s.notes@) =~= Seq::empty());
    assert(text::views(s.infos@) =~= Seq::empty());
    assert(text::views(s.raw@) =~= Seq::empty());
    for i in 0..inp.turns.len()
        invariant
            summarizes(s, *inp, i as nat),
            s.echoed <= i,
            s.bare <= i,
    {
        push_entry(&mut s.ledger, ledger_entry(inp, i));
        push_entry(&mut s.risks, risk_entry(inp, i));
        push_entry(&mut s.notes, note_entry(inp, i));
        push_entry(&mut s.infos, info_entry(inp, i));
        push_entry(&mut s.raw, raw_entry(inp, i));
        let t = &inp.turns[i].1;
        if carries_reasoning(t, inp.requires_rc) {
            s.echoed = s.echoed + 1;
        } else if !t.undone && t.tool_calls > 0 {
            s.bare = s.bare + 1;
        }
    }
    s
}

/// What the messages that would be sent come to.
pub struct WireSummary {
    pub assistants: usize,
    /// Assistant messages with the reasoning field.
    pub with_reasoning: usize,
    /// Assistant messages that call tools and lack the reasoning field.
    pub bare: usize,
    /// A line for each assistant message that says nothing.
    pub empty: Vec<String>,
}

/// Whether `s` is what the messages of `inp` before `n` come to.
pub open spec fn tallies(s: WireSummary, inp: ReportInput, n: nat) -> bool {
    &&& s.assistants == count_of(n, assistant_at(inp))
    &&& s.with_reasoning == count_of(n, wire_rc_at(inp))
    &&& s.bare == count_of(n, wire_bare_at(inp))
    &&& text::views(s.empty@) == lines_of(n, empty_at(inp))
}

fn is_silent(m: &WireMessage) -> (b: bool)
    ensures
        b == says_nothing(*m),
{
    let content_empty = match &m.content {
        Some(c) => c.as_str().is_empty(),
        None => true,
    };
    if !content_empty || m.tool_calls > 0 {
        return false;
    }
    for k in 0..m.reasoning.len()
        invariant
            forall|j: int| 0 <= j < k ==> (#[trigger] m.reasoning@[j])@.len() == 0,
    {
        if !m.reasoning[k].as_str().is_empty() {
            return false;
        }
    }
    true
}

/// Goes through the messages that would be sent.
pub fn summarize_wire(inp: &ReportInput) -> (s: WireSummary)
    ensures
        tallies(s, *inp, inp.messages@.len()),
{
    let mut s = WireSummary { assistants: 0, with_reasoning: 0, bare: 0, empty: Vec::new() };
    assert(text::views(s.empty@) =~= Seq::empty());
    for i in 0..inp.messages.len()
        invariant
            tallies(s, *inp, i as nat),
            s.assistants <= i,
            s.with_reasoning <= i,
            s.bare <= i,
    {
        let m = &inp.messages[i];
        if m.from_assistant {
            s.assistants = s.assistants + 1;
            if m.has_reasoning_content {
                s.with_reasoning = s.with_reasoning + 1;
            } else if m.tool_calls > 0 {
                s.bare = s.bare + 1;
            }
            if is_silent(m) {
                let mut line = "  position ".to_owned();
                push_decimal(&mut line, i as u64);
                line.append(": \"must not be empty\" 400 candidate");
                push_entry(&mut s.empty, Some(line));
            }
        }
    }
    s
}

fn head_text(inp: &ReportInput) -> (r: String)
    ensures
        r@ == report_head(*inp),
{
    let mut out = "session_inspect: session ".to_owned();
    push_decimal(&mut out, inp.session_id);
    out.append("\n");
    out.append("  model=");
    out.append(inp.resolution.model.as_str());
    out.append(" (from: ");
    out.append(inp.resolution.model_source.as_str());
    out.append(")\n");
    out.append("  provider=");
    out.append(inp.resolution.provider.as_str());
    out.append(" (from: ");
    out.append(inp.resolution.provider_source.as_str());
    out.append(") passback=");
    out.append(inp.passback.name());
    out.append("\n");
    out.append("  record: title=");
    out.append(dash_or(&inp.record.title).as_str());
    out.append(" working_dir=");
    out.append(dash_or(&inp.record.working_dir).as_str());
    out.append(" account=");
    out.append(dash_or(&inp.record.account_name).as_str());
    out.append(" groups=");
    out.append(debug_text(&inp.record.active_tool_groups).as_str());
    out.append("\n");
    out
}

fn wire_text(inp: &ReportInput, turns: &TurnSummary, wire: &WireSummary) -> (r: String)
    requires
        summarizes(*turns, *inp, inp.turns@.len()),
        tallies(*wire, *inp, inp.messages@.len()),
    ensures
        r@ == report_wire(*inp),
{
    let agrees = turns.echoed == wire.with_reasoning && turns.bare == wire.bare;
    let mut out = "  turns=".to_owned();
    push_decimal(&mut out, inp.turns.len() as u64);
    out.append(" assistant_messages=");
    push_decimal(&mut out, wire.assistants as u64);
    out.append(" messages_on_wire=");
    push_decimal(&mut out, inp.messages.len() as u64);
    out.append("\n\n");
    out.append("  daemon guard warn_on_missing_reasoning_artifacts: ");
    push_decimal(&mut out, inp.guard_problems as u64);
    out.append(" problem(s)\n");
    out.append("  wire dry-run: ");
    push_decimal(&mut out, wire.with_reasoning as u64);
    out.append("/");
    push_decimal(&mut out, wire.assistants as u64);
    out.append(" assistant messages carry reasoning_content;\n");
    out.append("  ");
    push_decimal(&mut out, wire.bare as u64);
    out.append(
        " assistant tool-call message(s) carry NONE (provider-reject risk); ledger vs wire: ",
    );
    out.append(bool_mark(agrees, "OK", "MISMATCH"));
    out.append("\n");
    out
}

fn section_text(title: &str, lines: &Vec<String>, otherwise: &str) -> (r: String)
    ensures
        r@ == section(title@, text::views(lines@), otherwise@),
{
    if lines.len() == 0 {
        otherwise.to_owned()
    } else {
        let mut out = title.to_owned();
        out.append(join_lines(lines).as_str());
        out.append("\n");
        out
    }
}

fn findings_text(inp: &ReportInput, turns: &TurnSummary, wire: &WireSummary) -> (r: String)
    requires
        summarizes(*turns, *inp, inp.turns@.len()),
        tallies(*wire, *inp, inp.messages@.len()),
    ensures
        r@ == report_findings(*inp),
{
    proof {
        reveal_strlit("");
        assert(""@ =~= Seq::<char>::empty());
    }
    let mut out = section_text(
        "  empty assistant message(s) on the wire (\"must not be empty\" 400 candidates):\n",
        &wire.empty,
        "  empty assistant message(s) on the wire: none\n",
    );
    out.append("\n");
    out.append(
        section_text(
            "RISK (tool-call turns with reasoning evidence but no wire echo — DeepSeek-style 400 candidates):\n",
            &turns.risks,
            "RISK (tool-call turns with reasoning evidence but no wire echo): none\n",
        ).as_str(),
    );
    out.append(
        section_text(
            "NOTE (tool calls with no reasoning evidence at all — unverifiable):\n",
            &turns.notes,
            "",
        ).as_str(),
    );
    out.append(
        section_text(
            "INFO (policy-skips — expected under this passback policy):\n",
            &turns.infos,
            "",
        ).as_str(),
    );
    out.append(
        section_text("RAW reasoning (include_raw, own session):\n", &turns.raw, "").as_str(),
    );
    out
}

fn ledger_text(inp: &ReportInput, turns: &TurnSummary) -> (r: String)
    requires
        summarizes(*turns, *inp, inp.turns@.len()),
    ensures
        r@ == report_ledger(*inp),
{
    let cap: usize = match inp.max_turns {
        Some(n) => n,
        None => DEFAULT_MAX_TURNS,
    };
    let mut shown = String::new();
    if inp.turns.len() > cap {
        let mut note = " (first ".to_owned();
        push_decimal(&mut note, cap as u64);
        note.append(" of ");
        push_decimal(&mut note, inp.turns.len() as u64);
        note.append(")");
        shown = note;
    }
    let mut out = "\nper-turn ledger".to_owned();
    out.append(shown.as_str());
    out.append(":\n");
    out.append(join_lines(&turns.ledger).as_str());
    out.append("\n");
    out
}

/// Makes the report.
pub fn build_report(inp: &ReportInput) -> (r: String)
    ensures
        r@ == report(*inp),
{
    let turns = summarize_turns(inp);
    let wire = summarize_wire(inp);
    let mut out = head_text(inp);
    out.append(wire_text(inp, &turns, &wire).as_str());
    out.append(findings_text(inp, &turns, &wire).as_str());
    out.append(ledger_text(inp, &turns).as_str());
    out
}

/// A short text on a call.
pub fn describe_session_inspect(args: &SessionInspectArgs) -> (r: String)
    ensures
        r@ == (match args.session_id {
            Some(id) => "Inspecting session "@ + text::decimal(id as nat) + " reasoning-echo status."@,
            None => "Inspecting current session reasoning-echo status."@,
        }),
{
    match args.session_id {
        Some(id) => {
            let mut out = "Inspecting session ".to_owned();
            push_decimal(&mut out, id);
            out.append(" reasoning-echo status.");
            out
        },
        None => "Inspecting current session reasoning-echo status.".to_owned(),
    }
}

/// Whether two turns differ at most in what their texts and artifacts say.
pub open spec fn same_shape(t: TurnRecord, u: TurnRecord) -> bool {
    &&& t.undone == u.undone
    &&& t.has_error == u.has_error
    &&& t.user_text is Some == u.user_text is Some
    &&& opt_len(t.user_text) == opt_len(u.user_text)
    &&& t.assistant_text is Some == u.assistant_text is Some
    &&& opt_len(t.assistant_text) == opt_len(u.assistant_text)
    &&& t.has_reasoning == u.has_reasoning
    &&& t.tool_calls == u.tool_calls
    &&& t.tool_results == u.tool_results
    &&& t.producer == u.producer
    &&& t.include_artifact == u.include_artifact
    &&& match (t.artifact, u.artifact) {
        (Some(a), Some(b)) => artifact_label(a) == artifact_label(b),
        (None, None) => true,
        _ => false,
    }
}

/// Whether two inputs differ at most in what texts and artifacts say, and in whether raw
/// reasoning is asked for.
pub open spec fn same_outline(a: ReportInput, b: ReportInput) -> bool {
    &&& a.session_id == b.session_id
    &&& a.caller_id == b.caller_id
    &&& a.max_turns == b.max_turns
    &&& a.resolution == b.resolution
    &&& a.passback == b.passback
    &&& a.requires_rc == b.requires_rc
    &&& a.record == b.record
    &&& a.guard_problems == b.guard_problems
    &&& a.turns@.len() == b.turns@.len()
    &&& forall|i: int|
        0 <= i < a.turns@.len() ==> (#[trigger] a.turns@[i]).0 == b.turns@[i].0 && same_shape(
            a.turns@[i].1,
            b.turns@[i].1,
        )
    &&& a.messages@.len() == b.messages@.len()
    &&& forall|i: int|
        0 <= i < a.messages@.len() ==> {
            let m = #[trigger] a.messages@[i];
            let n = b.messages@[i];
            &&& m.from_assistant == n.from_assistant
            &&& m.has_reasoning_content == n.has_reasoning_content
            &&& m.tool_calls == n.tool_calls
            &&& says_nothing(m) == says_nothing(n)
        }
}

proof fn lemma_lines_agree(
    n: nat,
    f: spec_fn(int) -> Option<Seq<char>>,
    g: spec_fn(int) -> Option<Seq<char>>,
)
    requires
        forall|i: int| 0 <= i < n ==> #[trigger] f(i) == g(i),
    ensures
        lines_of(n, f) == lines_of(n, g),
    decreases n,
{
    if n > 0 {
        lemma_lines_agree((n - 1) as nat, f, g);
        assert(f(n - 1) == g(n - 1));
    }
}

proof fn lemma_counts_agree(n: nat, p: spec_fn(int) -> bool, q: spec_fn(int) -> bool)
    requires
        forall|i: int| 0 <= i < n ==> #[trigger] p(i) == q(i),
    ensures
        count_of(n, p) == count_of(n, q),
    decreases n,
{
    if n > 0 {
        lemma_counts_agree((n - 1) as nat, p, q);
        assert(p(n - 1) == q(n - 1));
    }
}

/// What a report says of another session does not depend on what is said in it: only on the
/// lengths of texts and the sizes of artifacts, whether raw reasoning is asked for or not.
pub proof fn law_foreign_report_shows_no_text(a: ReportInput, b: ReportInput)
    requires
        same_outline(a, b),
        !own(a),
    ensures
        report(a) == report(b),
{
    lemma_outline_decides(a, b);
}

/// In a report on the calling session, raw reasoning is shown only where it is asked for: without
/// that, two sessions with the same user texts have the same report whatever their artifacts hold.
pub proof fn law_raw_reasoning_only_on_request(a: ReportInput, b: ReportInput)
    requires
        same_outline(a, b),
        !a.include_raw,
        !b.include_raw,
        forall|i: int|
            0 <= i < a.turns@.len() ==> sanitize::opt_view((#[trigger] a.turns@[i]).1.user_text) == sanitize::opt_view(
                b.turns@[i].1.user_text,
            ),
    ensures
        report(a) == report(b),
{
    lemma_outline_decides(a, b);
}

proof fn lemma_outline_decides(a: ReportInput, b: ReportInput)
    requires
        same_outline(a, b),
        !own(a) || (!a.include_raw && !b.include_raw && forall|i: int|
            0 <= i < a.turns@.len() ==> sanitize::opt_view((#[trigger] a.turns@[i]).1.user_text) == sanitize::opt_view(
                b.turns@[i].1.user_text,
            )),
    ensures
        report(a) == report(b),
{
    let t = a.turns@.len();
    let n = a.messages@.len();
    assert forall|i: int| 0 <= i < t implies #[trigger] ledger_at(a)(i) == ledger_at(b)(i) by {
        assert(same_shape(a.turns@[i].1, b.turns@[i].1));
    }
    assert forall|i: int| 0 <= i < t implies #[trigger] risk_at(a)(i) == risk_at(b)(i) by {
        assert(same_shape(a.turns@[i].1, b.turns@[i].1));
    }
    assert forall|i: int| 0 <= i < t implies #[trigger] note_at(a)(i) == note_at(b)(i) by {
        assert(same_shape(a.turns@[i].1, b.turns@[i].1));
    }
    assert forall|i: int| 0 <= i < t implies #[trigger] info_at(a)(i) == info_at(b)(i) by {
        assert(same_shape(a.turns@[i].1, b.turns@[i].1));
    }
    assert forall|i: int| 0 <= i < t implies #[trigger] raw_at(a)(i) == raw_at(b)(i) by {}
    assert forall|i: int| 0 <= i < t implies #[trigger] echo_at(a)(i) == echo_at(b)(i) by {
        assert(same_shape(a.turns@[i].1, b.turns@[i].1));
    }
    assert forall|i: int| 0 <= i < t implies #[trigger] bare_at(a)(i) == bare_at(b)(i) by {
        assert(same_shape(a.turns@[i].1, b.turns@[i].1));
    }
    lemma_lines_agree(t, ledger_at(a), ledger_at(b));
    lemma_lines_agree(t, risk_at(a), risk_at(b));
    lemma_lines_agree(t, note_at(a), note_at(b));
    lemma_lines_agree(t, info_at(a), info_at(b));
    lemma_lines_agree(t, raw_at(a), raw_at(b));
    lemma_counts_agree(t, echo_at(a), echo_at(b));
    lemma_counts_agree(t, bare_at(a), bare_at(b));
    lemma_counts_agree(n, assistant_at(a), assistant_at(b));
    lemma_counts_agree(n, wire_rc_at(a), wire_rc_at(b));
    lemma_counts_agree(n, wire_bare_at(a), wire_bare_at(b));
    lemma_lines_agree(n, empty_at(a), empty_at(b));
    assert(report_head(a) == report_head(b));
    assert(report_wire(a) == report_wire(b));
    assert(report_findings(a) == report_findings(b));
    assert(report_ledger(a) == report_ledger(b));
}

/// The ledger never has more lines than turns are asked for.
pub proof fn law_ledger_is_capped(inp: ReportInput)
    ensures
        lines_of(inp.turns@.len(), ledger_at(inp)).len() <= ledger_cap(inp),
{
    lemma_ledger_len(inp, inp.turns@.len());
}

proof fn lemma_ledger_len(inp: ReportInput, n: nat)
    ensures
        lines_of(n, ledger_at(inp)).len() <= n,
        lines_of(n, ledger_at(inp)).len() <= ledger_cap(inp),
    decreases n,
{
    if n > 0 {
        lemma_ledger_len(inp, (n - 1) as nat);
    }
}

proof fn lemma_ledger_prefix(a: ReportInput, b: ReportInput, n: nat)
    requires
        b == (ReportInput { max_turns: b.max_turns, ..a }),
        ledger_cap(a) <= ledger_cap(b),
        n <= a.turns@.len(),
    ensures
        ({
            let short = lines_of(n, ledger_at(a));
            let long = lines_of(n, ledger_at(b));
            &&& short.len() <= long.len()
            &&& long.take(short.len() as int) == short
            &&& n <= ledger_cap(a) ==> short == long
        }),
    decreases n,
{
    if n > 0 {
        lemma_ledger_prefix(a, b, (n - 1) as nat);
        let short = lines_of((n - 1) as nat, ledger_at(a));
        let long = lines_of((n - 1) as nat, ledger_at(b));
        assert(echo_label(a.turns@[n - 1].1, a) == echo_label(b.turns@[n - 1].1, b));
        assert(lines_of(n, ledger_at(b)).take(short.len() as int) =~= long.take(
            short.len() as int,
        ));
        assert(lines_of(n, ledger_at(a)).take(lines_of(n, ledger_at(a)).len() as int) =~= lines_of(
            n,
            ledger_at(a),
        ));
    } else {
        assert(lines_of(0, ledger_at(b)).take(0) =~= lines_of(0, ledger_at(a)));
    }
}

/// How many turns are asked for only shortens the ledger. Two reports that differ in nothing else
/// agree up to it, since every count and every finding covers all turns; the lines of the shorter
/// ledger are the first of the longer one, no more of them than turns are asked for; and its
/// heading says that it is cut exactly where there are more turns than that.
pub proof fn law_cap_only_shortens_the_ledger(a: ReportInput, b: ReportInput)
    requires
        b == (ReportInput { max_turns: b.max_turns, ..a }),
        ledger_cap(a) <= ledger_cap(b),
    ensures
        ({
            let t = a.turns@.len();
            let before = report_head(a) + report_wire(a) + report_findings(a);
            let short = lines_of(t, ledger_at(a));
            let long = lines_of(t, ledger_at(b));
            &&& report(a) == before + report_ledger(a)
            &&& report(b) == before + report_ledger(b)
            &&& short.len() <= long.len()
            &&& long.take(short.len() as int) == short
            &&& short.len() <= ledger_cap(a)
            &&& report_ledger(a) == "\nper-turn ledger"@ + (if t > ledger_cap(a) {
                " (first "@ + text::decimal(ledger_cap(a)) + " of "@ + text::decimal(t) + ")"@
            } else {
                Seq::empty()
            }) + ":\n"@ + text::join(short, seq!['\n']) + "\n"@
        }),
{
    let t = a.turns@.len();
    let n = a.messages@.len();
    lemma_ledger_prefix(a, b, t);
    law_ledger_is_capped(a);
    assert forall|i: int| 0 <= i < t implies #[trigger] risk_at(a)(i) == risk_at(b)(i) by {
        assert(echo_label(a.turns@[i].1, a) == echo_label(b.turns@[i].1, b));
    }
    lemma_lines_agree(t, risk_at(a), risk_at(b));
    lemma_lines_agree(t, note_at(a), note_at(b));
    lemma_lines_agree(t, info_at(a), info_at(b));
    lemma_lines_agree(t, raw_at(a), raw_at(b));
    lemma_counts_agree(t, echo_at(a), echo_at(b));
    lemma_counts_agree(t, bare_at(a), bare_at(b));
    lemma_counts_agree(n, assistant_at(a), assistant_at(b));
    lemma_counts_agree(n, wire_rc_at(a), wire_rc_at(b));
    lemma_counts_agree(n, wire_bare_at(a), wire_bare_at(b));
    lemma_lines_agree(n, empty_at(a), empty_at(b));
    assert(report_head(a) == report_head(b));
    assert(report_wire(a) == report_wire(b));
    assert(report_findings(a) == report_findings(b));
}

/// No turn that is sent, calls tools and carries no reasoning goes unreported: each is a risk or
/// a note.
pub proof fn law_bare_tool_turns_are_reported(inp: ReportInput, n: nat)
    requires
        n <= inp.turns@.len(),
    ensures
        count_of(n, bare_at(inp)) <= lines_of(n, risk_at(inp)).len() + lines_of(
            n,
            note_at(inp),
        ).len(),
    decreases n,
{
    if n > 0 {
        law_bare_tool_turns_are_reported(inp, (n - 1) as nat);
    }
}

/// Where the model wants the reasoning field on every message, no turn that is sent is bare.
pub proof fn law_required_field_leaves_no_bare_turn(inp: ReportInput, n: nat)
    requires
        n <= inp.turns@.len(),
        inp.requires_rc,
    ensures
        count_of(n, bare_at(inp)) == 0,
        lines_of(n, note_at(inp)).len() == 0,
    decreases n,
{
    if n > 0 {
        law_required_field_leaves_no_bare_turn(inp, (n - 1) as nat);
    }
}

} // verus!
