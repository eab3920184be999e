//! What `session_inspect` is for: every turn that is sent is accounted for, with what it says and
//! what becomes of its reasoning, and the numbers of a report are numbers of turns and messages.

use crate::bytes;
use crate::matching;
use crate::order;
use crate::session_inspect::{ReasoningArtifact, ReportInput, TurnRecord, WireMessage};
use crate::session_inspect;
use crate::text;
use vstd::prelude::*;
use vstd::string::*;
use vstd::utf8::*;

verus! {

/// A preview shows the first 120 characters of a message of the calling session, all of them where
/// there are no more, and nothing of another session's.
pub proof fn law_preview_is_the_beginning(t: Seq<char>)
    ensures
        t.len() <= 120 ==> session_inspect::preview(Some(t), true) == t,
        t.len() > 120 ==> session_inspect::preview(Some(t), true) == t.take(120).push('…'),
        session_inspect::preview(Some(t), false) == seq!['-'],
        session_inspect::preview(None, true) == seq!['-'],
{
    reveal_strlit("…");
    reveal_strlit("-");
    assert("-"@ =~= seq!['-']);
    if t.len() > 120 {
        assert(session_inspect::preview(Some(t), true) =~= t.take(120).push('…'));
    }
}

/// A count is the number of those that are counted.
proof fn lemma_count_is_filter<A>(s: Seq<A>, p: spec_fn(A) -> bool, f: spec_fn(int) -> bool, n: nat)
    requires
        n <= s.len(),
        forall|i: int| 0 <= i < s.len() ==> #[trigger] f(i) == p(s[i]),
    ensures
        session_inspect::count_of(n, f) == s.take(n as int).filter(p).len(),
    decreases n,
{
    reveal(Seq::filter);
    if n > 0 {
        lemma_count_is_filter(s, p, f, (n - 1) as nat);
        let t = s.take(n as int);
        assert(t.drop_last() =~= s.take(n - 1));
        assert(t.last() == s[n - 1]);
        assert(f(n - 1) == p(s[n - 1]));
    } else {
        assert(s.take(0).len() == 0);
    }
}

/// The numbers of messages in a report are those of the assistant's messages, of those among them
/// that carry reasoning, and of those that call tools without it.
pub proof fn law_messages_are_counted(inp: ReportInput)
    ensures
        ({
            let n = inp.messages@.len();
            &&& session_inspect::count_of(n, session_inspect::assistant_at(inp))
                == inp.messages@.filter(|m: WireMessage| m.from_assistant).len()
            &&& session_inspect::count_of(n, session_inspect::wire_rc_at(inp)) == inp.messages@.filter(
                |m: WireMessage| m.from_assistant && m.has_reasoning_content,
            ).len()
            &&& session_inspect::count_of(n, session_inspect::wire_bare_at(inp))
                == inp.messages@.filter(
                |m: WireMessage| m.from_assistant && m.tool_calls > 0 && !m.has_reasoning_content,
            ).len()
        }),
{
    let s = inp.messages@;
    let n = s.len();
    assert(s.take(n as int) =~= s);
    lemma_count_is_filter(
        s,
        |m: WireMessage| m.from_assistant,
        session_inspect::assistant_at(inp),
        n,
    );
    lemma_count_is_filter(
        s,
        |m: WireMessage| m.from_assistant && m.has_reasoning_content,
        session_inspect::wire_rc_at(inp),
        n,
    );
    lemma_count_is_filter(
        s,
        |m: WireMessage| m.from_assistant && m.tool_calls > 0 && !m.has_reasoning_content,
        session_inspect::wire_bare_at(inp),
        n,
    );
}

/// Whether the assistant answered in a turn that was not undone, with a text or with tool calls.
pub open spec fn answers(t: TurnRecord) -> bool {
    !t.undone && (t.assistant_text is Some || t.tool_calls > 0)
}

/// Whether the message of a turn carries reasoning: its own, where it is passed back, or an empty
/// field, where the model wants one.
pub open spec fn carries(t: TurnRecord, inp: ReportInput) -> bool {
    answers(t) && ((t.include_artifact && t.artifact is Some) || inp.requires_rc)
}

/// The numbers of turns that a report holds against the messages are those of the turns whose
/// message carries reasoning, and of those that call tools without it.
pub proof fn law_turns_are_counted(inp: ReportInput)
    ensures
        ({
            let n = inp.turns@.len();
            &&& session_inspect::count_of(n, session_inspect::echo_at(inp)) == inp.turns@.filter(
                |t: (u32, TurnRecord)| carries(t.1, inp),
            ).len()
            &&& session_inspect::count_of(n, session_inspect::bare_at(inp)) == inp.turns@.filter(
                |t: (u32, TurnRecord)| !t.1.undone && t.1.tool_calls > 0 && !carries(t.1, inp),
            ).len()
        }),
{
    let s = inp.turns@;
    let n = s.len();
    assert(s.take(n as int) =~= s);
    lemma_count_is_filter(
        s,
        |t: (u32, TurnRecord)| carries(t.1, inp),
        session_inspect::echo_at(inp),
        n,
    );
    lemma_count_is_filter(
        s,
        |t: (u32, TurnRecord)| !t.1.undone && t.1.tool_calls > 0 && !carries(t.1, inp),
        session_inspect::bare_at(inp),
        n,
    );
}

/// What a list of lines holds: those of each place that has one, and no others.
proof fn lemma_lines_hold(n: nat, f: spec_fn(int) -> Option<Seq<char>>, l: Seq<char>)
    ensures
        session_inspect::lines_of(n, f).contains(l) <==> exists|i: int|
            0 <= i < n && #[trigger] f(i) == Some(l),
    decreases n,
{
    if n > 0 {
        let before = session_inspect::lines_of((n - 1) as nat, f);
        let all = session_inspect::lines_of(n, f);
        lemma_lines_hold((n - 1) as nat, f, l);
        if before.contains(l) {
            let k = choose|k: int| 0 <= k < before.len() && before[k] == l;
            assert(all[k] == l);
        }
        if f(n - 1) == Some(l) {
            assert(all[all.len() - 1] == l);
        }
        if all.contains(l) {
            let k = choose|k: int| 0 <= k < all.len() && all[k] == l;
            if k < before.len() {
                assert(before[k] == l);
            }
        }
        if exists|i: int| 0 <= i < n && #[trigger] f(i) == Some(l) {
            let i = choose|i: int| 0 <= i < n && #[trigger] f(i) == Some(l);
            if i < n - 1 {
                assert(0 <= i < n - 1 && f(i) == Some(l));
            }
        }
    }
}

/// A turn that calls tools, that shows reasoning or holds some, and whose message carries none is
/// reported as a risk, under its number and with its user's words.
pub proof fn law_risks_are_reported(inp: ReportInput, i: int)
    requires
        0 <= i < inp.turns@.len(),
        ({
            let t = inp.turns@[i].1;
            t.tool_calls > 0 && (t.artifact is Some || t.has_reasoning) && !carries(t, inp)
        }),
    ensures
        exists|l: Seq<char>|
            session_inspect::lines_of(inp.turns@.len(), session_inspect::risk_at(inp)).contains(l)
                && #[trigger] ("  t"@ + text::decimal(inp.turns@[i].0 as nat)
                + ": "@).is_prefix_of(l) && (inp.session_id == inp.caller_id && (
            inp.turns@[i].1.user_text matches Some(u) && u@.len() <= 120) ==> (" (user: "@
                + inp.turns@[i].1.user_text->0@ + ")"@).is_suffix_of(l)),
{
    let f = session_inspect::risk_at(inp);
    let t = inp.turns@[i].1;
    let l = f(i)->0;
    assert(f(i) == Some(l));
    lemma_lines_hold(inp.turns@.len(), f, l);
    let head = "  t"@ + text::decimal(inp.turns@[i].0 as nat) + ": "@;
    assert(l.take(head.len() as int) =~= head);
    assert(head.is_prefix_of(l));
    if inp.session_id == inp.caller_id && (t.user_text matches Some(u) && u@.len() <= 120) {
        let end = " (user: "@ + t.user_text->0@ + ")"@;
        assert(l.skip(l.len() - end.len()) =~= end);
        assert(end.is_suffix_of(l));
    }
    assert(session_inspect::lines_of(inp.turns@.len(), f).contains(l));
}

/// Only such turns are reported as risks.
pub proof fn law_only_risks_are_reported(inp: ReportInput, l: Seq<char>)
    requires
        session_inspect::lines_of(inp.turns@.len(), session_inspect::risk_at(inp)).contains(l),
    ensures
        exists|i: int|
            0 <= i < inp.turns@.len() && {
                let t = (#[trigger] inp.turns@[i]).1;
                t.tool_calls > 0 && (t.artifact is Some || t.has_reasoning) && !carries(t, inp)
            },
{
    let f = session_inspect::risk_at(inp);
    lemma_lines_hold(inp.turns@.len(), f, l);
    let i = choose|i: int| 0 <= i < inp.turns@.len() && #[trigger] f(i) == Some(l);
    assert(0 <= i < inp.turns@.len() && f(i) is Some);
    let t = inp.turns@[i];
}

/// Every turn within the cap in which somebody spoke has its line in the ledger.
pub proof fn law_turns_are_in_the_ledger(inp: ReportInput, i: int)
    requires
        0 <= i < inp.turns@.len(),
        inp.max_turns matches Some(n) ==> i < n,
        inp.max_turns is None ==> i < 512,
        inp.turns@[i].1.user_text is Some || inp.turns@[i].1.assistant_text is Some
            || inp.turns@[i].1.tool_calls > 0,
    ensures
        session_inspect::lines_of(inp.turns@.len(), session_inspect::ledger_at(inp)).contains(
            session_inspect::ledger_line(inp.turns@[i].0, inp.turns@[i].1, inp),
        ),
{
    let f = session_inspect::ledger_at(inp);
    let l = session_inspect::ledger_line(inp.turns@[i].0, inp.turns@[i].1, inp);
    assert(f(i) == Some(l));
    lemma_lines_hold(inp.turns@.len(), f, l);
}

/// Number of bytes of a text, none where there is no text.
pub open spec fn bytes_of(s: Option<String>) -> nat {
    match s {
        Some(t) => encode_utf8(t@).len(),
        None => 0,
    }
}

/// The line of a turn says its number, whether it was undone or failed, how long the user's and the
/// assistant's words are, and how many calls and results it holds, in this order.
pub proof fn law_ledger_line_says_what_happened(id: u32, t: TurnRecord, inp: ReportInput)
    ensures
        exists|a: Seq<char>, b: Seq<char>|
            session_inspect::ledger_line(id, t, inp) == #[trigger] (a + text::decimal(id as nat)
                + " ["@) + (if t.undone {
                seq!['U']
            } else {
                seq!['-']
            }) + (if t.has_error {
                seq!['E']
            } else {
                seq!['-']
            }) + "] u="@ + text::decimal(bytes_of(t.user_text)) + " a="@ + text::decimal(
                bytes_of(t.assistant_text),
            ) + " tc="@ + text::decimal(t.tool_calls as nat) + " r="@ + text::decimal(
                t.tool_results as nat,
            ) + #[trigger] (" art="@ + b),
{
    lemma_padded(text::decimal(id as nat), 5);
    let pad = choose|pad: Seq<char>|
        session_inspect::padded(text::decimal(id as nat), 5) == #[trigger] (pad + text::decimal(
            id as nat,
        ));
    let a = "  t"@ + pad;
    let number = text::decimal(id as nat);
    reveal_strlit("U");
    reveal_strlit("E");
    reveal_strlit("-");
    assert("U"@ =~= seq!['U']);
    assert("E"@ =~= seq!['E']);
    assert("-"@ =~= seq!['-']);
    assert("  t"@ + session_inspect::padded(number, 5) + " ["@ =~= a + number + " ["@);
    let x = (a + number + " ["@) + (if t.undone {
        seq!['U']
    } else {
        seq!['-']
    }) + (if t.has_error {
        seq!['E']
    } else {
        seq!['-']
    }) + "] u="@ + text::decimal(bytes_of(t.user_text)) + " a="@ + text::decimal(
        bytes_of(t.assistant_text),
    ) + " tc="@ + text::decimal(t.tool_calls as nat) + " r="@ + text::decimal(
        t.tool_results as nat,
    );
    let p = match t.artifact {
        Some(z) => session_inspect::artifact_label(z),
        None => "-"@,
    };
    let q = match t.producer {
        Some(z) => z.provider_slug@ + "/"@ + z.model@,
        None => "-"@,
    };
    let r = if session_inspect::same_model(t, inp.resolution) {
        "y"@
    } else {
        "n"@
    };
    let e = session_inspect::echo_label(t, inp);
    lemma_line_end(x, p, q, r, e);
    assert(session_inspect::ledger_line(id, t, inp) == x + " art="@ + p + " prod="@ + q + " same="@
        + r + " echo="@ + e);
    let b = p + " prod="@ + q + " same="@ + r + " echo="@ + e;
    assert(session_inspect::ledger_line(id, t, inp) == x + (" art="@ + b));
}

proof fn lemma_line_end(x: Seq<char>, p: Seq<char>, q: Seq<char>, r: Seq<char>, e: Seq<char>)
    ensures
        x + " art="@ + p + " prod="@ + q + " same="@ + r + " echo="@ + e == x + (" art="@ + (p
            + " prod="@ + q + " same="@ + r + " echo="@ + e)),
{
    assert(x + " art="@ + p + " prod="@ + q + " same="@ + r + " echo="@ + e =~= x + (" art="@ + (p
        + " prod="@ + q + " same="@ + r + " echo="@ + e)));
}

proof fn lemma_padded(s: Seq<char>, width: nat)
    ensures
        exists|pad: Seq<char>| session_inspect::padded(s, width) == #[trigger] (pad + s),
    decreases width - s.len(),
{
    if s.len() >= width {
        assert(Seq::<char>::empty() + s =~= s);
    } else {
        lemma_padded(seq![' '] + s, width);
        let pad = choose|pad: Seq<char>|
            session_inspect::padded(seq![' '] + s, width) == #[trigger] (pad + (seq![' '] + s));
        assert(pad + (seq![' '] + s) =~= (pad + seq![' ']) + s);
    }
}

/// What the ledger says becomes of a turn's reasoning: passed back where it is, an empty field where
/// the model wants one, and else not; and where only the model differs, that is the reason.
pub proof fn law_echo_says_what_is_sent(t: TurnRecord, inp: ReportInput)
    requires
        answers(t),
    ensures
        t.include_artifact && t.artifact is Some ==> session_inspect::echo_label(t, inp) == "yes"@,
        !(t.include_artifact && t.artifact is Some) && inp.requires_rc
            ==> session_inspect::echo_label(t, inp) == "yes(empty)"@,
        !carries(t, inp) && !(t.producer matches Some(p) && p.provider_slug@
            == inp.resolution.provider@ && p.model@ == inp.resolution.model@)
            ==> session_inspect::echo_label(t, inp) == "no:producer-mismatch"@,
        !carries(t, inp) && (t.producer matches Some(p) && p.provider_slug@
            == inp.resolution.provider@ && p.model@ == inp.resolution.model@) && t.artifact is None
            ==> session_inspect::echo_label(t, inp) == (if t.has_reasoning {
            "no:reasoning-without-artifact"@
        } else {
            "no:no-artifact"@
        }),
{
}

/// What is asked for comes before what the session has, and that before what its turns suggest.
pub proof fn law_model_and_provider_are_chosen(
    arg: Option<Seq<char>>,
    selected: Option<Seq<char>>,
    dominant: Option<(Seq<char>, Seq<char>)>,
    catalog: Option<Seq<char>>,
)
    ensures
        arg is Some ==> session_inspect::resolved_model(arg, selected, dominant).0 == arg->0
            && session_inspect::resolved_provider(arg, dominant, catalog).0 == arg->0,
        arg is None && selected is Some ==> session_inspect::resolved_model(
            arg,
            selected,
            dominant,
        ).0 == selected->0,
        arg is None && selected is None && dominant is Some ==> session_inspect::resolved_model(
            arg,
            selected,
            dominant,
        ).0 == (dominant->0).1,
        arg is None && dominant is Some && (dominant->0).0.len() > 0
            ==> session_inspect::resolved_provider(arg, dominant, catalog).0 == (dominant->0).0,
        arg is None && dominant is None && catalog is Some ==> session_inspect::resolved_provider(
            arg,
            dominant,
            catalog,
        ).0 == catalog->0,
{
}

/// A producer's turns are counted one by one.
pub proof fn law_producers_turns_are_counted(turns: Seq<(u32, TurnRecord)>, key: (Seq<char>, Seq<char>))
    ensures
        session_inspect::produced(turns, key) == turns.filter(
            |t: (u32, TurnRecord)|
                t.1.producer matches Some(p) && p.provider_slug@ == key.0 && p.model@ == key.1,
        ).len(),
    decreases turns.len(),
{
    reveal(Seq::filter);
    if turns.len() > 0 {
        law_producers_turns_are_counted(turns.drop_last(), key);
    }
}

/// An artifact is shown by its size alone: its label tells the number of its bytes and its form.
pub proof fn law_artifact_label_tells_the_size(a: ReasoningArtifact)
    ensures
        ({
            let l = session_inspect::artifact_label(a);
            match a {
                ReasoningArtifact::ChatReasoning { field, bytes } => "chat["@.is_prefix_of(l) && (";"@
                    + text::decimal(bytes@.len()) + "B]"@).is_suffix_of(l),
                ReasoningArtifact::AnthropicThinking(bytes) => l == "anthropic["@ + text::decimal(
                    bytes@.len(),
                ) + "B]"@,
                ReasoningArtifact::GoogleSignatures(bytes) => l == "google-sig["@ + text::decimal(
                    bytes@.len(),
                ) + "B]"@,
                ReasoningArtifact::ResponsesItems(bytes) => l == "responses["@ + text::decimal(
                    bytes@.len(),
                ) + "B]"@,
            }
        }),
{
    let l = session_inspect::artifact_label(a);
    match a {
        ReasoningArtifact::ChatReasoning { field, bytes } => {
            let end = ";"@ + text::decimal(bytes@.len()) + "B]"@;
            assert(l.take("chat["@.len() as int) =~= "chat["@);
            assert(l.skip(l.len() - end.len()) =~= end);
        },
        _ => {},
    }
}

/// An assistant's message is reported as empty exactly where it has no content, no calls and no
/// reasoning.
pub proof fn law_empty_messages_are_reported(inp: ReportInput, i: int)
    requires
        0 <= i < inp.messages@.len(),
    ensures
        ({
            let m = inp.messages@[i];
            let l = "  position "@ + text::decimal(i as nat)
                + ": \"must not be empty\" 400 candidate"@;
            let empty = m.from_assistant && (m.content matches Some(c) ==> c@.len() == 0)
                && m.tool_calls == 0 && (forall|k: int|
                0 <= k < m.reasoning@.len() ==> (#[trigger] m.reasoning@[k])@.len() == 0);
            session_inspect::empty_at(inp)(i) == (if empty {
                Some(l)
            } else {
                None
            })
        }),
{
}

/// A joined list of lines holds each of them.
proof fn lemma_joined_holds(lines: Seq<Seq<char>>, sep: Seq<char>, i: int)
    requires
        0 <= i < lines.len(),
    ensures
        matching::holds(text::join(lines, sep), lines[i]),
    decreases lines.len(),
{
    let all = text::join(lines, sep);
    if lines.len() == 1 {
        lemma_held_between(Seq::empty(), lines[0], Seq::empty(), all);
    } else {
        let front = lines.drop_last();
        if i < front.len() {
            lemma_joined_holds(front, sep, i);
            assert(front[i] == lines[i]);
            lemma_held_further(Seq::empty(), text::join(front, sep), sep + lines.last(), all, lines[i]);
        } else {
            lemma_held_between(text::join(front, sep) + sep, lines.last(), Seq::empty(), all);
        }
    }
}

proof fn lemma_held_between(a: Seq<char>, n: Seq<char>, b: Seq<char>, all: Seq<char>)
    requires
        all == a + n + b,
    ensures
        matching::holds(all, n),
{
    assert(all.subrange(a.len() as int, a.len() as int + n.len()) =~= n);
    assert(matching::stands_at(all, n, a.len() as int));
}

proof fn lemma_held_further(a: Seq<char>, s: Seq<char>, b: Seq<char>, all: Seq<char>, n: Seq<char>)
    requires
        all =~= a + s + b,
        matching::holds(s, n),
    ensures
        matching::holds(all, n),
{
    let i = choose|i: int| #[trigger] matching::stands_at(s, n, i);
    let k = a.len() + i;
    assert(all.subrange(k, k + n.len()) =~= s.subrange(i, i + n.len()));
    assert(matching::stands_at(all, n, k));
}

proof fn lemma_section_holds(title: Seq<char>, lines: Seq<Seq<char>>, otherwise: Seq<char>, l: Seq<char>)
    requires
        lines.contains(l),
    ensures
        matching::holds(session_inspect::section(title, lines, otherwise), l),
{
    let i = choose|i: int| 0 <= i < lines.len() && lines[i] == l;
    lemma_joined_holds(lines, seq!['\n'], i);
    lemma_held_further(
        title,
        text::join(lines, seq!['\n']),
        "\n"@,
        session_inspect::section(title, lines, otherwise),
        l,
    );
}

/// A report begins with the session, the model and where the model was taken from, and holds every
/// line of its ledger.
pub proof fn law_report_holds_the_ledger(inp: ReportInput, l: Seq<char>)
    requires
        session_inspect::lines_of(inp.turns@.len(), session_inspect::ledger_at(inp)).contains(l),
    ensures
        matching::holds(session_inspect::report(inp), l),
        ("session_inspect: session "@ + text::decimal(inp.session_id as nat) + "\n"@ + "  model="@
            + inp.resolution.model@ + " (from: "@).is_prefix_of(session_inspect::report(inp)),
{
    let lines = session_inspect::lines_of(inp.turns@.len(), session_inspect::ledger_at(inp));
    let i = choose|i: int| 0 <= i < lines.len() && lines[i] == l;
    lemma_joined_holds(lines, seq!['\n'], i);
    let j = text::join(lines, seq!['\n']);
    let t = inp.turns@.len();
    let title = "\nper-turn ledger"@ + (if t > session_inspect::ledger_cap(inp) {
        " (first "@ + text::decimal(session_inspect::ledger_cap(inp)) + " of "@ + text::decimal(t)
            + ")"@
    } else {
        Seq::empty()
    }) + ":\n"@;
    let ledger = session_inspect::report_ledger(inp);
    lemma_held_further(title, j, "\n"@, ledger, l);
    let before = session_inspect::report_head(inp) + session_inspect::report_wire(inp)
        + session_inspect::report_findings(inp);
    lemma_held_further(before, ledger, Seq::empty(), session_inspect::report(inp), l);
    let head = session_inspect::report_head(inp);
    let begin = "session_inspect: session "@ + text::decimal(inp.session_id as nat) + "\n"@
        + "  model="@ + inp.resolution.model@ + " (from: "@;
    assert(session_inspect::report(inp).take(begin.len() as int) =~= begin);
}

/// A report holds every risk, every note and every piece of raw reasoning that it finds.
pub proof fn law_report_holds_its_findings(inp: ReportInput, l: Seq<char>)
    requires
        session_inspect::lines_of(inp.turns@.len(), session_inspect::risk_at(inp)).contains(l)
            || session_inspect::lines_of(inp.turns@.len(), session_inspect::note_at(inp)).contains(l)
            || session_inspect::lines_of(inp.turns@.len(), session_inspect::raw_at(inp)).contains(l),
    ensures
        matching::holds(session_inspect::report(inp), l),
{
    let t = inp.turns@.len();
    let empty = session_inspect::section(
        "  empty assistant message(s) on the wire (\"must not be empty\" 400 candidates):\n"@,
        session_inspect::lines_of(inp.messages@.len(), session_inspect::empty_at(inp)),
        "  empty assistant message(s) on the wire: none\n"@,
    );
    let risk_title = "RISK (tool-call turns with reasoning evidence but no wire echo — DeepSeek-style 400 candidates):\n"@;
    let no_risk = "RISK (tool-call turns with reasoning evidence but no wire echo): none\n"@;
    let note_title = "NOTE (tool calls with no reasoning evidence at all — unverifiable):\n"@;
    let info_title = "INFO (policy-skips — expected under this passback policy):\n"@;
    let raw_title = "RAW reasoning (include_raw, own session):\n"@;
    let risk_lines = session_inspect::lines_of(t, session_inspect::risk_at(inp));
    let note_lines = session_inspect::lines_of(t, session_inspect::note_at(inp));
    let info_lines = session_inspect::lines_of(t, session_inspect::info_at(inp));
    let raw_lines = session_inspect::lines_of(t, session_inspect::raw_at(inp));
    let risks = session_inspect::section(risk_title, risk_lines, no_risk);
    let notes = session_inspect::section(note_title, note_lines, Seq::empty());
    let infos = session_inspect::section(info_title, info_lines, Seq::empty());
    let raw = session_inspect::section(raw_title, raw_lines, Seq::empty());
    let found = session_inspect::report_findings(inp);
    assert(found == empty + "\n"@ + risks + notes + infos + raw);
    if risk_lines.contains(l) {
        lemma_section_holds(risk_title, risk_lines, no_risk, l);
        lemma_held_further(empty + "\n"@, risks, notes + infos + raw, found, l);
    } else if note_lines.contains(l) {
        lemma_section_holds(note_title, note_lines, Seq::empty(), l);
        lemma_held_further(empty + "\n"@ + risks, notes, infos + raw, found, l);
    } else {
        lemma_section_holds(raw_title, raw_lines, Seq::empty(), l);
        lemma_held_further(empty + "\n"@ + risks + notes + infos, raw, Seq::empty(), found, l);
    }
    lemma_held_further(
        session_inspect::report_head(inp) + session_inspect::report_wire(inp),
        found,
        session_inspect::report_ledger(inp),
        session_inspect::report(inp),
        l,
    );
}

/// Raw reasoning is shown, under the number of its turn, wherever the calling session asks for its
/// own: up to 400 characters of it.
pub proof fn law_own_raw_reasoning_is_shown(inp: ReportInput, i: int)
    requires
        0 <= i < inp.turns@.len(),
        inp.session_id == inp.caller_id,
        inp.include_raw,
        inp.turns@[i].1.artifact matches Some(ReasoningArtifact::ChatReasoning { field, bytes }),
        inp.turns@[i].1.assistant_text is Some || inp.turns@[i].1.tool_calls > 0,
    ensures
        ({
            let raw = bytes::utf8_lossy(inp.turns@[i].1.artifact->0->ChatReasoning_bytes@);
            exists|l: Seq<char>|
                session_inspect::lines_of(inp.turns@.len(), session_inspect::raw_at(inp)).contains(l)
                    && #[trigger] ("  t"@ + text::decimal(inp.turns@[i].0 as nat)
                    + " ["@).is_prefix_of(l) && (raw.len() <= 400 ==> raw.is_suffix_of(l))
        }),
{
    let f = session_inspect::raw_at(inp);
    let l = f(i)->0;
    assert(f(i) == Some(l));
    lemma_lines_hold(inp.turns@.len(), f, l);
    let head = "  t"@ + text::decimal(inp.turns@[i].0 as nat) + " ["@;
    let raw = bytes::utf8_lossy(inp.turns@[i].1.artifact->0->ChatReasoning_bytes@);
    assert(l.take(head.len() as int) =~= head);
    assert(head.is_prefix_of(l));
    if raw.len() <= 400 {
        assert(l.skip(l.len() - raw.len()) =~= raw);
        assert(raw.is_suffix_of(l));
    }
    assert(session_inspect::lines_of(inp.turns@.len(), f).contains(l));
}

/// The session that is asked for is the one that is inspected; the calling one where none is.
pub proof fn law_asked_session_is_inspected(wanted: u64, caller: u64)
    ensures
        session_inspect::inspected(Some(wanted), caller) == wanted,
        session_inspect::inspected(None, caller) == caller,
{
}

/// A turn that is sent with tool calls, shows no reasoning and holds none is noted, under its number,
/// wherever the model does not want an empty field.
pub proof fn law_unverifiable_turns_are_noted(inp: ReportInput, i: int)
    requires
        0 <= i < inp.turns@.len(),
        !inp.requires_rc,
        ({
            let t = inp.turns@[i].1;
            !t.undone && t.tool_calls > 0 && t.artifact is None && !t.has_reasoning
        }),
    ensures
        session_inspect::lines_of(inp.turns@.len(), session_inspect::note_at(inp)).contains(
            "  t"@ + text::decimal(inp.turns@[i].0 as nat)
                + ": tool call with no artifact and no displayed reasoning"@,
        ),
{
    let f = session_inspect::note_at(inp);
    let l = f(i)->0;
    assert(f(i) == Some(l));
    lemma_lines_hold(inp.turns@.len(), f, l);
}

/// Where a policy holds back the reasoning of the report's own model, the ledger names the policy.
pub proof fn law_policies_are_named(t: TurnRecord, inp: ReportInput)
    requires
        answers(t),
        !carries(t, inp),
        t.artifact is Some,
        t.producer matches Some(p) && p.provider_slug@ == inp.resolution.provider@ && p.model@
            == inp.resolution.model@,
    ensures
        inp.passback is Never ==> session_inspect::echo_label(t, inp) == "no:passback-none"@,
        inp.passback is ResponseId ==> session_inspect::echo_label(t, inp)
            == "no:passback-response-id"@,
        inp.passback is ToolLoop && t.tool_calls == 0 && t.tool_results == 0
            ==> session_inspect::echo_label(t, inp) == "no:tool-loop-skip"@,
        inp.passback is AllTurns || inp.passback is Signature ==> session_inspect::echo_label(t, inp)
            == "no:policy-drift"@,
{
}

/// The numbers that a report gives of the messages are in its words: how many of the assistant's
/// messages carry reasoning, how many call tools without it, and that ledger and messages agree
/// exactly where they do.
pub proof fn law_report_tells_its_numbers(inp: ReportInput)
    ensures
        ({
            let n = inp.messages@.len();
            let t = inp.turns@.len();
            let assistants = session_inspect::count_of(n, session_inspect::assistant_at(inp));
            let rc = session_inspect::count_of(n, session_inspect::wire_rc_at(inp));
            let bare = session_inspect::count_of(n, session_inspect::wire_bare_at(inp));
            let agrees = session_inspect::count_of(t, session_inspect::echo_at(inp)) == rc
                && session_inspect::count_of(t, session_inspect::bare_at(inp)) == bare;
            let r = session_inspect::report(inp);
            &&& matching::holds(
                r,
                "  wire dry-run: "@ + text::decimal(rc) + "/"@ + text::decimal(assistants)
                    + " assistant messages carry reasoning_content;\n"@,
            )
            &&& matching::holds(
                r,
                text::decimal(bare)
                    + " assistant tool-call message(s) carry NONE (provider-reject risk); ledger vs wire: "@
                    + (if agrees {
                    "OK"@
                } else {
                    "MISMATCH"@
                }),
            )
            &&& matching::holds(
                r,
                "  turns="@ + text::decimal(t) + " assistant_messages="@ + text::decimal(assistants)
                    + " messages_on_wire="@ + text::decimal(n),
            )
        }),
{
    let n = inp.messages@.len();
    let t = inp.turns@.len();
    let assistants = session_inspect::count_of(n, session_inspect::assistant_at(inp));
    let rc = session_inspect::count_of(n, session_inspect::wire_rc_at(inp));
    let bare = session_inspect::count_of(n, session_inspect::wire_bare_at(inp));
    let agrees = session_inspect::count_of(t, session_inspect::echo_at(inp)) == rc
        && session_inspect::count_of(t, session_inspect::bare_at(inp)) == bare;
    let verdict = if agrees {
        "OK"@
    } else {
        "MISMATCH"@
    };
    let wire = session_inspect::report_wire(inp);
    let a = "  turns="@ + text::decimal(t) + " assistant_messages="@ + text::decimal(assistants)
        + " messages_on_wire="@ + text::decimal(n);
    let guard = "\n\n"@ + "  daemon guard warn_on_missing_reasoning_artifacts: "@ + text::decimal(
        inp.guard_problems as nat,
    ) + " problem(s)\n"@;
    let b = "  wire dry-run: "@ + text::decimal(rc) + "/"@ + text::decimal(assistants)
        + " assistant messages carry reasoning_content;\n"@;
    let c = text::decimal(bare)
        + " assistant tool-call message(s) carry NONE (provider-reject risk); ledger vs wire: "@
        + verdict;
    lemma_wire_parts(
        text::decimal(t),
        text::decimal(assistants),
        text::decimal(n),
        text::decimal(inp.guard_problems as nat),
        text::decimal(rc),
        text::decimal(bare),
        verdict,
    );
    assert(wire == a + guard + b + ("  "@ + c + "\n"@));
    let tail = "  "@ + c + "\n"@;
    lemma_held_between(Seq::empty(), a, guard + b + tail, Seq::empty() + a + (guard + b + tail));
    assert(wire =~= Seq::empty() + a + (guard + b + tail));
    lemma_held_between(a + guard, b, tail, a + guard + b + tail);
    lemma_held_between(a + guard + b + "  "@, c, "\n"@, a + guard + b + "  "@ + c + "\n"@);
    assert(wire =~= a + guard + b + "  "@ + c + "\n"@);
    let rest = session_inspect::report_findings(inp) + session_inspect::report_ledger(inp);
    let r = session_inspect::report(inp);
    assert(r =~= session_inspect::report_head(inp) + wire + rest);
    lemma_held_further(session_inspect::report_head(inp), wire, rest, r, a);
    lemma_held_further(session_inspect::report_head(inp), wire, rest, r, b);
    lemma_held_further(session_inspect::report_head(inp), wire, rest, r, c);
}

proof fn lemma_wire_parts(
    t: Seq<char>,
    s: Seq<char>,
    n: Seq<char>,
    g: Seq<char>,
    rc: Seq<char>,
    bare: Seq<char>,
    verdict: Seq<char>,
)
    ensures
        "  turns="@ + t + " assistant_messages="@ + s + " messages_on_wire="@ + n + "\n\n"@
            + "  daemon guard warn_on_missing_reasoning_artifacts: "@ + g + " problem(s)\n"@
            + "  wire dry-run: "@ + rc + "/"@ + s
            + " assistant messages carry reasoning_content;\n"@ + "  "@ + bare
            + " assistant tool-call message(s) carry NONE (provider-reject risk); ledger vs wire: "@
            + verdict + "\n"@ == ("  turns="@ + t + " assistant_messages="@ + s
            + " messages_on_wire="@ + n) + ("\n\n"@
            + "  daemon guard warn_on_missing_reasoning_artifacts: "@ + g + " problem(s)\n"@) + (
        "  wire dry-run: "@ + rc + "/"@ + s + " assistant messages carry reasoning_content;\n"@) + (
        "  "@ + (bare
            + " assistant tool-call message(s) carry NONE (provider-reject risk); ledger vs wire: "@
            + verdict) + "\n"@),
{
    let x = "  turns="@ + t + " assistant_messages="@ + s + " messages_on_wire="@ + n;
    let y = "\n\n"@ + "  daemon guard warn_on_missing_reasoning_artifacts: "@ + g
        + " problem(s)\n"@;
    let z = "  wire dry-run: "@ + rc + "/"@ + s + " assistant messages carry reasoning_content;\n"@;
    let l = " assistant tool-call message(s) carry NONE (provider-reject risk); ledger vs wire: "@;
    assert(x + "\n\n"@ + "  daemon guard warn_on_missing_reasoning_artifacts: "@ + g
        + " problem(s)\n"@ =~= x + y);
    let xy = x + y;
    assert(xy + "  wire dry-run: "@ + rc + "/"@ + s
        + " assistant messages carry reasoning_content;\n"@ =~= xy + z);
    let xyz = xy + z;
    assert(xyz + "  "@ + bare + l + verdict + "\n"@ =~= xyz + ("  "@ + (bare + l + verdict)
        + "\n"@));
}

/// The producer that a report takes for the session's own is one of a turn, and none produced more
/// turns; of two that produced as many, it is the later in the order of names.
pub proof fn law_dominant_producer_made_most(
    turns: Seq<(u32, TurnRecord)>,
    key: (Seq<char>, Seq<char>),
    i: int,
)
    requires
        session_inspect::dominates(turns, key),
        0 <= i < turns.len(),
    ensures
        exists|k: int|
            0 <= k < turns.len() && ((#[trigger] turns[k]).1.producer matches Some(p)
                && p.provider_slug@ == key.0 && p.model@ == key.1),
        turns[i].1.producer matches Some(p) ==> session_inspect::produced(
            turns,
            (p.provider_slug@, p.model@),
        ) <= session_inspect::produced(turns, key),
        turns[i].1.producer matches Some(p) ==> (session_inspect::produced(
            turns,
            (p.provider_slug@, p.model@),
        ) == session_inspect::produced(turns, key) && p.provider_slug@ == key.0 ==> order::text_le(
            p.model@,
            key.1,
        )),
{
    let k = choose|k: int|
        0 <= k < turns.len() && session_inspect::turn_producer(#[trigger] turns[k]) == Some(key);
    assert(session_inspect::turn_producer(turns[k]) == Some(key));
    let other = session_inspect::turn_producer(turns[i]);
}

/// The line of a turn ends with who produced it, whether that is the report's own model, and what
/// becomes of its reasoning.
pub proof fn law_ledger_line_ends_with_the_reasoning(id: u32, t: TurnRecord, inp: ReportInput)
    ensures
        ({
            let l = session_inspect::ledger_line(id, t, inp);
            let own = t.producer matches Some(p) && p.provider_slug@ == inp.resolution.provider@
                && p.model@ == inp.resolution.model@;
            (" prod="@ + (match t.producer {
                Some(p) => p.provider_slug@ + "/"@ + p.model@,
                None => "-"@,
            }) + " same="@ + (if own {
                "y"@
            } else {
                "n"@
            }) + " echo="@ + session_inspect::echo_label(t, inp)).is_suffix_of(l)
        }),
        t.artifact matches Some(a) ==> matching::holds(
            session_inspect::ledger_line(id, t, inp),
            " art="@ + session_inspect::artifact_label(a) + " prod="@,
        ),
{
    let l = session_inspect::ledger_line(id, t, inp);
    let x = "  t"@ + session_inspect::padded(text::decimal(id as nat), 5) + " ["@ + (if t.undone {
        "U"@
    } else {
        "-"@
    }) + (if t.has_error {
        "E"@
    } else {
        "-"@
    }) + "] u="@ + text::decimal(session_inspect::opt_len(t.user_text)) + " a="@ + text::decimal(
        session_inspect::opt_len(t.assistant_text),
    ) + " tc="@ + text::decimal(t.tool_calls as nat) + " r="@ + text::decimal(
        t.tool_results as nat,
    );
    let p = match t.artifact {
        Some(z) => session_inspect::artifact_label(z),
        None => "-"@,
    };
    let q = match t.producer {
        Some(z) => z.provider_slug@ + "/"@ + z.model@,
        None => "-"@,
    };
    let r = if session_inspect::same_model(t, inp.resolution) {
        "y"@
    } else {
        "n"@
    };
    let e = session_inspect::echo_label(t, inp);
    assert(l == x + " art="@ + p + " prod="@ + q + " same="@ + r + " echo="@ + e);
    lemma_line_tail(x, p, q, r, e);
}

proof fn lemma_line_tail(x: Seq<char>, p: Seq<char>, q: Seq<char>, r: Seq<char>, e: Seq<char>)
    ensures
        ({
            let l = x + " art="@ + p + " prod="@ + q + " same="@ + r + " echo="@ + e;
            &&& (" prod="@ + q + " same="@ + r + " echo="@ + e).is_suffix_of(l)
            &&& matching::holds(l, " art="@ + p + " prod="@)
        }),
{
    let l = x + " art="@ + p + " prod="@ + q + " same="@ + r + " echo="@ + e;
    let end = " prod="@ + q + " same="@ + r + " echo="@ + e;
    assert(l.skip(l.len() - end.len()) =~= end);
    let n = " art="@ + p + " prod="@;
    lemma_held_between(x, n, q + " same="@ + r + " echo="@ + e, x + n + (q + " same="@ + r + " echo="@
        + e));
    assert(l =~= x + n + (q + " same="@ + r + " echo="@ + e));
}

/// The head of a report names the provider, where it was taken from, the policy, and the session's
/// title and directory.
pub proof fn law_report_head_names_the_provider(inp: ReportInput)
    ensures
        matching::holds(
            session_inspect::report(inp),
            "  provider="@ + inp.resolution.provider@ + " (from: "@ + inp.resolution.provider_source@
                + ") passback="@ + session_inspect::passback_name(inp.passback) + "\n"@,
        ),
        inp.record.title matches Some(t) ==> matching::holds(
            session_inspect::report(inp),
            "  record: title="@ + t@ + " working_dir="@,
        ),
{
    let a = "session_inspect: session "@ + text::decimal(inp.session_id as nat) + "\n"@ + "  model="@
        + inp.resolution.model@ + " (from: "@ + inp.resolution.model_source@ + ")\n"@;
    lemma_head_parts(
        a,
        inp.resolution.provider@,
        inp.resolution.provider_source@,
        session_inspect::passback_name(inp.passback),
        session_inspect::or_dash(inp.record.title),
        session_inspect::or_dash(inp.record.working_dir),
        session_inspect::or_dash(inp.record.account_name),
        session_inspect::debug_list(text::views(inp.record.active_tool_groups@)),
    );
    let head = session_inspect::report_head(inp);
    let rest = session_inspect::report_wire(inp) + session_inspect::report_findings(inp)
        + session_inspect::report_ledger(inp);
    let b = "  provider="@ + inp.resolution.provider@ + " (from: "@ + inp.resolution.provider_source@
        + ") passback="@ + session_inspect::passback_name(inp.passback) + "\n"@;
    lemma_held_further(Seq::empty(), head, rest, session_inspect::report(inp), b);
    match inp.record.title {
        Some(t) => {
            lemma_held_further(
                Seq::empty(),
                head,
                rest,
                session_inspect::report(inp),
                "  record: title="@ + t@ + " working_dir="@,
            );
        },
        None => {},
    }
}

proof fn lemma_head_parts(
    a: Seq<char>,
    provider: Seq<char>,
    source: Seq<char>,
    policy: Seq<char>,
    title: Seq<char>,
    dir: Seq<char>,
    account: Seq<char>,
    groups: Seq<char>,
)
    ensures
        ({
            let head = a + "  provider="@ + provider + " (from: "@ + source + ") passback="@ + policy
                + "\n"@ + "  record: title="@ + title + " working_dir="@ + dir + " account="@
                + account + " groups="@ + groups + "\n"@;
            &&& matching::holds(
                head,
                "  provider="@ + provider + " (from: "@ + source + ") passback="@ + policy + "\n"@,
            )
            &&& matching::holds(head, "  record: title="@ + title + " working_dir="@)
        }),
{
    let b = "  provider="@ + provider + " (from: "@ + source + ") passback="@ + policy + "\n"@;
    let c = "  record: title="@ + title + " working_dir="@;
    let d = dir + " account="@ + account + " groups="@ + groups + "\n"@;
    let ab = a + "  provider="@ + provider + " (from: "@ + source + ") passback="@ + policy + "\n"@;
    assert(ab =~= a + b);
    let abc = ab + "  record: title="@ + title + " working_dir="@;
    assert(abc =~= ab + c);
    let head = abc + dir + " account="@ + account + " groups="@ + groups + "\n"@;
    assert(head =~= abc + d);
    lemma_held_between(a, b, c + d, a + b + (c + d));
    assert(head =~= a + b + (c + d));
    lemma_held_between(ab, c, d, ab + c + d);
    assert(head =~= ab + c + d);
}

} // verus!
