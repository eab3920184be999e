//! Escaping of text that could corrupt line-oriented output or mislead a reader of it, and the
//! byte budget that every tool result is held to.

use crate::text::{byte_len, chars_of, cut_to, from_chars, hexadecimal_len, push_decimal, push_hexadecimal, split, width_of};
use crate::text;
use vstd::prelude::*;
use vstd::string::*;
use vstd::utf8::*;

verus! {

/// Byte budget of one tool result.
pub const MAX_TOOL_OUTPUT_BYTES: usize = 131072;

/// What a cut result ends with.
pub const TRUNCATION_SUFFIX: &'static str = "\n...[truncated]";

/// C0 and C1 control characters and DEL (general category Cc).
pub open spec fn control(c: char) -> bool {
    c <= '\u{1f}' || '\u{7f}' <= c <= '\u{9f}'
}

/// Format characters (general category Cf) other than the joiners U+200C and U+200D.
pub open spec fn non_joiner_format(c: char) -> bool {
    ||| c == '\u{ad}'
    ||| '\u{600}' <= c <= '\u{605}'
    ||| c == '\u{61c}'
    ||| c == '\u{6dd}'
    ||| c == '\u{70f}'
    ||| '\u{890}' <= c <= '\u{891}'
    ||| c == '\u{8e2}'
    ||| c == '\u{180e}'
    ||| c == '\u{200b}'
    ||| '\u{200e}' <= c <= '\u{200f}'
    ||| '\u{202a}' <= c <= '\u{202e}'
    ||| '\u{2060}' <= c <= '\u{2064}'
    ||| '\u{2066}' <= c <= '\u{206f}'
    ||| c == '\u{feff}'
    ||| '\u{fff9}' <= c <= '\u{fffb}'
    ||| c == '\u{110bd}'
    ||| c == '\u{110cd}'
    ||| '\u{13430}' <= c <= '\u{1343f}'
    ||| '\u{1bca0}' <= c <= '\u{1bca3}'
    ||| '\u{1d173}' <= c <= '\u{1d17a}'
    ||| c == '\u{e0001}'
    ||| '\u{e0020}' <= c <= '\u{e007f}'
}

/// Characters that reorder, hide or break rendered text: the non-joiner format characters and
/// the line and paragraph separators.
pub open spec fn unsafe_unicode(c: char) -> bool {
    c == '\u{2028}' || c == '\u{2029}' || non_joiner_format(c)
}

/// Whether `c` is a C0 or C1 control character or DEL.
pub fn is_control(c: char) -> (r: bool)
    ensures
        r == control(c),
{
    c <= '\u{1f}' || ('\u{7f}' <= c && c <= '\u{9f}')
}

/// Whether `c` is a format character other than a joiner.
pub fn is_non_joiner_format_char(c: char) -> (r: bool)
    ensures
        r == non_joiner_format(c),
{
    c == '\u{ad}' || ('\u{600}' <= c && c <= '\u{605}') || c == '\u{61c}' || c == '\u{6dd}' || c
        == '\u{70f}' || ('\u{890}' <= c && c <= '\u{891}') || c == '\u{8e2}' || c == '\u{180e}' || c
        == '\u{200b}' || ('\u{200e}' <= c && c <= '\u{200f}') || ('\u{202a}' <= c && c
        <= '\u{202e}') || ('\u{2060}' <= c && c <= '\u{2064}') || ('\u{2066}' <= c && c
        <= '\u{206f}') || c == '\u{feff}' || ('\u{fff9}' <= c && c <= '\u{fffb}') || c
        == '\u{110bd}' || c == '\u{110cd}' || ('\u{13430}' <= c && c <= '\u{1343f}') || (
    '\u{1bca0}' <= c && c <= '\u{1bca3}') || ('\u{1d173}' <= c && c <= '\u{1d17a}') || c
        == '\u{e0001}' || ('\u{e0020}' <= c && c <= '\u{e007f}')
}

/// Whether `c` could reorder, hide or break rendered text.
pub fn is_unsafe_unicode(c: char) -> (r: bool)
    ensures
        r == unsafe_unicode(c),
{
    c == '\u{2028}' || c == '\u{2029}' || is_non_joiner_format_char(c)
}

/// The escape of `c`: a backslash form for tab, carriage return, newline, quotes and backslash,
/// the character itself where it is printable ASCII, and `\u{..}` otherwise.
pub open spec fn escaped(c: char) -> Seq<char> {
    if c == '\t' {
        seq!['\\', 't']
    } else if c == '\r' {
        seq!['\\', 'r']
    } else if c == '\n' {
        seq!['\\', 'n']
    } else if c == '\'' || c == '"' || c == '\\' {
        seq!['\\', c]
    } else if ' ' <= c <= '~' {
        seq![c]
    } else {
        seq!['\\', 'u', '{'] + text::hexadecimal(c as nat) + seq!['}']
    }
}

/// Appends the escape of `c`.
pub fn push_escaped(out: &mut String, c: char)
    ensures
        final(out)@ == old(out)@ + escaped(c),
{
    if c == '\t' {
        out.push('\\');
        out.push('t');
    } else if c == '\r' {
        out.push('\\');
        out.push('r');
    } else if c == '\n' {
        out.push('\\');
        out.push('n');
    } else if c == '\'' || c == '"' || c == '\\' {
        out.push('\\');
        out.push(c);
    } else if ' ' <= c && c <= '~' {
        out.push(c);
    } else {
        out.push('\\');
        out.push('u');
        out.push('{');
        push_hexadecimal(out, c as u32);
        out.push('}');
    }
    assert(out@ =~= old(out)@ + escaped(c));
}

/// Number of characters, and of bytes, of the escape of `c`.
pub fn escaped_len(c: char) -> (n: usize)
    ensures
        n == escaped(c).len(),
        n == text::utf8_len(escaped(c)),
        n <= 12,
{
    proof {
        lemma_escaped_printable(c);
        is_ascii_chars_encode_utf8(escaped(c));
    }
    if c == '\t' || c == '\r' || c == '\n' || c == '\'' || c == '"' || c == '\\' {
        2
    } else if ' ' <= c && c <= '~' {
        1
    } else {
        4 + hexadecimal_len(c as u32)
    }
}

proof fn lemma_hexadecimal_printable(n: nat)
    ensures
        forall|i: int|
            0 <= i < text::hexadecimal(n).len() ==> ' ' <= #[trigger] text::hexadecimal(n)[i] <= '~',
    decreases n,
{
    if n >= 16 {
        lemma_hexadecimal_printable(n / 16);
        let head = text::hexadecimal(n / 16);
        let d = (n % 16) as nat;
        assert(' ' <= text::hex_char(d) <= '~');
        assert forall|i: int| 0 <= i < text::hexadecimal(n).len() implies ' ' <= #[trigger] text::hexadecimal(
            n,
        )[i] <= '~' by {
            if i < head.len() {
                assert(text::hexadecimal(n)[i] == head[i]);
            }
        }
    }
}

/// An escape is printable ASCII throughout.
pub proof fn lemma_escaped_printable(c: char)
    ensures
        forall|i: int| 0 <= i < escaped(c).len() ==> ' ' <= #[trigger] escaped(c)[i] <= '~',
        is_ascii_chars(escaped(c)),
{
    lemma_hexadecimal_printable(c as nat);
}

/// Whether a character stands as it is in a name (`keep_tabs` false) or in line content.
pub open spec fn keeps(c: char, keep_tabs: bool) -> bool {
    (c == '\t' && keep_tabs) || (!control(c) && !unsafe_unicode(c))
}

/// What becomes of one character of a name or of line content.
pub open spec fn sanitize_char(keep_tabs: bool) -> spec_fn(char) -> Seq<char> {
    |c: char|
        if keeps(c, keep_tabs) {
            seq![c]
        } else {
            escaped(c)
        }
}

/// `s` with every control character, separator and format character escaped.
pub open spec fn sanitized(s: Seq<char>, keep_tabs: bool) -> Seq<char> {
    text::expand(s, sanitize_char(keep_tabs))
}

/// What becomes of one character of a transcript.
pub open spec fn transcript_char() -> spec_fn(char) -> Seq<char> {
    |c: char|
        if non_joiner_format(c) {
            escaped(c)
        } else {
            seq![c]
        }
}

/// `s` with every non-joiner format character escaped and nothing else changed.
pub open spec fn transcript(s: Seq<char>) -> Seq<char> {
    text::expand(s, transcript_char())
}

/// Whether `s` is free of format characters other than joiners.
pub open spec fn format_free(s: Seq<char>) -> bool {
    forall|i: int| 0 <= i < s.len() ==> !non_joiner_format(#[trigger] s[i])
}

/// Whether every byte of `text` is printable ASCII, or a tab where tabs are kept.
pub fn is_plain_ascii(text: &str, keep_tabs: bool) -> (r: bool)
    ensures
        r == (forall|i: int|
            0 <= i < text@.len() ==> (text@[i] == '\t' && keep_tabs) || ' ' <= #[trigger] text@[i]
                <= '~'),
{
    let cs = chars_of(text);
    for i in 0..cs.len()
        invariant
            cs@ == text@,
            forall|j: int|
                0 <= j < i ==> (text@[j] == '\t' && keep_tabs) || ' ' <= #[trigger] text@[j]
                    <= '~',
    {
        let c = cs[i];
        if !((c == '\t' && keep_tabs) || (' ' <= c && c <= '~')) {
            assert(text@[i as int] == c);
            return false;
        }
    }
    true
}

/// Whether `c` stands as it is under the given policy.
pub fn sanitize_keeps(c: char, keep_tabs: bool) -> (r: bool)
    ensures
        r == keeps(c, keep_tabs),
{
    if c <= '\u{7f}' {
        return (c == '\t' && keep_tabs) || (' ' <= c && c <= '~');
    }
    !is_control(c) && !is_unsafe_unicode(c)
}

/// Escapes control characters, line and paragraph separators and format characters, so that the
/// text stays on one line and cannot reorder or hide what is rendered. Tabs stay where
/// `keep_tabs` asks for it.
pub fn sanitize_text(text: &str, keep_tabs: bool) -> (r: String)
    ensures
        r@ == sanitized(text@, keep_tabs),
{
    if is_plain_ascii(text, keep_tabs) {
        proof {
            text::lemma_expand_fixed(text@, sanitize_char(keep_tabs));
        }
        return text.to_owned();
    }
    let cs = chars_of(text);
    let mut out = String::new();
    for i in 0..cs.len()
        invariant
            cs@ == text@,
            out@ == sanitized(text@.take(i as int), keep_tabs),
    {
        let c = cs[i];
        proof {
            assert(text@.take(i + 1) =~= text@.take(i as int).push(c));
            text::lemma_expand_push(text@.take(i as int), c, sanitize_char(keep_tabs));
        }
        if sanitize_keeps(c, keep_tabs) {
            out.push(c);
        } else {
            push_escaped(&mut out, c);
        }
        assert(out@ =~= sanitized(text@.take(i + 1), keep_tabs));
    }
    assert(text@.take(text@.len() as int) =~= text@);
    out
}

/// Byte length of `sanitize_text(text, keep_tabs)`, without building it.
///
/// The length must fit the machine: escaping makes a character at most twelve bytes.
pub fn sanitize_text_len(text: &str, keep_tabs: bool) -> (n: usize)
    requires
        text::utf8_len(sanitized(text@, keep_tabs)) <= usize::MAX,
    ensures
        n == text::utf8_len(sanitized(text@, keep_tabs)),
{
    if is_plain_ascii(text, keep_tabs) {
        proof {
            text::lemma_expand_fixed(text@, sanitize_char(keep_tabs));
        }
        return byte_len(text);
    }
    let cs = chars_of(text);
    let mut n: usize = 0;
    let ghost whole = sanitized(text@, keep_tabs);
    for i in 0..cs.len()
        invariant
            cs@ == text@,
            whole == sanitized(text@, keep_tabs),
            text::utf8_len(whole) <= usize::MAX,
            n == text::utf8_len(sanitized(text@.take(i as int), keep_tabs)),
    {
        let c = cs[i];
        let w: usize = if sanitize_keeps(c, keep_tabs) {
            width_of(c)
        } else {
            escaped_len(c)
        };
        proof {
            let head = text@.take(i as int);
            let f = sanitize_char(keep_tabs);
            assert(text@.take(i + 1) =~= head.push(c));
            text::lemma_expand_push(head, c, f);
            text::lemma_utf8_len_concat(text::expand(head, f), f(c));
            text::lemma_utf8_len_push(Seq::empty(), c);
            assert(Seq::<char>::empty().push(c) =~= seq![c]);
            assert(w == text::utf8_len(f(c)));
            let rest = text@.skip(i + 1);
            assert(text@ =~= text@.take(i + 1) + rest);
            text::lemma_expand_concat(text@.take(i + 1), rest, f);
            text::lemma_utf8_len_concat(text::expand(text@.take(i + 1), f), text::expand(rest, f));
        }
        n = n + w;
    }
    assert(text@.take(text@.len() as int) =~= text@);
    n
}

/// A name on one line: every control character, separator and format character is escaped, tabs
/// too.
pub fn sanitize_name(name: &str) -> (r: String)
    ensures
        r@ == sanitized(name@, false),
{
    sanitize_text(name, false)
}

/// Line content on one line: as a name, but with tabs kept.
pub fn sanitize_content(content: &str) -> (r: String)
    ensures
        r@ == sanitized(content@, true),
{
    sanitize_text(content, true)
}

/// Escapes only the format characters that are not joiners; newlines, tabs and escape sequences
/// stay.
pub fn sanitize_transcript(text: &str) -> (r: String)
    ensures
        r@ == transcript(text@),
{
    let cs = chars_of(text);
    let mut out = String::new();
    for i in 0..cs.len()
        invariant
            cs@ == text@,
            out@ == transcript(text@.take(i as int)),
    {
        let c = cs[i];
        proof {
            assert(text@.take(i + 1) =~= text@.take(i as int).push(c));
            text::lemma_expand_push(text@.take(i as int), c, transcript_char());
        }
        if is_non_joiner_format_char(c) {
            push_escaped(&mut out, c);
        } else {
            out.push(c);
        }
        assert(out@ =~= transcript(text@.take(i + 1)));
    }
    assert(text@.take(text@.len() as int) =~= text@);
    out
}

/// One line without the carriage return that ends it, if one does.
pub open spec fn without_cr(s: Seq<char>) -> Seq<char> {
    if s.len() > 0 && s.last() == '\r' {
        s.drop_last()
    } else {
        s
    }
}

/// The lines of `s`, each without its final carriage return and sanitized as content.
pub open spec fn sanitized_lines(s: Seq<char>) -> Seq<Seq<char>> {
    let lines = text::split_on(s, '\n');
    Seq::new(lines.len(), |i: int| sanitized(without_cr(lines[i]), true))
}

/// `line` without the carriage return that ends it, if one does.
pub fn strip_cr(line: &str) -> (r: String)
    ensures
        r@ == without_cr(line@),
{
    let mut cs = chars_of(line);
    let n: usize = cs.len();
    if n > 0 && cs[n - 1] == '\r' {
        cs.truncate(n - 1);
        assert(cs@ =~= line@.drop_last());
    }
    from_chars(&cs)
}

/// Sanitizes each line of a text as content and keeps the line breaks; a carriage return before
/// a line break, or at the end, is dropped.
pub fn sanitize_multiline(text: &str) -> (r: String)
    ensures
        r@ == text::join(sanitized_lines(text@), seq!['\n']),
{
    let lines = split(text, '\n');
    let ghost all = sanitized_lines(text@);
    let mut out = String::new();
    assert(all.take(0) =~= Seq::<Seq<char>>::empty());
    for i in 0..lines.len()
        invariant
            text::views(lines@) == text::split_on(text@, '\n'),
            all == sanitized_lines(text@),
            all.len() == lines.len(),
            out@ == text::join(all.take(i as int), seq!['\n']),
    {
        if i > 0 {
            out.push('\n');
        }
        let line = strip_cr(&lines[i]);
        let clean = sanitize_text(&line, true);
        out.append(&clean);
        proof {
            assert(text::views(lines@)[i as int] == lines[i as int]@);
            assert(all[i as int] == clean@);
            assert(all.take(i + 1) =~= all.take(i as int).push(clean@));
            text::lemma_join_push(all.take(i as int), clean@, seq!['\n']);
            if i == 0 {
                assert(out@ =~= clean@);
            } else {
                assert(out@ =~= text::join(all.take(i as int), seq!['\n']) + seq!['\n'] + clean@);
            }
        }
    }
    assert(all.take(all.len() as int) =~= all);
    out
}

/// Marker of a search that stopped at its cap.
pub open spec fn cap_marker(cap: nat, noun: Seq<char>) -> Seq<char> {
    "...[truncated at "@ + text::decimal(cap) + " "@ + noun + "]"@
}

/// The marker of a search that stopped at its cap; none where it did not stop early.
pub fn truncation_marker(truncated: bool, cap: usize, noun: &str) -> (r: Option<String>)
    ensures
        r is Some <==> truncated,
        r matches Some(m) ==> m@ == cap_marker(cap as nat, noun@),
{
    if truncated {
        let mut m = "...[truncated at ".to_owned();
        push_decimal(&mut m, cap as u64);
        m.append(" ");
        m.append(noun);
        m.append("]");
        Some(m)
    } else {
        None
    }
}

/// `s` cut to `limit` bytes on a character boundary, with the truncation suffix where it was cut.
pub open spec fn truncated_at(s: Seq<char>, limit: nat) -> Seq<char> {
    if text::utf8_len(s) <= limit {
        s
    } else {
        text::cut(s, limit) + TRUNCATION_SUFFIX@
    }
}

/// Bytes left for a body once the tail, its line break and the truncation suffix have theirs.
pub open spec fn body_room(marker: Seq<char>) -> nat {
    let reserved = 1 + text::utf8_len(marker) + text::utf8_len(TRUNCATION_SUFFIX@);
    if reserved <= MAX_TOOL_OUTPUT_BYTES {
        (MAX_TOOL_OUTPUT_BYTES - reserved) as nat
    } else {
        0
    }
}

/// A body within the byte budget, followed on a line of its own by the marker, whose room is
/// reserved inside the budget.
pub open spec fn finished(body: Seq<char>, marker: Option<Seq<char>>) -> Seq<char> {
    match marker {
        None => truncated_at(body, MAX_TOOL_OUTPUT_BYTES as nat),
        Some(m) => truncated_at(body, body_room(m)) + "\n"@ + m,
    }
}

/// The characters of an optional string.
pub open spec fn opt_view(s: Option<String>) -> Option<Seq<char>> {
    match s {
        None => None,
        Some(x) => Some(x@),
    }
}

/// Cuts `text` to `limit` bytes on a character boundary and says so where it cut.
pub fn truncate_at(text: &str, limit: usize) -> (r: String)
    ensures
        r@ == truncated_at(text@, limit as nat),
{
    if byte_len(text) <= limit {
        text.to_owned()
    } else {
        let mut out = cut_to(text, limit);
        out.append(TRUNCATION_SUFFIX);
        out
    }
}

/// Cuts `text` to the byte budget of a tool result.
pub fn truncate_tool_output(text: &str) -> (r: String)
    ensures
        r@ == truncated_at(text@, MAX_TOOL_OUTPUT_BYTES as nat),
{
    truncate_at(text, MAX_TOOL_OUTPUT_BYTES)
}

/// Caps `body` at the byte budget with the marker's room reserved inside it.
pub fn finish_tool_output(body: &str, marker: Option<String>) -> (r: String)
    ensures
        r@ == finished(body@, opt_view(marker)),
{
    match marker {
        None => truncate_tool_output(body),
        Some(m) => {
            let suffix: usize = byte_len(TRUNCATION_SUFFIX);
            let tail: usize = byte_len(&m);
            proof {
                lemma_suffix_len();
            }
            let room: usize = if tail <= MAX_TOOL_OUTPUT_BYTES - 1 - suffix {
                MAX_TOOL_OUTPUT_BYTES - 1 - suffix - tail
            } else {
                0
            };
            let mut out = truncate_at(body, room);
            out.append("\n");
            out.append(&m);
            out
        },
    }
}

/// Sanitizes `body` for the transcript and caps the outcome with the marker's room reserved.
pub fn finish_tool_output_sanitized(body: &str, marker: Option<String>) -> (r: String)
    ensures
        r@ == finished(transcript(body@), opt_view(marker)),
{
    let clean = sanitize_transcript(body);
    finish_tool_output(&clean, marker)
}

/// The truncation suffix is fifteen bytes of ASCII.
pub proof fn lemma_suffix_len()
    ensures
        TRUNCATION_SUFFIX@.len() == 15,
        text::utf8_len(TRUNCATION_SUFFIX@) == 15,
        format_free(TRUNCATION_SUFFIX@),
{
    reveal_strlit("\n...[truncated]");
    is_ascii_chars_encode_utf8(TRUNCATION_SUFFIX@);
}

/// Sanitized text holds no control character, separator or format character; a tab only where
/// tabs are kept.
pub proof fn law_sanitized_is_clean(s: Seq<char>, keep_tabs: bool)
    ensures
        forall|i: int|
            0 <= i < sanitized(s, keep_tabs).len() ==> keeps(
                #[trigger] sanitized(s, keep_tabs)[i],
                keep_tabs,
            ),
{
    let f = sanitize_char(keep_tabs);
    let p = |c: char| keeps(c, keep_tabs);
    assert forall|c: char, i: int| 0 <= i < f(c).len() implies p(#[trigger] f(c)[i]) by {
        lemma_escaped_printable(c);
    }
    text::lemma_expand_all(s, f, p);
    assert forall|i: int| 0 <= i < sanitized(s, keep_tabs).len() implies keeps(
        #[trigger] sanitized(s, keep_tabs)[i],
        keep_tabs,
    ) by {
        assert(p(text::expand(s, f)[i]));
    }
}

/// Text that needs no escape is left as it is.
pub proof fn law_sanitize_keeps_clean_text(s: Seq<char>, keep_tabs: bool)
    requires
        forall|i: int| 0 <= i < s.len() ==> keeps(#[trigger] s[i], keep_tabs),
    ensures
        sanitized(s, keep_tabs) == s,
{
    text::lemma_expand_fixed(s, sanitize_char(keep_tabs));
}

/// Sanitizing twice is sanitizing once.
pub proof fn law_sanitize_idempotent(s: Seq<char>, keep_tabs: bool)
    ensures
        sanitized(sanitized(s, keep_tabs), keep_tabs) == sanitized(s, keep_tabs),
{
    law_sanitized_is_clean(s, keep_tabs);
    law_sanitize_keeps_clean_text(sanitized(s, keep_tabs), keep_tabs);
}

/// Sanitized text stays on one line.
pub proof fn law_sanitized_is_one_line(s: Seq<char>, keep_tabs: bool)
    ensures
        forall|i: int|
            0 <= i < sanitized(s, keep_tabs).len() ==> !(#[trigger] sanitized(s, keep_tabs)[i]
                == '\n' || sanitized(s, keep_tabs)[i] == '\r' || sanitized(s, keep_tabs)[i]
                == '\u{2028}' || sanitized(s, keep_tabs)[i] == '\u{2029}'),
{
    law_sanitized_is_clean(s, keep_tabs);
    assert forall|i: int| 0 <= i < sanitized(s, keep_tabs).len() implies !(#[trigger] sanitized(
        s,
        keep_tabs,
    )[i] == '\n' || sanitized(s, keep_tabs)[i] == '\r' || sanitized(s, keep_tabs)[i] == '\u{2028}'
        || sanitized(s, keep_tabs)[i] == '\u{2029}') by {
        assert(keeps(sanitized(s, keep_tabs)[i], keep_tabs));
    }
}

/// A sanitized transcript holds no format character but joiners.
pub proof fn law_transcript_is_format_free(s: Seq<char>)
    ensures
        format_free(transcript(s)),
{
    let f = transcript_char();
    let p = |c: char| !non_joiner_format(c);
    assert forall|c: char, i: int| 0 <= i < f(c).len() implies p(#[trigger] f(c)[i]) by {
        lemma_escaped_printable(c);
    }
    text::lemma_expand_all(s, f, p);
    assert forall|i: int| 0 <= i < transcript(s).len() implies !non_joiner_format(
        #[trigger] transcript(s)[i],
    ) by {
        assert(p(text::expand(s, f)[i]));
    }
}

/// Text without such characters is left as it is.
pub proof fn law_transcript_keeps_format_free_text(s: Seq<char>)
    requires
        format_free(s),
    ensures
        transcript(s) == s,
{
    text::lemma_expand_fixed(s, transcript_char());
}

/// Sanitizing a transcript twice is sanitizing it once.
pub proof fn law_transcript_idempotent(s: Seq<char>)
    ensures
        transcript(transcript(s)) == transcript(s),
{
    law_transcript_is_format_free(s);
    law_transcript_keeps_format_free_text(transcript(s));
}

/// A cut text is at most the limit and the suffix long, and where it was cut it ends with the
/// suffix.
pub proof fn law_truncation_bound(s: Seq<char>, limit: nat)
    ensures
        text::utf8_len(truncated_at(s, limit)) <= limit + text::utf8_len(TRUNCATION_SUFFIX@),
        text::utf8_len(s) > limit ==> TRUNCATION_SUFFIX@.is_suffix_of(truncated_at(s, limit)),
{
    text::lemma_fitting(s, limit);
    if text::utf8_len(s) > limit {
        text::lemma_utf8_len_concat(text::cut(s, limit), TRUNCATION_SUFFIX@);
    }
}

/// A finished result ends with its marker on a line of its own.
pub proof fn law_marker_survives(body: Seq<char>, marker: Seq<char>)
    ensures
        ("\n"@ + marker).is_suffix_of(finished(body, Some(marker))),
{
    assert(finished(body, Some(marker)) =~= truncated_at(body, body_room(marker)) + ("\n"@
        + marker));
}

/// A finished result with a marker that leaves room for itself and the suffix stays within the
/// byte budget.
pub proof fn law_finished_within_budget(body: Seq<char>, marker: Seq<char>)
    requires
        1 + text::utf8_len(marker) + text::utf8_len(TRUNCATION_SUFFIX@) <= MAX_TOOL_OUTPUT_BYTES,
    ensures
        text::utf8_len(finished(body, Some(marker))) <= MAX_TOOL_OUTPUT_BYTES,
{
    let kept = truncated_at(body, body_room(marker));
    law_truncation_bound(body, body_room(marker));
    text::lemma_utf8_len_concat(kept + "\n"@, marker);
    text::lemma_utf8_len_concat(kept, "\n"@);
    reveal_strlit("\n");
    is_ascii_chars_encode_utf8("\n"@);
}

/// Sanitizing and capping a finished result again changes nothing: what a tool finished is what
/// the transcript records.
pub proof fn law_recap_is_identity(body: Seq<char>, marker: Seq<char>)
    requires
        format_free(marker),
        1 + text::utf8_len(marker) + text::utf8_len(TRUNCATION_SUFFIX@) <= MAX_TOOL_OUTPUT_BYTES,
    ensures
        truncated_at(
            transcript(finished(transcript(body), Some(marker))),
            MAX_TOOL_OUTPUT_BYTES as nat,
        ) == finished(transcript(body), Some(marker)),
{
    let t = transcript(body);
    let done = finished(t, Some(marker));
    law_finished_within_budget(t, marker);
    law_transcript_is_format_free(body);
    lemma_suffix_len();
    reveal_strlit("\n");
    let kept = truncated_at(t, body_room(marker));
    text::lemma_fitting(t, body_room(marker));
    assert(format_free(kept)) by {
        assert forall|i: int| 0 <= i < kept.len() implies !non_joiner_format(#[trigger] kept[i]) by {
            if text::utf8_len(t) > body_room(marker) {
                let head = text::cut(t, body_room(marker));
                if i < head.len() {
                    assert(kept[i] == t[i]);
                } else {
                    assert(kept[i] == TRUNCATION_SUFFIX@[i - head.len()]);
                }
            }
        }
    }
    assert forall|i: int| 0 <= i < done.len() implies !non_joiner_format(#[trigger] done[i]) by {
        if i < kept.len() {
            assert(done[i] == kept[i]);
        } else if i > kept.len() {
            assert(done[i] == marker[i - kept.len() - 1]);
        }
    }
    law_transcript_keeps_format_free_text(done);
}

/// A sanitized multi-line text has exactly the line breaks of the original.
pub proof fn law_multiline_keeps_line_count(s: Seq<char>)
    ensures
        text::split_on(text::join(sanitized_lines(s), seq!['\n']), '\n') == sanitized_lines(s),
{
    let lines = sanitized_lines(s);
    text::lemma_split_nonempty(s, '\n');
    assert forall|i: int, j: int| 0 <= i < lines.len() && 0 <= j < lines[i].len() implies
        #[trigger] lines[i][j] != '\n' by {
        law_sanitized_is_one_line(without_cr(text::split_on(s, '\n')[i]), true);
    }
    text::lemma_split_join(lines, '\n');
}

} // verus!
