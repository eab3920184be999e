//! What holds of reading a file on and on, where each read says to continue.

use crate::read_file::ReadFileArgs;
use crate::read_file;
use crate::read_file_range::ReadFileRangeArgs;
use crate::read_file_range;
use crate::sanitize::MAX_TOOL_OUTPUT_BYTES;
use crate::sanitize;
use crate::text;
use crate::text_stream::{BINARY_SNIFF_BYTES, WindowView};
use crate::text_stream;
use vstd::prelude::*;
use vstd::string::*;
use vstd::utf8::*;

verus! {

/// The line that a read names to continue from, where it names one.
pub open spec fn continue_at(w: WindowView, start: nat, max: nat) -> Option<nat> {
    if w.truncated {
        Some(start + w.shown)
    } else if read_file::requested_end(w.lines, start, max) < w.lines {
        Some(read_file::requested_end(w.lines, start, max) + 1)
    } else {
        None
    }
}

/// The note below a view ends with the line to continue from, and there is no note where there is
/// no such line.
pub proof fn law_note_names_the_next_line(w: WindowView, start: nat, max: nat, header: Seq<char>)
    ensures
        match continue_at(w, start, max) {
            Some(n) => exists|before: Seq<char>|
                read_file::read_file_note(w, start, max, header) == #[trigger] (before
                    + "continue with start_line="@) + text::decimal(n) + "]"@,
            None => read_file::read_file_note(w, start, max, header) == Seq::<char>::empty(),
        },
{
    reveal_strlit(" lines) — continue with start_line=");
    reveal_strlit(" lines — continue with start_line=");
    reveal_strlit("continue with start_line=");
    let named = "continue with start_line="@;
    let note = read_file::read_file_note(w, start, max, header);
    match continue_at(w, start, max) {
        Some(n) => {
            let lead = if w.truncated {
                "\n...[truncated: showing "@ + text::decimal(
                    text::utf8_len(w.out) + text::utf8_len(header) + 1,
                ) + " of "@ + text::decimal(w.bytes) + " bytes ("@ + text::decimal(w.shown)
                    + " of "@ + text::decimal(w.lines)
            } else {
                "\n...[more lines follow: showing "@ + text::decimal(w.shown) + " of "@
                    + text::decimal(w.lines)
            };
            let joint = if w.truncated {
                " lines) — continue with start_line="@
            } else {
                " lines — continue with start_line="@
            };
            let k = joint.len() - named.len();
            let before = lead + joint.take(k);
            assert(joint =~= joint.take(k) + named);
            assert(lead + joint =~= before + named);
            assert(note == (before + named) + text::decimal(n) + "]"@);
        },
        None => {},
    }
}

/// Line `i` of a file, counted from zero, as it is shown.
pub open spec fn shown_at(lines: Seq<Seq<u8>>, i: int, path: Seq<char>) -> Result<
    Seq<char>,
    Seq<char>,
> {
    let head = text_stream::line_head(lines[i]);
    text_stream::numbered_line((i + 1) as nat, head, head.len() == lines[i].len(), 0, path)
}

/// Whether every line can be shown: none holds a NUL byte or what is not UTF-8.
pub open spec fn readable(lines: Seq<Seq<u8>>, path: Seq<char>) -> bool {
    forall|i: int| 0 <= i < lines.len() ==> #[trigger] shown_at(lines, i, path) is Ok
}

/// The first `n` lines as they are shown, one below the other.
pub open spec fn numbered(lines: Seq<Seq<u8>>, n: nat, path: Seq<char>) -> Seq<char>
    decreases n,
{
    if n == 0 {
        Seq::empty()
    } else {
        numbered(lines, (n - 1) as nat, path) + shown_at(lines, n - 1, path)->Ok_0 + "\n"@
    }
}

spec fn pow10(k: nat) -> nat
    decreases k,
{
    if k == 0 {
        1
    } else {
        10 * pow10((k - 1) as nat)
    }
}

proof fn lemma_decimal_len(n: nat, k: nat)
    requires
        n < pow10(k),
        k >= 1,
    ensures
        text::decimal(n).len() <= k,
    decreases n,
{
    if n >= 10 {
        assert(k >= 2) by {
            if k == 1 {
                reveal_with_fuel(pow10, 2);
            }
        }
        lemma_decimal_len(n / 10, (k - 1) as nat);
    }
}

proof fn lemma_prefix_valid(bytes: Seq<u8>)
    ensures
        text_stream::valid_prefix(bytes) <= bytes.len(),
        valid_utf8(bytes.take(text_stream::valid_prefix(bytes) as int)),
    decreases bytes.len(),
{
    let n = text_stream::valid_prefix(bytes) as int;
    if bytes.len() > 0 && valid_first_scalar(bytes) {
        let k = length_of_first_scalar(bytes);
        let rest = pop_first_scalar(bytes);
        assert(rest =~= bytes.skip(k));
        lemma_prefix_valid(rest);
        let head = bytes.take(n);
        assert(head.take(k) =~= bytes.take(k));
        assert(decode_first_codepoint(head) == decode_first_codepoint(bytes));
        assert(valid_first_scalar(head));
        assert(pop_first_scalar(head) =~= rest.take(n - k));
    } else {
        assert(bytes.take(0) =~= Seq::<u8>::empty());
    }
}

/// A line that can be shown takes less than the byte budget of a result.
proof fn lemma_line_fits(lines: Seq<Seq<u8>>, i: int, path: Seq<char>)
    requires
        0 <= i < lines.len() <= u64::MAX,
        shown_at(lines, i, path) is Ok,
    ensures
        text::utf8_len(shown_at(lines, i, path)->Ok_0) + 1 <= MAX_TOOL_OUTPUT_BYTES,
{
    let head = text_stream::line_head(lines[i]);
    let complete = head.len() == lines[i].len();
    let text = text_stream::line_text(head, complete)->Ok_0;
    lemma_prefix_valid(head);
    let v = text_stream::valid_prefix(head) as int;
    assert(v == head.len() ==> head.take(v) =~= head);
    decode_utf8_encode_utf8(head.take(v));
    assert(text::utf8_len(text) <= head.len());
    let cut = if text.len() > 0 && text.last() == '\n' {
        text.drop_last()
    } else {
        text
    };
    if text.len() > 0 {
        assert(text =~= text.drop_last().push(text.last()));
        text::lemma_utf8_len_push(text.drop_last(), text.last());
    }
    let bare = text_stream::without_line_end(text);
    if cut.len() > 0 {
        assert(cut =~= cut.drop_last().push(cut.last()));
        text::lemma_utf8_len_push(cut.drop_last(), cut.last());
    }
    assert(text::utf8_len(bare) <= head.len());
    let number = text::decimal((i + 1) as nat);
    reveal_with_fuel(pow10, 21);
    lemma_decimal_len((i + 1) as nat, 20);
    text::lemma_decimal_ascii((i + 1) as nat);
    reveal_strlit(" | ");
    reveal_strlit("\n...[line truncated: exceeds 64 KiB]");
    is_ascii_chars_encode_utf8(" | "@);
    is_ascii_chars_encode_utf8("\n...[line truncated: exceeds 64 KiB]"@);
    let tail = if complete {
        Seq::empty()
    } else {
        "\n...[line truncated: exceeds 64 KiB]"@
    };
    text::lemma_utf8_len_concat(number, " | "@);
    text::lemma_utf8_len_concat(number + " | "@, bare);
    text::lemma_utf8_len_concat(number + " | "@ + bare, tail);
}

/// What a window of the first `m` lines shows: a run of lines that begins at its first.
proof fn lemma_window_runs(
    lines: Seq<Seq<u8>>,
    m: nat,
    start: nat,
    max: nat,
    path: Seq<char>,
)
    requires
        readable(lines, path),
        m <= lines.len() <= u64::MAX,
        start >= 1,
        max >= 1,
    ensures
        text_stream::window_of(lines.take(m as int), start, max, path) matches Ok(w) && {
            &&& w.lines == m
            &&& w.shown <= max
            &&& start - 1 + w.shown <= lines.len() || w.shown == 0
            &&& numbered(lines, (start - 1) as nat, path) + w.out == numbered(
                lines,
                (start - 1 + w.shown) as nat,
                path,
            )
            &&& !w.truncated ==> w.shown == (if m < start {
                0
            } else if m - start + 1 <= max {
                (m - start + 1) as nat
            } else {
                max
            })
            &&& w.truncated ==> start + w.shown <= m
            &&& m >= start ==> w.shown >= 1
        },
    decreases m,
{
    let part = lines.take(m as int);
    if m == 0 {
        assert(numbered(lines, (start - 1) as nat, path) + Seq::<char>::empty() =~= numbered(
            lines,
            (start - 1) as nat,
            path,
        ));
    } else {
        lemma_window_runs(lines, (m - 1) as nat, start, max, path);
        assert(part.drop_last() =~= lines.take(m - 1));
        let w = text_stream::window_of(lines.take(m - 1), start, max, path)->Ok_0;
        let line = lines[m - 1];
        assert(part.last() == line);
        if m >= start && w.shown < max && !w.truncated {
            assert(w.shown == m - start);
            assert(shown_at(lines, m - 1, path) is Ok);
            let shown = shown_at(lines, m - 1, path)->Ok_0;
            lemma_line_fits(lines, m - 1, path);
            let before = numbered(lines, (start - 1) as nat, path);
            if m == start {
                assert(before + w.out == before);
                assert(w.out.len() == 0);
                assert(w.out =~= Seq::<char>::empty());
                is_ascii_chars_encode_utf8(w.out);
            }
            assert(before + (w.out + shown + "\n"@) =~= before + w.out + shown + "\n"@);
        }
    }
}

/// Reads of one file, the first from its first line and each of the others from the line that the
/// one before it named.
pub open spec fn reads_on(
    content: Seq<u8>,
    path: Seq<char>,
    starts: Seq<nat>,
    maxes: Seq<nat>,
) -> bool {
    &&& starts.len() == maxes.len()
    &&& starts.len() > 0
    &&& starts[0] == 1
    &&& forall|k: int|
        0 <= k < maxes.len() ==> 1 <= #[trigger] maxes[k] <= read_file::MAX_READ_FILE_LINES
    &&& forall|k: int|
        0 <= k < starts.len() - 1 ==> (text_stream::file_window(
            content,
            #[trigger] starts[k],
            maxes[k],
            path,
        ) matches Ok(w) && continue_at(w, starts[k], maxes[k]) == Some(starts[k + 1]))
}

/// The views of the first `n` reads, one below the other.
pub open spec fn views_of(
    content: Seq<u8>,
    path: Seq<char>,
    starts: Seq<nat>,
    maxes: Seq<nat>,
    n: nat,
) -> Seq<char>
    decreases n,
{
    if n == 0 {
        Seq::empty()
    } else {
        views_of(content, path, starts, maxes, (n - 1) as nat) + text_stream::file_window(
            content,
            starts[n - 1],
            maxes[n - 1],
            path,
        )->Ok_0.out
    }
}

proof fn lemma_reads_on(
    content: Seq<u8>,
    path: Seq<char>,
    starts: Seq<nat>,
    maxes: Seq<nat>,
    k: int,
)
    requires
        text_stream::refused_head(content, path) is None,
        readable(text_stream::file_lines(content), path),
        0 < text_stream::file_lines(content).len() <= u64::MAX,
        reads_on(content, path, starts, maxes),
        0 <= k < starts.len(),
    ensures
        k + 1 <= starts[k] <= text_stream::file_lines(content).len(),
        text_stream::file_window(content, starts[k], maxes[k], path) matches Ok(w) && {
            let lines = text_stream::file_lines(content);
            let next = (starts[k] + w.shown) as nat;
            &&& w.lines == lines.len()
            &&& w.shown >= 1
            &&& next <= lines.len() + 1
            &&& continue_at(w, starts[k], maxes[k]) == (if next <= lines.len() {
                Some(next)
            } else {
                None
            })
            &&& views_of(content, path, starts, maxes, (k + 1) as nat) == numbered(
                lines,
                (next - 1) as nat,
                path,
            )
        },
    decreases k,
{
    let lines = text_stream::file_lines(content);
    let n = lines.len();
    if k > 0 {
        lemma_reads_on(content, path, starts, maxes, k - 1);
        let prev = starts[k - 1];
        assert(starts[k - 1 + 1] == starts[k]);
    } else {
        assert(views_of(content, path, starts, maxes, 0) =~= numbered(lines, 0, path));
    }
    assert(1 <= maxes[k]);
    lemma_window_runs(lines, n, starts[k], maxes[k], path);
    assert(lines.take(n as int) =~= lines);
    let w = text_stream::window_of(lines, starts[k], maxes[k], path)->Ok_0;
    assert(views_of(content, path, starts, maxes, (k + 1) as nat) == views_of(
        content,
        path,
        starts,
        maxes,
        k as nat,
    ) + w.out);
}

/// Reading a file on, from its first line and then always from the line that a read names, gives
/// every line once and in order, and comes to an end. However many reads there have been, every one
/// of them went well and there are no more of them than lines; the lines that they showed, one below
/// the other, are the first of the file, each with its number; a read names a line to continue from
/// exactly where lines are left, and it is the first of those.
pub proof fn law_reading_on_gives_every_line(
    content: Seq<u8>,
    path: Seq<char>,
    label: Seq<char>,
    starts: Seq<nat>,
    maxes: Seq<nat>,
)
    requires
        0 < content.len() <= u64::MAX,
        text_stream::refused_head(content, path) is None,
        readable(text_stream::file_lines(content), path),
        reads_on(content, path, starts, maxes),
    ensures
        starts.len() <= text_stream::file_lines(content).len(),
        forall|k: int|
            0 <= k < starts.len() ==> (text_stream::file_window(
                content,
                #[trigger] starts[k],
                maxes[k],
                path,
            ) matches Ok(w) && read_file::read_file_result(w, starts[k], maxes[k], label) is Ok),
        text_stream::file_window(content, starts.last(), maxes.last(), path) matches Ok(w) && {
            let lines = text_stream::file_lines(content);
            let next = (starts.last() + w.shown) as nat;
            &&& w.shown >= 1
            &&& views_of(content, path, starts, maxes, starts.len()) == numbered(
                lines,
                (next - 1) as nat,
                path,
            )
            &&& continue_at(w, starts.last(), maxes.last()) == (if next <= lines.len() {
                Some(next)
            } else {
                None
            })
            &&& continue_at(w, starts.last(), maxes.last()) is None ==> views_of(
                content,
                path,
                starts,
                maxes,
                starts.len(),
            ) == numbered(lines, lines.len(), path)
        },
{
    lemma_line_count(content);
    let last = starts.len() - 1;
    lemma_reads_on(content, path, starts, maxes, last);
    assert forall|k: int| 0 <= k < starts.len() implies (text_stream::file_window(
        content,
        #[trigger] starts[k],
        maxes[k],
        path,
    ) matches Ok(w) && read_file::read_file_result(w, starts[k], maxes[k], label) is Ok) by {
        lemma_reads_on(content, path, starts, maxes, k);
    }
}

proof fn lemma_line_count(bytes: Seq<u8>)
    ensures
        text_stream::file_lines(bytes).len() <= bytes.len(),
        bytes.len() > 0 ==> text_stream::file_lines(bytes).len() > 0,
    decreases bytes.len(),
{
    if bytes.len() > 0 {
        lemma_line_count(bytes.drop_last());
    }
}

/// Whether all bytes are ASCII and none is NUL.
pub open spec fn plain(bytes: Seq<u8>) -> bool {
    forall|i: int| 0 <= i < bytes.len() ==> 0 < #[trigger] bytes[i] < 128
}

proof fn lemma_lines_plain(bytes: Seq<u8>)
    requires
        plain(bytes),
    ensures
        forall|i: int|
            0 <= i < text_stream::file_lines(bytes).len() ==> plain(
                #[trigger] text_stream::file_lines(bytes)[i],
            ),
    decreases bytes.len(),
{
    if bytes.len() > 0 {
        let t = bytes.drop_last();
        assert(plain(t));
        lemma_lines_plain(t);
        let before = text_stream::file_lines(t);
        let lines = text_stream::file_lines(bytes);
        assert(0 < bytes[bytes.len() - 1] < 128);
        assert forall|i: int| 0 <= i < lines.len() implies plain(#[trigger] lines[i]) by {
            if i < before.len() {
                assert(plain(before[i]));
            }
        }
    }
}

proof fn lemma_plain_text(bytes: Seq<u8>)
    requires
        plain(bytes),
    ensures
        text_stream::nul_at(bytes) == bytes.len(),
        text_stream::valid_prefix(bytes) == bytes.len(),
    decreases bytes.len(),
{
    lemma_plain_holds_no_nul(bytes);
    if bytes.len() > 0 {
        assert(0 < bytes[0] < 128);
        assert(valid_first_scalar(bytes));
        let rest = pop_first_scalar(bytes);
        assert(rest =~= bytes.skip(1));
        assert(plain(rest)) by {
            assert forall|i: int| 0 <= i < rest.len() implies 0 < #[trigger] rest[i] < 128 by {
                assert(rest[i] == bytes[i + 1]);
            }
        }
        lemma_plain_text(rest);
    }
}

proof fn lemma_plain_holds_no_nul(bytes: Seq<u8>)
    requires
        plain(bytes),
    ensures
        text_stream::nul_at(bytes) == bytes.len(),
    decreases bytes.len(),
{
    if bytes.len() > 0 {
        assert(plain(bytes.drop_last()));
        lemma_plain_holds_no_nul(bytes.drop_last());
        assert(0 < bytes[bytes.len() - 1]);
    }
}

/// A file of ASCII without NUL bytes is not refused, and every line of it can be shown.
pub proof fn law_plain_files_are_readable(content: Seq<u8>, path: Seq<char>)
    requires
        plain(content),
    ensures
        text_stream::refused_head(content, path) is None,
        readable(text_stream::file_lines(content), path),
{
    let head = if content.len() <= BINARY_SNIFF_BYTES {
        content
    } else {
        content.take(BINARY_SNIFF_BYTES as int)
    };
    assert(plain(head));
    lemma_plain_text(head);
    lemma_lines_plain(content);
    let lines = text_stream::file_lines(content);
    assert forall|i: int| 0 <= i < lines.len() implies #[trigger] shown_at(
        lines,
        i,
        path,
    ) is Ok by {
        let line = text_stream::line_head(lines[i]);
        assert(plain(lines[i]));
        assert(plain(line));
        lemma_plain_text(line);
    }
}

/// Valid bytes are valid to their end.
proof fn lemma_valid_to_the_end(bytes: Seq<u8>)
    requires
        valid_utf8(bytes),
    ensures
        text_stream::valid_prefix(bytes) == bytes.len(),
    decreases bytes.len(),
{
    if bytes.len() > 0 {
        lemma_valid_to_the_end(pop_first_scalar(bytes));
    }
}

/// A character of ASCII is its own byte; the last byte of any other is none of ASCII.
proof fn lemma_scalar_end(c: char)
    ensures
        encode_scalar(c as u32).len() > 0,
        (c as u32) <= 0x7f ==> encode_scalar(c as u32).len() == 1 && encode_scalar(c as u32).last()
            == c as u32,
        (c as u32) > 0x7f ==> encode_scalar(c as u32).last() >= 0x80,
        c == '\n' <==> encode_scalar(c as u32).last() == 10,
        c == '\r' <==> encode_scalar(c as u32).last() == 13,
{
    let n = c as u32;
    assert(n <= 0x7f ==> (n & 0x7f) as u8 == n) by (bit_vector);
    assert((0x80u8 | ((n & 0x3f) as u8)) >= 0x80) by (bit_vector);
}

/// The last byte of a text tells whether it ends with a newline or a carriage return.
proof fn lemma_last_byte(s: Seq<char>)
    requires
        s.len() > 0,
    ensures
        encode_utf8(s).len() > 0,
        s.last() == '\n' <==> encode_utf8(s).last() == 10,
        s.last() == '\r' <==> encode_utf8(s).last() == 13,
        s.last() == '\n' || s.last() == '\r' ==> encode_utf8(s.drop_last()) == encode_utf8(
            s,
        ).drop_last(),
{
    let c = s.last();
    assert(s =~= s.drop_last() + seq![c]);
    text::lemma_encode_concat(s.drop_last(), seq![c]);
    assert(seq![c].drop_first() =~= Seq::<char>::empty());
    reveal_with_fuel(encode_utf8, 2);
    assert(encode_utf8(seq![c]) =~= encode_scalar(c as u32));
    lemma_scalar_end(c);
    assert(encode_utf8(s).last() == encode_scalar(c as u32).last());
    if c == '\n' || c == '\r' {
        assert(encode_utf8(s).drop_last() =~= encode_utf8(s.drop_last()));
    }
}

/// Number of bytes that end a line: a newline with a carriage return before it, one of them alone,
/// or none.
pub open spec fn line_break_len(line: Seq<u8>) -> int {
    if line.len() >= 2 && line.last() == 10 && line[line.len() - 2] == 13 {
        2
    } else if line.len() >= 1 && (line.last() == 10 || line.last() == 13) {
        1
    } else {
        0
    }
}

/// What is left of a text without its line end encodes to the bytes before it.
proof fn lemma_without_line_end(s: Seq<char>)
    ensures
        ({
            let line = encode_utf8(s);
            encode_utf8(text_stream::without_line_end(s)) == line.take(
                line.len() - line_break_len(line),
            )
        }),
{
    let line = encode_utf8(s);
    assert(line.take(line.len() as int) =~= line);
    if s.len() > 0 {
        lemma_last_byte(s);
        let t = s.drop_last();
        if s.last() == '\n' {
            assert(encode_utf8(t) =~= line.take(line.len() - 1));
            if t.len() > 0 {
                lemma_last_byte(t);
                assert(encode_utf8(t).last() == line[line.len() - 2]);
                if t.last() == '\r' {
                    assert(encode_utf8(t).drop_last() =~= line.take(line.len() - 2));
                }
            } else {
                assert(encode_utf8(t).len() == 0);
            }
        } else if s.last() == '\r' {
            assert(encode_utf8(t) =~= line.take(line.len() - 1));
        }
    } else {
        assert(line.len() == 0);
    }
}

/// A line of text is shown whole: its number, a bar, and exactly its characters, white space
/// included. What stands behind the bar encodes to the bytes of the line up to its line break.
pub proof fn law_line_is_shown_as_it_is(n: nat, line: Seq<u8>, offset: nat, path: Seq<char>)
    requires
        valid_utf8(line),
        forall|i: int| 0 <= i < line.len() ==> #[trigger] line[i] != 0,
    ensures
        ({
            let shown = text_stream::numbered_line(n, line, true, offset, path);
            let gutter = text::decimal(n) + " | "@;
            &&& shown is Ok
            &&& gutter.is_prefix_of(shown->Ok_0)
            &&& encode_utf8(shown->Ok_0.skip(gutter.len() as int)) == line.take(
                line.len() - line_break_len(line),
            )
        }),
{
    lemma_no_nul(line);
    lemma_valid_to_the_end(line);
    let s = decode_utf8(line);
    decode_utf8_encode_utf8(line);
    lemma_without_line_end(s);
    let gutter = text::decimal(n) + " | "@;
    let shown = text_stream::numbered_line(n, line, true, offset, path)->Ok_0;
    assert(shown.take(gutter.len() as int) =~= gutter);
    assert(shown.skip(gutter.len() as int) =~= text_stream::without_line_end(s));
}

/// Two lines that are shown alike under one number hold the same text.
pub proof fn law_lines_are_told_apart(
    n: nat,
    a: Seq<u8>,
    b: Seq<u8>,
    offset: nat,
    path: Seq<char>,
)
    requires
        valid_utf8(a),
        valid_utf8(b),
        forall|i: int| 0 <= i < a.len() ==> #[trigger] a[i] != 0,
        forall|i: int| 0 <= i < b.len() ==> #[trigger] b[i] != 0,
        text_stream::numbered_line(n, a, true, offset, path) == text_stream::numbered_line(
            n,
            b,
            true,
            offset,
            path,
        ),
    ensures
        a.take(a.len() - line_break_len(a)) == b.take(b.len() - line_break_len(b)),
{
    law_line_is_shown_as_it_is(n, a, offset, path);
    law_line_is_shown_as_it_is(n, b, offset, path);
}

/// A line that is longer than is shown of one is shown up to there, but for a character that is cut
/// in two, and says on a line of its own that it goes on.
pub proof fn law_long_line_is_shown_to_the_limit(
    n: nat,
    head: Seq<u8>,
    offset: nat,
    path: Seq<char>,
)
    requires
        text_stream::numbered_line(n, head, false, offset, path) is Ok,
    ensures
        ({
            let shown = text_stream::numbered_line(n, head, false, offset, path)->Ok_0;
            let gutter = text::decimal(n) + " | "@;
            let note = "\n...[line truncated: exceeds 64 KiB]"@;
            exists|k: int|
                head.len() - 5 <= k <= head.len() && k >= 0 && gutter.is_prefix_of(shown)
                    && note.is_suffix_of(shown) && gutter.len() + note.len() <= shown.len()
                    && encode_utf8(
                    shown.subrange(gutter.len() as int, shown.len() - note.len()),
                ) == #[trigger] head.take(k)
        }),
{
    let shown = text_stream::numbered_line(n, head, false, offset, path)->Ok_0;
    let gutter = text::decimal(n) + " | "@;
    let note = "\n...[line truncated: exceeds 64 KiB]"@;
    let v = text_stream::valid_prefix(head) as int;
    lemma_prefix_valid(head);
    let whole = head.take(v);
    assert(v == head.len() ==> whole =~= head);
    decode_utf8_encode_utf8(whole);
    let s = decode_utf8(whole);
    lemma_without_line_end(s);
    let body = text_stream::without_line_end(s);
    assert(shown =~= gutter + body + note);
    assert(shown.take(gutter.len() as int) =~= gutter);
    assert(shown.skip(shown.len() - note.len()) =~= note);
    assert(shown.subrange(gutter.len() as int, shown.len() - note.len()) =~= body);
    let k = v - line_break_len(whole);
    assert(whole.take(k) =~= head.take(k));
    assert(head.skip(v).len() == head.len() - v);
}

/// Bytes without a zero hold no NUL.
proof fn lemma_no_nul(bytes: Seq<u8>)
    requires
        forall|i: int| 0 <= i < bytes.len() ==> #[trigger] bytes[i] != 0,
    ensures
        text_stream::nul_at(bytes) == bytes.len(),
    decreases bytes.len(),
{
    if bytes.len() > 0 {
        let t = bytes.drop_last();
        assert forall|i: int| 0 <= i < t.len() implies #[trigger] t[i] != 0 by {
            assert(t[i] == bytes[i]);
        }
        lemma_no_nul(t);
        assert(bytes[bytes.len() - 1] != 0);
    }
}

/// The place of the first NUL byte is the first place of a zero.
proof fn lemma_first_nul(bytes: Seq<u8>)
    ensures
        text_stream::nul_at(bytes) <= bytes.len(),
        forall|i: int| 0 <= i < text_stream::nul_at(bytes) ==> #[trigger] bytes[i] != 0,
        text_stream::nul_at(bytes) < bytes.len() ==> bytes[text_stream::nul_at(bytes) as int] == 0,
    decreases bytes.len(),
{
    if bytes.len() > 0 {
        let t = bytes.drop_last();
        lemma_first_nul(t);
        assert forall|i: int| 0 <= i < text_stream::nul_at(bytes) implies #[trigger] bytes[i]
            != 0 by {
            if i < t.len() {
                assert(t[i] == bytes[i]);
            }
        }
    }
}

/// A file is refused as binary exactly where one of its first 8192 bytes is zero, and the message
/// names the first such byte.
pub proof fn law_binary_files_are_refused(content: Seq<u8>, path: Seq<char>)
    ensures
        text_stream::refused_head(content, path) is Some <==> exists|i: int|
            0 <= i < content.len() && i < 8192 && #[trigger] content[i] == 0,
        text_stream::refused_head(content, path) matches Some(e) ==> exists|i: int|
            0 <= i < content.len() && #[trigger] content[i] == 0 && (forall|j: int|
                0 <= j < i ==> #[trigger] content[j] != 0) && e == "'"@ + path
                + "' appears to be a binary file (NUL byte at offset "@ + text::decimal(i as nat)
                + ")"@,
{
    let head = if content.len() <= 8192 {
        content
    } else {
        content.take(8192)
    };
    lemma_first_nul(head);
    let k = text_stream::nul_at(head) as int;
    assert forall|j: int| 0 <= j < k implies #[trigger] content[j] != 0 by {
        assert(head[j] == content[j]);
    }
    if k < head.len() {
        assert(head[k] == content[k]);
    } else {
        assert forall|i: int| 0 <= i < content.len() && i < 8192 implies #[trigger] content[i]
            != 0 by {}
    }
}

/// A read shows the lines it was asked for, in order, each under its own number: what stands above
/// the window together with the window is the numbered beginning of the file.
pub proof fn law_window_shows_its_own_lines(
    content: Seq<u8>,
    start: nat,
    max: nat,
    path: Seq<char>,
)
    requires
        content.len() <= u64::MAX,
        text_stream::refused_head(content, path) is None,
        readable(text_stream::file_lines(content), path),
        start >= 1,
        max >= 1,
    ensures
        text_stream::file_window(content, start, max, path) matches Ok(w) && numbered(
            text_stream::file_lines(content),
            (start - 1) as nat,
            path,
        ) + w.out == numbered(
            text_stream::file_lines(content),
            (start - 1 + w.shown) as nat,
            path,
        ),
{
    let lines = text_stream::file_lines(content);
    lemma_line_count(content);
    assert(lines.take(lines.len() as int) =~= lines);
    lemma_window_runs(lines, lines.len(), start, max, path);
}

/// A call of a read is refused exactly where it names no file, no first line, no line at all, or more
/// lines than may be read at once.
pub proof fn law_proper_reads_are_not_refused(path: Seq<char>, start: nat, max: nat, limit: nat)
    ensures
        read_file::refused_range(path, start, max, limit) is None <==> !text::blank(path) && start >= 1
            && 1 <= max <= limit,
{
}

/// What a path that names something begins a read with: it is not blank.
proof fn lemma_visible_path(path: Seq<char>, k: int)
    requires
        0 <= k < path.len(),
        '!' <= path[k] <= '~',
    ensures
        !text::blank(path),
{
    assert(!text::white_space(path[k]));
}

/// A read of a text file gives its header, with the file's label, the numbers of the lines shown and
/// the number of all lines; then those lines, each under its own number, in order; and behind them
/// only a note.
pub proof fn law_read_shows_the_lines_it_names(
    args: ReadFileArgs,
    resolved: Seq<char>,
    working_dir: Option<Seq<char>>,
    content: Seq<u8>,
    k: int,
)
    requires
        0 < content.len() <= u64::MAX,
        text_stream::refused_head(content, resolved) is None,
        readable(text_stream::file_lines(content), resolved),
        0 <= k < args.path@.len(),
        '!' <= args.path@[k] <= '~',
        1 <= args.start_line <= text_stream::file_lines(content).len(),
        1 <= args.max_lines <= 2000,
    ensures
        ({
            let lines = text_stream::file_lines(content);
            let start = args.start_line as nat;
            let r = read_file::read_file_outcome(args, resolved, working_dir, content);
            let label = sanitize::sanitized(read_file::shown_path(resolved, working_dir), false);
            r is Ok && exists|end: nat, out: Seq<char>, note: Seq<char>|
                {
                    &&& start <= end <= lines.len()
                    &&& end < start + args.max_lines
                    &&& #[trigger] numbered(lines, end, resolved) == numbered(
                        lines,
                        (start - 1) as nat,
                        resolved,
                    ) + out
                    &&& r->Ok_0 == "path: "@ + label + "\nlines: "@ + text::decimal(start) + "-"@
                        + text::decimal(end) + " of "@ + text::decimal(lines.len()) + "\n\n"@
                        + #[trigger] (out + note)
                    &&& note.len() > 0 <==> end < lines.len()
                }
        }),
{
    let lines = text_stream::file_lines(content);
    let start = args.start_line as nat;
    let max = args.max_lines as nat;
    lemma_visible_path(args.path@, k);
    lemma_line_count(content);
    assert(lines.take(lines.len() as int) =~= lines);
    lemma_window_runs(lines, lines.len(), start, max, resolved);
    let w = text_stream::file_window(content, start, max, resolved)->Ok_0;
    let end = (start - 1 + w.shown) as nat;
    let label = sanitize::sanitized(read_file::shown_path(resolved, working_dir), false);
    let header = read_file::window_header(w, start, max, label);
    let note = read_file::read_file_note(w, start, max, header);
    let r = read_file::read_file_outcome(args, resolved, working_dir, content)->Ok_0;
    assert(w.truncated || read_file::requested_end(w.lines, start, max) == end);
    reveal_strlit("]");
    assert(r =~= header + (w.out + note));
    assert(numbered(lines, end, resolved) == numbered(lines, (start - 1) as nat, resolved) + w.out);
}

/// A read of a range gives the same lines in the same way, at most 500 of them, under the whole path.
pub proof fn law_range_shows_the_lines_it_names(
    args: ReadFileRangeArgs,
    resolved: Seq<char>,
    content: Seq<u8>,
    k: int,
)
    requires
        0 < content.len() <= u64::MAX,
        text_stream::refused_head(content, resolved) is None,
        readable(text_stream::file_lines(content), resolved),
        0 <= k < args.path@.len(),
        '!' <= args.path@[k] <= '~',
        1 <= args.start_line <= text_stream::file_lines(content).len(),
        1 <= args.max_lines <= 500,
    ensures
        ({
            let lines = text_stream::file_lines(content);
            let start = args.start_line as nat;
            let r = read_file_range::read_range_outcome(args, resolved, content);
            r is Ok && exists|end: nat, out: Seq<char>, note: Seq<char>|
                {
                    &&& start <= end <= lines.len()
                    &&& end < start + args.max_lines
                    &&& #[trigger] numbered(lines, end, resolved) == numbered(
                        lines,
                        (start - 1) as nat,
                        resolved,
                    ) + out
                    &&& r->Ok_0 == "path: "@ + resolved + "\nlines: "@ + text::decimal(start) + "-"@
                        + text::decimal(end) + " of "@ + text::decimal(lines.len()) + "\n\n"@
                        + #[trigger] (out + note)
                    &&& note.len() == 0 ==> end == lines.len() || end + 1 == start + args.max_lines
                }
        }),
{
    let lines = text_stream::file_lines(content);
    let start = args.start_line as nat;
    let max = args.max_lines as nat;
    lemma_visible_path(args.path@, k);
    lemma_line_count(content);
    assert(lines.take(lines.len() as int) =~= lines);
    lemma_window_runs(lines, lines.len(), start, max, resolved);
    let w = text_stream::file_window(content, start, max, resolved)->Ok_0;
    let end = (start - 1 + w.shown) as nat;
    let header = read_file::window_header(w, start, max, resolved);
    let note = read_file_range::range_note(w);
    let r = read_file_range::read_range_outcome(args, resolved, content)->Ok_0;
    assert(w.truncated || read_file::requested_end(w.lines, start, max) == end);
    reveal_strlit(" lines) — use a smaller range]");
    assert(r =~= header + (w.out + note));
    assert(numbered(lines, end, resolved) == numbered(lines, (start - 1) as nat, resolved) + w.out);
}

/// A read that begins behind the end of a file is an error that says how many lines there are, and
/// an empty file is read as empty.
pub proof fn law_reads_behind_the_end_are_errors(
    args: ReadFileArgs,
    resolved: Seq<char>,
    working_dir: Option<Seq<char>>,
    content: Seq<u8>,
    k: int,
)
    requires
        content.len() <= u64::MAX,
        text_stream::refused_head(content, resolved) is None,
        readable(text_stream::file_lines(content), resolved),
        0 <= k < args.path@.len(),
        '!' <= args.path@[k] <= '~',
        args.start_line > text_stream::file_lines(content).len(),
        1 <= args.max_lines <= 2000,
    ensures
        ({
            let lines = text_stream::file_lines(content);
            let r = read_file::read_file_outcome(args, resolved, working_dir, content);
            &&& lines.len() > 0 ==> r is Err && r->Err_0 == "start_line "@ + text::decimal(
                args.start_line as nat,
            ) + " is past end of file; file has "@ + text::decimal(lines.len()) + " lines"@
            &&& lines.len() == 0 ==> r is Ok && r->Ok_0 == "path: "@ + sanitize::sanitized(
                read_file::shown_path(resolved, working_dir),
                false,
            ) + "\nlines: none (empty file)\n\n"@
        }),
{
    let lines = text_stream::file_lines(content);
    lemma_visible_path(args.path@, k);
    lemma_line_count(content);
    assert(lines.take(lines.len() as int) =~= lines);
    lemma_window_runs(
        lines,
        lines.len(),
        args.start_line as nat,
        args.max_lines as nat,
        resolved,
    );
}

/// A line of text within a file, of up to 64 KiB, is shown under its number with exactly its
/// characters, white space included.
pub proof fn law_line_of_a_file_is_shown_as_it_is(lines: Seq<Seq<u8>>, i: int, path: Seq<char>)
    requires
        0 <= i < lines.len(),
        valid_utf8(lines[i]),
        forall|j: int| 0 <= j < lines[i].len() ==> #[trigger] lines[i][j] != 0,
        lines[i].len() <= 65536,
    ensures
        ({
            let shown = shown_at(lines, i, path);
            let gutter = text::decimal((i + 1) as nat) + " | "@;
            &&& shown is Ok
            &&& gutter.is_prefix_of(shown->Ok_0)
            &&& encode_utf8(shown->Ok_0.skip(gutter.len() as int)) == lines[i].take(
                lines[i].len() - line_break_len(lines[i]),
            )
        }),
{
    law_line_is_shown_as_it_is((i + 1) as nat, lines[i], 0, path);
}

/// A line is refused exactly where it holds a NUL byte or is not UTF-8.
pub proof fn law_only_text_is_shown(n: nat, line: Seq<u8>, offset: nat, path: Seq<char>)
    ensures
        text_stream::numbered_line(n, line, true, offset, path) is Ok <==> valid_utf8(line) && (
        forall|i: int| 0 <= i < line.len() ==> #[trigger] line[i] != 0),
{
    lemma_first_nul(line);
    if text_stream::nul_at(line) == line.len() {
        lemma_prefix_valid(line);
        if text_stream::valid_prefix(line) == line.len() {
            assert(line.take(line.len() as int) =~= line);
        }
        if valid_utf8(line) {
            lemma_valid_to_the_end(line);
        }
    } else {
        assert(line[text_stream::nul_at(line) as int] == 0);
    }
}

/// A line of more than 64 KiB is shown up to there, but for a character that is cut in two, and says
/// that it goes on.
pub proof fn law_long_line_of_a_file_is_cut(lines: Seq<Seq<u8>>, i: int, path: Seq<char>)
    requires
        0 <= i < lines.len(),
        lines[i].len() > 65536,
        shown_at(lines, i, path) is Ok,
    ensures
        ({
            let shown = shown_at(lines, i, path)->Ok_0;
            let gutter = text::decimal((i + 1) as nat) + " | "@;
            let note = "\n...[line truncated: exceeds 64 KiB]"@;
            exists|k: int|
                65531 <= k <= 65536 && gutter.is_prefix_of(shown) && note.is_suffix_of(shown)
                    && gutter.len() + note.len() <= shown.len() && encode_utf8(
                    shown.subrange(gutter.len() as int, shown.len() - note.len()),
                ) == #[trigger] lines[i].take(k)
        }),
{
    let head = text_stream::line_head(lines[i]);
    let n = (i + 1) as nat;
    assert(head.len() == 65536);
    law_long_line_is_shown_to_the_limit(n, head, 0, path);
    let shown = shown_at(lines, i, path)->Ok_0;
    let gutter = text::decimal(n) + " | "@;
    let note = "\n...[line truncated: exceeds 64 KiB]"@;
    let k = choose|k: int|
        head.len() - 5 <= k <= head.len() && k >= 0 && gutter.is_prefix_of(shown)
            && note.is_suffix_of(shown) && gutter.len() + note.len() <= shown.len() && encode_utf8(
            shown.subrange(gutter.len() as int, shown.len() - note.len()),
        ) == #[trigger] head.take(k);
    assert(head.take(k) =~= lines[i].take(k));
}

/// A note says how many lines of how many are shown, and where the bytes ran out, of how many.
pub proof fn law_notes_tell_their_numbers(w: WindowView, start: nat, max: nat, header: Seq<char>)
    ensures
        w.truncated ==> read_file::read_file_note(w, start, max, header)
            == "\n...[truncated: showing "@ + text::decimal(
            encode_utf8(w.out).len() + encode_utf8(header).len() + 1,
        ) + " of "@ + text::decimal(w.bytes) + " bytes ("@ + text::decimal(w.shown) + " of "@
            + text::decimal(w.lines) + " lines) — continue with start_line="@ + text::decimal(
            start + w.shown,
        ) + "]"@,
        !w.truncated && start + max - 1 < w.lines && start >= 1 && max >= 1 ==> read_file::read_file_note(
            w,
            start,
            max,
            header,
        ) == "\n...[more lines follow: showing "@ + text::decimal(w.shown) + " of "@ + text::decimal(
            w.lines,
        ) + " lines — continue with start_line="@ + text::decimal((start + max) as nat) + "]"@,
        w.truncated ==> read_file_range::range_note(w) == "\n...[truncated: showing "@ + text::decimal(
            encode_utf8(w.out).len(),
        ) + " of "@ + text::decimal(w.bytes) + " bytes ("@ + text::decimal(w.shown) + " of "@
            + text::decimal(w.lines) + " lines) — use a smaller range]"@,
        !w.truncated ==> read_file_range::range_note(w).len() == 0,
{
}

} // verus!
