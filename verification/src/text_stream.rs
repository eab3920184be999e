//! Line-by-line reading of text held as bytes, and the numbered view of a window of lines.

use crate::bytes::decode_text;
use crate::error::ToolExecError;
use crate::sanitize::{MAX_TOOL_OUTPUT_BYTES, strip_cr};
use crate::sanitize;
use crate::text::{byte_len, chars_of, from_chars, push_decimal, push_decimal_wide};
use crate::text;
use vstd::prelude::*;
use vstd::string::*;
use vstd::utf8::*;

verus! {

/// Bytes of one line that are shown; a longer line is cut and says so.
pub const MAX_LINE_DISPLAY_BYTES: usize = 65536;

/// Bytes at the head of a file in which a NUL byte marks it as binary.
pub const BINARY_SNIFF_BYTES: usize = 8192;

/// The lines of `bytes`, each with the newline that ends it; the last one may have none.
pub open spec fn file_lines(bytes: Seq<u8>) -> Seq<Seq<u8>>
    decreases bytes.len(),
{
    if bytes.len() == 0 {
        Seq::empty()
    } else {
        let before = file_lines(bytes.drop_last());
        if before.len() > 0 && before.last().last() != 10 {
            before.drop_last().push(before.last().push(bytes.last()))
        } else {
            before.push(seq![bytes.last()])
        }
    }
}

/// The lines one behind the other.
pub open spec fn concat_lines(lines: Seq<Seq<u8>>) -> Seq<u8>
    decreases lines.len(),
{
    if lines.len() == 0 {
        Seq::empty()
    } else {
        concat_lines(lines.drop_last()) + lines.last()
    }
}

/// The lines of a file, one behind the other, are the file; none is empty, and only the last can
/// lack a newline.
pub proof fn law_lines_make_the_file(bytes: Seq<u8>)
    ensures
        concat_lines(file_lines(bytes)) == bytes,
        forall|i: int| 0 <= i < file_lines(bytes).len() ==> #[trigger] file_lines(bytes)[i].len() > 0,
        forall|i: int|
            0 <= i < file_lines(bytes).len() - 1 ==> #[trigger] file_lines(bytes)[i].last() == 10,
    decreases bytes.len(),
{
    if bytes.len() == 0 {
        assert(concat_lines(file_lines(bytes)) =~= bytes);
    } else {
        law_lines_make_the_file(bytes.drop_last());
        let before = file_lines(bytes.drop_last());
        let lines = file_lines(bytes);
        if before.len() > 0 && before.last().last() != 10 {
            assert(lines.drop_last() =~= before.drop_last());
            assert(concat_lines(lines) =~= concat_lines(before).push(bytes.last()));
        } else {
            assert(lines.drop_last() =~= before);
            assert(concat_lines(lines) =~= concat_lines(before).push(bytes.last()));
        }
        assert(bytes.drop_last().push(bytes.last()) =~= bytes);
    }
}

/// A line that ends where it should, behind a file that ends with a newline, is one more line.
proof fn lemma_one_more_line(head: Seq<u8>, line: Seq<u8>)
    requires
        head.len() == 0 || head.last() == 10,
        line.len() > 0,
        forall|j: int| 0 <= j < line.len() - 1 ==> #[trigger] line[j] != 10,
    ensures
        file_lines(head + line) == file_lines(head).push(line),
    decreases line.len(),
{
    let all = head + line;
    law_lines_make_the_file(head);
    lemma_last_of_last_line(head);
    if line.len() == 1 {
        assert(all.drop_last() =~= head);
        assert(line =~= seq![line.last()]);
        assert(file_lines(all) =~= file_lines(head).push(line));
    } else {
        let t = line.drop_last();
        assert forall|j: int| 0 <= j < t.len() - 1 implies #[trigger] t[j] != 10 by {
            assert(t[j] == line[j]);
        }
        lemma_one_more_line(head, t);
        assert(all.drop_last() =~= head + t);
        assert(t.last() == line[line.len() - 2]);
        assert(file_lines(head).push(t).drop_last() =~= file_lines(head));
        assert(t.push(line.last()) =~= line);
        assert(file_lines(all) =~= file_lines(head).push(line));
    }
}

/// The last line of a file ends as the file does.
proof fn lemma_last_of_last_line(bytes: Seq<u8>)
    ensures
        bytes.len() > 0 ==> file_lines(bytes).len() > 0 && file_lines(bytes).last().len() > 0
            && file_lines(bytes).last().last() == bytes.last(),
        bytes.len() == 0 ==> file_lines(bytes).len() == 0,
    decreases bytes.len(),
{
    if bytes.len() > 0 {
        lemma_last_of_last_line(bytes.drop_last());
    }
}

/// Whether `rest` is the start of a character that lacks its last bytes.
pub open spec fn begun_scalar(rest: Seq<u8>) -> bool {
    let second_ok = rest.len() < 2 || (if rest[0] == 0xe0 {
        0xa0 <= rest[1] <= 0xbf
    } else if rest[0] == 0xed {
        0x80 <= rest[1] <= 0x9f
    } else if rest[0] == 0xf0 {
        0x90 <= rest[1] <= 0xbf
    } else if rest[0] == 0xf4 {
        0x80 <= rest[1] <= 0x8f
    } else {
        0x80 <= rest[1] <= 0xbf
    });
    ||| rest.len() == 1 && 0xc2 <= rest[0] <= 0xf4
    ||| rest.len() == 2 && 0xe0 <= rest[0] <= 0xf4 && second_ok
    ||| rest.len() == 3 && 0xf0 <= rest[0] <= 0xf4 && second_ok && 0x80 <= rest[2] <= 0xbf
}

/// Position of the first NUL byte; the length where there is none.
pub open spec fn nul_at(bytes: Seq<u8>) -> nat
    decreases bytes.len(),
{
    if bytes.len() == 0 {
        0
    } else if nul_at(bytes.drop_last()) < bytes.len() - 1 {
        nul_at(bytes.drop_last())
    } else if bytes.last() == 0 {
        (bytes.len() - 1) as nat
    } else {
        bytes.len()
    }
}

/// The message for a file that holds a NUL byte.
pub open spec fn binary_error(path: Seq<char>, offset: nat) -> Seq<char> {
    "'"@ + path + "' appears to be a binary file (NUL byte at offset "@ + text::decimal(offset) + ")"@
}

/// The message for a file that is not UTF-8.
pub open spec fn encoding_error(path: Seq<char>, offset: nat) -> Seq<char> {
    "'"@ + path + "' is not valid UTF-8 text (invalid byte sequence at offset "@ + text::decimal(offset)
        + ")"@
}

/// Length of the longest prefix of `bytes` that holds whole characters.
pub open spec fn valid_prefix(bytes: Seq<u8>) -> nat
    decreases bytes.len(),
{
    if bytes.len() > 0 && valid_first_scalar(bytes) {
        length_of_first_scalar(bytes) as nat + valid_prefix(pop_first_scalar(bytes))
    } else {
        0
    }
}

/// The text of the head of a line: all of it, or, where the line goes on, all but a character
/// that is cut in two. The error is the offset of what is not UTF-8.
pub open spec fn line_text(head: Seq<u8>, complete: bool) -> Result<Seq<char>, nat> {
    let v = valid_prefix(head);
    if v == head.len() {
        Ok(decode_utf8(head))
    } else if !complete && begun_scalar(head.skip(v as int)) {
        Ok(decode_utf8(head.take(v as int)))
    } else {
        Err(v)
    }
}

/// A line without one newline at its end, and then without one carriage return.
pub open spec fn without_line_end(s: Seq<char>) -> Seq<char> {
    sanitize::without_cr(
        if s.len() > 0 && s.last() == '\n' {
            s.drop_last()
        } else {
            s
        },
    )
}

/// Line number `n` as it is shown. `head` is as much of the line as is looked at, `offset` where
/// the line begins in the file.
pub open spec fn numbered_line(
    n: nat,
    head: Seq<u8>,
    complete: bool,
    offset: nat,
    path: Seq<char>,
) -> Result<Seq<char>, Seq<char>> {
    if nul_at(head) < head.len() {
        Err(binary_error(path, offset + nul_at(head)))
    } else {
        match line_text(head, complete) {
            Err(v) => Err(encoding_error(path, offset + v)),
            Ok(text) => Ok(
                text::decimal(n) + " | "@ + without_line_end(text) + (if complete {
                    Seq::empty()
                } else {
                    "\n...[line truncated: exceeds 64 KiB]"@
                }),
            ),
        }
    }
}

/// What has been read and shown of a file.
#[verifier::ext_equal]
pub struct WindowView {
    /// The lines shown.
    pub out: Seq<char>,
    /// Number of lines read.
    pub lines: nat,
    /// Number of bytes read.
    pub bytes: nat,
    /// Number of lines shown.
    pub shown: nat,
    /// Whether the byte budget left a line out.
    pub truncated: bool,
}

/// Nothing has been read yet.
pub open spec fn window_start() -> WindowView {
    WindowView { out: Seq::empty(), lines: 0, bytes: 0, shown: 0, truncated: false }
}

/// One more line has been read: it is shown where it lies in the window and the byte budget has
/// room for it. `head` is as much of it as is looked at, `total` its length.
pub open spec fn window_step(
    w: WindowView,
    start: nat,
    max: nat,
    head: Seq<u8>,
    total: nat,
    path: Seq<char>,
) -> Result<WindowView, Seq<char>> {
    let n = w.lines + 1;
    let counted = WindowView { lines: n, bytes: w.bytes + total, ..w };
    if n < start || w.shown >= max || w.truncated {
        Ok(counted)
    } else {
        match numbered_line(n, head, head.len() == total, w.bytes, path) {
            Err(e) => Err(e),
            Ok(text) => if text::utf8_len(w.out) + text::utf8_len(text) + 1 <= MAX_TOOL_OUTPUT_BYTES {
                Ok(WindowView { out: w.out + text + "\n"@, shown: w.shown + 1, ..counted })
            } else {
                Ok(WindowView { truncated: true, ..counted })
            },
        }
    }
}

/// As much of a line as is looked at.
pub open spec fn line_head(line: Seq<u8>) -> Seq<u8> {
    if line.len() <= MAX_LINE_DISPLAY_BYTES {
        line
    } else {
        line.take(MAX_LINE_DISPLAY_BYTES as int)
    }
}

/// What has been shown once `lines` have been read.
pub open spec fn window_of(
    lines: Seq<Seq<u8>>,
    start: nat,
    max: nat,
    path: Seq<char>,
) -> Result<WindowView, Seq<char>>
    decreases lines.len(),
{
    if lines.len() == 0 {
        Ok(window_start())
    } else {
        match window_of(lines.drop_last(), start, max, path) {
            Err(e) => Err(e),
            Ok(w) => window_step(
                w,
                start,
                max,
                line_head(lines.last()),
                lines.last().len(),
                path,
            ),
        }
    }
}

/// The numbered view of a window of lines, while it is being read.
#[derive(Debug)]
pub struct LineWindow {
    /// First line of the window, counted from one.
    pub start: u64,
    /// Most lines to show.
    pub max: u64,
    pub out: String,
    pub total_lines: u64,
    pub total_bytes: u64,
    pub shown_bytes: usize,
    pub lines_shown: u64,
    pub truncated: bool,
}

impl View for LineWindow {
    type V = WindowView;

    open spec fn view(&self) -> WindowView {
        WindowView {
            out: self.out@,
            lines: self.total_lines as nat,
            bytes: self.total_bytes as nat,
            shown: self.lines_shown as nat,
            truncated: self.truncated,
        }
    }
}

/// Position of the first NUL byte of `bytes`.
pub fn find_nul(bytes: &[u8]) -> (r: Option<usize>)
    ensures
        match r {
            Some(i) => i == nul_at(bytes@) && i < bytes@.len(),
            None => nul_at(bytes@) == bytes@.len(),
        },
{
    assert(bytes@.take(0) =~= Seq::<u8>::empty());
    for i in 0..bytes.len()
        invariant
            nul_at(bytes@.take(i as int)) == i,
    {
        assert(bytes@.take(i + 1).drop_last() =~= bytes@.take(i as int));
        assert(bytes@.take(i + 1).last() == bytes@[i as int]);
        if bytes[i] == 0 {
            proof {
                lemma_nul_stays(bytes@, i + 1);
            }
            return Some(i);
        }
    }
    assert(bytes@.take(bytes@.len() as int) =~= bytes@);
    None
}

proof fn lemma_nul_stays(bytes: Seq<u8>, n: int)
    requires
        0 <= n <= bytes.len(),
        nul_at(bytes.take(n)) < n,
    ensures
        nul_at(bytes) == nul_at(bytes.take(n)),
    decreases bytes.len(),
{
    if n < bytes.len() {
        let t = bytes.drop_last();
        assert(t.take(n) =~= bytes.take(n));
        lemma_nul_stays(t, n);
    } else {
        assert(bytes.take(n) =~= bytes);
    }
}

fn is_begun_scalar(rest: &[u8]) -> (r: bool)
    ensures
        r == begun_scalar(rest@),
{
    let n: usize = rest.len();
    if n == 0 || n > 3 {
        return false;
    }
    let b1: u8 = rest[0];
    if n == 1 {
        return 0xc2 <= b1 && b1 <= 0xf4;
    }
    let b2: u8 = rest[1];
    let second_ok = if b1 == 0xe0 {
        0xa0 <= b2 && b2 <= 0xbf
    } else if b1 == 0xed {
        0x80 <= b2 && b2 <= 0x9f
    } else if b1 == 0xf0 {
        0x90 <= b2 && b2 <= 0xbf
    } else if b1 == 0xf4 {
        0x80 <= b2 && b2 <= 0x8f
    } else {
        0x80 <= b2 && b2 <= 0xbf
    };
    if n == 2 {
        return 0xe0 <= b1 && b1 <= 0xf4 && second_ok;
    }
    let b3: u8 = rest[2];
    0xf0 <= b1 && b1 <= 0xf4 && second_ok && 0x80 <= b3 && b3 <= 0xbf
}

/// The longest valid prefix is where decoding stops.
proof fn lemma_valid_prefix(bytes: Seq<u8>, n: int)
    requires
        0 <= n <= bytes.len(),
        valid_utf8(bytes.take(n)),
        n < bytes.len() ==> !valid_first_scalar(bytes.skip(n)),
    ensures
        valid_prefix(bytes) == n,
    decreases n,
{
    if n == 0 {
        assert(bytes.skip(0) =~= bytes);
    } else {
        let head = bytes.take(n);
        assert(valid_first_scalar(head));
        let k = length_of_first_scalar(head);
        assert(decode_first_codepoint(head) == decode_first_codepoint(bytes));
        assert(valid_first_scalar(bytes));
        assert(k == length_of_first_scalar(bytes));
        let rest = pop_first_scalar(bytes);
        assert(rest =~= bytes.skip(k));
        assert(pop_first_scalar(head) =~= rest.take(n - k));
        assert(rest.skip(n - k) =~= bytes.skip(n));
        lemma_valid_prefix(rest, n - k);
    }
}

/// The text of the head of a line; the error is the offset of what is not UTF-8.
pub fn decode_line(head: &[u8], complete: bool) -> (r: Result<String, usize>)
    ensures
        match (r, line_text(head@, complete)) {
            (Ok(s), Ok(t)) => s@ == t,
            (Err(n), Err(m)) => n == m && n < head@.len(),
            _ => false,
        },
{
    match decode_text(head) {
        Ok(s) => {
            proof {
                assert(head@.take(head@.len() as int) =~= head@);
                lemma_valid_prefix(head@, head@.len() as int);
            }
            Ok(s)
        },
        Err(n) => {
            proof {
                assert(head@.subrange(0, n as int) =~= head@.take(n as int));
                lemma_valid_prefix(head@, n as int);
            }
            let rest = &head[n..head.len()];
            assert(rest@ =~= head@.skip(n as int));
            if !complete && is_begun_scalar(rest) {
                let good = &head[0..n];
                assert(good@ =~= head@.take(n as int));
                match decode_text(good) {
                    Ok(s) => Ok(s),
                    Err(_) => Err(n),
                }
            } else {
                Err(n)
            }
        },
    }
}

fn offset_error(before: &str, path: &str, middle: &str, offset: u128) -> (e: ToolExecError)
    ensures
        e@ == before@ + path@ + middle@ + text::decimal(offset as nat) + ")"@,
{
    let mut m = before.to_owned();
    m.append(path);
    m.append(middle);
    push_decimal_wide(&mut m, offset);
    m.append(")");
    ToolExecError(m)
}

/// A numbered line as it is shown, or why it cannot be.
pub fn render_streamed_line(
    n: u64,
    head: &[u8],
    complete: bool,
    offset: u64,
    path: &str,
) -> (r: Result<String, ToolExecError>)
    ensures
        match (r, numbered_line(n as nat, head@, complete, offset as nat, path@)) {
            (Ok(s), Ok(t)) => s@ == t,
            (Err(e), Err(f)) => e@ == f,
            _ => false,
        },
{
    match find_nul(head) {
        Some(i) => {
            return Err(
                offset_error(
                    "'",
                    path,
                    "' appears to be a binary file (NUL byte at offset ",
                    offset as u128 + i as u128,
                ),
            );
        },
        None => {},
    }
    match decode_line(head, complete) {
        Err(v) => Err(
            offset_error(
                "'",
                path,
                "' is not valid UTF-8 text (invalid byte sequence at offset ",
                offset as u128 + v as u128,
            ),
        ),
        Ok(text) => {
            let mut cs = chars_of(&text);
            let k: usize = cs.len();
            if k > 0 && cs[k - 1] == '\n' {
                cs.truncate(k - 1);
                assert(cs@ =~= text@.drop_last());
            }
            let line = from_chars(&cs);
            let bare = strip_cr(&line);
            let mut out = String::new();
            push_decimal(&mut out, n);
            assert(out@ =~= text::decimal(n as nat));
            out.append(" | ");
            out.append(&bare);
            if !complete {
                out.append("\n...[line truncated: exceeds 64 KiB]");
            } else {
                assert(out@ + Seq::<char>::empty() =~= out@);
            }
            Ok(out)
        },
    }
}

impl LineWindow {
    /// The bytes shown are counted, and within the byte budget.
    pub open spec fn wf(&self) -> bool {
        self.shown_bytes == text::utf8_len(self.out@) && self.shown_bytes <= MAX_TOOL_OUTPUT_BYTES
            && self.lines_shown <= self.total_lines
    }

    /// A window that starts at line `start` and shows at most `max` lines.
    pub fn new(start: u64, max: u64) -> (r: Self)
        ensures
            r.wf(),
            r@ == window_start(),
            r.start == start,
            r.max == max,
    {
        let r = LineWindow {
            start,
            max,
            out: String::new(),
            total_lines: 0,
            total_bytes: 0,
            shown_bytes: 0,
            lines_shown: 0,
            truncated: false,
        };
        assert(r@ =~= window_start());
        r
    }

    /// Takes in one more line of `total` bytes, of which `head` holds as many as are looked at.
    pub fn feed(&mut self, head: &[u8], total: u64, path: &str) -> (r: Result<(), ToolExecError>)
        requires
            old(self).wf(),
            old(self).total_lines < u64::MAX,
            old(self).total_bytes + total <= u64::MAX,
        ensures
            final(self).start == old(self).start,
            final(self).max == old(self).max,
            match (
                r,
                window_step(
                    old(self)@,
                    old(self).start as nat,
                    old(self).max as nat,
                    head@,
                    total as nat,
                    path@,
                ),
            ) {
                (Ok(_), Ok(w)) => final(self)@ == w && final(self).wf(),
                (Err(e), Err(f)) => e@ == f,
                _ => false,
            },
    {
        let ghost before = self@;
        let offset: u64 = self.total_bytes;
        let n: u64 = self.total_lines + 1;
        self.total_lines = n;
        self.total_bytes = offset + total;
        let ghost counted = WindowView {
            lines: before.lines + 1,
            bytes: before.bytes + total as nat,
            ..before
        };
        if n < self.start || self.lines_shown >= self.max || self.truncated {
            assert(self@ =~= counted);
            return Ok(());
        }
        let complete = head.len() as u64 == total;
        match render_streamed_line(n, head, complete, offset, path) {
            Err(e) => Err(e),
            Ok(text) => {
                let len: usize = byte_len(&text);
                if len < MAX_TOOL_OUTPUT_BYTES && self.shown_bytes <= MAX_TOOL_OUTPUT_BYTES - 1 - len {
                    proof {
                        text::lemma_utf8_len_concat(self.out@, text@);
                        text::lemma_utf8_len_concat(self.out@ + text@, "\n"@);
                        reveal_strlit("\n");
                        is_ascii_chars_encode_utf8("\n"@);
                    }
                    self.out.append(&text);
                    self.out.append("\n");
                    self.shown_bytes = self.shown_bytes + len + 1;
                    self.lines_shown = self.lines_shown + 1;
                    assert(self@ =~= (WindowView {
                        out: before.out + text@ + "\n"@,
                        shown: before.shown + 1,
                        ..counted
                    }));
                } else {
                    self.truncated = true;
                    assert(self@ =~= (WindowView { truncated: true, ..counted }));
                }
                Ok(())
            },
        }
    }
}

/// Why a file is refused before any line is looked at: a NUL byte in its head.
pub open spec fn refused_head(content: Seq<u8>, path: Seq<char>) -> Option<Seq<char>> {
    let head = if content.len() <= BINARY_SNIFF_BYTES {
        content
    } else {
        content.take(BINARY_SNIFF_BYTES as int)
    };
    if nul_at(head) < head.len() {
        Some(binary_error(path, nul_at(head)))
    } else {
        None
    }
}

/// The window of a whole file, or why it cannot be shown.
pub open spec fn file_window(
    content: Seq<u8>,
    start: nat,
    max: nat,
    path: Seq<char>,
) -> Result<WindowView, Seq<char>> {
    match refused_head(content, path) {
        Some(e) => Err(e),
        None => window_of(file_lines(content), start, max, path),
    }
}

/// Refuses a file whose first bytes, of which `head` holds up to [`BINARY_SNIFF_BYTES`], hold a
/// NUL byte.
pub fn check_head(content: &[u8], path: &str) -> (r: Result<(), ToolExecError>)
    ensures
        match (r, refused_head(content@, path@)) {
            (Ok(_), None) => true,
            (Err(e), Some(f)) => e@ == f,
            _ => false,
        },
{
    let n: usize = if content.len() <= BINARY_SNIFF_BYTES {
        content.len()
    } else {
        BINARY_SNIFF_BYTES
    };
    let head = &content[0..n];
    assert(content@.len() <= BINARY_SNIFF_BYTES ==> head@ =~= content@);
    assert(content@.len() > BINARY_SNIFF_BYTES ==> head@ =~= content@.take(BINARY_SNIFF_BYTES as int));
    match find_nul(head) {
        Some(i) => Err(
            offset_error(
                "'",
                path,
                "' appears to be a binary file (NUL byte at offset ",
                i as u128,
            ),
        ),
        None => Ok(()),
    }
}

/// Reads all lines of `content` into a window.
#[verifier::spinoff_prover]
#[verifier::rlimit(60)]
pub fn read_window(content: &[u8], start: u64, max: u64, path: &str) -> (r: Result<
    LineWindow,
    ToolExecError,
>)
    ensures
        match (r, file_window(content@, start as nat, max as nat, path@)) {
            (Ok(w), Ok(v)) => w@ == v && w.wf() && w.start == start && w.max == max
                && w.total_bytes == content@.len() && w.total_lines == file_lines(content@).len(),
            (Err(e), Err(f)) => e@ == f,
            _ => false,
        },
{
    match check_head(content, path) {
        Err(e) => {
            return Err(e);
        },
        Ok(_) => {},
    }
    let mut w = LineWindow::new(start, max);
    let mut i: usize = 0;
    let n: usize = content.len();
    assert(content@.take(0) =~= Seq::<u8>::empty());
    while i < n
        invariant
            n == content@.len(),
            i <= n,
            w.wf(),
            w.start == start,
            w.max == max,
            refused_head(content@, path@) is None,
            i == 0 || i == n || content@[i - 1] == 10,
            window_of(file_lines(content@.take(i as int)), start as nat, max as nat, path@) == Ok::<
                WindowView,
                Seq<char>,
            >(w@),
            w.total_bytes == i,
            w.total_lines == file_lines(content@.take(i as int)).len(),
            w.total_lines <= i,
        decreases n - i,
    {
        let mut j: usize = i;
        while j < n && content[j] != 10
            invariant
                i <= j <= n,
                n == content@.len(),
                forall|k: int| i <= k < j ==> #[trigger] content@[k] != 10,
            decreases n - j,
        {
            j = j + 1;
        }
        let end: usize = if j < n {
            j + 1
        } else {
            n
        };
        let line = &content[i..end];
        let shown: usize = if line.len() <= MAX_LINE_DISPLAY_BYTES {
            line.len()
        } else {
            MAX_LINE_DISPLAY_BYTES
        };
        let head = &line[0..shown];
        proof {
            let before = content@.take(i as int);
            assert(content@.take(end as int) =~= before + line@);
            lemma_one_more_line(before, line@);
            assert(file_lines(before).push(line@).drop_last() =~= file_lines(before));
            assert(head@ =~= line_head(line@));
        }
        match w.feed(head, line.len() as u64, path) {
            Err(e) => {
                proof {
                    let done = content@.take(end as int);
                    lemma_window_error_stays(
                        file_lines(done),
                        content@,
                        end as int,
                        start as nat,
                        max as nat,
                        path@,
                    );
                }
                return Err(e);
            },
            Ok(_) => {},
        }
        i = end;
    }
    assert(content@.take(i as int) =~= content@);
    Ok(w)
}

/// An error in the lines read so far is the error of the whole file.
proof fn lemma_window_error_stays(
    lines: Seq<Seq<u8>>,
    content: Seq<u8>,
    end: int,
    start: nat,
    max: nat,
    path: Seq<char>,
)
    requires
        0 < end <= content.len(),
        end == content.len() || content[end - 1] == 10,
        lines == file_lines(content.take(end)),
        window_of(lines, start, max, path) is Err,
    ensures
        window_of(file_lines(content), start, max, path) == window_of(lines, start, max, path),
    decreases content.len() - end,
{
    lemma_prefix_lines(content, end);
    lemma_window_error_prefix(file_lines(content), lines.len() as int, start, max, path);
}

proof fn lemma_window_error_prefix(
    all: Seq<Seq<u8>>,
    k: int,
    start: nat,
    max: nat,
    path: Seq<char>,
)
    requires
        0 <= k <= all.len(),
        window_of(all.take(k), start, max, path) is Err,
    ensures
        window_of(all, start, max, path) == window_of(all.take(k), start, max, path),
    decreases all.len(),
{
    if k < all.len() {
        let t = all.drop_last();
        assert(t.take(k) =~= all.take(k));
        lemma_window_error_prefix(t, k, start, max, path);
    } else {
        assert(all.take(k) =~= all);
    }
}

/// The lines of a prefix that ends with a line are the first lines of the whole.
proof fn lemma_prefix_lines(content: Seq<u8>, end: int)
    requires
        0 < end <= content.len(),
        end == content.len() || content[end - 1] == 10,
    ensures
        ({
            let part = file_lines(content.take(end));
            part.len() <= file_lines(content).len() && file_lines(content).take(part.len() as int)
                == part
        }),
    decreases content.len() - end,
{
    let part = file_lines(content.take(end));
    if end == content.len() {
        assert(content.take(end) =~= content);
        assert(part.take(part.len() as int) =~= part);
    } else {
        lemma_lines_extend(content, end, content.len() as int);
        assert(content.take(content.len() as int) =~= content);
    }
}

proof fn lemma_lines_extend(content: Seq<u8>, end: int, upto: int)
    requires
        0 < end <= upto <= content.len(),
        content[end - 1] == 10,
    ensures
        ({
            let part = file_lines(content.take(end));
            let all = file_lines(content.take(upto));
            &&& part.len() <= all.len()
            &&& all.take(part.len() as int) == part
        }),
    decreases upto,
{
    let part = file_lines(content.take(end));
    if end == upto {
        assert(part.take(part.len() as int) =~= part);
    } else {
        lemma_lines_extend(content, end, upto - 1);
        let before = content.take(upto - 1);
        let all = content.take(upto);
        assert(all.drop_last() =~= before);
        lemma_last_of_last_line(content.take(end));
        assert(content.take(end).last() == 10);
        let prev = file_lines(before);
        if prev.len() > 0 && prev.last().last() != 10 {
            assert(prev.len() > part.len()) by {
                if prev.len() == part.len() {
                    assert(prev.take(part.len() as int) =~= prev);
                }
            }
        }
        assert(file_lines(all).take(part.len() as int) =~= prev.take(part.len() as int));
    }
}

/// A window never shows more lines than it may, nor more bytes than the budget.
pub proof fn law_window_is_bounded(lines: Seq<Seq<u8>>, start: nat, max: nat, path: Seq<char>)
    requires
        window_of(lines, start, max, path) is Ok,
    ensures
        window_of(lines, start, max, path)->Ok_0.shown <= max,
        text::utf8_len(window_of(lines, start, max, path)->Ok_0.out) <= MAX_TOOL_OUTPUT_BYTES,
        window_of(lines, start, max, path)->Ok_0.lines == lines.len(),
        window_of(lines, start, max, path)->Ok_0.bytes == concat_lines(lines).len(),
    decreases lines.len(),
{
    if lines.len() > 0 {
        law_window_is_bounded(lines.drop_last(), start, max, path);
        let w = window_of(lines.drop_last(), start, max, path)->Ok_0;
        let next = window_of(lines, start, max, path)->Ok_0;
        if next.out != w.out {
            let text = numbered_line(
                w.lines + 1,
                line_head(lines.last()),
                line_head(lines.last()).len() == lines.last().len(),
                w.bytes,
                path,
            )->Ok_0;
            text::lemma_utf8_len_concat(w.out, text);
            text::lemma_utf8_len_concat(w.out + text, "\n"@);
            reveal_strlit("\n");
            is_ascii_chars_encode_utf8("\n"@);
        }
    }
}

/// A window that the byte budget did not cut short shows every line it was asked for: those from
/// the first on, as many as there are and as may be shown.
pub proof fn law_window_is_complete(lines: Seq<Seq<u8>>, start: nat, max: nat, path: Seq<char>)
    requires
        start >= 1,
        window_of(lines, start, max, path) matches Ok(w) && !w.truncated,
    ensures
        window_of(lines, start, max, path)->Ok_0.shown == (if lines.len() < start {
            0
        } else if lines.len() - start + 1 <= max {
            (lines.len() - start + 1) as nat
        } else {
            max
        }),
    decreases lines.len(),
{
    law_window_is_bounded(lines, start, max, path);
    if lines.len() > 0 {
        law_window_is_bounded(lines.drop_last(), start, max, path);
        law_window_is_complete(lines.drop_last(), start, max, path);
    }
}

/// A window that the byte budget cut short shows an unbroken run of lines from its first: the
/// line behind them is where the next call continues, and it is in the file.
pub proof fn law_cut_window_resumes(lines: Seq<Seq<u8>>, start: nat, max: nat, path: Seq<char>)
    requires
        start >= 1,
        window_of(lines, start, max, path) matches Ok(w) && w.truncated,
    ensures
        start + window_of(lines, start, max, path)->Ok_0.shown <= lines.len(),
        window_of(lines, start, max, path)->Ok_0.shown < max,
    decreases lines.len(),
{
    law_window_is_bounded(lines, start, max, path);
    if lines.len() > 0 {
        let t = lines.drop_last();
        law_window_is_bounded(t, start, max, path);
        let w = window_of(t, start, max, path)->Ok_0;
        if w.truncated {
            law_cut_window_resumes(t, start, max, path);
        } else {
            law_window_is_complete(t, start, max, path);
        }
    }
}

/// A newline ends its line: no line holds one before its end.
pub proof fn law_newlines_end_lines(bytes: Seq<u8>)
    ensures
        forall|i: int, j: int|
            0 <= i < file_lines(bytes).len() && 0 <= j < file_lines(bytes)[i].len() - 1
                ==> #[trigger] file_lines(bytes)[i][j] != 10,
    decreases bytes.len(),
{
    if bytes.len() > 0 {
        let before = file_lines(bytes.drop_last());
        let lines = file_lines(bytes);
        law_newlines_end_lines(bytes.drop_last());
        law_lines_make_the_file(bytes.drop_last());
        assert forall|i: int, j: int|
            0 <= i < lines.len() && 0 <= j < lines[i].len() - 1 implies #[trigger] lines[i][j]
            != 10 by {
            if before.len() > 0 && before.last().last() != 10 {
                if i < before.len() - 1 {
                    assert(lines[i] == before[i]);
                    assert(before[i][j] != 10);
                } else {
                    let l = before[before.len() - 1];
                    assert(lines[i] == l.push(bytes.last()));
                    if j < l.len() - 1 {
                        assert(before[before.len() - 1][j] != 10);
                    }
                }
            } else if i < before.len() {
                assert(lines[i] == before[i]);
                assert(before[i][j] != 10);
            }
        }
    }
}

} // verus!
