//! The byte budget of streamed output, and the record that is made of it.

use crate::bytes::{bytes_of, lossy_text};
use crate::bytes;
use crate::line_split;
use crate::sanitize::{MAX_TOOL_OUTPUT_BYTES, TRUNCATION_SUFFIX, finish_tool_output_sanitized, sanitize_transcript};
use crate::sanitize;
use crate::text::{byte_len, push_decimal, push_signed};
use crate::text;
use crate::text_stream;
use vstd::prelude::*;
use vstd::string::*;
use vstd::utf8::*;

verus! {

/// A budget of bytes: the first so many are kept, and that others were not is said once.
#[derive(Debug)]
pub struct ByteBudget {
    left: usize,
    over: bool,
    marked: bool,
}

/// What a budget still allows.
#[verifier::ext_equal]
pub struct BudgetView {
    pub left: nat,
    /// Whether more was offered than there was room for.
    pub over: bool,
    /// Whether that was said.
    pub marked: bool,
}

impl View for ByteBudget {
    type V = BudgetView;

    closed spec fn view(&self) -> BudgetView {
        BudgetView { left: self.left as nat, over: self.over, marked: self.marked }
    }
}

/// How many of `n` bytes there is room for.
pub open spec fn fits(v: BudgetView, n: nat) -> nat {
    if n <= v.left {
        n
    } else {
        v.left
    }
}

/// The budget after `n` bytes were offered.
pub open spec fn charged(v: BudgetView, n: nat) -> BudgetView {
    BudgetView { left: (v.left - fits(v, n)) as nat, over: v.over || n > v.left, marked: v.marked }
}

impl ByteBudget {
    /// A budget of `limit` bytes.
    pub fn new(limit: usize) -> (b: Self)
        ensures
            b@ == (BudgetView { left: limit as nat, over: false, marked: false }),
    {
        ByteBudget { left: limit, over: false, marked: false }
    }

    /// Charges the budget with `n` bytes and says how many of them there is room for.
    pub fn fit(&mut self, n: usize) -> (k: usize)
        ensures
            k == fits(old(self)@, n as nat),
            final(self)@ == charged(old(self)@, n as nat),
    {
        if n <= self.left {
            self.left = self.left - n;
            n
        } else {
            let k: usize = self.left;
            self.left = 0;
            self.over = true;
            k
        }
    }

    /// The truncation suffix, once, after more was offered than there was room for.
    pub fn take_marker(&mut self) -> (m: Option<&'static str>)
        ensures
            match m {
                Some(t) => t@ == TRUNCATION_SUFFIX@ && old(self)@.over && !old(self)@.marked,
                None => !old(self)@.over || old(self)@.marked,
            },
            final(self)@ == (BudgetView {
                marked: old(self)@.marked || old(self)@.over,
                ..old(self)@
            }),
    {
        if self.over && !self.marked {
            self.marked = true;
            Some(TRUNCATION_SUFFIX)
        } else {
            None
        }
    }
}

/// The bytes of the truncation suffix.
pub open spec fn marker_bytes() -> Seq<u8> {
    encode_utf8(TRUNCATION_SUFFIX@)
}

/// What is to be sent for one chunk: the part there is room for, and the marker where the budget
/// is exceeded for the first time.
pub open spec fn pieces_of(v: BudgetView, chunk: Seq<u8>) -> Seq<Seq<u8>> {
    let n = fits(v, chunk.len());
    let head = if n > 0 {
        seq![chunk.take(n as int)]
    } else {
        Seq::empty()
    };
    if charged(v, chunk.len()).over && !v.marked {
        head.push(marker_bytes())
    } else {
        head
    }
}

/// The budget after one chunk.
pub open spec fn after_chunk(v: BudgetView, chunk: Seq<u8>) -> BudgetView {
    let c = charged(v, chunk.len());
    BudgetView { marked: c.marked || c.over, ..c }
}

/// The budget after several chunks.
pub open spec fn after_chunks(v: BudgetView, chunks: Seq<Seq<u8>>) -> BudgetView
    decreases chunks.len(),
{
    if chunks.len() == 0 {
        v
    } else {
        after_chunk(after_chunks(v, chunks.drop_last()), chunks.last())
    }
}

/// All that is to be sent for several chunks.
pub open spec fn sent_for(v: BudgetView, chunks: Seq<Seq<u8>>) -> Seq<u8>
    decreases chunks.len(),
{
    if chunks.len() == 0 {
        Seq::empty()
    } else {
        sent_for(v, chunks.drop_last()) + text_stream::concat_lines(
            pieces_of(after_chunks(v, chunks.drop_last()), chunks.last()),
        )
    }
}

/// Bytes cut to a limit, with the marker behind them where any were cut.
pub open spec fn capped_stream(all: Seq<u8>, limit: nat) -> Seq<u8> {
    if all.len() <= limit {
        all
    } else {
        all.take(limit as int) + marker_bytes()
    }
}

/// Passes a bounded total of bytes on.
#[derive(Debug)]
pub struct StreamByteCap {
    budget: ByteBudget,
}

impl View for StreamByteCap {
    type V = BudgetView;

    closed spec fn view(&self) -> BudgetView {
        self.budget@
    }
}

impl StreamByteCap {
    /// A cap of `limit` bytes.
    pub fn new(limit: usize) -> (c: Self)
        ensures
            c@ == (BudgetView { left: limit as nat, over: false, marked: false }),
    {
        StreamByteCap { budget: ByteBudget::new(limit) }
    }

    /// What is to be sent for `chunk`, in order.
    pub fn push(&mut self, chunk: &[u8]) -> (pieces: Vec<Vec<u8>>)
        ensures
            line_split::byte_views(pieces@) == pieces_of(old(self)@, chunk@),
            final(self)@ == after_chunk(old(self)@, chunk@),
    {
        let mut pieces: Vec<Vec<u8>> = Vec::new();
        let n: usize = self.budget.fit(chunk.len());
        if n > 0 {
            let head = copy_bytes(&chunk[0..n]);
            assert(head@ =~= chunk@.take(n as int));
            pieces.push(head);
            assert(line_split::byte_views(pieces@) =~= seq![chunk@.take(n as int)]);
        } else {
            assert(line_split::byte_views(pieces@) =~= Seq::empty());
        }
        let ghost before = line_split::byte_views(pieces@);
        match self.budget.take_marker() {
            Some(m) => {
                pieces.push(bytes_of(m));
                assert(line_split::byte_views(pieces@) =~= before.push(marker_bytes()));
            },
            None => {},
        }
        pieces
    }
}

/// A copy of bytes.
pub fn copy_bytes(s: &[u8]) -> (v: Vec<u8>)
    ensures
        v@ == s@,
{
    let mut v: Vec<u8> = Vec::new();
    extend_bytes(&mut v, s);
    assert(v@ =~= s@);
    v
}

/// Appends bytes.
pub fn extend_bytes(v: &mut Vec<u8>, s: &[u8])
    ensures
        final(v)@ == old(v)@ + s@,
{
    assert(v@ =~= old(v)@ + s@.take(0));
    for i in 0..s.len()
        invariant
            v@ == old(v)@ + s@.take(i as int),
    {
        v.push(s[i]);
        assert(v@ =~= old(v)@ + s@.take(i + 1));
    }
    assert(s@.take(s@.len() as int) =~= s@);
}

/// Adds to the record the pieces that were delivered, in order; says whether all of them were.
pub fn record_delivered(out: &mut Vec<u8>, pieces: &Vec<Vec<u8>>, delivered: usize) -> (all: bool)
    requires
        delivered <= pieces@.len(),
    ensures
        final(out)@ == old(out)@ + text_stream::concat_lines(line_split::byte_views(pieces@).take(delivered as int)),
        all == (delivered == pieces@.len()),
{
    let ghost parts = line_split::byte_views(pieces@);
    assert(parts.take(0) =~= Seq::<Seq<u8>>::empty());
    assert(out@ =~= old(out)@ + text_stream::concat_lines(parts.take(0)));
    for i in 0..delivered
        invariant
            delivered <= pieces@.len(),
            parts == line_split::byte_views(pieces@),
            out@ == old(out)@ + text_stream::concat_lines(parts.take(i as int)),
    {
        extend_bytes(out, pieces[i].as_slice());
        assert(parts.take(i + 1).drop_last() =~= parts.take(i as int));
        assert(parts.take(i + 1).last() == pieces@[i as int]@);
        assert(out@ =~= old(out)@ + text_stream::concat_lines(parts.take(i + 1)));
    }
    delivered == pieces.len()
}

proof fn lemma_pieces_concat(v: BudgetView, chunk: Seq<u8>)
    ensures
        text_stream::concat_lines(pieces_of(v, chunk)) == chunk.take(fits(v, chunk.len()) as int) + (if charged(
            v,
            chunk.len(),
        ).over && !v.marked {
            marker_bytes()
        } else {
            Seq::empty()
        }),
{
    let n = fits(v, chunk.len());
    let head = if n > 0 {
        seq![chunk.take(n as int)]
    } else {
        Seq::<Seq<u8>>::empty()
    };
    assert(text_stream::concat_lines(head) =~= chunk.take(n as int)) by {
        if n > 0 {
            reveal_with_fuel(text_stream::concat_lines, 2);
            assert(head.drop_last() =~= Seq::<Seq<u8>>::empty());
        } else {
            assert(chunk.take(0) =~= Seq::<u8>::empty());
        }
    }
    assert(head.push(marker_bytes()).drop_last() =~= head);
    assert(chunk.take(n as int) + Seq::<u8>::empty() =~= chunk.take(n as int));
}

/// However the output comes in chunks, what is sent of it is its first bytes up to the limit, and
/// behind them the marker exactly where there was more.
pub proof fn law_stream_is_first_bytes_and_one_marker(limit: nat, chunks: Seq<Seq<u8>>)
    ensures
        sent_for((BudgetView { left: limit, over: false, marked: false }), chunks)
            == capped_stream(text_stream::concat_lines(chunks), limit),
{
    lemma_sent(limit, chunks);
}

proof fn lemma_sent(limit: nat, chunks: Seq<Seq<u8>>)
    ensures
        ({
            let start = BudgetView { left: limit, over: false, marked: false };
            let all = text_stream::concat_lines(chunks);
            let v = after_chunks(start, chunks);
            &&& sent_for(start, chunks) == capped_stream(all, limit)
            &&& v.over == (all.len() > limit)
            &&& v.marked == v.over
            &&& v.left == (if all.len() > limit {
                0
            } else {
                limit - all.len()
            })
        }),
    decreases chunks.len(),
{
    let start = BudgetView { left: limit, over: false, marked: false };
    if chunks.len() == 0 {
        assert(text_stream::concat_lines(chunks) =~= Seq::<u8>::empty());
    } else {
        let front = chunks.drop_last();
        lemma_sent(limit, front);
        let before = text_stream::concat_lines(front);
        let last = chunks.last();
        let v = after_chunks(start, front);
        lemma_pieces_concat(v, last);
        let n = fits(v, last.len());
        if before.len() > limit {
            assert(last.take(0) =~= Seq::<u8>::empty());
            assert((before + last).take(limit as int) =~= before.take(limit as int));
            assert(sent_for(start, chunks) =~= capped_stream(before + last, limit));
        } else if before.len() + last.len() <= limit {
            assert(last.take(n as int) =~= last);
            assert(sent_for(start, chunks) =~= before + last);
        } else {
            assert((before + last).take(limit as int) =~= before + last.take(n as int));
            assert(sent_for(start, chunks) =~= capped_stream(before + last, limit));
        }
    }
}

/// Accumulates the first bytes of what is drained.
#[derive(Debug, Clone, Copy, PartialEq, Eq, Structural)]
pub enum DrainAccumulate {
    /// Everything: no cap applies.
    All,
    /// The first so many bytes.
    Capped(usize),
}

/// Adds to `full` the part of `chunk` that the budget has room for; all of it without a budget.
pub fn accumulate_chunk(budget: &mut Option<ByteBudget>, full: &mut Vec<u8>, chunk: &[u8])
    ensures
        match (*old(budget), *final(budget)) {
            (Some(b), Some(c)) => {
                &&& final(full)@ == old(full)@ + chunk@.take(fits(b@, chunk@.len()) as int)
                &&& c@ == charged(b@, chunk@.len())
            },
            (None, None) => final(full)@ == old(full)@ + chunk@,
            _ => false,
        },
{
    match budget.take() {
        Some(b) => {
            let mut b = b;
            let n: usize = b.fit(chunk.len());
            extend_bytes(full, &chunk[0..n]);
            assert(chunk@.subrange(0, n as int) =~= chunk@.take(n as int));
            *budget = Some(b);
        },
        None => {
            extend_bytes(full, chunk);
        },
    }
}

/// Bytes that `format_shell_output` puts around a streamed body.
#[derive(Debug, Clone, Copy)]
pub struct RecordFraming(usize);

/// The first line of a record.
pub open spec fn record_header(display_cmd: Seq<char>) -> Seq<char> {
    "$ "@ + display_cmd + "\n"@
}

/// Bytes that the record of a command needs besides its body: the escaped header, the longest
/// footer, the stream's own marker and the room that is held back for another.
pub open spec fn framing_reservation(display_cmd: Seq<char>) -> nat {
    text::utf8_len(sanitize::transcript(record_header(display_cmd))) + 24 + 2 * 15
}

/// The greatest `usize` where `n` is greater.
pub open spec fn saturated(n: nat) -> nat {
    if n <= usize::MAX {
        n
    } else {
        usize::MAX as nat
    }
}

/// Bytes that the record of a command needs besides its body.
pub fn shell_output_framing_reservation(display_cmd: &str) -> (n: usize)
    ensures
        n == saturated(framing_reservation(display_cmd@)),
{
    let mut header = "$ ".to_owned();
    header.append(display_cmd);
    header.append("\n");
    let escaped = sanitize_transcript(header.as_str());
    byte_len(escaped.as_str()).saturating_add(54)
}

impl RecordFraming {
    /// The reserved bytes.
    pub closed spec fn reserved(self) -> nat {
        self.0 as nat
    }

    /// Nothing is reserved.
    pub fn none() -> (f: Self)
        ensures
            f.reserved() == 0,
    {
        RecordFraming(0)
    }

    /// Room for the record of a command.
    pub fn shell(display_cmd: &str) -> (f: Self)
        ensures
            f.reserved() == saturated(framing_reservation(display_cmd@)),
    {
        RecordFraming(shell_output_framing_reservation(display_cmd))
    }

    /// The reserved bytes.
    pub fn bytes(self) -> (n: usize)
        ensures
            n == self.reserved(),
    {
        self.0
    }
}

/// Bytes that may be streamed where `reserved` bytes are held back.
pub open spec fn stream_room(reserved: nat) -> nat {
    if reserved <= MAX_TOOL_OUTPUT_BYTES {
        (MAX_TOOL_OUTPUT_BYTES - reserved) as nat
    } else {
        0
    }
}

/// Bytes that may be streamed.
pub fn stream_budget(framing: RecordFraming) -> (n: usize)
    ensures
        n == stream_room(framing.reserved()),
{
    MAX_TOOL_OUTPUT_BYTES.saturating_sub(framing.bytes())
}

/// What is passed on of one line: its text with format characters escaped.
pub open spec fn streamed_line(line: Seq<u8>) -> Seq<u8> {
    encode_utf8(sanitize::transcript(bytes::utf8_lossy(line)))
}

/// Merges the lines of both outputs into one stream.
#[derive(Debug)]
pub struct StreamMerger {
    cap: StreamByteCap,
    full: Vec<u8>,
}

impl StreamMerger {
    /// What the stream still has room for.
    pub closed spec fn budget(&self) -> BudgetView {
        self.cap@
    }

    /// What was delivered.
    pub closed spec fn recorded(&self) -> Seq<u8> {
        self.full@
    }

    /// A merger with `framing` held back from its budget.
    pub fn new(framing: RecordFraming) -> (m: Self)
        ensures
            m.budget() == (BudgetView {
                left: stream_room(framing.reserved()),
                over: false,
                marked: false,
            }),
            m.recorded() == Seq::<u8>::empty(),
    {
        StreamMerger { cap: StreamByteCap::new(stream_budget(framing)), full: Vec::new() }
    }

    /// What is to be sent for one line, in order.
    pub fn line(&mut self, line: &[u8]) -> (pieces: Vec<Vec<u8>>)
        ensures
            line_split::byte_views(pieces@) == pieces_of(old(self).budget(), streamed_line(line@)),
            final(self).budget() == after_chunk(old(self).budget(), streamed_line(line@)),
            final(self).recorded() == old(self).recorded(),
    {
        let text = lossy_text(line);
        let escaped = sanitize_transcript(text.as_str());
        let bytes = bytes_of(escaped.as_str());
        self.cap.push(bytes.as_slice())
    }

    /// Records the pieces that were delivered; says whether the stream goes on.
    pub fn delivered(&mut self, pieces: &Vec<Vec<u8>>, count: usize) -> (go_on: bool)
        requires
            count <= pieces@.len(),
        ensures
            final(self).recorded() == old(self).recorded() + text_stream::concat_lines(
                line_split::byte_views(pieces@).take(count as int),
            ),
            final(self).budget() == old(self).budget(),
            go_on == (count == pieces@.len()),
    {
        record_delivered(&mut self.full, pieces, count)
    }

    /// What was delivered.
    pub fn body(self) -> (b: Vec<u8>)
        ensures
            b@ == self.recorded(),
    {
        self.full
    }
}

/// The record of a command that ended: its command, its output and its exit code.
pub open spec fn ended_record(display_cmd: Seq<char>, output: Seq<char>, code: int) -> Seq<char> {
    sanitize::finished(
        sanitize::transcript("$ "@ + display_cmd + "\n"@ + output),
        Some("\nExit code: "@ + text::signed_decimal(code)),
    )
}

/// The record of a command that took too long.
pub open spec fn killed_record(display_cmd: Seq<char>, timeout_ms: nat) -> Seq<char> {
    sanitize::finished(
        sanitize::transcript("$ "@ + display_cmd),
        Some("\n[command timed out after "@ + text::decimal(timeout_ms) + "ms]\n\nExit code: -1"@),
    )
}

/// The exit code of a record: a process that a signal ended has none of its own.
pub open spec fn shown_code(code: Option<i32>) -> int {
    match code {
        Some(c) => c as int,
        None => -1,
    }
}

/// Makes the record of a command out of what it wrote.
pub fn format_shell_output(
    display_cmd: &str,
    stdout: &[u8],
    stderr: &[u8],
    exit_code: Option<i32>,
    timeout_ms: u64,
    was_killed: bool,
) -> (r: String)
    ensures
        was_killed ==> r@ == killed_record(display_cmd@, timeout_ms as nat),
        !was_killed ==> r@ == ended_record(
            display_cmd@,
            bytes::utf8_lossy(stdout@ + stderr@),
            shown_code(exit_code),
        ),
        !was_killed && valid_utf8(stdout@ + stderr@) ==> r@ == ended_record(
            display_cmd@,
            decode_utf8(stdout@ + stderr@),
            shown_code(exit_code),
        ),
{
    let mut body = "$ ".to_owned();
    body.append(display_cmd);
    if was_killed {
        let mut note = "\n[command timed out after ".to_owned();
        push_decimal(&mut note, timeout_ms);
        note.append("ms]\n\nExit code: -1");
        return finish_tool_output_sanitized(body.as_str(), Some(note));
    }
    let mut combined = copy_bytes(stdout);
    extend_bytes(&mut combined, stderr);
    let text = lossy_text(combined.as_slice());
    body.append("\n");
    body.append(text.as_str());
    let code: i32 = match exit_code {
        Some(c) => c,
        None => -1,
    };
    let mut footer = "\nExit code: ".to_owned();
    push_signed(&mut footer, code);
    finish_tool_output_sanitized(body.as_str(), Some(footer))
}

/// The room reserved for the record is enough: an escaped output that kept to the stream's budget,
/// with or without the stream's marker, is recorded whole, and the exit code behind it.
pub proof fn law_record_keeps_the_stream(display_cmd: Seq<char>, output: Seq<char>, code: i32)
    requires
        sanitize::format_free(output),
        framing_reservation(display_cmd) <= MAX_TOOL_OUTPUT_BYTES,
        text::utf8_len(output) <= stream_room(framing_reservation(display_cmd)) + 15,
    ensures
        ended_record(display_cmd, output, code as int) == sanitize::transcript(record_header(display_cmd))
            + output + "\n"@ + ("\nExit code: "@ + text::signed_decimal(code as int)),
{
    let header = record_header(display_cmd);
    let marker = "\nExit code: "@ + text::signed_decimal(code as int);
    text::lemma_expand_concat(header, output, sanitize::transcript_char());
    sanitize::law_transcript_keeps_format_free_text(output);
    sanitize::lemma_suffix_len();
    text::lemma_signed_decimal_len(code);
    reveal_strlit("\nExit code: ");
    is_ascii_chars_encode_utf8("\nExit code: "@);
    text::lemma_utf8_len_concat("\nExit code: "@, text::signed_decimal(code as int));
    text::lemma_utf8_len_concat(sanitize::transcript(header), output);
    assert(sanitize::transcript("$ "@ + display_cmd + "\n"@ + output) == sanitize::transcript(header) + output);
}

/// The exit code is the last thing in every record, whatever had to be cut.
pub proof fn law_exit_code_survives(display_cmd: Seq<char>, output: Seq<char>, code: int)
    ensures
        ("\nExit code: "@ + text::signed_decimal(code)).is_suffix_of(
            ended_record(display_cmd, output, code),
        ),
{
    let marker = "\nExit code: "@ + text::signed_decimal(code);
    let body = sanitize::transcript("$ "@ + display_cmd + "\n"@ + output);
    assert(sanitize::finished(body, Some(marker)) =~= sanitize::truncated_at(body, sanitize::body_room(marker)) + "\n"@ + marker);
}

} // verus!
