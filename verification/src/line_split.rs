//! Cutting a process's output into chunks that end with a line or between two characters.

use crate::text_stream;
use vstd::prelude::*;
use vstd::utf8::*;

verus! {

/// Bytes of an unfinished line that are held before they are passed on as a partial chunk.
pub const MAX_PENDING_LINE_BYTES: usize = 16384;

pub const LF: u8 = 10;

pub const CR: u8 = 13;

/// Number of continuation bytes at the end of `s`.
pub open spec fn trailing_continuations(s: Seq<u8>) -> nat
    decreases s.len(),
{
    if s.len() > 0 && is_continuation_byte(s.last()) {
        1 + trailing_continuations(s.drop_last())
    } else {
        0
    }
}

/// Continuation bytes that a leading byte announces; none for a byte that can lead nothing.
pub open spec fn announced(lead: u8) -> nat {
    if is_leading_byte_width_2(lead) {
        1
    } else if is_leading_byte_width_3(lead) {
        2
    } else if is_leading_byte_width_4(lead) {
        3
    } else {
        0
    }
}

/// Number of bytes at the end of `s` that begin a character and do not finish it.
pub open spec fn unfinished(s: Seq<u8>) -> nat {
    let c = trailing_continuations(s);
    if c < s.len() && announced(s[s.len() - 1 - c]) > c {
        c + 1
    } else {
        0
    }
}

/// Number of bytes at the end of `s` that are held back: a carriage return, which a line feed may
/// follow, and before it an unfinished character.
pub open spec fn held_back(s: Seq<u8>) -> nat {
    if s.len() > 0 && s.last() == CR {
        1 + unfinished(s.drop_last())
    } else {
        unfinished(s)
    }
}

/// Chunks that were passed on, and the bytes that wait for more.
#[verifier::ext_equal]
pub struct SplitView {
    pub lines: Seq<Seq<u8>>,
    pub pending: Seq<u8>,
}

/// What one more byte makes of the pending bytes: a line feed swallows a carriage return right
/// before it.
pub open spec fn with_byte(pending: Seq<u8>, b: u8) -> Seq<u8> {
    if b == LF && pending.len() > 0 && pending.last() == CR {
        pending.drop_last().push(b)
    } else {
        pending.push(b)
    }
}

/// One more byte: a line feed passes the line on, and so does reaching the limit, but for the bytes
/// that are held back.
pub open spec fn split_step(v: SplitView, b: u8) -> SplitView {
    let p = with_byte(v.pending, b);
    let cut = p.len() - held_back(p);
    if b == LF {
        SplitView { lines: v.lines.push(p), pending: Seq::empty() }
    } else if p.len() >= MAX_PENDING_LINE_BYTES {
        SplitView { lines: v.lines.push(p.take(cut)), pending: p.skip(cut) }
    } else {
        SplitView { lines: v.lines, pending: p }
    }
}

/// A chunk of bytes, one after another.
pub open spec fn split_all(v: SplitView, chunk: Seq<u8>) -> SplitView
    decreases chunk.len(),
{
    if chunk.len() == 0 {
        v
    } else {
        split_step(split_all(v, chunk.drop_last()), chunk.last())
    }
}

/// The bytes of each chunk.
pub open spec fn byte_views(lines: Seq<Vec<u8>>) -> Seq<Seq<u8>> {
    Seq::new(lines.len(), |i: int| lines[i]@)
}

/// The state before the first byte.
pub open spec fn nothing_split() -> SplitView {
    SplitView { lines: Seq::empty(), pending: Seq::empty() }
}

proof fn lemma_trailing_bound(s: Seq<u8>)
    ensures
        trailing_continuations(s) <= s.len(),
        forall|j: int|
            s.len() - trailing_continuations(s) <= j < s.len() ==> is_continuation_byte(
                #[trigger] s[j],
            ),
        trailing_continuations(s) < s.len() ==> !is_continuation_byte(
            s[s.len() - 1 - trailing_continuations(s)],
        ),
    decreases s.len(),
{
    if s.len() > 0 && is_continuation_byte(s.last()) {
        lemma_trailing_bound(s.drop_last());
        assert forall|j: int|
            s.len() - trailing_continuations(s) <= j < s.len() implies is_continuation_byte(
            #[trigger] s[j],
        ) by {
            if j < s.len() - 1 {
                assert(s[j] == s.drop_last()[j]);
            }
        }
    }
}

proof fn lemma_held_back_bound(s: Seq<u8>)
    ensures
        held_back(s) <= s.len(),
        held_back(s) <= 4,
{
    lemma_trailing_bound(s);
    if s.len() > 0 {
        lemma_trailing_bound(s.drop_last());
    }
}

/// Number of bytes at the end of `pending` that must not be passed on yet.
pub fn partial_tail_len(pending: &[u8]) -> (n: usize)
    ensures
        n == held_back(pending@),
        n <= 4,
        n <= pending@.len(),
{
    let mut i: usize = pending.len();
    let mut cr: usize = 0;
    if i > 0 && pending[i - 1] == CR {
        cr = 1;
    }
    i = i - cr;
    let ghost body = pending@.take(i as int);
    proof {
        if cr == 1 {
            assert(pending@.drop_last() =~= body);
        } else {
            assert(pending@ =~= body);
        }
        lemma_trailing_bound(body);
        lemma_held_back_bound(pending@);
        assert(body.take(body.len() as int) =~= body);
    }
    let mut continuations: usize = 0;
    while i > 0 && 0x80 <= pending[i - 1] && pending[i - 1] <= 0xBF
        invariant
            i + continuations == body.len(),
            body.len() <= pending@.len(),
            forall|j: int| 0 <= j < body.len() ==> body[j] == pending@[j],
            trailing_continuations(body) == continuations + trailing_continuations(
                body.take(i as int),
            ),
        decreases i,
    {
        assert(body.take(i as int).drop_last() =~= body.take(i - 1));
        i = i - 1;
        continuations = continuations + 1;
    }
    assert(trailing_continuations(body) == continuations);
    if i > 0 {
        let lead: u8 = pending[i - 1];
        let expected: usize = if 0xC0 <= lead && lead <= 0xDF {
            1
        } else if 0xE0 <= lead && lead <= 0xEF {
            2
        } else if 0xF0 <= lead && lead <= 0xF7 {
            3
        } else {
            0
        };
        assert(body[body.len() - 1 - continuations] == lead);
        if expected > continuations {
            return continuations + 1 + cr;
        }
    }
    cr
}

/// Passes the pending bytes on as a partial chunk, but for those that are held back.
pub fn flush_partial_line(pending: &mut Vec<u8>, lines: &mut Vec<Vec<u8>>)
    ensures
        ({
            let p = old(pending)@;
            let cut = p.len() - held_back(p);
            &&& byte_views(final(lines)@) == byte_views(old(lines)@).push(p.take(cut))
            &&& final(pending)@ == p.skip(cut)
        }),
{
    let held: usize = partial_tail_len(pending.as_slice());
    let cut: usize = pending.len() - held;
    let tail = pending.split_off(cut);
    let mut line = tail;
    std::mem::swap(pending, &mut line);
    assert(line@ =~= old(pending)@.take(cut as int));
    assert(pending@ =~= old(pending)@.skip(cut as int));
    lines.push(line);
    assert(byte_views(lines@) =~= byte_views(old(lines)@).push(old(pending)@.take(cut as int)));
}

/// Takes a chunk of output in and passes every complete line on; what is left waits in `pending`.
pub fn forward_complete_lines(chunk: &[u8], pending: &mut Vec<u8>, lines: &mut Vec<Vec<u8>>)
    ensures
        (SplitView { lines: byte_views(final(lines)@), pending: final(pending)@ }) == split_all(
            (SplitView { lines: byte_views(old(lines)@), pending: old(pending)@ }),
            chunk@,
        ),
{
    let ghost before = SplitView { lines: byte_views(lines@), pending: pending@ };
    assert(chunk@.take(0) =~= Seq::<u8>::empty());
    for i in 0..chunk.len()
        invariant
            before == (SplitView { lines: byte_views(old(lines)@), pending: old(pending)@ }),
            (SplitView { lines: byte_views(lines@), pending: pending@ }) == split_all(
                before,
                chunk@.take(i as int),
            ),
    {
        let b: u8 = chunk[i];
        let ghost here = SplitView { lines: byte_views(lines@), pending: pending@ };
        proof {
            assert(chunk@.take(i + 1).drop_last() =~= chunk@.take(i as int));
            assert(chunk@.take(i + 1).last() == b);
        }
        if b == LF && pending.len() > 0 && pending[pending.len() - 1] == CR {
            pending.pop();
        }
        pending.push(b);
        assert(pending@ =~= with_byte(here.pending, b));
        if b == LF {
            let mut line: Vec<u8> = Vec::new();
            std::mem::swap(pending, &mut line);
            lines.push(line);
            assert(byte_views(lines@) =~= here.lines.push(with_byte(here.pending, b)));
            assert(pending@ =~= Seq::<u8>::empty());
        } else if pending.len() >= MAX_PENDING_LINE_BYTES {
            flush_partial_line(pending, lines);
        }
    }
    assert(chunk@.take(chunk@.len() as int) =~= chunk@);
}

/// Passes on what is left at the end of the output.
pub fn flush_remainder(pending: Vec<u8>, lines: &mut Vec<Vec<u8>>)
    ensures
        byte_views(final(lines)@) == (if pending@.len() == 0 {
            byte_views(old(lines)@)
        } else {
            byte_views(old(lines)@).push(pending@)
        }),
{
    if pending.len() > 0 {
        lines.push(pending);
        assert(byte_views(lines@) =~= byte_views(old(lines)@).push(pending@));
    }
}

/// `s` with the carriage return of every CR LF taken out.
pub open spec fn folded(s: Seq<u8>) -> Seq<u8>
    decreases s.len(),
{
    if s.len() == 0 {
        Seq::empty()
    } else if s.last() == LF && s.len() >= 2 && s[s.len() - 2] == CR {
        folded(s.take(s.len() - 2)).push(LF)
    } else {
        folded(s.drop_last()).push(s.last())
    }
}

/// All the bytes of the chunks that were passed on and of those that wait.
pub open spec fn all_bytes(v: SplitView) -> Seq<u8> {
    text_stream::concat_lines(v.lines) + v.pending
}

/// Whether no chunk is empty or over the limit, and less than the limit waits.
pub open spec fn bounded(v: SplitView) -> bool {
    &&& v.pending.len() < MAX_PENDING_LINE_BYTES
    &&& forall|i: int|
        0 <= i < v.lines.len() ==> 0 < (#[trigger] v.lines[i]).len() <= MAX_PENDING_LINE_BYTES
}

/// However the output is cut into chunks, the state is the one after its bytes one by one.
pub proof fn law_chunking_does_not_matter(v: SplitView, a: Seq<u8>, b: Seq<u8>)
    ensures
        split_all(split_all(v, a), b) == split_all(v, a + b),
    decreases b.len(),
{
    if b.len() == 0 {
        assert(a + b =~= a);
    } else {
        law_chunking_does_not_matter(v, a, b.drop_last());
        assert((a + b).drop_last() =~= a + b.drop_last());
        assert((a + b).last() == b.last());
    }
}

/// No chunk is empty or over the limit, and what waits stays below it, however long a line is.
pub proof fn law_chunks_are_bounded(v: SplitView, chunk: Seq<u8>)
    requires
        bounded(v),
    ensures
        bounded(split_all(v, chunk)),
    decreases chunk.len(),
{
    if chunk.len() > 0 {
        let before = split_all(v, chunk.drop_last());
        law_chunks_are_bounded(v, chunk.drop_last());
        let b = chunk.last();
        let p = with_byte(before.pending, b);
        lemma_held_back_bound(p);
        let after = split_step(before, b);
        assert forall|i: int| 0 <= i < after.lines.len() implies 0 < (
        #[trigger] after.lines[i]).len() <= MAX_PENDING_LINE_BYTES by {
            if i < before.lines.len() {
                assert(after.lines[i] == before.lines[i]);
            }
        }
    }
}

/// No byte is lost, added or moved, whatever was passed on before and whatever of an unfinished line
/// waits: what was passed on since and what waits at the end is what waited and the output behind
/// it, with every CR LF folded into LF.
pub proof fn law_stream_is_kept(v: SplitView, output: Seq<u8>)
    requires
        !v.pending.contains(LF),
    ensures
        all_bytes(split_all(v, output)) == text_stream::concat_lines(v.lines) + folded(
            v.pending + output,
        ),
{
    lemma_stream_is_kept(v, output);
}

proof fn lemma_folded_plain(s: Seq<u8>)
    requires
        !s.contains(LF),
    ensures
        folded(s) == s,
    decreases s.len(),
{
    if s.len() > 0 {
        let front = s.drop_last();
        assert(s.last() == s[s.len() - 1]);
        assert(!front.contains(LF)) by {
            if front.contains(LF) {
                let k = choose|k: int| 0 <= k < front.len() && front[k] == LF;
                assert(s[k] == LF);
            }
        }
        lemma_folded_plain(front);
        assert(folded(s) =~= s);
    } else {
        assert(folded(s) =~= s);
    }
}

proof fn lemma_stream_is_kept(v: SplitView, output: Seq<u8>)
    requires
        !v.pending.contains(LF),
    ensures
        all_bytes(split_all(v, output)) == text_stream::concat_lines(v.lines) + folded(
            v.pending + output,
        ),
        ({
            let p = split_all(v, output).pending;
            let s = v.pending + output;
            (p.len() > 0 && p.last() == CR) == (s.len() > 0 && s.last() == CR)
        }),
    decreases output.len(),
{
    let first = text_stream::concat_lines(v.lines);
    let s = v.pending + output;
    if output.len() == 0 {
        assert(s =~= v.pending);
        lemma_folded_plain(v.pending);
    } else {
        let front = v.pending + output.drop_last();
        assert(s.drop_last() =~= front);
        lemma_stream_is_kept(v, output.drop_last());
        let before = split_all(v, output.drop_last());
        let b = output.last();
        assert(s.last() == b);
        let p = with_byte(before.pending, b);
        let after = split_step(before, b);
        lemma_held_back_bound(p);
        let flat = text_stream::concat_lines(before.lines);
        assert(flat + before.pending == first + folded(front));
        if b == LF && front.len() > 0 && front.last() == CR {
            assert(front.drop_last() =~= s.take(s.len() - 2));
            assert(folded(front) =~= folded(s.take(s.len() - 2)).push(CR));
            assert(folded(front).drop_last() =~= folded(s.take(s.len() - 2)));
            assert(flat + p =~= (flat + before.pending).drop_last().push(LF));
            assert((first + folded(front)).drop_last() =~= first + folded(front).drop_last());
            assert(flat + p =~= first + folded(s));
        } else {
            assert(flat + p =~= (flat + before.pending).push(b));
            assert(folded(s) =~= folded(front).push(b));
            assert(flat + p =~= first + folded(s));
        }
        if b == LF {
            assert(after.lines.drop_last() =~= before.lines);
            assert(all_bytes(after) =~= flat + p);
        } else if p.len() >= MAX_PENDING_LINE_BYTES {
            let cut = p.len() - held_back(p);
            assert(after.lines.drop_last() =~= before.lines);
            assert(p.take(cut) + p.skip(cut) =~= p);
            assert(all_bytes(after) =~= flat + p);
            if b == CR {
                assert(p.last() == CR);
                assert(after.pending.last() == CR);
            }
        }
    }
}

/// Splitting valid UTF-8 before a byte that does not continue a character.
proof fn lemma_split_valid(s: Seq<u8>, k: int)
    requires
        valid_utf8(s),
        0 <= k <= s.len(),
        k < s.len() ==> !is_continuation_byte(s[k]),
    ensures
        valid_utf8(s.take(k)),
        valid_utf8(s.skip(k)),
        decode_utf8(s) == decode_utf8(s.take(k)) + decode_utf8(s.skip(k)),
{
    if k < s.len() {
        is_char_boundary_iff_not_is_continuation_byte(s, k);
    } else {
        is_char_boundary_start_end_of_seq(s);
    }
    valid_utf8_split(s, k);
    decode_utf8_split(s, k);
    assert(s.subrange(0, k) =~= s.take(k));
    assert(s.subrange(k, s.len() as int) =~= s.skip(k));
}

/// Valid UTF-8 begins with a byte that leads a character, and behind that character comes another
/// such byte.
proof fn lemma_first_scalar(s: Seq<u8>)
    requires
        valid_utf8(s),
        s.len() > 0,
    ensures
        !is_continuation_byte(s[0]),
        announced(s[0]) < s.len(),
        announced(s[0]) + 1 < s.len() ==> !is_continuation_byte(s[announced(s[0]) as int + 1]),
{
    reveal_with_fuel(valid_utf8, 2);
    let rest = pop_first_scalar(s);
    if rest.len() > 0 {
        assert(valid_first_scalar(rest));
        assert(rest[0] == s[length_of_first_scalar(s)]);
    }
}

/// Where pending bytes and what follows them are valid UTF-8, the place at which the pending bytes
/// are cut is followed by a byte that does not continue a character.
proof fn lemma_cut_is_boundary(p: Seq<u8>, rest: Seq<u8>)
    requires
        valid_utf8(p + rest),
        p.len() > 0,
    ensures
        ({
            let k = p.len() - held_back(p);
            k < (p + rest).len() ==> !is_continuation_byte((p + rest)[k])
        }),
{
    let s = p + rest;
    let k = p.len() - held_back(p);
    lemma_held_back_bound(p);
    lemma_trailing_bound(p);
    let body = if p.last() == CR {
        p.drop_last()
    } else {
        p
    };
    lemma_trailing_bound(body);
    if unfinished(body) == 0 && p.last() != CR && rest.len() > 0 {
        assert(k == p.len());
        let c = trailing_continuations(p);
        if is_continuation_byte(rest[0]) {
            lemma_first_scalar(s);
            if c == p.len() {
                assert(is_continuation_byte(p[0]));
                assert(s[0] == p[0]);
            } else {
                let j = p.len() - 1 - c;
                assert(s[j] == p[j]);
                lemma_split_valid(s, j);
                let t = s.skip(j);
                assert(t[0] == p[j]);
                lemma_first_scalar(t);
                let a = announced(p[j]) as int;
                assert(a <= c);
                assert(t[a + 1] == s[j + a + 1]);
                if a < c {
                    assert(s[j + a + 1] == p[j + a + 1]);
                    assert(is_continuation_byte(p[j + a + 1]));
                } else {
                    assert(s[j + a + 1] == rest[0]);
                }
            }
        }
    } else if unfinished(body) > 0 {
        assert(s[k] == body[body.len() - 1 - trailing_continuations(body)]);
    } else if p.last() == CR {
        assert(s[k] == CR);
    }
}

/// The text of chunks, each decoded for itself.
pub open spec fn decoded_lines(lines: Seq<Seq<u8>>) -> Seq<char>
    decreases lines.len(),
{
    if lines.len() == 0 {
        Seq::empty()
    } else {
        decoded_lines(lines.drop_last()) + decode_utf8(lines.last())
    }
}

/// Whether every chunk is valid UTF-8.
pub open spec fn all_valid(lines: Seq<Seq<u8>>) -> bool {
    forall|i: int| 0 <= i < lines.len() ==> valid_utf8(#[trigger] lines[i])
}

/// Where the output is valid UTF-8, no character is cut in two: every chunk is valid UTF-8, and so
/// is what waits at the end. Decoding chunk by chunk gives the text that decoding everything at
/// once gives.
pub proof fn law_characters_stay_whole(output: Seq<u8>)
    requires
        valid_utf8(output),
    ensures
        ({
            let v = split_all(nothing_split(), output);
            &&& all_valid(v.lines)
            &&& valid_utf8(v.pending)
            &&& valid_utf8(folded(output))
            &&& decoded_lines(v.lines) + decode_utf8(v.pending) == decode_utf8(folded(output))
        }),
{
    lemma_characters_stay_whole(output, output.len() as int);
    let v = split_all(nothing_split(), output);
    assert(output.take(output.len() as int) =~= output);
    assert(v.pending + output.skip(output.len() as int) =~= v.pending);
    lemma_decoded(v.lines);
    lemma_stream_is_kept(nothing_split(), output);
    assert(nothing_split().pending + output =~= output);
    assert(text_stream::concat_lines(nothing_split().lines) + folded(output) =~= folded(output));
    lemma_concat_valid(text_stream::concat_lines(v.lines), v.pending);
}

proof fn lemma_concat_valid(a: Seq<u8>, b: Seq<u8>)
    requires
        valid_utf8(a),
        valid_utf8(b),
    ensures
        valid_utf8(a + b),
        decode_utf8(a + b) == decode_utf8(a) + decode_utf8(b),
{
    valid_utf8_concat(a, b);
    let s = a + b;
    if b.len() > 0 {
        lemma_first_scalar(b);
        assert(s[a.len() as int] == b[0]);
    }
    lemma_split_valid(s, a.len() as int);
    assert(s.take(a.len() as int) =~= a);
    assert(s.skip(a.len() as int) =~= b);
}

proof fn lemma_decoded(lines: Seq<Seq<u8>>)
    requires
        all_valid(lines),
    ensures
        valid_utf8(text_stream::concat_lines(lines)),
        decode_utf8(text_stream::concat_lines(lines)) == decoded_lines(lines),
    decreases lines.len(),
{
    if lines.len() > 0 {
        let front = lines.drop_last();
        assert forall|i: int| 0 <= i < front.len() implies valid_utf8(#[trigger] front[i]) by {
            assert(front[i] == lines[i]);
        }
        lemma_decoded(front);
        lemma_concat_valid(text_stream::concat_lines(front), lines.last());
    }
}

proof fn lemma_push_valid(lines: Seq<Seq<u8>>, line: Seq<u8>)
    requires
        all_valid(lines),
        valid_utf8(line),
    ensures
        all_valid(lines.push(line)),
{
    assert forall|i: int| 0 <= i < lines.push(line).len() implies valid_utf8(
        #[trigger] lines.push(line)[i],
    ) by {
        if i < lines.len() {
            assert(lines.push(line)[i] == lines[i]);
        }
    }
}

proof fn lemma_characters_stay_whole(output: Seq<u8>, n: int)
    requires
        valid_utf8(output),
        0 <= n <= output.len(),
    ensures
        ({
            let v = split_all(nothing_split(), output.take(n));
            &&& all_valid(v.lines)
            &&& valid_utf8(v.pending + output.skip(n))
        }),
    decreases n,
{
    if n == 0 {
        assert(output.take(0) =~= Seq::<u8>::empty());
        assert(Seq::<u8>::empty() + output.skip(0) =~= output);
    } else {
        lemma_characters_stay_whole(output, n - 1);
        let before = split_all(nothing_split(), output.take(n - 1));
        let b = output[n - 1];
        let rest = output.skip(n);
        assert(output.take(n).drop_last() =~= output.take(n - 1));
        assert(output.take(n).last() == b);
        let old_s = before.pending + output.skip(n - 1);
        assert(output.skip(n - 1) =~= seq![b] + rest);
        let k = before.pending.len() as int;
        assert(old_s[k] == b);
        let p = with_byte(before.pending, b);
        if b == LF {
            lemma_split_valid(old_s, k);
            assert(old_s.take(k) =~= before.pending);
            assert(old_s.skip(k) =~= seq![b] + rest);
            lemma_first_scalar(seq![b] + rest);
            assert(announced(LF) == 0);
            let t = seq![b] + rest;
            assert(t[0] == LF);
            lemma_split_valid(t, 1);
            assert(t.take(1) =~= seq![b]);
            assert(t.skip(1) =~= rest);
            if k > 0 && before.pending.last() == CR {
                lemma_split_valid(before.pending, k - 1);
                assert(before.pending.take(k - 1) =~= before.pending.drop_last());
                lemma_concat_valid(before.pending.drop_last(), seq![b]);
                assert(p =~= before.pending.drop_last() + seq![b]);
            } else {
                lemma_concat_valid(before.pending, seq![b]);
                assert(p =~= before.pending + seq![b]);
            }
            lemma_push_valid(before.lines, p);
            assert(Seq::<u8>::empty() + rest =~= rest);
        } else {
            assert(p + rest =~= old_s);
            if p.len() >= MAX_PENDING_LINE_BYTES {
                let cut = p.len() - held_back(p);
                lemma_held_back_bound(p);
                lemma_cut_is_boundary(p, rest);
                lemma_split_valid(p + rest, cut);
                assert((p + rest).take(cut) =~= p.take(cut));
                assert((p + rest).skip(cut) =~= p.skip(cut) + rest);
                lemma_push_valid(before.lines, p.take(cut));
            }
        }
    }
}

/// Only the carriage return of a CR LF is taken out: bytes in which none stands before a line feed are
/// left as they are, and bytes with no line feed at their joint are folded one behind the other.
pub proof fn law_folding_takes_only_returns(s: Seq<u8>)
    ensures
        (forall|i: int| 0 <= i < s.len() - 1 ==> !(#[trigger] s[i] == 13 && s[i + 1] == 10)) ==> folded(
            s,
        ) == s,
        folded(s + seq![13u8, 10u8]) == folded(s).push(10),
        folded(s).len() <= s.len(),
    decreases s.len(),
{
    let t = s + seq![13u8, 10u8];
    assert(t.take(t.len() - 2) =~= s);
    if s.len() > 0 {
        law_folding_takes_only_returns(s.drop_last());
        if s.len() >= 2 {
            law_folding_takes_only_returns(s.take(s.len() - 2));
        }
        if forall|i: int| 0 <= i < s.len() - 1 ==> !(#[trigger] s[i] == 13 && s[i + 1] == 10) {
            let d = s.drop_last();
            assert forall|i: int| 0 <= i < d.len() - 1 implies !(#[trigger] d[i] == 13 && d[i + 1]
                == 10) by {
                assert(d[i] == s[i]);
            }
            if s.len() >= 2 {
                assert(!(s[s.len() - 2] == 13 && s[s.len() - 2 + 1] == 10));
            }
            assert(folded(s) =~= s);
        }
    } else {
        assert(folded(s) =~= s);
    }
}

/// A line is passed on as soon as it is complete: no line feed ever waits.
pub proof fn law_complete_lines_do_not_wait(v: SplitView, chunk: Seq<u8>)
    requires
        !v.pending.contains(10),
    ensures
        !split_all(v, chunk).pending.contains(10),
        chunk.len() > 0 && chunk.last() == 10 ==> split_all(v, chunk).pending.len() == 0,
    decreases chunk.len(),
{
    if chunk.len() > 0 {
        law_complete_lines_do_not_wait(v, chunk.drop_last());
        let u = split_all(v, chunk.drop_last());
        let w = split_all(v, chunk);
        let p = with_byte(u.pending, chunk.last());
        if w.pending.contains(10) {
            let k = choose|k: int| 0 <= k < w.pending.len() && w.pending[k] == 10;
            let cut = p.len() - held_back(p);
            if w.pending == p {
                if k < u.pending.len() {
                    assert(u.pending[k] == 10);
                }
            } else {
                assert(w.pending[k] == p[k + cut]);
                if k + cut < u.pending.len() {
                    assert(u.pending[k + cut] == 10);
                }
            }
        }
    }
}

} // verus!
