//! What the text functions under every tool promise of all texts: what is readable stays as it is,
//! what hides or breaks lines does not get through, and what is taken apart or written down can be
//! put together or read again.

use crate::encoding;
use crate::matching;
use crate::order;
use crate::pdf;
use crate::sanitize;
use crate::text;
use vstd::prelude::*;
use vstd::utf8::*;

verus! {

/// Whether `c` is visible text in any script, or a space: neither a control character nor one that
/// is invisible or moves others.
pub open spec fn readable(c: char) -> bool {
    ||| ' ' <= c <= '~'
    ||| '\u{a0}' <= c <= '\u{ac}'
    ||| '\u{ae}' <= c <= '\u{5ff}'
    ||| '\u{606}' <= c <= '\u{61b}'
    ||| '\u{61d}' <= c <= '\u{6dc}'
    ||| '\u{6de}' <= c <= '\u{70e}'
    ||| '\u{710}' <= c <= '\u{88f}'
    ||| '\u{900}' <= c <= '\u{180d}'
    ||| '\u{180f}' <= c <= '\u{200a}'
    ||| '\u{200c}' <= c <= '\u{200d}'
    ||| '\u{2010}' <= c <= '\u{2027}'
    ||| '\u{202f}' <= c <= '\u{205f}'
    ||| '\u{2070}' <= c <= '\u{fefe}'
    ||| '\u{ff00}' <= c <= '\u{fff8}'
    ||| '\u{fffc}' <= c <= '\u{110bc}'
    ||| '\u{16000}' <= c <= '\u{1bc9f}'
    ||| '\u{1bca4}' <= c <= '\u{1d172}'
    ||| '\u{1d17b}' <= c <= '\u{e0000}'
}

/// Whether every character of `s` is readable.
pub open spec fn readable_text(s: Seq<char>) -> bool {
    forall|i: int| 0 <= i < s.len() ==> readable(#[trigger] s[i])
}

/// Whether every character of `s` is readable, a tab or a newline.
pub open spec fn readable_lines(s: Seq<char>) -> bool {
    forall|i: int| 0 <= i < s.len() ==> readable(#[trigger] s[i]) || s[i] == '\t' || s[i] == '\n'
}

/// Readable text, in whatever script, is shown as it is: in a name, in a line, in a transcript and
/// out of a document.
pub proof fn law_readable_text_is_kept(s: Seq<char>, keep_tabs: bool)
    requires
        readable_text(s),
    ensures
        sanitize::sanitized(s, keep_tabs) == s,
        sanitize::transcript(s) == s,
        pdf::pdf_clean(s) == s,
{
    text::lemma_expand_fixed(s, sanitize::sanitize_char(keep_tabs));
    text::lemma_expand_fixed(s, sanitize::transcript_char());
    text::lemma_expand_fixed(s, pdf::pdf_char());
}

/// A tab stands in the content of a line and in a transcript.
pub proof fn law_tabs_are_content(s: Seq<char>)
    requires
        forall|i: int| 0 <= i < s.len() ==> readable(#[trigger] s[i]) || s[i] == '\t',
    ensures
        sanitize::sanitized(s, true) == s,
        sanitize::transcript(s) == s,
{
    text::lemma_expand_fixed(s, sanitize::sanitize_char(true));
    text::lemma_expand_fixed(s, sanitize::transcript_char());
}

/// The pieces between separators, with the separators between them again, are the text; and no
/// piece holds the separator.
pub proof fn law_pieces_make_the_text(s: Seq<char>, sep: char)
    ensures
        text::join(text::split_on(s, sep), seq![sep]) == s,
        text::split_on(s, sep).len() >= 1,
        forall|i: int, j: int|
            0 <= i < text::split_on(s, sep).len() && 0 <= j < text::split_on(s, sep)[i].len()
                ==> #[trigger] text::split_on(s, sep)[i][j] != sep,
    decreases s.len(),
{
    let pieces = text::split_on(s, sep);
    if s.len() > 0 {
        let t = s.drop_last();
        law_pieces_make_the_text(t, sep);
        let before = text::split_on(t, sep);
        if s.last() == sep {
            text::lemma_join_push(before, Seq::empty(), seq![sep]);
            assert(t + seq![sep] + Seq::<char>::empty() =~= s);
            assert forall|i: int, j: int|
                0 <= i < pieces.len() && 0 <= j < pieces[i].len() implies #[trigger] pieces[i][j]
                != sep by {
                assert(i < before.len());
                assert(before[i][j] != sep);
            }
        } else {
            let head = before.drop_last();
            assert(head.push(before.last()) =~= before);
            text::lemma_join_push(head, before.last(), seq![sep]);
            text::lemma_join_push(head, before.last().push(s.last()), seq![sep]);
            assert(text::join(pieces, seq![sep]) =~= t.push(s.last()));
            assert(t.push(s.last()) =~= s);
            assert forall|i: int, j: int|
                0 <= i < pieces.len() && 0 <= j < pieces[i].len() implies #[trigger] pieces[i][j]
                != sep by {
                if i < head.len() {
                    assert(before[i][j] != sep);
                } else if j < before.last().len() {
                    assert(before[before.len() - 1][j] != sep);
                }
            }
        }
    }
}

/// A text of readable lines is shown line by line as it is.
pub proof fn law_readable_lines_are_kept(s: Seq<char>)
    requires
        readable_lines(s),
    ensures
        text::join(sanitize::sanitized_lines(s), seq!['\n']) == s,
{
    law_pieces_make_the_text(s, '\n');
    let lines = text::split_on(s, '\n');
    let clean = sanitize::sanitized_lines(s);
    assert forall|i: int| 0 <= i < lines.len() implies #[trigger] clean[i] == lines[i] by {
        lemma_pieces_hold_no_more(s, '\n', i);
        assert forall|j: int| 0 <= j < lines[i].len() implies readable(#[trigger] lines[i][j])
            || lines[i][j] == '\t' by {
            assert(s.contains(lines[i][j]));
            let k = choose|k: int| 0 <= k < s.len() && s[k] == lines[i][j];
            assert(readable(s[k]) || s[k] == '\t' || s[k] == '\n');
        }
        if lines[i].len() > 0 {
            assert(readable(lines[i][lines[i].len() - 1]) || lines[i][lines[i].len() - 1] == '\t');
        }
        assert(sanitize::without_cr(lines[i]) == lines[i]);
        law_tabs_are_content(lines[i]);
    }
    assert(clean =~= lines);
}

/// A piece holds no character that the text does not hold.
pub proof fn lemma_pieces_hold_no_more(s: Seq<char>, sep: char, i: int)
    requires
        0 <= i < text::split_on(s, sep).len(),
    ensures
        forall|j: int|
            0 <= j < text::split_on(s, sep)[i].len() ==> s.contains(
                #[trigger] text::split_on(s, sep)[i][j],
            ),
    decreases s.len(),
{
    if s.len() > 0 {
        let t = s.drop_last();
        text::lemma_split_nonempty(t, sep);
        let before = text::split_on(t, sep);
        let pieces = text::split_on(s, sep);
        assert forall|j: int| 0 <= j < pieces[i].len() implies s.contains(
            #[trigger] pieces[i][j],
        ) by {
            if s.last() != sep && i == pieces.len() - 1 && j == before.last().len() {
                assert(s[s.len() - 1] == pieces[i][j]);
            } else {
                lemma_pieces_hold_no_more(t, sep, i);
                assert(before[i][j] == pieces[i][j]);
                let k = choose|k: int| 0 <= k < t.len() && t[k] == before[i][j];
                assert(s[k] == pieces[i][j]);
            }
        }
    }
}

/// What hides, moves or breaks text never gets through in a name or a line.
pub proof fn law_hidden_characters_do_not_pass(s: Seq<char>, keep_tabs: bool, i: int)
    requires
        0 <= i < sanitize::sanitized(s, keep_tabs).len(),
    ensures
        ({
            let c = sanitize::sanitized(s, keep_tabs)[i];
            &&& c >= ' ' || (c == '\t' && keep_tabs)
            &&& !('\u{7f}' <= c <= '\u{9f}')
            &&& c != '\u{ad}' && c != '\u{61c}' && c != '\u{180e}' && c != '\u{feff}'
            &&& !('\u{200b}' <= c <= '\u{200f}') || c == '\u{200c}' || c == '\u{200d}'
            &&& !('\u{2028}' <= c <= '\u{202e}')
            &&& !('\u{2060}' <= c <= '\u{2064}')
            &&& !('\u{2066}' <= c <= '\u{206f}')
            &&& !('\u{fff9}' <= c <= '\u{fffb}')
            &&& c != '\u{e0001}' && !('\u{e0020}' <= c <= '\u{e007f}')
        }),
{
    sanitize::law_sanitized_is_clean(s, keep_tabs);
    assert(sanitize::keeps(sanitize::sanitized(s, keep_tabs)[i], keep_tabs));
}

/// What hides or moves text never gets through in a transcript.
pub proof fn law_hidden_characters_leave_transcripts(s: Seq<char>, i: int)
    requires
        0 <= i < sanitize::transcript(s).len(),
    ensures
        ({
            let c = sanitize::transcript(s)[i];
            &&& c != '\u{ad}' && c != '\u{61c}' && c != '\u{180e}' && c != '\u{feff}'
            &&& !('\u{200b}' <= c <= '\u{200f}') || c == '\u{200c}' || c == '\u{200d}'
            &&& !('\u{202a}' <= c <= '\u{202e}')
            &&& !('\u{2060}' <= c <= '\u{2064}')
            &&& !('\u{2066}' <= c <= '\u{206f}')
            &&& !('\u{fff9}' <= c <= '\u{fffb}')
            &&& c != '\u{e0001}' && !('\u{e0020}' <= c <= '\u{e007f}')
        }),
{
    sanitize::law_transcript_is_format_free(s);
    assert(!sanitize::non_joiner_format(sanitize::transcript(s)[i]));
}

/// The number that decimal digits stand for.
pub open spec fn decimal_value(s: Seq<char>) -> int
    decreases s.len(),
{
    if s.len() == 0 {
        0
    } else {
        10 * decimal_value(s.drop_last()) + (s.last() as int - '0' as int)
    }
}

/// A number written in decimal reads back as the number, and has no zero before it.
pub proof fn law_decimal_reads_back(n: nat)
    ensures
        decimal_value(text::decimal(n)) == n,
        text::decimal(n).len() >= 1,
        n > 0 ==> text::decimal(n)[0] != '0',
        forall|i: int| 0 <= i < text::decimal(n).len() ==> '0' <= #[trigger] text::decimal(n)[i] <= '9',
    decreases n,
{
    text::lemma_decimal_ascii(n);
    let s = text::decimal(n);
    if n < 10 {
        assert(s.drop_last() =~= Seq::<char>::empty());
        reveal_with_fuel(decimal_value, 2);
    } else {
        law_decimal_reads_back(n / 10);
        assert(s.drop_last() =~= text::decimal(n / 10));
        assert(s[0] == text::decimal(n / 10)[0]);
    }
}

/// Two numbers that are written alike are one number.
pub proof fn law_decimals_tell_numbers_apart(a: nat, b: nat)
    requires
        text::decimal(a) == text::decimal(b),
    ensures
        a == b,
{
    law_decimal_reads_back(a);
    law_decimal_reads_back(b);
}

/// The number that lower-case hexadecimal digits stand for.
pub open spec fn hexadecimal_value(s: Seq<char>) -> int
    decreases s.len(),
{
    if s.len() == 0 {
        0
    } else {
        16 * hexadecimal_value(s.drop_last()) + (if s.last() <= '9' {
            s.last() as int - '0' as int
        } else {
            s.last() as int - 'a' as int + 10
        })
    }
}

/// A number written in hexadecimal reads back as the number.
pub proof fn law_hexadecimal_reads_back(n: nat)
    ensures
        hexadecimal_value(text::hexadecimal(n)) == n,
        text::hexadecimal(n).len() >= 1,
    decreases n,
{
    let s = text::hexadecimal(n);
    if n < 16 {
        assert(s.drop_last() =~= Seq::<char>::empty());
        reveal_with_fuel(hexadecimal_value, 2);
    } else {
        law_hexadecimal_reads_back(n / 16);
        assert(s.drop_last() =~= text::hexadecimal(n / 16));
    }
}

/// What is escaped by number says which character it was.
pub proof fn law_escape_names_its_character(c: char, keep_tabs: bool)
    requires
        c < ' ' || c > '~',
        c != '\t' && c != '\n' && c != '\r',
        sanitize::sanitized(seq![c], keep_tabs) != seq![c],
    ensures
        ({
            let e = sanitize::sanitized(seq![c], keep_tabs);
            &&& e.len() >= 5
            &&& e[0] == '\\' && e[1] == 'u' && e[2] == '{' && e.last() == '}'
            &&& hexadecimal_value(e.subrange(3, e.len() - 1)) == c as int
        }),
{
    let f = sanitize::sanitize_char(keep_tabs);
    reveal_with_fuel(text::expand, 2);
    assert(seq![c].drop_last() =~= Seq::<char>::empty());
    assert(text::expand(seq![c], f) =~= f(c));
    let h = text::hexadecimal(c as nat);
    law_hexadecimal_reads_back(c as nat);
    assert(f(c).subrange(3, f(c).len() - 1) =~= h);
}

/// Names stand in the order of their first difference, by code point; what a name begins with
/// stands before it.
pub proof fn law_order_is_by_code_point(a: Seq<char>, b: Seq<char>, k: int)
    requires
        0 <= k <= a.len(),
        k <= b.len(),
        a.take(k) == b.take(k),
    ensures
        k == a.len() ==> order::text_le(a, b),
        k < a.len() && k < b.len() && a[k] < b[k] ==> order::text_le(a, b) && !order::text_le(b, a),
        k == b.len() && k < a.len() ==> !order::text_le(a, b),
    decreases k,
{
    if k > 0 {
        assert(a[0] == a.take(k)[0]);
        assert(b[0] == b.take(k)[0]);
        assert(a.skip(1).take(k - 1) =~= a.take(k).skip(1));
        assert(b.skip(1).take(k - 1) =~= b.take(k).skip(1));
        law_order_is_by_code_point(a.skip(1), b.skip(1), k - 1);
    }
}

/// A trimmed text is the text from its first visible character to its last: spaces, tabs and line
/// breaks around it go, and nothing else does.
pub proof fn law_trimming_takes_only_white_space(s: Seq<char>)
    ensures
        exists|i: int, j: int|
            0 <= i <= j <= s.len() && text::trimmed(s) == #[trigger] s.subrange(i, j) && (forall|
                k: int,
            |
                (0 <= k < i || j <= k < s.len()) ==> text::white_space(#[trigger] s[k])),
        ({
            let t = text::trimmed(s);
            t.len() > 0 ==> {
                &&& t[0] != ' ' && t[0] != '\t' && t[0] != '\n' && t[0] != '\r'
                &&& t.last() != ' ' && t.last() != '\t' && t.last() != '\n' && t.last() != '\r'
            }
        }),
        s.len() > 0 && '!' <= s[0] <= '~' && '!' <= s.last() <= '~' ==> text::trimmed(s) == s,
        forall|k: int|
            0 <= k < s.len() && '!' <= #[trigger] s[k] <= '~' ==> text::trimmed(s).contains(s[k]),
{
    lemma_trailing(s);
    let end = text::trailing_end(s) as int;
    let t = s.take(end);
    lemma_leading(t);
    let start = text::leading_white(t) as int;
    assert(text::trimmed(s) =~= s.subrange(start, end));
    assert forall|k: int| (0 <= k < start || end <= k < s.len()) implies text::white_space(
        #[trigger] s[k],
    ) by {
        if k < start {
            assert(t[k] == s[k]);
        }
    }
    if s.len() > 0 && '!' <= s[0] <= '~' && '!' <= s.last() <= '~' {
        assert(end == s.len());
        assert(t =~= s);
        assert(start == 0);
        assert(text::trimmed(s) =~= s);
    }
    assert forall|k: int| 0 <= k < s.len() && '!' <= #[trigger] s[k]
        <= '~' implies text::trimmed(s).contains(s[k]) by {
        assert(!text::white_space(s[k]));
        assert(start <= k < end);
        assert(text::trimmed(s)[k - start] == s[k]);
    }
}

proof fn lemma_trailing(s: Seq<char>)
    ensures
        text::trailing_end(s) <= s.len(),
        text::trailing_end(s) > 0 ==> !text::white_space(s[text::trailing_end(s) - 1]),
        forall|k: int| text::trailing_end(s) <= k < s.len() ==> text::white_space(#[trigger] s[k]),
    decreases s.len(),
{
    if s.len() > 0 && text::white_space(s.last()) {
        let t = s.drop_last();
        lemma_trailing(t);
        assert forall|k: int| text::trailing_end(s) <= k < s.len() implies text::white_space(
            #[trigger] s[k],
        ) by {
            if k < t.len() {
                assert(t[k] == s[k]);
            }
        }
    }
}

proof fn lemma_leading(s: Seq<char>)
    ensures
        text::leading_white(s) <= s.len(),
        text::leading_white(s) < s.len() ==> !text::white_space(s[text::leading_white(s) as int]),
        forall|k: int| 0 <= k < text::leading_white(s) ==> text::white_space(#[trigger] s[k]),
    decreases s.len(),
{
    if s.len() > 0 && text::white_space(s[0]) {
        let t = s.skip(1);
        lemma_leading(t);
        assert forall|k: int| 0 <= k < text::leading_white(s) implies text::white_space(
            #[trigger] s[k],
        ) by {
            if k > 0 {
                assert(t[k - 1] == s[k]);
            }
        }
    }
}

/// Lower case changes capital letters of ASCII to their small forms and leaves everything else.
pub proof fn law_lower_case_is_of_letters(s: Seq<char>, i: int)
    requires
        0 <= i < s.len(),
    ensures
        matching::lowered(s).len() == s.len(),
        'A' <= s[i] <= 'Z' ==> matching::lowered(s)[i] as int - 'a' as int == s[i] as int - 'A' as int,
        !('A' <= s[i] <= 'Z') ==> matching::lowered(s)[i] == s[i],
{
    let c = s[i];
    if 'A' <= c <= 'Z' {
        assert(((c as u32 + 32) as u8) as int == c as int + 32);
    }
}

/// A result that fits its budget is given whole, and one that does not is cut as late as it can be.
pub proof fn law_results_that_fit_are_whole(s: Seq<char>, limit: nat)
    ensures
        encode_utf8(s).len() <= limit ==> sanitize::truncated_at(s, limit) == s,
        encode_utf8(s).len() <= 131072 ==> sanitize::finished(s, None) == s,
        encode_utf8(s).len() > limit ==> exists|n: int|
            0 <= n < s.len() && sanitize::truncated_at(s, limit) == #[trigger] s.take(n)
                + sanitize::TRUNCATION_SUFFIX@ && encode_utf8(s.take(n)).len() <= limit
                && encode_utf8(s.take(n + 1)).len() > limit,
{
    text::lemma_fitting(s, limit);
    if encode_utf8(s).len() > limit {
        let n = text::fitting(s, limit) as int;
        assert(sanitize::truncated_at(s, limit) == s.take(n) + sanitize::TRUNCATION_SUFFIX@);
        assert(text::utf8_len(s.take(n + 1)) > limit);
    }
}

/// Two hexadecimal digits stand for each byte, in order.
pub proof fn law_digest_digits_are_its_bytes(bytes: Seq<u8>, i: int)
    requires
        0 <= i < bytes.len(),
    ensures
        encoding::hex_digits(bytes).len() == 2 * bytes.len(),
        hexadecimal_value(encoding::hex_digits(bytes).subrange(2 * i, 2 * i + 2)) == bytes[i],
{
    let h = encoding::hex_digits(bytes).subrange(2 * i, 2 * i + 2);
    let n = bytes[i] as nat;
    assert((2 * i) / 2 == i && (2 * i + 1) / 2 == i && (2 * i) % 2 == 0 && (2 * i + 1) % 2 == 1);
    assert(h[0] == text::hex_char(n / 16));
    assert(h[1] == text::hex_char(n % 16));
    reveal_with_fuel(hexadecimal_value, 3);
    assert(h.drop_last() =~= seq![h[0]]);
    assert(seq![h[0]].drop_last() =~= Seq::<char>::empty());
    assert(16 * (n / 16) + n % 16 == n);
}

} // verus!
