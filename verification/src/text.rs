//! Strings as sequences of characters: building, reading and measuring them.

use vstd::prelude::*;
use vstd::string::*;
use vstd::utf8::*;

verus! {

/// `String::push` appends one character.
pub assume_specification[ String::push ](s: &mut String, ch: char)
    ensures
        final(s)@ == old(s)@.push(ch),
;

/// Number of bytes that `s` occupies as UTF-8.
pub open spec fn utf8_len(s: Seq<char>) -> nat {
    encode_utf8(s).len()
}

/// Number of bytes that `c` occupies as UTF-8.
pub open spec fn char_width(c: char) -> nat {
    encode_scalar(c as u32).len()
}

/// `encode_utf8` distributes over concatenation.
pub proof fn lemma_encode_concat(a: Seq<char>, b: Seq<char>)
    ensures
        encode_utf8(a + b) == encode_utf8(a) + encode_utf8(b),
    decreases a.len(),
{
    if a.len() == 0 {
        assert(a + b =~= b);
        assert(encode_utf8(a) + encode_utf8(b) =~= encode_utf8(b));
    } else {
        lemma_encode_concat(a.drop_first(), b);
        assert((a + b).drop_first() =~= a.drop_first() + b);
        assert(encode_utf8(a + b) =~= encode_utf8(a) + encode_utf8(b));
    }
}

/// Byte length is additive.
pub proof fn lemma_utf8_len_concat(a: Seq<char>, b: Seq<char>)
    ensures
        utf8_len(a + b) == utf8_len(a) + utf8_len(b),
{
    lemma_encode_concat(a, b);
}

/// Appending a character adds its width.
pub proof fn lemma_utf8_len_push(a: Seq<char>, c: char)
    ensures
        utf8_len(a.push(c)) == utf8_len(a) + char_width(c),
        1 <= char_width(c) <= 4,
{
    assert(a.push(c) =~= a + seq![c]);
    lemma_encode_concat(a, seq![c]);
    assert(seq![c].drop_first() =~= Seq::<char>::empty());
    reveal_with_fuel(encode_utf8, 2);
}

/// The byte length of a string in memory.
pub fn byte_len(s: &str) -> (n: usize)
    ensures
        n == utf8_len(s@),
{
    s.as_bytes().len()
}

/// Width of one character as UTF-8.
pub fn width_of(c: char) -> (n: usize)
    ensures
        n == char_width(c),
        1 <= n <= 4,
{
    let v: u32 = c as u32;
    if v <= 0x7f {
        1
    } else if v <= 0x7ff {
        2
    } else if v <= 0xffff {
        3
    } else {
        4
    }
}

/// The characters of `s`.
pub fn chars_of(s: &str) -> (r: Vec<char>)
    ensures
        r@ == s@,
{
    let mut r: Vec<char> = Vec::new();
    for c in it: s.chars()
        invariant
            r@ == s@.take(it.index()),
            it.seq() == s@,
    {
        r.push(c);
        assert(s@.take(it.index() + 1) =~= s@.take(it.index()).push(c));
    }
    assert(s@.take(s@.len() as int) =~= s@);
    r
}

/// The decimal digit `d`.
pub open spec fn digit_char(d: nat) -> char {
    ('0' as u32 + d) as char
}

/// `n` in decimal, without leading zeros.
pub open spec fn decimal(n: nat) -> Seq<char>
    decreases n,
{
    if n < 10 {
        seq![digit_char(n)]
    } else {
        decimal(n / 10).push(digit_char(n % 10))
    }
}

/// Appends `n` in decimal.
pub fn push_decimal_wide(out: &mut String, n: u128)
    ensures
        final(out)@ == old(out)@ + decimal(n as nat),
    decreases n,
{
    if n >= 10 {
        push_decimal_wide(out, n / 10);
    }
    let d: u8 = (n % 10) as u8;
    out.push((48 + d) as char);
    assert(out@ =~= old(out)@ + decimal(n as nat));
}

/// Appends `n` in decimal.
pub fn push_decimal(out: &mut String, n: u64)
    ensures
        final(out)@ == old(out)@ + decimal(n as nat),
    decreases n,
{
    if n >= 10 {
        push_decimal(out, n / 10);
    }
    let d: u8 = (n % 10) as u8;
    out.push((48 + d) as char);
    assert(out@ =~= old(out)@ + decimal(n as nat));
}

/// Every digit adds one byte, so a decimal rendering is as long in bytes as in characters.
pub proof fn lemma_decimal_ascii(n: nat)
    ensures
        is_ascii_chars(decimal(n)),
        utf8_len(decimal(n)) == decimal(n).len(),
        decimal(n).len() >= 1,
        forall|i: int| 0 <= i < decimal(n).len() ==> '0' <= #[trigger] decimal(n)[i] <= '9',
    decreases n,
{
    if n >= 10 {
        lemma_decimal_ascii(n / 10);
    }
    is_ascii_chars_encode_utf8(decimal(n));
}

/// The hexadecimal digit `d`, in lower case.
pub open spec fn hex_char(d: nat) -> char {
    if d < 10 {
        ('0' as u32 + d) as char
    } else {
        ('a' as u32 + (d - 10)) as char
    }
}

/// `n` in lower-case hexadecimal, without leading zeros.
pub open spec fn hexadecimal(n: nat) -> Seq<char>
    decreases n,
{
    if n < 16 {
        seq![hex_char(n)]
    } else {
        hexadecimal(n / 16).push(hex_char(n % 16))
    }
}

/// Appends `n` in lower-case hexadecimal.
pub fn push_hexadecimal(out: &mut String, n: u32)
    ensures
        final(out)@ == old(out)@ + hexadecimal(n as nat),
    decreases n,
{
    if n >= 16 {
        push_hexadecimal(out, n / 16);
    }
    let d: u8 = (n % 16) as u8;
    if d < 10 {
        out.push((48 + d) as char);
    } else {
        out.push((87 + d) as char);
    }
    assert(out@ =~= old(out)@ + hexadecimal(n as nat));
}

/// Number of hexadecimal digits of `n`.
pub fn hexadecimal_len(n: u32) -> (k: usize)
    ensures
        k == hexadecimal(n as nat).len(),
        k <= 8,
{
    let mut k: usize = 1;
    let mut rest: u32 = n;
    let ghost total = hexadecimal(n as nat).len();
    proof {
        reveal_with_fuel(pow16, 9);
        lemma_hexadecimal_len_bound(n as nat, 8);
    }
    while rest >= 16
        invariant
            k + hexadecimal(rest as nat).len() == total + 1,
            1 <= hexadecimal(rest as nat).len(),
            total <= 8,
        decreases rest,
    {
        rest = rest / 16;
        proof {
            reveal_with_fuel(pow16, 9);
            lemma_hexadecimal_len_bound(rest as nat, 8);
        }
        k = k + 1;
    }
    k
}

proof fn lemma_hexadecimal_len_bound(n: nat, k: nat)
    requires
        n < pow16(k),
        k >= 1,
    ensures
        1 <= hexadecimal(n).len() <= k,
    decreases n,
{
    if n >= 16 {
        assert(k >= 2) by {
            if k == 1 {
                reveal_with_fuel(pow16, 2);
            }
        }
        lemma_hexadecimal_len_bound(n / 16, (k - 1) as nat);
    }
}

spec fn pow16(k: nat) -> nat
    decreases k,
{
    if k == 0 {
        1
    } else {
        16 * pow16((k - 1) as nat)
    }
}

/// Replaces each character of `s` by the characters that `f` gives for it.
pub open spec fn expand(s: Seq<char>, f: spec_fn(char) -> Seq<char>) -> Seq<char>
    decreases s.len(),
{
    if s.len() == 0 {
        Seq::empty()
    } else {
        expand(s.drop_last(), f) + f(s.last())
    }
}

/// `expand` distributes over concatenation.
pub proof fn lemma_expand_concat(a: Seq<char>, b: Seq<char>, f: spec_fn(char) -> Seq<char>)
    ensures
        expand(a + b, f) == expand(a, f) + expand(b, f),
    decreases b.len(),
{
    if b.len() == 0 {
        assert(a + b =~= a);
        assert(expand(a, f) + expand(b, f) =~= expand(a, f));
    } else {
        assert((a + b).drop_last() =~= a + b.drop_last());
        lemma_expand_concat(a, b.drop_last(), f);
        assert(expand(a + b, f) =~= expand(a, f) + expand(b, f));
    }
}

/// One more character at the end is one more expansion at the end.
pub proof fn lemma_expand_push(a: Seq<char>, c: char, f: spec_fn(char) -> Seq<char>)
    ensures
        expand(a.push(c), f) == expand(a, f) + f(c),
{
    assert(a.push(c).drop_last() =~= a);
}

/// A string whose characters all expand to themselves is its own expansion.
pub proof fn lemma_expand_fixed(s: Seq<char>, f: spec_fn(char) -> Seq<char>)
    requires
        forall|i: int| 0 <= i < s.len() ==> f(#[trigger] s[i]) == seq![s[i]],
    ensures
        expand(s, f) == s,
    decreases s.len(),
{
    if s.len() > 0 {
        assert forall|i: int| 0 <= i < s.drop_last().len() implies f(
            #[trigger] s.drop_last()[i],
        ) == seq![s.drop_last()[i]] by {
            assert(s.drop_last()[i] == s[i]);
        }
        lemma_expand_fixed(s.drop_last(), f);
        assert(f(s[s.len() - 1]) == seq![s.last()]);
        assert(expand(s, f) =~= s);
    } else {
        assert(expand(s, f) =~= s);
    }
}

/// What holds of every character of every expansion holds of every character of the result.
pub proof fn lemma_expand_all(
    s: Seq<char>,
    f: spec_fn(char) -> Seq<char>,
    p: spec_fn(char) -> bool,
)
    requires
        forall|c: char, i: int| 0 <= i < f(c).len() ==> p(#[trigger] f(c)[i]),
    ensures
        forall|i: int| 0 <= i < expand(s, f).len() ==> p(#[trigger] expand(s, f)[i]),
    decreases s.len(),
{
    if s.len() > 0 {
        lemma_expand_all(s.drop_last(), f, p);
        let head = expand(s.drop_last(), f);
        let tail = f(s.last());
        assert forall|i: int| 0 <= i < expand(s, f).len() implies p(#[trigger] expand(s, f)[i]) by {
            if i < head.len() {
                assert(expand(s, f)[i] == head[i]);
            } else {
                assert(expand(s, f)[i] == tail[i - head.len()]);
            }
        }
    }
}

/// The characters of each string of a list.
pub open spec fn views(v: Seq<String>) -> Seq<Seq<char>> {
    Seq::new(v.len(), |i: int| v[i]@)
}

/// `views` follows a push.
pub proof fn lemma_views_push(v: Seq<String>, s: String)
    ensures
        views(v.push(s)) == views(v).push(s@),
{
    assert(views(v.push(s)) =~= views(v).push(s@));
}

/// The pieces of `s` between occurrences of `sep`: one more piece than there are separators.
pub open spec fn split_on(s: Seq<char>, sep: char) -> Seq<Seq<char>>
    decreases s.len(),
{
    if s.len() == 0 {
        seq![Seq::empty()]
    } else {
        let before = split_on(s.drop_last(), sep);
        if s.last() == sep {
            before.push(Seq::empty())
        } else {
            before.drop_last().push(before.last().push(s.last()))
        }
    }
}

/// The strings of `parts` in order, with `sep` between neighbours.
pub open spec fn join(parts: Seq<Seq<char>>, sep: Seq<char>) -> Seq<char>
    decreases parts.len(),
{
    if parts.len() == 0 {
        Seq::empty()
    } else if parts.len() == 1 {
        parts[0]
    } else {
        join(parts.drop_last(), sep) + sep + parts.last()
    }
}

/// A split has at least one piece.
pub proof fn lemma_split_nonempty(s: Seq<char>, sep: char)
    ensures
        split_on(s, sep).len() >= 1,
    decreases s.len(),
{
    if s.len() > 0 {
        lemma_split_nonempty(s.drop_last(), sep);
    }
}

/// A string without the separator is one piece.
pub proof fn lemma_split_plain(s: Seq<char>, sep: char)
    requires
        forall|i: int| 0 <= i < s.len() ==> #[trigger] s[i] != sep,
    ensures
        split_on(s, sep) == seq![s],
    decreases s.len(),
{
    if s.len() > 0 {
        assert forall|i: int| 0 <= i < s.drop_last().len() implies #[trigger] s.drop_last()[i]
            != sep by {
            assert(s.drop_last()[i] == s[i]);
        }
        lemma_split_plain(s.drop_last(), sep);
        assert(s.last() == s[s.len() - 1]);
        assert(split_on(s, sep) =~= seq![s.drop_last().push(s.last())]);
        assert(s.drop_last().push(s.last()) =~= s);
    } else {
        assert(s =~= Seq::<char>::empty());
    }
}

/// A separator and a plain piece behind a string are one more piece of it.
pub proof fn lemma_split_append(a: Seq<char>, sep: char, b: Seq<char>)
    requires
        forall|i: int| 0 <= i < b.len() ==> #[trigger] b[i] != sep,
    ensures
        split_on(a + seq![sep] + b, sep) == split_on(a, sep).push(b),
    decreases b.len(),
{
    let s = a + seq![sep] + b;
    if b.len() == 0 {
        assert(s.drop_last() =~= a);
        assert(b =~= Seq::<char>::empty());
        assert(s.last() == sep);
        assert(split_on(s, sep) =~= split_on(a, sep).push(b));
    } else {
        assert forall|i: int| 0 <= i < b.drop_last().len() implies #[trigger] b.drop_last()[i]
            != sep by {
            assert(b.drop_last()[i] == b[i]);
        }
        lemma_split_append(a, sep, b.drop_last());
        assert(s.drop_last() =~= a + seq![sep] + b.drop_last());
        assert(s.last() == b[b.len() - 1]);
        let before = split_on(a, sep).push(b.drop_last());
        assert(before.drop_last() =~= split_on(a, sep));
        assert(b.drop_last().push(b.last()) =~= b);
        assert(split_on(s, sep) =~= split_on(a, sep).push(b));
    }
}

/// Splitting a joined list of plain pieces gives the list back.
pub proof fn lemma_split_join(parts: Seq<Seq<char>>, sep: char)
    requires
        parts.len() >= 1,
        forall|i: int, j: int|
            0 <= i < parts.len() && 0 <= j < parts[i].len() ==> #[trigger] parts[i][j] != sep,
    ensures
        split_on(join(parts, seq![sep]), sep) == parts,
    decreases parts.len(),
{
    if parts.len() == 1 {
        lemma_split_plain(parts[0], sep);
        assert(parts =~= seq![parts[0]]);
    } else {
        let head = parts.drop_last();
        assert forall|i: int, j: int| 0 <= i < head.len() && 0 <= j < head[i].len() implies
            #[trigger] head[i][j] != sep by {
            assert(parts[i][j] != sep);
        }
        lemma_split_join(head, sep);
        assert forall|j: int| 0 <= j < parts.last().len() implies #[trigger] parts.last()[j]
            != sep by {
            assert(parts[parts.len() - 1][j] != sep);
        }
        lemma_split_append(join(head, seq![sep]), sep, parts.last());
        assert(head.push(parts.last()) =~= parts);
    }
}

/// One more piece at the end.
pub proof fn lemma_join_push(parts: Seq<Seq<char>>, p: Seq<char>, sep: Seq<char>)
    ensures
        join(parts.push(p), sep) == (if parts.len() == 0 {
            p
        } else {
            join(parts, sep) + sep + p
        }),
{
    assert(parts.push(p).drop_last() =~= parts);
}

/// Whether two strings hold the same characters.
pub fn same(a: &str, b: &str) -> (r: bool)
    ensures
        r == (a@ == b@),
{
    let x = chars_of(a);
    let y = chars_of(b);
    if x.len() != y.len() {
        return false;
    }
    for i in 0..x.len()
        invariant
            x@ == a@,
            y@ == b@,
            x.len() == y.len(),
            forall|j: int| 0 <= j < i ==> x[j] == y[j],
    {
        if x[i] != y[i] {
            assert(a@[i as int] != b@[i as int]);
            return false;
        }
    }
    assert(a@ =~= b@);
    true
}

/// The string that holds the characters of `cs`.
pub fn from_chars(cs: &[char]) -> (s: String)
    ensures
        s@ == cs@,
{
    let mut s = String::new();
    for i in 0..cs.len()
        invariant
            s@ == cs@.take(i as int),
    {
        s.push(cs[i]);
        assert(cs@.take(i + 1) =~= cs@.take(i as int).push(cs[i as int]));
    }
    assert(cs@.take(cs@.len() as int) =~= cs@);
    s
}

/// The pieces of `s` between occurrences of `sep`.
pub fn split(s: &str, sep: char) -> (r: Vec<String>)
    ensures
        views(r@) == split_on(s@, sep),
        r.len() >= 1,
{
    let cs = chars_of(s);
    let mut done: Vec<String> = Vec::new();
    let mut piece = String::new();
    for i in 0..cs.len()
        invariant
            cs@ == s@,
            views(done@).push(piece@) == split_on(s@.take(i as int), sep),
    {
        let ghost before = views(done@);
        let ghost last = piece@;
        assert(s@.take(i + 1).drop_last() =~= s@.take(i as int));
        assert(s@.take(i + 1).last() == cs[i as int]);
        if cs[i] == sep {
            proof {
                lemma_views_push(done@, piece);
            }
            done.push(piece);
            piece = String::new();
            assert(views(done@).push(piece@) =~= split_on(s@.take(i + 1), sep));
        } else {
            piece.push(cs[i]);
            assert(before.push(last).drop_last() =~= before);
            assert(views(done@).push(piece@) =~= split_on(s@.take(i + 1), sep));
        }
    }
    assert(s@.take(s@.len() as int) =~= s@);
    proof {
        lemma_views_push(done@, piece);
    }
    done.push(piece);
    done
}

/// Number of leading characters of `s` that fit in `budget` bytes.
pub open spec fn fitting(s: Seq<char>, budget: nat) -> nat
    decreases s.len(),
{
    if s.len() == 0 || utf8_len(s) <= budget {
        s.len()
    } else {
        fitting(s.drop_last(), budget)
    }
}

/// The longest prefix of `s` that fits in `budget` bytes.
pub open spec fn cut(s: Seq<char>, budget: nat) -> Seq<char> {
    s.take(fitting(s, budget) as int)
}

/// Prefixes are no longer, in bytes, than what they begin.
pub proof fn lemma_prefix_len(s: Seq<char>, i: int, j: int)
    requires
        0 <= i <= j <= s.len(),
    ensures
        utf8_len(s.take(i)) <= utf8_len(s.take(j)),
        i < j ==> utf8_len(s.take(i)) < utf8_len(s.take(j)),
    decreases j - i,
{
    if i < j {
        lemma_prefix_len(s, i, j - 1);
        assert(s.take(j) =~= s.take(j - 1).push(s[j - 1]));
        lemma_utf8_len_push(s.take(j - 1), s[j - 1]);
    }
}

/// What `fitting` is: the largest number of characters whose bytes stay within the budget.
pub proof fn lemma_fitting(s: Seq<char>, budget: nat)
    ensures
        fitting(s, budget) <= s.len(),
        utf8_len(s.take(fitting(s, budget) as int)) <= budget,
        forall|k: int|
            fitting(s, budget) < k <= s.len() ==> utf8_len(#[trigger] s.take(k)) > budget,
        utf8_len(s) <= budget ==> cut(s, budget) == s,
        utf8_len(s) > budget ==> fitting(s, budget) < s.len(),
    decreases s.len(),
{
    assert(s.take(s.len() as int) =~= s);
    if s.len() == 0 || utf8_len(s) <= budget {
        if s.len() == 0 {
            assert(utf8_len(s) == 0);
        }
    } else {
        let t = s.drop_last();
        lemma_fitting(t, budget);
        let n = fitting(t, budget) as int;
        assert(t.take(n) =~= s.take(n));
        assert forall|k: int| fitting(s, budget) < k <= s.len() implies utf8_len(
            #[trigger] s.take(k),
        ) > budget by {
            if k < s.len() {
                assert(t.take(k) =~= s.take(k));
                assert(utf8_len(t.take(k)) > budget);
            }
        }
    }
}

/// Exactly one number of characters is the largest that fits.
pub proof fn lemma_fitting_unique(s: Seq<char>, budget: nat, n: int)
    requires
        0 <= n <= s.len(),
        utf8_len(s.take(n)) <= budget,
        n < s.len() ==> utf8_len(s.take(n + 1)) > budget,
    ensures
        fitting(s, budget) == n,
        cut(s, budget) == s.take(n),
{
    lemma_fitting(s, budget);
    let f = fitting(s, budget) as int;
    if f < n {
        assert(utf8_len(s.take(n)) > budget);
    } else if f > n {
        lemma_prefix_len(s, n + 1, f);
    }
}

/// The longest prefix of `s` that fits in `budget` bytes.
pub fn cut_to(s: &str, budget: usize) -> (r: String)
    ensures
        r@ == cut(s@, budget as nat),
{
    let cs = chars_of(s);
    let mut out = String::new();
    let mut used: usize = 0;
    let mut i: usize = 0;
    assert(s@.take(0) =~= Seq::<char>::empty());
    while i < cs.len()
        invariant
            cs@ == s@,
            i <= cs.len(),
            out@ == s@.take(i as int),
            used == utf8_len(out@),
            used <= budget,
        decreases cs.len() - i,
    {
        let w = width_of(cs[i]);
        proof {
            assert(s@.take(i + 1) =~= s@.take(i as int).push(cs[i as int]));
            lemma_utf8_len_push(s@.take(i as int), cs[i as int]);
        }
        if w > budget - used {
            proof {
                lemma_fitting_unique(s@, budget as nat, i as int);
            }
            return out;
        }
        out.push(cs[i]);
        used = used + w;
        i = i + 1;
    }
    proof {
        lemma_fitting_unique(s@, budget as nat, i as int);
    }
    out
}

/// White space, as Unicode defines it.
pub open spec fn white_space(c: char) -> bool {
    ||| '\u{9}' <= c <= '\u{d}'
    ||| c == ' '
    ||| c == '\u{85}'
    ||| c == '\u{a0}'
    ||| c == '\u{1680}'
    ||| '\u{2000}' <= c <= '\u{200a}'
    ||| c == '\u{2028}'
    ||| c == '\u{2029}'
    ||| c == '\u{202f}'
    ||| c == '\u{205f}'
    ||| c == '\u{3000}'
}

/// Whether `c` is white space.
pub fn is_white_space(c: char) -> (r: bool)
    ensures
        r == white_space(c),
{
    ('\u{9}' <= c && c <= '\u{d}') || c == ' ' || c == '\u{85}' || c == '\u{a0}' || c == '\u{1680}'
        || ('\u{2000}' <= c && c <= '\u{200a}') || c == '\u{2028}' || c == '\u{2029}' || c
        == '\u{202f}' || c == '\u{205f}' || c == '\u{3000}'
}

/// Whether `s` holds nothing but white space.
pub open spec fn blank(s: Seq<char>) -> bool {
    forall|i: int| 0 <= i < s.len() ==> white_space(#[trigger] s[i])
}

/// Whether `s` holds nothing but white space.
pub fn is_blank(s: &str) -> (r: bool)
    ensures
        r == blank(s@),
{
    let cs = chars_of(s);
    for i in 0..cs.len()
        invariant
            cs@ == s@,
            forall|j: int| 0 <= j < i ==> white_space(#[trigger] s@[j]),
    {
        if !is_white_space(cs[i]) {
            assert(!white_space(s@[i as int]));
            return false;
        }
    }
    true
}

/// Number of leading white-space characters of `s`.
pub open spec fn leading_white(s: Seq<char>) -> nat
    decreases s.len(),
{
    if s.len() > 0 && white_space(s[0]) {
        1 + leading_white(s.skip(1))
    } else {
        0
    }
}

/// Number of characters of `s` up to its last one that is not white space.
pub open spec fn trailing_end(s: Seq<char>) -> nat
    decreases s.len(),
{
    if s.len() > 0 && white_space(s.last()) {
        trailing_end(s.drop_last())
    } else {
        s.len()
    }
}

/// `s` without the white space around it.
pub open spec fn trimmed(s: Seq<char>) -> Seq<char> {
    let t = s.take(trailing_end(s) as int);
    t.skip(leading_white(t) as int)
}

/// `s` without the white space around it.
pub fn trim(s: &str) -> (r: String)
    ensures
        r@ == trimmed(s@),
{
    let cs = chars_of(s);
    let mut end: usize = cs.len();
    assert(s@.take(s@.len() as int) =~= s@);
    while end > 0 && is_white_space(cs[end - 1])
        invariant
            cs@ == s@,
            end <= cs.len(),
            trailing_end(s@) == trailing_end(s@.take(end as int)),
        decreases end,
    {
        assert(s@.take(end as int).last() == s@[end - 1]);
        assert(s@.take(end as int).drop_last() =~= s@.take(end - 1));
        end = end - 1;
    }
    proof {
        if end > 0 {
            assert(s@.take(end as int).last() == s@[end - 1]);
        }
        assert(trailing_end(s@) == end);
    }
    let ghost t = s@.take(end as int);
    let mut begin: usize = 0;
    assert(t.skip(0) =~= t);
    while begin < end && is_white_space(cs[begin])
        invariant
            cs@ == s@,
            begin <= end <= cs.len(),
            t == s@.take(end as int),
            leading_white(t) == begin + leading_white(t.skip(begin as int)),
        decreases end - begin,
    {
        assert(t.skip(begin as int)[0] == s@[begin as int]);
        assert(t.skip(begin as int).skip(1) =~= t.skip(begin + 1));
        begin = begin + 1;
    }
    proof {
        if begin < end {
            assert(t.skip(begin as int)[0] == s@[begin as int]);
        }
    }
    let r = from_chars(&cs[begin..end]);
    assert(r@ =~= t.skip(begin as int));
    r
}

/// What begins a string begins it with more behind it too.
pub proof fn lemma_prefix_extends(p: Seq<char>, q: Seq<char>, more: Seq<char>)
    requires
        p.is_prefix_of(q),
    ensures
        p.is_prefix_of(q + more),
{
    assert((q + more).take(p.len() as int) =~= q.take(p.len() as int));
}

/// The same text before both keeps a prefix a prefix.
pub proof fn lemma_prefix_under(h: Seq<char>, p: Seq<char>, q: Seq<char>)
    requires
        p.is_prefix_of(q),
    ensures
        (h + p).is_prefix_of(h + q),
{
    assert(p =~= q.take(p.len() as int));
    assert((h + q).take((h + p).len() as int) =~= h + p);
}

/// Joins lines by line breaks.
pub fn join_lines(lines: &Vec<String>) -> (r: String)
    ensures
        r@ == join(views(lines@), seq!['\n']),
{
    let mut out = String::new();
    let ghost all = views(lines@);
    assert(all.take(0) =~= Seq::<Seq<char>>::empty());
    for i in 0..lines.len()
        invariant
            all == views(lines@),
            out@ == join(all.take(i as int), seq!['\n']),
    {
        if i > 0 {
            out.push('\n');
        }
        out.append(&lines[i]);
        proof {
            let head = all.take(i as int);
            assert(all.take(i + 1) =~= head.push(lines[i as int]@));
            lemma_join_push(head, lines[i as int]@, seq!['\n']);
            if i > 0 {
                assert(out@ =~= join(head, seq!['\n']) + seq!['\n'] + lines[i as int]@);
            } else {
                assert(out@ =~= lines[i as int]@);
            }
        }
    }
    assert(all.take(all.len() as int) =~= all);
    out
}

/// An integer in decimal, with a minus sign where it is negative.
pub open spec fn signed_decimal(n: int) -> Seq<char> {
    if n < 0 {
        seq!['-'] + decimal((-n) as nat)
    } else {
        decimal(n as nat)
    }
}

/// Appends `n` in decimal.
pub fn push_signed(out: &mut String, n: i32)
    ensures
        final(out)@ == old(out)@ + signed_decimal(n as int),
{
    let wide: i64 = n as i64;
    if wide < 0 {
        out.push('-');
        push_decimal(out, (-wide) as u64);
        assert(out@ =~= old(out)@ + signed_decimal(n as int));
    } else {
        push_decimal(out, wide as u64);
    }
}

/// An exit code has at most eleven characters, all of one byte.
pub proof fn lemma_signed_decimal_len(n: i32)
    ensures
        utf8_len(signed_decimal(n as int)) == signed_decimal(n as int).len(),
        signed_decimal(n as int).len() <= 11,
        is_ascii_chars(signed_decimal(n as int)),
{
    let m: nat = if n < 0 {
        (-(n as int)) as nat
    } else {
        n as nat
    };
    lemma_decimal_ascii(m);
    assert(decimal(m).len() <= 10) by {
        reveal_with_fuel(decimal, 11);
    }
    assert(is_ascii_chars(signed_decimal(n as int)));
    is_ascii_chars_encode_utf8(signed_decimal(n as int));
}

} // verus!
