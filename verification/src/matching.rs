//! Looking for one text in another, and letters without their case.

use crate::text::chars_of;
use vstd::prelude::*;
use vstd::string::*;

verus! {

/// A letter of ASCII in lower case; any other character as it is.
pub open spec fn lower_char(c: char) -> char {
    if 'A' <= c <= 'Z' {
        ((c as u32 + 32) as u8) as char
    } else {
        c
    }
}

/// A text with the letters of ASCII in lower case.
pub open spec fn lowered(s: Seq<char>) -> Seq<char> {
    Seq::new(s.len(), |i: int| lower_char(s[i]))
}

/// The text with the letters of ASCII in lower case.
pub fn ascii_lower(s: &str) -> (r: String)
    ensures
        r@ == lowered(s@),
{
    let cs = chars_of(s);
    let mut out = String::new();
    assert(out@ =~= lowered(s@).take(0));
    for i in 0..cs.len()
        invariant
            cs@ == s@,
            out@ == lowered(s@).take(i as int),
    {
        let c = cs[i];
        if 'A' <= c && c <= 'Z' {
            out.push(((c as u32 + 32) as u8) as char);
        } else {
            out.push(c);
        }
        assert(out@ =~= lowered(s@).take(i + 1));
    }
    assert(lowered(s@).take(s@.len() as int) =~= lowered(s@));
    out
}

/// Whether `needle` stands in `hay` at place `i`.
pub open spec fn stands_at(hay: Seq<char>, needle: Seq<char>, i: int) -> bool {
    0 <= i && i + needle.len() <= hay.len() && hay.subrange(i, i + needle.len()) == needle
}

/// Whether `hay` begins with `needle`.
pub open spec fn begins(hay: Seq<char>, needle: Seq<char>) -> bool {
    stands_at(hay, needle, 0)
}

/// Whether `hay` ends with `needle`.
pub open spec fn ends(hay: Seq<char>, needle: Seq<char>) -> bool {
    stands_at(hay, needle, hay.len() - needle.len())
}

/// Whether `hay` holds `needle` somewhere.
pub open spec fn holds(hay: Seq<char>, needle: Seq<char>) -> bool {
    exists|i: int| #[trigger] stands_at(hay, needle, i)
}

/// Whether `needle` stands in `hay` at place `i`.
pub fn found_at(hay: &Vec<char>, needle: &Vec<char>, i: usize) -> (r: bool)
    ensures
        r == stands_at(hay@, needle@, i as int),
{
    if needle.len() > hay.len() || i > hay.len() - needle.len() {
        return false;
    }
    let size: usize = hay.len();
    for k in 0..needle.len()
        invariant
            size == hay@.len(),
            i + needle@.len() <= hay@.len(),
            forall|j: int| 0 <= j < k ==> #[trigger] needle@[j] == hay@[i + j],
    {
        if hay[i + k] != needle[k] {
            assert(hay@.subrange(i as int, i + needle@.len())[k as int] != needle@[k as int]);
            return false;
        }
    }
    assert(hay@.subrange(i as int, i + needle@.len()) =~= needle@);
    true
}

/// Whether `hay` begins with `needle`.
pub fn starts_with(hay: &str, needle: &str) -> (r: bool)
    ensures
        r == begins(hay@, needle@),
{
    found_at(&chars_of(hay), &chars_of(needle), 0)
}

/// Whether `hay` ends with `needle`.
pub fn ends_with(hay: &str, needle: &str) -> (r: bool)
    ensures
        r == ends(hay@, needle@),
{
    let h = chars_of(hay);
    let n = chars_of(needle);
    if n.len() > h.len() {
        return false;
    }
    let at: usize = h.len() - n.len();
    found_at(&h, &n, at)
}

/// Whether `hay` holds `needle`.
pub fn contains(hay: &str, needle: &str) -> (r: bool)
    ensures
        r == holds(hay@, needle@),
{
    let h = chars_of(hay);
    let n = chars_of(needle);
    if n.len() > h.len() {
        return false;
    }
    let last: usize = h.len() - n.len();
    let mut i: usize = 0;
    loop
        invariant
            h@ == hay@,
            n@ == needle@,
            n@.len() <= h@.len(),
            last == h@.len() - n@.len(),
            i <= last,
            forall|j: int| 0 <= j < i ==> !#[trigger] stands_at(hay@, needle@, j),
        decreases last - i,
    {
        if found_at(&h, &n, i) {
            assert(stands_at(hay@, needle@, i as int));
            return true;
        }
        if i == last {
            assert forall|j: int| !#[trigger] stands_at(hay@, needle@, j) by {}
            return false;
        }
        i = i + 1;
    }
}

/// Lower case does not change what is in lower case.
pub proof fn law_lowering_is_idempotent(s: Seq<char>)
    ensures
        lowered(lowered(s)) == lowered(s),
{
    assert forall|i: int| 0 <= i < s.len() implies lower_char(lower_char(#[trigger] s[i]))
        == lower_char(s[i]) by {
        let c = s[i];
        if 'A' <= c <= 'Z' {
            assert(97 <= c as u32 + 32 <= 122);
        }
    }
    assert(lowered(lowered(s)) =~= lowered(s));
}

/// `s` with `to` in place of each `from`, from left to right.
pub open spec fn replaced(s: Seq<char>, from: Seq<char>, to: Seq<char>) -> Seq<char>
    decreases s.len(),
{
    if from.len() == 0 || s.len() < from.len() {
        s
    } else if begins(s, from) {
        to + replaced(s.skip(from.len() as int), from, to)
    } else {
        seq![s[0]] + replaced(s.skip(1), from, to)
    }
}

/// The text with `to` in place of each `from`; `from` says something.
pub fn replace_all(s: &str, from: &str, to: &str) -> (r: String)
    requires
        from@.len() > 0,
    ensures
        r@ == replaced(s@, from@, to@),
{
    let cs = chars_of(s);
    let f = chars_of(from);
    let n: usize = cs.len();
    let mut out = String::new();
    let mut i: usize = 0;
    assert(out@ + replaced(s@.skip(0), from@, to@) =~= replaced(s@, from@, to@)) by {
        assert(s@.skip(0) =~= s@);
    }
    while i < n
        invariant
            i <= n,
            n == s@.len(),
            cs@ == s@,
            f@ == from@,
            f@.len() > 0,
            out@ + replaced(s@.skip(i as int), from@, to@) == replaced(s@, from@, to@),
        decreases n - i,
    {
        let ghost rest = s@.skip(i as int);
        let ghost before = out@;
        if found_at(&cs, &f, i) {
            proof {
                assert(rest.subrange(0, from@.len() as int) =~= s@.subrange(
                    i as int,
                    i + from@.len(),
                ));
                assert(begins(rest, from@));
                assert(rest.skip(from@.len() as int) =~= s@.skip(i + from@.len()));
            }
            out.append(to);
            i = i + f.len();
            assert(out@ + replaced(s@.skip(i as int), from@, to@) =~= before + replaced(
                rest,
                from@,
                to@,
            ));
        } else {
            proof {
                if begins(rest, from@) {
                    assert(rest.subrange(0, from@.len() as int) =~= s@.subrange(
                        i as int,
                        i + from@.len(),
                    ));
                }
                assert(rest.skip(1) =~= s@.skip(i + 1));
                if rest.len() < from@.len() {
                    assert(s@.skip(i + 1).len() < from@.len());
                    assert(rest =~= seq![rest[0]] + rest.skip(1));
                }
                assert(replaced(rest, from@, to@) =~= seq![rest[0]] + replaced(
                    rest.skip(1),
                    from@,
                    to@,
                ));
            }
            out.push(cs[i]);
            i = i + 1;
            assert(out@ + replaced(s@.skip(i as int), from@, to@) =~= before + replaced(
                rest,
                from@,
                to@,
            ));
        }
    }
    assert(s@.skip(n as int) =~= Seq::<char>::empty());
    assert(out@ + Seq::<char>::empty() =~= out@);
    out
}

/// Where a text does not stand in another, it does not stand in what is left of it.
pub proof fn lemma_holds_skip(s: Seq<char>, n: Seq<char>, k: int)
    requires
        0 <= k <= s.len(),
        !holds(s, n),
    ensures
        !holds(s.skip(k), n),
{
    if holds(s.skip(k), n) {
        let i = choose|i: int| #[trigger] stands_at(s.skip(k), n, i);
        assert(s.skip(k).subrange(i, i + n.len()) =~= s.subrange(k + i, k + i + n.len()));
        assert(stands_at(s, n, k + i));
    }
}

/// The beginning of a replaced text that does not hold the first character of the replacement was
/// the beginning before.
proof fn lemma_replaced_prefix(s: Seq<char>, from: Seq<char>, to: Seq<char>, k: int)
    requires
        to.len() > 0,
        0 <= k <= replaced(s, from, to).len(),
        forall|j: int| 0 <= j < k ==> #[trigger] replaced(s, from, to)[j] != to[0],
    ensures
        k <= s.len(),
        s.take(k) == replaced(s, from, to).take(k),
    decreases s.len(),
{
    let r = replaced(s, from, to);
    if from.len() == 0 || s.len() < from.len() {
    } else if k == 0 {
        assert(s.take(0) =~= r.take(0));
    } else if begins(s, from) {
        assert(r[0] == to[0]);
    } else {
        let rest = replaced(s.skip(1), from, to);
        assert forall|j: int| 0 <= j < k - 1 implies #[trigger] rest[j] != to[0] by {
            assert(rest[j] == r[j + 1]);
        }
        lemma_replaced_prefix(s.skip(1), from, to, k - 1);
        assert forall|j: int| 0 <= j < k implies s[j] == r[j] by {
            if j > 0 {
                assert(s.skip(1).take(k - 1)[j - 1] == rest.take(k - 1)[j - 1]);
            }
        }
        assert(s.take(k) =~= r.take(k));
    }
}

/// Whether `c` occurs in `s`.
pub open spec fn occurs(s: Seq<char>, c: char) -> bool {
    exists|i: int| 0 <= i < s.len() && #[trigger] s[i] == c
}

/// A text that is replaced everywhere, or that was not there, is not there afterwards, as long as
/// the replacement does not hold it and its two ends are characters that the text does not hold.
pub proof fn law_replaced_text_is_gone(
    s: Seq<char>,
    from: Seq<char>,
    to: Seq<char>,
    n: Seq<char>,
)
    requires
        from.len() > 0,
        to.len() > 0,
        n.len() > 0,
        !occurs(n, to[0]),
        !occurs(n, to.last()),
        !holds(to, n),
        n == from || !holds(s, n),
    ensures
        !holds(replaced(s, from, to), n),
    decreases s.len(),
{
    let r = replaced(s, from, to);
    if s.len() < from.len() {
        if n == from && holds(s, n) {
            let i = choose|i: int| #[trigger] stands_at(s, n, i);
        }
    } else if begins(s, from) {
        let k = from.len() as int;
        let rest = replaced(s.skip(k), from, to);
        if n != from {
            lemma_holds_skip(s, n, k);
        }
        law_replaced_text_is_gone(s.skip(k), from, to, n);
        if holds(r, n) {
            let i = choose|i: int| #[trigger] stands_at(r, n, i);
            let t = to.len() as int;
            if i >= t {
                assert(rest.subrange(i - t, i - t + n.len()) =~= r.subrange(i, i + n.len()));
                assert(stands_at(rest, n, i - t));
            } else if i + n.len() <= t {
                assert(to.subrange(i, i + n.len()) =~= r.subrange(i, i + n.len()));
                assert(stands_at(to, n, i));
            } else {
                assert(r.subrange(i, i + n.len())[t - 1 - i] == to.last());
                assert(n[t - 1 - i] == to.last());
            }
        }
    } else {
        let rest = replaced(s.skip(1), from, to);
        if n != from {
            lemma_holds_skip(s, n, 1);
        }
        law_replaced_text_is_gone(s.skip(1), from, to, n);
        if holds(r, n) {
            let i = choose|i: int| #[trigger] stands_at(r, n, i);
            if i >= 1 {
                assert(rest.subrange(i - 1, i - 1 + n.len()) =~= r.subrange(i, i + n.len()));
                assert(stands_at(rest, n, i - 1));
            } else {
                let k = n.len() as int;
                assert(r.subrange(0, k) =~= r.take(k));
                assert forall|j: int| 0 <= j < k implies #[trigger] r[j] != to[0] by {
                    assert(r.subrange(0, k)[j] == n[j]);
                }
                lemma_replaced_prefix(s, from, to, k);
                assert(s.subrange(0, k) =~= s.take(k));
                assert(stands_at(s, n, 0));
            }
        }
    }
}

/// Replacing a text changes nothing else: what stands before its first place stays, and so does what
/// stands behind it, but for further places.
pub proof fn law_replacing_keeps_the_rest(a: Seq<char>, from: Seq<char>, b: Seq<char>, to: Seq<char>)
    requires
        from.len() > 0,
        !holds(a + from.drop_last(), from),
    ensures
        replaced(a + from + b, from, to) == a + to + replaced(b, from, to),
    decreases a.len(),
{
    let s = a + from + b;
    if a.len() == 0 {
        assert(s.subrange(0, from.len() as int) =~= from);
        assert(s.skip(from.len() as int) =~= b);
        assert(a + to + replaced(b, from, to) =~= to + replaced(b, from, to));
    } else {
        let head = a + from.drop_last();
        assert(!begins(s, from)) by {
            if begins(s, from) {
                assert(head.subrange(0, from.len() as int) =~= s.subrange(0, from.len() as int));
                assert(stands_at(head, from, 0));
            }
        }
        let t = a.skip(1);
        lemma_holds_skip(head, from, 1);
        assert(head.skip(1) =~= t + from.drop_last());
        law_replacing_keeps_the_rest(t, from, b, to);
        assert(s.skip(1) =~= t + from + b);
        assert(seq![s[0]] + (t + to + replaced(b, from, to)) =~= a + to + replaced(b, from, to));
    }
}

} // verus!
