//! The order of strings, and sorting by it.

use crate::text::{chars_of, same};
use crate::text;
use vstd::prelude::*;
use vstd::string::*;

verus! {

/// Whether `a` stands before `b` in the order of code points, or equals it.
pub open spec fn text_le(a: Seq<char>, b: Seq<char>) -> bool
    decreases a.len(),
{
    if a.len() == 0 {
        true
    } else if b.len() == 0 {
        false
    } else if a[0] != b[0] {
        a[0] < b[0]
    } else {
        text_le(a.skip(1), b.skip(1))
    }
}

/// Of any two strings, one stands before the other.
pub proof fn lemma_text_le_total(a: Seq<char>, b: Seq<char>)
    ensures
        text_le(a, b) || text_le(b, a),
    decreases a.len(),
{
    if a.len() > 0 && b.len() > 0 && a[0] == b[0] {
        lemma_text_le_total(a.skip(1), b.skip(1));
    }
}

/// The order is transitive.
pub proof fn lemma_text_le_transitive(a: Seq<char>, b: Seq<char>, c: Seq<char>)
    requires
        text_le(a, b),
        text_le(b, c),
    ensures
        text_le(a, c),
    decreases a.len(),
{
    if a.len() > 0 && b.len() > 0 && c.len() > 0 && a[0] == b[0] && b[0] == c[0] {
        lemma_text_le_transitive(a.skip(1), b.skip(1), c.skip(1));
    }
}

/// Two strings that stand before each other are equal.
pub proof fn lemma_text_le_antisymmetric(a: Seq<char>, b: Seq<char>)
    requires
        text_le(a, b),
        text_le(b, a),
    ensures
        a == b,
    decreases a.len(),
{
    if a.len() == 0 {
        assert(b.len() == 0);
        assert(a =~= b);
    } else {
        lemma_text_le_antisymmetric(a.skip(1), b.skip(1));
        assert forall|i: int| 0 <= i < a.len() implies a[i] == b[i] by {
            if i > 0 {
                assert(a.skip(1)[i - 1] == b.skip(1)[i - 1]);
            }
        }
        assert(a.skip(1).len() == b.skip(1).len());
        assert(a =~= b);
    }
}

/// Whether `a` stands before `b`, or equals it.
pub fn precedes(a: &str, b: &str) -> (r: bool)
    ensures
        r == text_le(a@, b@),
{
    let x = chars_of(a);
    let y = chars_of(b);
    let mut i: usize = 0;
    assert(a@.skip(0) =~= a@);
    assert(b@.skip(0) =~= b@);
    loop
        invariant
            x@ == a@,
            y@ == b@,
            i <= x.len(),
            i <= y.len(),
            text_le(a@, b@) == text_le(a@.skip(i as int), b@.skip(i as int)),
        decreases x.len() - i,
    {
        if i == x.len() {
            return true;
        }
        if i == y.len() {
            return false;
        }
        if x[i] != y[i] {
            return x[i] < y[i];
        }
        assert(a@.skip(i as int).skip(1) =~= a@.skip(i + 1));
        assert(b@.skip(i as int).skip(1) =~= b@.skip(i + 1));
        i = i + 1;
    }
}

/// The order of pairs: by text, then by number.
pub open spec fn pair_le(a: (Seq<char>, u64), b: (Seq<char>, u64)) -> bool {
    if a.0 == b.0 {
        a.1 <= b.1
    } else {
        text_le(a.0, b.0)
    }
}

/// `s`, which is in order, with `x` behind everything that does not stand after it.
pub open spec fn insert_pair(
    s: Seq<(Seq<char>, u64)>,
    x: (Seq<char>, u64),
) -> Seq<(Seq<char>, u64)>
    decreases s.len(),
{
    if s.len() == 0 || pair_le(s.last(), x) {
        s.push(x)
    } else {
        insert_pair(s.drop_last(), x).push(s.last())
    }
}

/// The pairs of `s` in order.
pub open spec fn sort_pairs(s: Seq<(Seq<char>, u64)>) -> Seq<(Seq<char>, u64)>
    decreases s.len(),
{
    if s.len() == 0 {
        Seq::empty()
    } else {
        insert_pair(sort_pairs(s.drop_last()), s.last())
    }
}

/// The pairs of a list.
pub open spec fn pair_views(v: Seq<(String, u64)>) -> Seq<(Seq<char>, u64)> {
    Seq::new(v.len(), |i: int| (v[i].0@, v[i].1))
}

fn pair_precedes(a: &(String, u64), b: &(String, u64)) -> (r: bool)
    ensures
        r == pair_le((a.0@, a.1), (b.0@, b.1)),
{
    if same(&a.0, &b.0) {
        a.1 <= b.1
    } else {
        precedes(&a.0, &b.0)
    }
}

proof fn lemma_insert_at(s: Seq<(Seq<char>, u64)>, x: (Seq<char>, u64), p: int)
    requires
        0 <= p <= s.len(),
        forall|i: int| p <= i < s.len() ==> !pair_le(#[trigger] s[i], x),
        p > 0 ==> pair_le(s[p - 1], x),
    ensures
        insert_pair(s, x) == s.insert(p, x),
    decreases s.len(),
{
    if p == s.len() {
        assert(s.insert(p, x) =~= s.push(x));
    } else {
        let t = s.drop_last();
        assert(!pair_le(s[s.len() - 1], x));
        assert forall|i: int| p <= i < t.len() implies !pair_le(#[trigger] t[i], x) by {
            assert(t[i] == s[i]);
        }
        lemma_insert_at(t, x, p);
        assert(t.insert(p, x).push(s.last()) =~= s.insert(p, x));
    }
}

/// The pairs of `items` in order: by text, then by number.
pub fn sorted_pairs(items: Vec<(String, u64)>) -> (r: Vec<(String, u64)>)
    ensures
        pair_views(r@) == sort_pairs(pair_views(items@)),
{
    let mut out: Vec<(String, u64)> = Vec::new();
    let ghost all = pair_views(items@);
    assert(pair_views(out@) =~= Seq::<(Seq<char>, u64)>::empty());
    assert(all.take(0) =~= Seq::<(Seq<char>, u64)>::empty());
    for k in 0..items.len()
        invariant
            all == pair_views(items@),
            pair_views(out@) == sort_pairs(all.take(k as int)),
    {
        let x = (items[k].0.clone(), items[k].1);
        let ghost xv = (x.0@, x.1);
        let mut p: usize = out.len();
        while p > 0 && !pair_precedes(&out[p - 1], &x)
            invariant
                p <= out.len(),
                xv == (x.0@, x.1),
                forall|i: int|
                    p <= i < out.len() ==> !pair_le(#[trigger] pair_views(out@)[i], xv),
            decreases p,
        {
            p = p - 1;
            assert(pair_views(out@)[p as int] == (out@[p as int].0@, out@[p as int].1));
        }
        let ghost before = out@;
        proof {
            if p > 0 {
                assert(pair_views(out@)[p - 1] == (out@[p - 1].0@, out@[p - 1].1));
            }
            lemma_insert_at(pair_views(before), xv, p as int);
            assert(all.take(k + 1).drop_last() =~= all.take(k as int));
            assert(all.take(k + 1).last() == xv);
        }
        out.insert(p, x);
        assert(pair_views(out@) =~= pair_views(before).insert(p as int, xv));
    }
    assert(all.take(all.len() as int) =~= all);
    out
}

/// The texts of `s` in order.
pub open spec fn sort_texts(s: Seq<Seq<char>>) -> Seq<Seq<char>> {
    let pairs = sort_pairs(Seq::new(s.len(), |i: int| (s[i], 0u64)));
    Seq::new(pairs.len(), |i: int| pairs[i].0)
}

/// The strings of `items` in order.
pub fn sorted_texts(items: Vec<String>) -> (r: Vec<String>)
    ensures
        text::views(r@) == sort_texts(text::views(items@)),
{
    let mut pairs: Vec<(String, u64)> = Vec::new();
    for k in 0..items.len()
        invariant
            pairs.len() == k,
            forall|i: int| 0 <= i < k ==> pairs[i].0@ == items[i]@ && (#[trigger] pairs[i]).1 == 0,
    {
        pairs.push((items[k].clone(), 0));
    }
    let ghost with_zero = Seq::new(text::views(items@).len(), |i: int| (text::views(items@)[i], 0u64));
    assert(pair_views(pairs@) =~= with_zero);
    let sorted = sorted_pairs(pairs);
    let mut out: Vec<String> = Vec::new();
    for k in 0..sorted.len()
        invariant
            out.len() == k,
            forall|i: int| 0 <= i < k ==> #[trigger] out[i]@ == sorted[i].0@,
    {
        out.push(sorted[k].0.clone());
    }
    assert(text::views(out@) =~= sort_texts(text::views(items@)));
    out
}

/// `s` without the texts that equal the one before them.
pub open spec fn without_repeats(s: Seq<Seq<char>>) -> Seq<Seq<char>>
    decreases s.len(),
{
    if s.len() < 2 {
        s
    } else if s[s.len() - 2] == s.last() {
        without_repeats(s.drop_last())
    } else {
        without_repeats(s.drop_last()).push(s.last())
    }
}

/// The strings of `items` without those that equal the one before them.
pub fn deduplicated(items: Vec<String>) -> (r: Vec<String>)
    ensures
        text::views(r@) == without_repeats(text::views(items@)),
{
    let mut out: Vec<String> = Vec::new();
    let ghost all = text::views(items@);
    assert(text::views(out@) =~= without_repeats(all.take(0)));
    for k in 0..items.len()
        invariant
            all == text::views(items@),
            text::views(out@) == without_repeats(all.take(k as int)),
    {
        proof {
            assert(all.take(k + 1).drop_last() =~= all.take(k as int));
            assert(all.take(k + 1).last() == items[k as int]@);
            if k > 0 {
                assert(all.take(k + 1)[k - 1] == items[k - 1]@);
            } else {
                assert(without_repeats(all.take(1)) =~= without_repeats(all.take(0)).push(all[0]));
            }
        }
        if k == 0 || !same(&items[k - 1], &items[k]) {
            let x = items[k].clone();
            proof {
                text::lemma_views_push(out@, x);
            }
            out.push(x);
        }
    }
    assert(all.take(all.len() as int) =~= all);
    out
}

/// Whether a list of pairs is in order.
pub open spec fn in_order(s: Seq<(Seq<char>, u64)>) -> bool {
    forall|i: int, j: int| 0 <= i <= j < s.len() ==> pair_le(#[trigger] s[i], #[trigger] s[j])
}

proof fn lemma_pair_le_total(a: (Seq<char>, u64), b: (Seq<char>, u64))
    ensures
        pair_le(a, b) || pair_le(b, a),
{
    lemma_text_le_total(a.0, b.0);
}

proof fn lemma_pair_le_transitive(
    a: (Seq<char>, u64),
    b: (Seq<char>, u64),
    c: (Seq<char>, u64),
)
    requires
        pair_le(a, b),
        pair_le(b, c),
    ensures
        pair_le(a, c),
{
    if a.0 != b.0 && b.0 != c.0 {
        lemma_text_le_transitive(a.0, b.0, c.0);
        if a.0 == c.0 {
            lemma_text_le_antisymmetric(a.0, b.0);
        }
    }
}

proof fn lemma_insert_in_order(s: Seq<(Seq<char>, u64)>, x: (Seq<char>, u64))
    requires
        in_order(s),
    ensures
        in_order(insert_pair(s, x)),
        insert_pair(s, x).len() == s.len() + 1,
        insert_pair(s, x).to_multiset() == s.to_multiset().insert(x),
        forall|i: int|
            0 <= i < insert_pair(s, x).len() ==> #[trigger] insert_pair(s, x)[i] == x || s.contains(
                insert_pair(s, x)[i],
            ),
    decreases s.len(),
{
    broadcast use vstd::seq_lib::group_to_multiset_ensures;

    if s.len() == 0 {
        lemma_pair_le_total(x, x);
        assert(s.to_multiset() =~= vstd::multiset::Multiset::empty());
        assert(s.push(x).to_multiset() =~= s.to_multiset().insert(x));
    } else if pair_le(s.last(), x) {
        let r = s.push(x);
        assert forall|i: int, j: int| 0 <= i <= j < r.len() implies pair_le(
            #[trigger] r[i],
            #[trigger] r[j],
        ) by {
            if j == s.len() {
                if i < s.len() {
                    assert(pair_le(s[i], s[s.len() - 1]));
                    lemma_pair_le_transitive(s[i], s.last(), x);
                } else {
                    lemma_pair_le_total(x, x);
                }
            } else {
                assert(pair_le(s[i], s[j]));
            }
        }
        assert forall|i: int| 0 <= i < r.len() implies #[trigger] r[i] == x || s.contains(r[i]) by {
            if i < s.len() {
                assert(s[i] == r[i]);
            }
        }
    } else {
        let t = s.drop_last();
        let u = insert_pair(t, x);
        assert(in_order(t)) by {
            assert forall|i: int, j: int| 0 <= i <= j < t.len() implies pair_le(
                #[trigger] t[i],
                #[trigger] t[j],
            ) by {
                assert(pair_le(s[i], s[j]));
            }
        }
        lemma_insert_in_order(t, x);
        let r = u.push(s.last());
        lemma_pair_le_total(s.last(), x);
        assert forall|i: int| 0 <= i < u.len() implies pair_le(#[trigger] u[i], s.last()) by {
            if u[i] != x {
                assert(t.contains(u[i]));
                let k = choose|k: int| 0 <= k < t.len() && t[k] == u[i];
                assert(pair_le(s[k], s[s.len() - 1]));
            }
        }
        assert forall|i: int, j: int| 0 <= i <= j < r.len() implies pair_le(
            #[trigger] r[i],
            #[trigger] r[j],
        ) by {
            if j < u.len() {
                assert(pair_le(u[i], u[j]));
            } else if i == u.len() {
                lemma_pair_le_total(s.last(), s.last());
            } else {
                assert(pair_le(u[i], s.last()));
            }
        }
        assert forall|i: int| 0 <= i < r.len() implies #[trigger] r[i] == x || s.contains(r[i]) by {
            if i < u.len() {
                if u[i] != x {
                    assert(t.contains(u[i]));
                    let k = choose|k: int| 0 <= k < t.len() && t[k] == u[i];
                    assert(s[k] == r[i]);
                }
            } else {
                assert(s[s.len() - 1] == r[i]);
            }
        }
        assert(t.push(s.last()) =~= s);
        assert(s.to_multiset() =~= t.to_multiset().insert(s.last()));
        assert(r.to_multiset() =~= s.to_multiset().insert(x));
    }
}

/// Sorting puts a list in order and keeps exactly its pairs.
pub proof fn law_sort_orders_and_keeps(s: Seq<(Seq<char>, u64)>)
    ensures
        in_order(sort_pairs(s)),
        sort_pairs(s).len() == s.len(),
        sort_pairs(s).to_multiset() == s.to_multiset(),
    decreases s.len(),
{
    broadcast use vstd::seq_lib::group_to_multiset_ensures;

    if s.len() == 0 {
        assert(sort_pairs(s) =~= s);
    } else {
        law_sort_orders_and_keeps(s.drop_last());
        lemma_insert_in_order(sort_pairs(s.drop_last()), s.last());
        assert(s.drop_last().push(s.last()) =~= s);
        assert(s.to_multiset() =~= s.drop_last().to_multiset().insert(s.last()));
    }
}

proof fn lemma_repeats_dropped(s: Seq<Seq<char>>)
    requires
        forall|i: int, j: int| 0 <= i <= j < s.len() ==> text_le(#[trigger] s[i], #[trigger] s[j]),
    ensures
        forall|t: Seq<char>| #[trigger] without_repeats(s).contains(t) <==> s.contains(t),
        without_repeats(s).len() > 0 <==> s.len() > 0,
        s.len() > 0 ==> without_repeats(s).last() == s.last(),
        forall|i: int, j: int|
            0 <= i < j < without_repeats(s).len() ==> #[trigger] without_repeats(s)[i]
                != #[trigger] without_repeats(s)[j] && text_le(
                without_repeats(s)[i],
                without_repeats(s)[j],
            ),
    decreases s.len(),
{
    if s.len() >= 2 {
        let t = s.drop_last();
        let u = without_repeats(t);
        let r = without_repeats(s);
        lemma_repeats_dropped(t);
        assert forall|x: Seq<char>| #[trigger] r.contains(x) implies s.contains(x) by {
            let k = choose|k: int| 0 <= k < r.len() && r[k] == x;
            if k < u.len() {
                assert(u.contains(x)) by {
                    assert(u[k] == x);
                }
                assert(t.contains(x));
                let m = choose|m: int| 0 <= m < t.len() && t[m] == x;
                assert(s[m] == x);
            } else {
                assert(s[s.len() - 1] == x);
            }
        }
        assert forall|x: Seq<char>| s.contains(x) implies #[trigger] r.contains(x) by {
            let m = choose|m: int| 0 <= m < s.len() && s[m] == x;
            if m < t.len() || s[s.len() - 2] == s.last() {
                let q = if m < t.len() {
                    m
                } else {
                    s.len() - 2
                };
                assert(t[q] == x);
                assert(t.contains(x));
                assert(u.contains(x));
                let k = choose|k: int| 0 <= k < u.len() && u[k] == x;
                assert(r[k] == x);
            } else {
                assert(r[r.len() - 1] == x);
            }
        }
        if s[s.len() - 2] != s.last() {
            assert forall|i: int, j: int| 0 <= i < j < r.len() implies #[trigger] r[i]
                != #[trigger] r[j] && text_le(r[i], r[j]) by {
                if j == u.len() {
                    assert(u.contains(u[i]));
                    assert(t.contains(u[i]));
                    let m = choose|m: int| 0 <= m < t.len() && t[m] == u[i];
                    assert(text_le(s[m], s[s.len() - 2]));
                    assert(text_le(s[m], s[s.len() - 1]));
                    assert(text_le(s[s.len() - 2], s[s.len() - 1]));
                    if u[i] == s.last() {
                        lemma_text_le_antisymmetric(s[s.len() - 2], s.last());
                    }
                } else {
                    assert(u[i] != u[j]);
                }
            }
        }
    }
}

/// Sorted texts without repeats are the texts, each once, every one before the next.
pub proof fn law_sorted_without_repeats(s: Seq<Seq<char>>, t: Seq<char>, i: int, j: int)
    ensures
        without_repeats(sort_texts(s)).contains(t) <==> s.contains(t),
        0 <= i < j < without_repeats(sort_texts(s)).len() ==> without_repeats(sort_texts(s))[i]
            != without_repeats(sort_texts(s))[j] && text_le(
            without_repeats(sort_texts(s))[i],
            without_repeats(sort_texts(s))[j],
        ),
{
    broadcast use vstd::seq_lib::group_to_multiset_ensures;

    let pairs = Seq::new(s.len(), |k: int| (s[k], 0u64));
    let sorted = sort_pairs(pairs);
    let texts = sort_texts(s);
    law_sort_orders_and_keeps(pairs);
    assert forall|a: int, b: int| 0 <= a <= b < texts.len() implies text_le(
        #[trigger] texts[a],
        #[trigger] texts[b],
    ) by {
        assert(pair_le(sorted[a], sorted[b]));
        lemma_text_le_total(texts[a], texts[a]);
    }
    lemma_repeats_dropped(texts);
    assert(texts.contains(t) <==> s.contains(t)) by {
        if texts.contains(t) {
            let k = choose|k: int| 0 <= k < texts.len() && texts[k] == t;
            assert(sorted.to_multiset().count(sorted[k]) > 0);
            assert(pairs.contains(sorted[k]));
            let m = choose|m: int| 0 <= m < pairs.len() && pairs[m] == sorted[k];
            assert(s[m] == t);
        }
        if s.contains(t) {
            let m = choose|m: int| 0 <= m < s.len() && s[m] == t;
            assert(pairs[m] == (t, 0u64));
            assert(pairs.to_multiset().count((t, 0u64)) > 0);
            assert(sorted.contains((t, 0u64)));
            let k = choose|k: int| 0 <= k < sorted.len() && sorted[k] == (t, 0u64);
            assert(texts[k] == t);
        }
    }
}

/// Each text of `names` with its place.
pub open spec fn with_places(names: Seq<Seq<char>>) -> Seq<(Seq<char>, u64)> {
    Seq::new(names.len(), |i: int| (names[i], i as u64))
}

/// The places of `names` in the order of the names; equal names stay in the order they were in.
pub open spec fn name_order(names: Seq<Seq<char>>) -> Seq<int> {
    let sorted = sort_pairs(with_places(names));
    Seq::new(names.len(), |k: int| sorted[k].1 as int)
}

/// A pair of the sorted list is one of the list.
proof fn lemma_sorted_member(s: Seq<(Seq<char>, u64)>, k: int)
    requires
        0 <= k < s.len(),
    ensures
        sort_pairs(s).len() == s.len(),
        s.contains(sort_pairs(s)[k]),
{
    broadcast use vstd::seq_lib::group_to_multiset_ensures;

    law_sort_orders_and_keeps(s);
    let x = sort_pairs(s)[k];
    assert(sort_pairs(s).contains(x));
    assert(sort_pairs(s).to_multiset().count(x) > 0);
}

/// Every place comes up in the order of the names.
pub proof fn lemma_every_place_is_used(names: Seq<Seq<char>>, i: int)
    requires
        names.len() <= u64::MAX,
        0 <= i < names.len(),
    ensures
        exists|k: int| 0 <= k < names.len() && #[trigger] name_order(names)[k] == i,
{
    broadcast use vstd::seq_lib::group_to_multiset_ensures;

    let all = with_places(names);
    law_sort_orders_and_keeps(all);
    let x = all[i];
    assert(all.contains(x));
    assert(all.to_multiset().count(x) > 0);
    assert(sort_pairs(all).contains(x));
    let k = choose|k: int| 0 <= k < sort_pairs(all).len() && sort_pairs(all)[k] == x;
    assert(name_order(names)[k] == i);
}

/// The places of `names` in the order of the names.
pub fn order_by_name(names: &Vec<String>) -> (r: Vec<usize>)
    ensures
        r@.len() == names@.len(),
        forall|k: int|
            0 <= k < r@.len() ==> #[trigger] r@[k] < names@.len() && r@[k] == name_order(
                text::views(names@),
            )[k],
{
    let mut pairs: Vec<(String, u64)> = Vec::new();
    for i in 0..names.len()
        invariant
            pairs@.len() == i,
            forall|j: int|
                0 <= j < i ==> (#[trigger] pairs@[j]).0@ == names@[j]@ && pairs@[j].1 == j,
    {
        pairs.push((names[i].clone(), i as u64));
    }
    let ghost all = with_places(text::views(names@));
    assert(pair_views(pairs@) =~= all);
    let sorted = sorted_pairs(pairs);
    proof {
        law_sort_orders_and_keeps(all);
        assert(sorted@.len() == pair_views(sorted@).len());
    }
    let mut out: Vec<usize> = Vec::new();
    for k in 0..sorted.len()
        invariant
            all == with_places(text::views(names@)),
            pair_views(sorted@) == sort_pairs(all),
            sorted@.len() == names@.len(),
            out@.len() == k,
            forall|j: int|
                0 <= j < k ==> #[trigger] out@[j] < names@.len() && out@[j] == name_order(
                    text::views(names@),
                )[j],
    {
        proof {
            lemma_sorted_member(all, k as int);
            let x = sort_pairs(all)[k as int];
            let i = choose|i: int| 0 <= i < all.len() && all[i] == x;
            assert(pair_views(sorted@)[k as int].1 == sorted@[k as int].1);
            assert(x.1 == i as u64);
            assert(names@.len() <= usize::MAX) by {
                let n: usize = names.len();
            }
        }
        out.push(sorted[k].1 as usize);
    }
    out
}

/// Ordering by name puts the names in order, uses every place once, and leaves equal names in the
/// order they were in.
pub proof fn law_name_order_is_stable(names: Seq<Seq<char>>, j: int, k: int)
    requires
        names.len() <= u64::MAX,
        0 <= j < k < names.len(),
    ensures
        ({
            let p = name_order(names);
            &&& 0 <= p[j] < names.len()
            &&& 0 <= p[k] < names.len()
            &&& p[j] != p[k]
            &&& text_le(names[p[j]], names[p[k]])
            &&& names[p[j]] == names[p[k]] ==> p[j] < p[k]
        }),
{
    let all = with_places(names);
    let sorted = sort_pairs(all);
    law_sort_orders_and_keeps(all);
    lemma_sorted_member(all, j);
    lemma_sorted_member(all, k);
    let a = choose|i: int| 0 <= i < all.len() && all[i] == sorted[j];
    let b = choose|i: int| 0 <= i < all.len() && all[i] == sorted[k];
    assert(pair_le(sorted[j], sorted[k]));
    lemma_text_le_total(names[a], names[a]);
    lemma_places_distinct(names);
    assert(all.no_duplicates());
    lemma_sorted_distinct(all);
    if a == b {
        assert(sorted[j] == sorted[k]);
    }
}

proof fn lemma_places_distinct(names: Seq<Seq<char>>)
    requires
        names.len() <= u64::MAX,
    ensures
        with_places(names).no_duplicates(),
{
    let all = with_places(names);
    assert forall|i: int, j: int| 0 <= i < all.len() && 0 <= j < all.len() && i != j implies all[i]
        != all[j] by {
        assert(all[i].1 == i as u64);
        assert(all[j].1 == j as u64);
    }
}

proof fn lemma_sorted_distinct(s: Seq<(Seq<char>, u64)>)
    requires
        s.no_duplicates(),
    ensures
        sort_pairs(s).no_duplicates(),
{
    law_sort_orders_and_keeps(s);
    s.lemma_multiset_has_no_duplicates();
    assert forall|x: (Seq<char>, u64)| sort_pairs(s).to_multiset().contains(x) implies sort_pairs(
        s,
    ).to_multiset().count(x) == 1 by {
        assert(s.to_multiset().contains(x));
    }
    sort_pairs(s).lemma_multiset_has_no_duplicates_conv();
}

} // verus!
