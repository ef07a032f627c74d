//! The order of texts, and stable sorting.

use vstd::prelude::*;

use crate::text::chars_of;

verus! {

/// `a` stands before `b` in the order of texts, or equals it. The first characters that
/// differ decide, by their code points; a text stands before those that it begins.
pub open spec fn text_le(a: Seq<char>, b: Seq<char>) -> bool
    decreases a.len(),
{
    if a.len() == 0 {
        true
    } else if b.len() == 0 {
        false
    } else if a[0] != b[0] {
        a[0] < b[0]
    } else {
        text_le(a.skip(1), b.skip(1))
    }
}

pub fn text_at_most(a: &str, b: &str) -> (r: bool)
    ensures
        r == text_le(a@, b@),
{
    let v: Vec<char> = chars_of(a);
    let w: Vec<char> = chars_of(b);
    let mut i: usize = 0;
    assert(v@.skip(0) =~= v@);
    assert(w@.skip(0) =~= w@);
    while i < v.len() && i < w.len()
        invariant
            v@ == a@,
            w@ == b@,
            i <= v@.len(),
            i <= w@.len(),
            text_le(a@, b@) == text_le(v@.skip(i as int), w@.skip(i as int)),
        decreases v@.len() - i,
    {
        assert(v@.skip(i as int)[0] == v@[i as int]);
        assert(w@.skip(i as int)[0] == w@[i as int]);
        let x: char = v[i];
        let y: char = w[i];
        if x != y {
            return x < y;
        }
        assert(v@.skip(i as int).skip(1) =~= v@.skip(i + 1));
        assert(w@.skip(i as int).skip(1) =~= w@.skip(i + 1));
        i = i + 1;
    }
    i == v.len()
}

pub proof fn law_text_order_is_total(a: Seq<char>, b: Seq<char>)
    ensures
        text_le(a, a),
        text_le(a, b) || text_le(b, a),
        text_le(a, b) && text_le(b, a) ==> a == b,
    decreases a.len(),
{
    if a.len() > 0 {
        if b.len() > 0 {
            law_text_order_is_total(a.skip(1), b.skip(1));
            if a[0] == b[0] && text_le(a.skip(1), b.skip(1)) && text_le(b.skip(1), a.skip(1)) {
                assert(a =~= seq![a[0]] + a.skip(1));
                assert(b =~= seq![b[0]] + b.skip(1));
            }
        } else {
            law_text_order_is_total(a.skip(1), b);
        }
    } else if b.len() == 0 {
        assert(a =~= b);
    }
}

pub proof fn law_text_order_is_transitive(a: Seq<char>, b: Seq<char>, c: Seq<char>)
    requires
        text_le(a, b),
        text_le(b, c),
    ensures
        text_le(a, c),
    decreases a.len(),
{
    if a.len() > 0 && b.len() > 0 && c.len() > 0 && a[0] == b[0] && b[0] == c[0] {
        law_text_order_is_transitive(a.skip(1), b.skip(1), c.skip(1));
    }
}

/// `le` puts any two values into an order, with ties allowed.
pub open spec fn total_order<T>(le: spec_fn(T, T) -> bool) -> bool {
    &&& forall|a: T, b: T| #[trigger] le(a, b) || le(b, a)
    &&& forall|a: T, b: T, c: T| #[trigger] le(a, b) && #[trigger] le(b, c) ==> le(a, c)
}

pub open spec fn sorted_by<T>(s: Seq<T>, le: spec_fn(T, T) -> bool) -> bool {
    forall|i: int, j: int| 0 <= i <= j < s.len() ==> le(#[trigger] s[i], #[trigger] s[j])
}

/// The values of `s` that tie with `x`, in order.
pub open spec fn ties<T>(s: Seq<T>, x: T, le: spec_fn(T, T) -> bool) -> Seq<T> {
    s.filter(|y: T| le(x, y) && le(y, x))
}

/// `r` holds the values of `s`, sorted, and values that tie keep their order.
pub open spec fn stably_sorted<T>(r: Seq<T>, s: Seq<T>, le: spec_fn(T, T) -> bool) -> bool {
    &&& r.to_multiset() == s.to_multiset()
    &&& sorted_by(r, le)
    &&& forall|x: T| #[trigger] ties(r, x, le) == ties(s, x, le)
}

proof fn lemma_insert_keeps_ties<T>(r: Seq<T>, pos: int, v: T, le: spec_fn(T, T) -> bool, x: T)
    requires
        total_order(le),
        0 <= pos <= r.len(),
        forall|j: int| pos <= j < r.len() ==> !le(#[trigger] r[j], v),
    ensures
        ties(r.insert(pos, v), x, le) == ties(r.push(v), x, le),
{
    let f = |y: T| le(x, y) && le(y, x);
    let head = r.subrange(0, pos);
    let tail = r.subrange(pos, r.len() as int);
    assert(head + tail =~= r);
    assert(r.insert(pos, v) =~= head.push(v) + tail);
    assert(head.push(v) =~= head + seq![v]);
    assert(r.push(v) =~= (head + tail) + seq![v]);
    Seq::filter_distributes_over_add(head + seq![v], tail, f);
    Seq::filter_distributes_over_add(head, seq![v], f);
    Seq::filter_distributes_over_add(head + tail, seq![v], f);
    Seq::filter_distributes_over_add(head, tail, f);
    if f(v) {
        assert forall|j: int| 0 <= j < tail.len() implies !f(#[trigger] tail[j]) by {
            assert(tail[j] == r[pos + j]);
            if f(tail[j]) {
                assert(le(tail[j], x) && le(x, v));
            }
        }
        lemma_filter_none(tail, f);
        assert(ties(r.insert(pos, v), x, le) =~= ties(r.push(v), x, le));
    } else {
        assert(seq![v].filter(f) =~= Seq::<T>::empty()) by {
            lemma_filter_none(seq![v], f);
        }
        assert(ties(r.insert(pos, v), x, le) =~= ties(r.push(v), x, le));
    }
}

proof fn lemma_filter_none<T>(s: Seq<T>, f: spec_fn(T) -> bool)
    requires
        forall|j: int| 0 <= j < s.len() ==> !f(#[trigger] s[j]),
    ensures
        s.filter(f) == Seq::<T>::empty(),
    decreases s.len(),
{
    reveal(Seq::filter);
    if s.len() > 0 {
        lemma_filter_none(s.drop_last(), f);
    }
}

proof fn lemma_push_keeps_ties<T>(r: Seq<T>, s: Seq<T>, v: T, le: spec_fn(T, T) -> bool, x: T)
    requires
        ties(r, x, le) == ties(s, x, le),
    ensures
        ties(r.push(v), x, le) == ties(s.push(v), x, le),
{
    reveal(Seq::filter);
    assert(r.push(v).drop_last() =~= r);
    assert(s.push(v).drop_last() =~= s);
}

proof fn lemma_ties_split<T>(s: Seq<T>, x: T, le: spec_fn(T, T) -> bool)
    requires
        s.len() > 0,
    ensures
        ties(s, x, le) == (if le(x, s[0]) && le(s[0], x) {
            seq![s[0]]
        } else {
            Seq::empty()
        }) + ties(s.skip(1), x, le),
{
    let f = |y: T| le(x, y) && le(y, x);
    assert(s =~= seq![s[0]] + s.skip(1));
    Seq::filter_distributes_over_add(seq![s[0]], s.skip(1), f);
    reveal_with_fuel(Seq::filter, 2);
    assert(seq![s[0]].drop_last() =~= Seq::<T>::empty());
    assert(seq![s[0]].last() == s[0]);
    assert(seq![s[0]].filter(f) =~= if f(s[0]) {
        seq![s[0]]
    } else {
        Seq::empty()
    });
}

proof fn lemma_tie_in<T>(s: Seq<T>, x: T, le: spec_fn(T, T) -> bool) -> (k: int)
    requires
        ties(s, x, le).len() > 0,
    ensures
        0 <= k < s.len(),
        le(x, s[k]),
        le(s[k], x),
    decreases s.len(),
{
    reveal(Seq::filter);
    if le(x, s.last()) && le(s.last(), x) {
        s.len() - 1
    } else {
        lemma_tie_in(s.drop_last(), x, le)
    }
}

proof fn lemma_same_ties<T>(a: Seq<T>, b: Seq<T>, le: spec_fn(T, T) -> bool)
    requires
        total_order(le),
        sorted_by(a, le),
        sorted_by(b, le),
        forall|x: T| #[trigger] ties(a, x, le) == ties(b, x, le),
    ensures
        a == b,
    decreases a.len(),
{
    reveal(Seq::filter);
    if a.len() == 0 {
        if b.len() > 0 {
            assert(le(b[0], b[0]));
            lemma_ties_split(b, b[0], le);
            assert(ties(a, b[0], le).len() == 0);
        }
        assert(a =~= b);
    } else {
        let x = a[0];
        assert(le(x, x));
        lemma_ties_split(a, x, le);
        assert(ties(a, x, le) == ties(b, x, le));
        let k = lemma_tie_in(b, x, le);
        let y = b[0];
        assert(le(y, y));
        lemma_ties_split(b, y, le);
        assert(ties(a, y, le) == ties(b, y, le));
        let j = lemma_tie_in(a, y, le);
        assert(le(b[0], b[k]));
        assert(le(a[0], a[j]));
        assert(le(x, y) && le(y, x));
        lemma_ties_split(b, x, le);
        assert(ties(a, x, le)[0] == x);
        assert(ties(b, x, le)[0] == y);
        let s = a.skip(1);
        let t = b.skip(1);
        assert forall|z: T| #[trigger] ties(s, z, le) == ties(t, z, le) by {
            assert(ties(a, z, le) == ties(b, z, le));
            lemma_ties_split(a, z, le);
            lemma_ties_split(b, z, le);
            let head = if le(z, x) && le(x, z) {
                seq![x]
            } else {
                Seq::<T>::empty()
            };
            assert(ties(a, z, le).skip(head.len() as int) =~= ties(s, z, le));
            assert(ties(b, z, le).skip(head.len() as int) =~= ties(t, z, le));
        }
        assert forall|i: int, j: int| 0 <= i <= j < s.len() implies le(
            #[trigger] s[i],
            #[trigger] s[j],
        ) by {
            assert(le(a[i + 1], a[j + 1]));
        }
        assert forall|i: int, j: int| 0 <= i <= j < t.len() implies le(
            #[trigger] t[i],
            #[trigger] t[j],
        ) by {
            assert(le(b[i + 1], b[j + 1]));
        }
        lemma_same_ties(s, t, le);
        assert(a =~= seq![x] + s);
        assert(b =~= seq![y] + t);
    }
}

/// A list is stably sorted in one way only.
pub proof fn law_stable_order_is_unique<T>(
    a: Seq<T>,
    b: Seq<T>,
    s: Seq<T>,
    le: spec_fn(T, T) -> bool,
)
    requires
        total_order(le),
        stably_sorted(a, s, le),
        stably_sorted(b, s, le),
    ensures
        a == b,
{
    assert forall|x: T| #[trigger] ties(a, x, le) == ties(b, x, le) by {
        assert(ties(b, x, le) == ties(s, x, le));
    }
    lemma_same_ties(a, b, le);
}

/// A list from its end to its start.
pub(crate) fn reversed<T>(v: Vec<T>) -> (r: Vec<T>)
    ensures
        r@ == v@.reverse(),
{
    let ghost all = v@;
    let mut rest: Vec<T> = v;
    let mut r: Vec<T> = Vec::new();
    while rest.len() > 0
        invariant
            rest@.len() + r@.len() == all.len(),
            rest@ == all.take(rest@.len() as int),
            forall|i: int| 0 <= i < r@.len() ==> #[trigger] r@[i] == all[all.len() - 1 - i],
        decreases rest@.len(),
    {
        let x: T = rest.pop().unwrap();
        r.push(x);
    }
    assert(r@ =~= all.reverse());
    r
}

/// Takes the value behind the first `taken` ones of `all` from what is left of it, which is kept
/// reversed.
pub(crate) fn take_first<T>(rest: &mut Vec<T>, Ghost(all): Ghost<Seq<T>>, Ghost(taken): Ghost<int>) -> (x:
    T)
    requires
        0 <= taken < all.len(),
        old(rest)@ == all.skip(taken).reverse(),
    ensures
        x == all[taken],
        final(rest)@ == all.skip(taken + 1).reverse(),
{
    let x: T = rest.pop().unwrap();
    assert(rest@ =~= all.skip(taken + 1).reverse());
    x
}

/// The values of `v`, sorted by `at_most`, which decides the order `le`; values that tie keep
/// their order.
pub(crate) fn stable_sort<T, F: Fn(&T, &T) -> bool>(
    v: Vec<T>,
    at_most: F,
    Ghost(le): Ghost<spec_fn(T, T) -> bool>,
) -> (r: Vec<T>)
    requires
        total_order(le),
        forall|a: &T, b: &T| call_requires(at_most, (a, b)),
        forall|a: &T, b: &T, q: bool| #[trigger]
            call_ensures(at_most, (a, b), q) ==> q == le(*a, *b),
    ensures
        stably_sorted(r@, v@, le),
{
    let ghost input = v@;
    let mut rest: Vec<T> = reversed(v);
    let mut done: Vec<T> = Vec::new();
    let ghost mut taken: int = 0;
    assert(input.take(0) =~= Seq::<T>::empty());
    assert(input.skip(0) =~= input);
    while rest.len() > 0
        invariant
            total_order(le),
            forall|a: &T, b: &T| call_requires(at_most, (a, b)),
            forall|a: &T, b: &T, q: bool| #[trigger]
                call_ensures(at_most, (a, b), q) ==> q == le(*a, *b),
            0 <= taken <= input.len(),
            rest@ == input.skip(taken).reverse(),
            stably_sorted(done@, input.take(taken), le),
        decreases rest@.len(),
    {
        let x: T = take_first(&mut rest, Ghost(input), Ghost(taken));
        assert(x == input[taken]);
        let mut pos: usize = done.len();
        while pos > 0 && !at_most(&done[pos - 1], &x)
            invariant
                total_order(le),
                forall|a: &T, b: &T| call_requires(at_most, (a, b)),
                forall|a: &T, b: &T, q: bool| #[trigger]
                    call_ensures(at_most, (a, b), q) ==> q == le(*a, *b),
                pos <= done@.len(),
                forall|j: int| pos <= j < done@.len() ==> !le(#[trigger] done@[j], x),
            decreases pos,
        {
            pos = pos - 1;
        }
        let ghost before = done@;
        let ghost prefix = input.take(taken);
        done.insert(pos, x);
        proof {
            before.insert_ensures(pos as int, x);
            assert(done@ == before.insert(pos as int, x));
            assert(input.take(taken + 1) =~= prefix.push(x));
            vstd::seq_lib::to_multiset_insert(before, pos as int, x);
            vstd::seq_lib::to_multiset_build(prefix, x);
            assert forall|i: int, j: int| 0 <= i <= j < done@.len() implies le(
                #[trigger] done@[i],
                #[trigger] done@[j],
            ) by {
                if i < pos && j < pos {
                    assert(le(before[i], before[j]));
                } else if i < pos && j == pos {
                    assert(le(before[i], before[pos - 1]));
                } else if i < pos {
                    assert(le(before[i], before[j - 1]));
                } else if i == pos && j == pos {
                    assert(le(x, x));
                } else if i == pos {
                    assert(!le(before[j - 1], x));
                    assert(le(x, before[j - 1]));
                } else {
                    assert(le(before[i - 1], before[j - 1]));
                }
            }
            assert forall|y: T| #[trigger] ties(done@, y, le) == ties(
                input.take(taken + 1),
                y,
                le,
            ) by {
                assert(ties(before, y, le) == ties(prefix, y, le));
                lemma_insert_keeps_ties(before, pos as int, x, le, y);
                lemma_push_keeps_ties(before, prefix, x, le, y);
            }
            taken = taken + 1;
        }
    }
    assert(input.take(input.len() as int) =~= input);
    done
}

} // verus!
