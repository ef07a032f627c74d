//! Lists that are searched, and shown page by page.

use vstd::prelude::*;

use crate::numbers::decimal;
use crate::numbers::decimal_usize;
use crate::order::reversed;
use crate::order::take_first;
use crate::pieces::is_word;
use crate::pieces::joined;
use crate::pieces::law_words_are_read;
use crate::pieces::words;
use crate::text::contains;
use crate::text::has_text;
use crate::text::texts;

verus! {

/// A search finds what one of these texts tells of; an empty search finds everything.
pub open spec fn text_found(list: Seq<Seq<char>>, query: Seq<char>) -> bool {
    query.len() == 0 || exists|i: int| 0 <= i < list.len() && has_text(#[trigger] list[i], query)
}

/// Whether a search finds what one of these texts tells of. The search and the texts are taken
/// as they are.
pub fn found_in(list: &Vec<String>, query: &str) -> (r: bool)
    ensures
        r == text_found(texts(list@), query@),
{
    if query.is_empty() {
        return true;
    }
    let ghost all = texts(list@);
    let mut i: usize = 0;
    while i < list.len()
        invariant
            i <= list@.len(),
            all == texts(list@),
            forall|k: int| 0 <= k < i ==> !has_text(#[trigger] all[k], query@),
        decreases list@.len() - i,
    {
        assert(all[i as int] == list@[i as int]@);
        if contains(&list[i], query) {
            return true;
        }
        i = i + 1;
    }
    false
}

/// The values of a list that `f` keeps, in order; `f` decides `p`.
pub(crate) fn keep<T, F: Fn(&T) -> bool>(v: Vec<T>, f: F, Ghost(p): Ghost<spec_fn(T) -> bool>) -> (r:
    Vec<T>)
    requires
        forall|x: &T| call_requires(f, (x,)),
        forall|x: &T, q: bool| #[trigger] call_ensures(f, (x,), q) ==> q == p(*x),
    ensures
        r@ == v@.filter(p),
{
    let ghost all = v@;
    let mut rest: Vec<T> = reversed(v);
    let mut r: Vec<T> = Vec::new();
    let ghost mut taken: int = 0;
    proof {
        assert(all.skip(0) =~= all);
        reveal(Seq::filter);
        assert(all.take(0).filter(p) =~= Seq::<T>::empty());
    }
    while rest.len() > 0
        invariant
            forall|x: &T| call_requires(f, (x,)),
            forall|x: &T, q: bool| #[trigger] call_ensures(f, (x,), q) ==> q == p(*x),
            0 <= taken <= all.len(),
            rest@ == all.skip(taken).reverse(),
            r@ == all.take(taken).filter(p),
        decreases rest@.len(),
    {
        let x: T = take_first(&mut rest, Ghost(all), Ghost(taken));
        proof {
            reveal(Seq::filter);
            assert(x == all[taken]);
            assert(all.take(taken + 1).drop_last() =~= all.take(taken));
            assert(all.take(taken + 1).last() == x);
            taken = taken + 1;
        }
        if f(&x) {
            r.push(x);
        }
    }
    assert(all.take(all.len() as int) =~= all);
    r
}

/// A list of which something is kept holds a value to keep.
pub proof fn lemma_kept_some<T>(s: Seq<T>, p: spec_fn(T) -> bool) -> (k: int)
    requires
        s.filter(p).len() > 0,
    ensures
        0 <= k < s.len(),
        p(s[k]),
    decreases s.len(),
{
    reveal(Seq::filter);
    if p(s.last()) {
        s.len() - 1
    } else {
        lemma_kept_some(s.drop_last(), p)
    }
}

/// The values that stand on a page when `size` of them fit on each.
pub open spec fn page_of<T>(s: Seq<T>, page: nat, size: nat) -> Seq<T> {
    let start = page * size;
    if start >= s.len() {
        Seq::empty()
    } else if start + size <= s.len() {
        s.subrange(start as int, (start + size) as int)
    } else {
        s.subrange(start as int, s.len() as int)
    }
}

pub fn take_page<T>(list: Vec<T>, page: usize, size: usize) -> (r: Vec<T>)
    requires
        size > 0,
    ensures
        r@ == page_of(list@, page as nat, size as nat),
{
    let n: usize = list.len();
    let start: usize = match page.checked_mul(size) {
        Some(start) => start,
        None => {
            assert((page as nat) * (size as nat) > usize::MAX >= n);
            return Vec::new();
        },
    };
    if start >= n {
        return Vec::new();
    }
    let ghost all = list@;
    let mut list: Vec<T> = list;
    let mut tail: Vec<T> = list.split_off(start);
    if tail.len() > size {
        tail.truncate(size);
    }
    assert(tail@ =~= page_of(all, page as nat, size as nat));
    tail
}

/// How many pages a list takes; an empty one is still shown on one.
pub open spec fn pages(len: nat, size: nat) -> nat {
    if len == 0 {
        1
    } else {
        (len + size - 1) as nat / size
    }
}

pub fn total_pages(len: usize, size: usize) -> (r: usize)
    requires
        size > 0,
    ensures
        r == pages(len as nat, size as nat),
        r > 0,
{
    if len == 0 {
        1
    } else {
        proof {
            lemma_pages(len as nat, size as nat);
        }
        (len - 1) / size + 1
    }
}

proof fn lemma_pages(len: nat, size: nat)
    requires
        len > 0,
        size > 0,
    ensures
        pages(len, size) == (len - 1) as nat / size + 1,
        (len - 1) as nat / size <= len - 1,
{
    let a = (len - 1) as int;
    let s = size as int;
    assert((a + s) / s == a / s + 1) by (nonlinear_arith)
        requires
            s > 0,
            a >= 0,
    ;
    assert(a / s <= a) by (nonlinear_arith)
        requires
            s > 0,
            a >= 0,
    ;
    assert(len + size - 1 == a + s);
}

/// There is a page behind this one.
pub open spec fn has_next(page: nat, len: nat, size: nat) -> bool {
    page + 1 < pages(len, size)
}

/// A page has one behind it exactly if the pages up to it do not hold the whole list.
pub proof fn law_next_page_holds_something(page: nat, len: nat, size: nat)
    requires
        size > 0,
    ensures
        has_next(page, len, size) <==> (page + 1) * size < len,
{
    if len > 0 {
        lemma_pages(len, size);
        let a = (len - 1) as int;
        let s = size as int;
        let p = (page + 1) as int;
        assert(p <= a / s <==> p * s <= a) by (nonlinear_arith)
            requires
                s > 0,
                a >= 0,
                p >= 0,
        ;
    } else {
        assert((page + 1) * size >= 0) by (nonlinear_arith);
    }
}

pub fn can_go_next(page: usize, len: usize, size: usize) -> (r: bool)
    requires
        size > 0,
    ensures
        r == has_next(page as nat, len as nat, size as nat),
        r ==> page < usize::MAX,
{
    page < total_pages(len, size) - 1
}

pub fn can_go_prev(page: usize) -> (r: bool)
    ensures
        r == (page > 0),
{
    page > 0
}

/// What the foot of a list says of the page.
pub open spec fn page_label(page: nat, len: nat, size: nat) -> Seq<char> {
    "Page "@ + decimal(page + 1) + " of "@ + decimal(pages(len, size))
}

pub fn page_label_text(page: usize, len: usize, size: usize) -> (r: String)
    requires
        size > 0,
        page < usize::MAX,
    ensures
        r@ == page_label(page as nat, len as nat, size as nat),
{
    let mut r: String = "Page ".to_string();
    r.append(&decimal_usize(page + 1));
    r.append(" of ");
    r.append(&decimal_usize(total_pages(len, size)));
    r
}

/// Each value of a list stands on exactly one page, and the pages keep the order of the list.
pub proof fn law_pages_hold_the_list<T>(s: Seq<T>, i: int, size: nat)
    requires
        0 <= i < s.len(),
        size > 0,
    ensures
        i as nat / size < pages(s.len(), size),
        i as nat % size < page_of(s, i as nat / size, size).len(),
        page_of(s, i as nat / size, size)[(i as nat % size) as int] == s[i],
        forall|page: nat, k: int|
            0 <= k < page_of(s, page, size).len() ==> #[trigger] page_of(s, page, size)[k]
                == s[page * size + k],
        forall|page: nat| #[trigger] page_of(s, page, size).len() <= size,
        forall|page: nat|
            page >= pages(s.len(), size) ==> #[trigger] page_of(s, page, size).len() == 0,
{
    let q = i as nat / size;
    let rest = i as nat % size;
    lemma_pages(s.len(), size);
    assert(i == q * size + rest) by (nonlinear_arith)
        requires
            q == i as nat / size,
            rest == i as nat % size,
            0 < size,
            0 <= i,
    ;
    assert(rest < size);
    assert(q <= (s.len() - 1) as nat / size) by (nonlinear_arith)
        requires
            q == i as nat / size,
            0 <= i <= s.len() - 1,
            0 < size,
    ;
    assert(page_of(s, q, size)[rest as int] == s[i]);
    assert forall|page: nat| page >= pages(s.len(), size) implies #[trigger] page_of(
        s,
        page,
        size,
    ).len() == 0 by {
        let a = (s.len() - 1) as int;
        let z = size as int;
        let p = page as int;
        assert(p * z > a) by (nonlinear_arith)
            requires
                p >= a / z + 1,
                z > 0,
                a >= 0,
        ;
    }
    assert forall|page: nat| #[trigger] page_of(s, page, size).len() <= size by {
        assert(page * size >= 0) by (nonlinear_arith);
    }
    assert forall|page: nat, k: int| 0 <= k < page_of(s, page, size).len() implies #[trigger] page_of(
        s,
        page,
        size,
    )[k] == s[page * size + k] by {
        assert(page * size >= 0) by (nonlinear_arith);
    }
}

/// What is kept of a list is what is in it and is to be kept.
pub proof fn lemma_kept_exactly<T>(s: Seq<T>, p: spec_fn(T) -> bool, x: T)
    ensures
        s.filter(p).contains(x) <==> s.contains(x) && p(x),
    decreases s.len(),
{
    reveal(Seq::filter);
    if s.len() > 0 {
        let front = s.drop_last();
        let kept = front.filter(p);
        lemma_kept_exactly(front, p, x);
        if s.contains(x) {
            let i = choose|i: int| 0 <= i < s.len() && s[i] == x;
            if i < front.len() {
                assert(front[i] == x);
            }
        }
        if front.contains(x) {
            let i = choose|i: int| 0 <= i < front.len() && front[i] == x;
            assert(s[i] == x);
        }
        if p(s.last()) {
            let all = kept.push(s.last());
            if kept.contains(x) {
                let i = choose|i: int| 0 <= i < kept.len() && kept[i] == x;
                assert(all[i] == x);
            }
            if all.contains(x) {
                let i = choose|i: int| 0 <= i < all.len() && all[i] == x;
                if i < kept.len() {
                    assert(kept[i] == x);
                } else {
                    assert(s[s.len() - 1] == x);
                }
            }
            if s.last() == x {
                assert(all[kept.len() as int] == x);
            }
        }
    }
}

/// A list takes as many pages as hold it, and no more; an empty one takes one.
pub proof fn law_no_page_is_wasted(len: nat, size: nat)
    requires
        size > 0,
    ensures
        len == 0 ==> pages(len, size) == 1,
        len > 0 ==> (pages(len, size) - 1) * size < len <= pages(len, size) * size,
{
    if len > 0 {
        lemma_pages(len, size);
        let a = (len - 1) as int;
        let s = size as int;
        let p = pages(len, size) as int;
        assert((p - 1) * s <= a < p * s) by (nonlinear_arith)
            requires
                s > 0,
                a >= 0,
                p == a / s + 1,
        ;
    }
}

/// The foot of a list counts pages from one, and says how many there are.
pub proof fn law_the_foot_tells_the_page(page: nat, len: nat, size: nat)
    ensures
        words(page_label(page, len, size)) == seq![
            "Page"@,
            decimal(page + 1),
            "of"@,
            decimal(pages(len, size)),
        ],
{
    reveal_strlit("Page");
    reveal_strlit("of");
    reveal_strlit("Page ");
    reveal_strlit(" of ");
    let a = decimal(page + 1);
    let b = decimal(pages(len, size));
    let p = seq!["Page"@, a, "of"@, b];
    lemma_number_is_word(page + 1);
    lemma_number_is_word(pages(len, size));
    assert(is_word("Page"@) && is_word("of"@));
    assert forall|i: int| 0 <= i < p.len() implies is_word(#[trigger] p[i]) by {
        assert(p[0] == "Page"@ && p[1] == a && p[2] == "of"@ && p[3] == b);
    }
    law_words_are_read(p);
    let sep = seq![' '];
    let p3 = p.drop_last();
    let p2 = p3.drop_last();
    let p1 = p2.drop_last();
    assert(joined(p1, sep) == "Page"@);
    assert(joined(p2, sep) =~= "Page "@ + a);
    assert(joined(p3, sep) =~= "Page "@ + a + " of"@) by {
        reveal_strlit(" of");
    }
    assert(joined(p, sep) =~= page_label(page, len, size)) by {
        reveal_strlit(" of");
    }
}

proof fn lemma_number_is_word(n: nat)
    ensures
        is_word(decimal(n)),
{
    crate::numbers::lemma_decimal_digits(n);
    assert forall|i: int| 0 <= i < decimal(n).len() implies !crate::text::is_space(
        #[trigger] decimal(n)[i],
    ) by {
        assert(crate::numbers::is_digit(decimal(n)[i]));
    }
}

} // verus!
