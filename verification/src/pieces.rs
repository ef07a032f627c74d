//! Taking text apart at separators and putting pieces together.

use vstd::prelude::*;

use crate::text::chars_of;
use crate::text::is_space;
use crate::text::occurs_at;
use crate::text::skip_chars;
use crate::text::space;
use crate::text::stands_at;
use crate::text::string_of;
use crate::text::take_chars;
use crate::text::texts;
use crate::text::lemma_texts_push;

verus! {

/// The pieces of `s` between the characters that `f` picks out, first to last. There is
/// one piece more than there are such characters.
pub open spec fn split_where(s: Seq<char>, f: spec_fn(char) -> bool) -> Seq<Seq<char>>
    decreases s.len(),
{
    if s.len() == 0 {
        seq![Seq::empty()]
    } else {
        let p = split_where(s.drop_last(), f);
        if f(s.last()) {
            p.push(Seq::empty())
        } else {
            p.drop_last().push(p.last().push(s.last()))
        }
    }
}

/// The pieces of `s` between the characters `c`.
pub open spec fn split_on(s: Seq<char>, c: char) -> Seq<Seq<char>> {
    split_where(s, |x: char| x == c)
}

/// The pieces of `s` between white space characters, empty ones too.
pub open spec fn split_spaces(s: Seq<char>) -> Seq<Seq<char>> {
    split_where(s, |x: char| is_space(x))
}

/// The pieces that hold something.
pub open spec fn nonempty(p: Seq<Seq<char>>) -> Seq<Seq<char>>
    decreases p.len(),
{
    if p.len() == 0 {
        Seq::empty()
    } else if p.last().len() > 0 {
        nonempty(p.drop_last()).push(p.last())
    } else {
        nonempty(p.drop_last())
    }
}

/// The words of `s`: what stands between white space.
pub open spec fn words(s: Seq<char>) -> Seq<Seq<char>> {
    nonempty(split_spaces(s))
}

pub proof fn lemma_split_where_some(s: Seq<char>, f: spec_fn(char) -> bool)
    ensures
        split_where(s, f).len() > 0,
    decreases s.len(),
{
    if s.len() > 0 {
        lemma_split_where_some(s.drop_last(), f);
    }
}

pub proof fn lemma_split_on_some(s: Seq<char>, c: char)
    ensures
        split_on(s, c).len() > 0,
{
    lemma_split_where_some(s, |x: char| x == c);
}

pub fn split_char(s: &str, c: char) -> (r: Vec<String>)
    ensures
        texts(r@) == split_on(s@, c),
        r@.len() > 0,
{
    let v: Vec<char> = chars_of(s);
    let mut done: Vec<String> = Vec::new();
    let mut start: usize = 0;
    let mut i: usize = 0;
    assert(texts(done@) =~= Seq::<Seq<char>>::empty());
    assert(v@.take(0) =~= Seq::<char>::empty());
    assert(split_on(v@.take(0), c) =~= texts(done@).push(v@.subrange(0, 0)));
    while i < v.len()
        invariant
            start <= i <= v@.len(),
            split_on(v@.take(i as int), c) == texts(done@).push(v@.subrange(start as int, i as int)),
        decreases v@.len() - i,
    {
        let ghost before = v@.take(i as int);
        let ghost after = v@.take(i + 1);
        assert(after.drop_last() =~= before);
        if v[i] == c {
            let piece: String = string_of(&v, start, i);
            proof {
                lemma_texts_push(done@, piece);
            }
            done.push(piece);
            start = i + 1;
            assert(v@.subrange(start as int, i + 1) =~= Seq::<char>::empty());
            assert(split_on(after, c) =~= texts(done@).push(Seq::empty()));
        } else {
            assert(v@.subrange(start as int, i + 1) =~= v@.subrange(start as int, i as int).push(
                v@[i as int],
            ));
            assert(split_on(after, c) =~= texts(done@).push(v@.subrange(start as int, i + 1)));
        }
        i = i + 1;
    }
    assert(v@.take(v@.len() as int) =~= v@);
    let piece: String = string_of(&v, start, i);
    proof {
        lemma_texts_push(done@, piece);
    }
    done.push(piece);
    done
}

pub fn split_whitespace(s: &str) -> (r: Vec<String>)
    ensures
        texts(r@) == words(s@),
{
    let v: Vec<char> = chars_of(s);
    let mut done: Vec<String> = Vec::new();
    let mut start: usize = 0;
    let mut i: usize = 0;
    let ghost mut parts: Seq<Seq<char>> = Seq::empty();
    assert(texts(done@) =~= Seq::<Seq<char>>::empty());
    assert(v@.take(0) =~= Seq::<char>::empty());
    assert(split_spaces(v@.take(0)) =~= parts.push(v@.subrange(0, 0)));
    while i < v.len()
        invariant
            start <= i <= v@.len(),
            split_spaces(v@.take(i as int)) == parts.push(v@.subrange(start as int, i as int)),
            texts(done@) == nonempty(parts),
        decreases v@.len() - i,
    {
        let ghost before = v@.take(i as int);
        let ghost after = v@.take(i + 1);
        assert(after.drop_last() =~= before);
        if space(v[i]) {
            let ghost piece = v@.subrange(start as int, i as int);
            let ghost whole = parts.push(piece);
            assert(whole.drop_last() =~= parts);
            if start < i {
                let word: String = string_of(&v, start, i);
                proof {
                    lemma_texts_push(done@, word);
                }
                done.push(word);
            }
            proof {
                parts = whole;
            }
            start = i + 1;
            assert(v@.subrange(start as int, i + 1) =~= Seq::<char>::empty());
            assert(split_spaces(after) =~= parts.push(Seq::empty()));
        } else {
            assert(v@.subrange(start as int, i + 1) =~= v@.subrange(start as int, i as int).push(
                v@[i as int],
            ));
            assert(split_spaces(after) =~= parts.push(v@.subrange(start as int, i + 1)));
        }
        i = i + 1;
    }
    assert(v@.take(v@.len() as int) =~= v@);
    let ghost piece = v@.subrange(start as int, i as int);
    assert(parts.push(piece).drop_last() =~= parts);
    if start < i {
        let word: String = string_of(&v, start, i);
        proof {
            lemma_texts_push(done@, word);
        }
        done.push(word);
    }
    done
}

/// A line without the carriage return before its line feed.
pub open spec fn without_return(line: Seq<char>) -> Seq<char> {
    if line.len() > 0 && line.last() == '\r' {
        line.drop_last()
    } else {
        line
    }
}

/// The lines of `s`: each ends with a line feed, or with a carriage return and a line feed;
/// the last may end with the text.
pub open spec fn lines_of(s: Seq<char>) -> Seq<Seq<char>> {
    let p = split_on(s, '\n');
    let ended = Seq::new((p.len() - 1) as nat, |i: int| without_return(p[i]));
    if p.last().len() == 0 {
        ended
    } else {
        ended.push(p.last())
    }
}

fn strip_return(s: String) -> (r: String)
    ensures
        r@ == without_return(s@),
{
    let v: Vec<char> = chars_of(&s);
    if v.len() > 0 && v[v.len() - 1] == '\r' {
        assert(s@.drop_last() =~= s@.subrange(0, s@.len() - 1));
        string_of(&v, 0, v.len() - 1)
    } else {
        s
    }
}

pub fn lines(s: &str) -> (r: Vec<String>)
    ensures
        texts(r@) == lines_of(s@),
{
    let parts: Vec<String> = split_char(s, '\n');
    let ghost p = split_on(s@, '\n');
    let mut done: Vec<String> = Vec::new();
    let mut i: usize = 0;
    let n: usize = parts.len() - 1;
    while i < n
        invariant
            i <= n,
            n + 1 == parts@.len(),
            texts(parts@) == p,
            texts(done@) == Seq::new(i as nat, |k: int| without_return(p[k])),
        decreases n - i,
    {
        let line: String = strip_return(parts[i].clone());
        assert(line@ == without_return(p[i as int]));
        proof {
            lemma_texts_push(done@, line);
        }
        done.push(line);
        i = i + 1;
        assert(texts(done@) =~= Seq::new(i as nat, |k: int| without_return(p[k])));
    }
    assert(p.last() == parts@[n as int]@);
    if !parts[n].as_str().is_empty() {
        let line: String = parts[n].clone();
        proof {
            lemma_texts_push(done@, line);
        }
        done.push(line);
    }
    done
}

/// The first position from `from` on that holds `c`.
pub open spec fn char_from(s: Seq<char>, c: char, from: int) -> Option<int>
    decreases s.len() - from,
{
    if from < 0 || from >= s.len() {
        None
    } else if s[from] == c {
        Some(from)
    } else {
        char_from(s, c, from + 1)
    }
}

/// Where a character is found, it stands; where it is not found, it stands nowhere.
pub proof fn lemma_char_from(s: Seq<char>, c: char, from: int)
    requires
        0 <= from,
    ensures
        match char_from(s, c, from) {
            Some(i) => from <= i < s.len() && s[i] == c,
            None => forall|j: int| from <= j < s.len() ==> s[j] != c,
        },
    decreases s.len() - from,
{
    if from < s.len() && s[from] != c {
        lemma_char_from(s, c, from + 1);
    }
}

/// What stands before the first `c` and what stands after it.
pub open spec fn cut(s: Seq<char>, c: char) -> Option<(Seq<char>, Seq<char>)> {
    match char_from(s, c, 0) {
        Some(i) => Some((s.take(i), s.skip(i + 1))),
        None => None,
    }
}

/// The position, counted in characters, of the first `c` in `s`.
pub fn find_char(s: &str, c: char) -> (r: Option<usize>)
    ensures
        match char_from(s@, c, 0) {
            Some(i) => r is Some && r->0 == i && 0 <= i < s@.len(),
            None => r is None,
        },
        r is Some ==> r->0 < usize::MAX,
{
    let v: Vec<char> = chars_of(s);
    let mut i: usize = 0;
    while i < v.len()
        invariant
            v@ == s@,
            i <= v@.len(),
            char_from(s@, c, 0) == char_from(s@, c, i as int),
        decreases v@.len() - i,
    {
        if v[i] == c {
            return Some(i);
        }
        i = i + 1;
    }
    None
}

pub fn split_once(s: &str, c: char) -> (r: Option<(String, String)>)
    ensures
        match cut(s@, c) {
            Some(p) => r matches Some(q) && q.0@ == p.0 && q.1@ == p.1,
            None => r is None,
        },
{
    match find_char(s, c) {
        Some(i) => Some((take_chars(s, i), skip_chars(s, i + 1))),
        None => None,
    }
}

/// The pieces one after the other, with `sep` between them.
pub open spec fn joined(p: Seq<Seq<char>>, sep: Seq<char>) -> Seq<char>
    decreases p.len(),
{
    if p.len() == 0 {
        Seq::empty()
    } else if p.len() == 1 {
        p[0]
    } else {
        joined(p.drop_last(), sep) + sep + p.last()
    }
}

pub fn join(parts: &Vec<String>, sep: &str) -> (r: String)
    ensures
        r@ == joined(texts(parts@), sep@),
{
    let mut r = String::new();
    let mut i: usize = 0;
    let ghost p = texts(parts@);
    assert(p.take(0) =~= Seq::<Seq<char>>::empty());
    while i < parts.len()
        invariant
            i <= parts@.len(),
            p == texts(parts@),
            r@ == joined(p.take(i as int), sep@),
        decreases parts@.len() - i,
    {
        let ghost next = p.take(i + 1);
        assert(next.drop_last() =~= p.take(i as int));
        if i > 0 {
            r.append(sep);
        }
        r.append(&parts[i]);
        assert(i == 0 ==> r@ =~= joined(next, sep@));
        i = i + 1;
    }
    assert(p.take(p.len() as int) =~= p);
    r
}

/// `s` with every `from` replaced by `to`, taken from the left.
pub open spec fn replaced(s: Seq<char>, from: Seq<char>, to: Seq<char>) -> Seq<char>
    decreases s.len(),
{
    if from.len() == 0 || s.len() < from.len() {
        s
    } else if occurs_at(s, from, 0) {
        to + replaced(s.skip(from.len() as int), from, to)
    } else {
        seq![s[0]] + replaced(s.skip(1), from, to)
    }
}

pub fn replace(s: &str, from: &str, to: &str) -> (r: String)
    requires
        from@.len() > 0,
    ensures
        r@ == replaced(s@, from@, to@),
{
    let v: Vec<char> = chars_of(s);
    let q: Vec<char> = chars_of(from);
    let n: usize = v.len();
    let m: usize = q.len();
    let mut r = String::new();
    let mut i: usize = 0;
    assert(v@.skip(0) =~= v@);
    assert(r@ + replaced(v@, q@, to@) =~= replaced(v@, q@, to@));
    while m <= n && i <= n - m
        invariant
            v@ == s@,
            n == v@.len(),
            m == q@.len(),
            m > 0,
            i <= n,
            r@ + replaced(v@.skip(i as int), q@, to@) == replaced(s@, q@, to@),
        decreases n - i,
    {
        let ghost rest = v@.skip(i as int);
        assert(rest.subrange(0, m as int) =~= v@.subrange(i as int, i + m));
        if stands_at(&v, &q, i) {
            assert(rest.skip(m as int) =~= v@.skip(i + m));
            assert(r@ + (to@ + replaced(v@.skip(i + m), q@, to@)) =~= (r@ + to@) + replaced(
                v@.skip(i + m),
                q@,
                to@,
            ));
            r.append(to);
            i = i + m;
        } else {
            assert(rest.skip(1) =~= v@.skip(i + 1));
            assert(r@ + (seq![v@[i as int]] + replaced(v@.skip(i + 1), q@, to@)) =~= r@.push(
                v@[i as int],
            ) + replaced(v@.skip(i + 1), q@, to@));
            r.push(v[i]);
            i = i + 1;
        }
    }
    assert(replaced(v@.skip(i as int), q@, to@) == v@.skip(i as int));
    assert(v@.skip(i as int) =~= v@.subrange(i as int, n as int));
    r.append(&string_of(&v, i, n));
    r
}

/// Joining the pieces of a text with the separator that it was split on gives the text back.
pub proof fn law_join_undoes_split(s: Seq<char>, c: char)
    ensures
        joined(split_on(s, c), seq![c]) == s,
    decreases s.len(),
{
    let p = split_on(s, c);
    if s.len() == 0 {
        assert(joined(p, seq![c]) =~= s);
    } else {
        let q = split_on(s.drop_last(), c);
        lemma_split_on_some(s.drop_last(), c);
        law_join_undoes_split(s.drop_last(), c);
        if s.last() == c {
            assert(p =~= q.push(Seq::empty()));
            assert(p.drop_last() =~= q);
            assert(joined(p, seq![c]) =~= s.drop_last().push(c));
        } else {
            assert(p =~= q.drop_last().push(q.last().push(s.last())));
            assert(p.drop_last() =~= q.drop_last());
            assert(p.last() == q.last().push(s.last()));
            if q.len() == 1 {
                assert(joined(p, seq![c]) =~= s);
            } else {
                assert(joined(p, seq![c]) =~= joined(q, seq![c]).push(s.last()));
            }
        }
        assert(s =~= s.drop_last().push(s.last()));
    }
}

/// A text that does not hold the separator is one piece.
pub proof fn law_split_of_one_piece(s: Seq<char>, c: char)
    requires
        !s.contains(c),
    ensures
        split_on(s, c) == seq![s],
    decreases s.len(),
{
    if s.len() == 0 {
        assert(s =~= Seq::<char>::empty());
        assert(split_on(s, c) =~= seq![s]);
    } else {
        let front = s.drop_last();
        assert(s[s.len() - 1] != c);
        assert(!front.contains(c)) by {
            if front.contains(c) {
                let i = choose|i: int| 0 <= i < front.len() && front[i] == c;
                assert(s[i] == c);
            }
        }
        law_split_of_one_piece(front, c);
        assert(front.push(s.last()) =~= s);
        assert(split_on(s, c) =~= seq![s]);
    }
}

/// What follows a separator, and holds none, is the last piece.
pub proof fn law_split_at_the_end(s: Seq<char>, c: char, t: Seq<char>)
    requires
        !t.contains(c),
    ensures
        split_on(s.push(c) + t, c) == split_on(s, c).push(t),
    decreases t.len(),
{
    let all = s.push(c) + t;
    if t.len() == 0 {
        assert(all =~= s.push(c));
        assert(all.drop_last() =~= s);
        assert(t =~= Seq::<char>::empty());
    } else {
        let front = t.drop_last();
        assert(t[t.len() - 1] != c);
        assert(!front.contains(c)) by {
            if front.contains(c) {
                let i = choose|i: int| 0 <= i < front.len() && front[i] == c;
                assert(t[i] == c);
            }
        }
        law_split_at_the_end(s, c, front);
        assert(all.drop_last() =~= s.push(c) + front);
        let p = split_on(s, c).push(front);
        assert(p.drop_last() =~= split_on(s, c));
        assert(front.push(t.last()) =~= t);
        assert(all.last() == t.last());
    }
}

/// Splitting pieces that hold no separator, joined by it, gives them back.
pub proof fn law_split_undoes_join(p: Seq<Seq<char>>, c: char)
    requires
        p.len() > 0,
        forall|i: int| 0 <= i < p.len() ==> !(#[trigger] p[i]).contains(c),
    ensures
        split_on(joined(p, seq![c]), c) == p,
    decreases p.len(),
{
    assert(!p[p.len() - 1].contains(c));
    if p.len() == 1 {
        law_split_of_one_piece(p[0], c);
        assert(p =~= seq![p[0]]);
    } else {
        let front = p.drop_last();
        assert forall|i: int| 0 <= i < front.len() implies !(#[trigger] front[i]).contains(c) by {
            assert(front[i] == p[i]);
        }
        law_split_undoes_join(front, c);
        let before = joined(front, seq![c]);
        law_split_at_the_end(before, c, p.last());
        assert(joined(p, seq![c]) =~= before.push(c) + p.last());
        assert(front.push(p.last()) =~= p);
    }
}

/// The first piece ends where the separator first stands.
pub proof fn law_first_piece(s: Seq<char>, c: char)
    ensures
        !split_on(s, c)[0].contains(c),
        split_on(s, c)[0].len() <= s.len(),
        split_on(s, c)[0] == s.take(split_on(s, c)[0].len() as int),
        split_on(s, c)[0].len() == s.len() || s[split_on(s, c)[0].len() as int] == c,
    decreases s.len(),
{
    let p = split_on(s, c);
    lemma_split_on_some(s, c);
    if s.len() == 0 {
        assert(p[0] =~= s.take(0));
    } else {
        let front = s.drop_last();
        let q = split_on(front, c);
        lemma_split_on_some(front, c);
        law_first_piece(front, c);
        if s.last() == c || q.len() > 1 {
            assert(p[0] == q[0]);
            assert(front.take(q[0].len() as int) =~= s.take(q[0].len() as int));
            if s.last() != c && q[0].len() == front.len() {
                lemma_pieces_are_short(front, c);
            }
        } else {
            assert(p[0] =~= q[0].push(s.last()));
            lemma_one_piece_is_all(front, c);
            assert(p[0] =~= s);
            assert(s.take(s.len() as int) =~= s);
            assert(!p[0].contains(c)) by {
                if p[0].contains(c) {
                    let i = choose|i: int| 0 <= i < p[0].len() && p[0][i] == c;
                    if i < q[0].len() {
                        assert(q[0][i] == c);
                    }
                }
            }
        }
    }
}

proof fn lemma_one_piece_is_all(s: Seq<char>, c: char)
    requires
        split_on(s, c).len() == 1,
    ensures
        split_on(s, c)[0] == s,
{
    law_join_undoes_split(s, c);
}

proof fn lemma_pieces_are_short(s: Seq<char>, c: char)
    requires
        split_on(s, c).len() > 1,
    ensures
        split_on(s, c)[0].len() < s.len(),
    decreases s.len(),
{
    if s.len() > 0 {
        let front = s.drop_last();
        let q = split_on(front, c);
        lemma_split_on_some(front, c);
        if s.last() == c {
            law_first_piece(front, c);
        } else {
            lemma_pieces_are_short(front, c);
        }
    }
}

/// A text in which `from` does not stand is not changed by replacing it.
pub proof fn law_nothing_to_replace(s: Seq<char>, from: Seq<char>, to: Seq<char>)
    requires
        forall|i: int| !#[trigger] occurs_at(s, from, i),
    ensures
        replaced(s, from, to) == s,
    decreases s.len(),
{
    if from.len() > 0 && s.len() >= from.len() {
        assert(!occurs_at(s, from, 0));
        let rest = s.skip(1);
        assert forall|i: int| !#[trigger] occurs_at(rest, from, i) by {
            if occurs_at(rest, from, i) {
                assert(s.subrange(i + 1, i + 1 + from.len()) =~= rest.subrange(i, i + from.len()));
                assert(occurs_at(s, from, i + 1));
            }
        }
        law_nothing_to_replace(rest, from, to);
        assert(seq![s[0]] + rest =~= s);
    }
}

/// Where `from` first stands, `to` is put in its place; what stands before it stays.
pub proof fn law_first_is_replaced(s: Seq<char>, from: Seq<char>, to: Seq<char>, at: int)
    requires
        from.len() > 0,
        occurs_at(s, from, at),
        forall|i: int| 0 <= i < at ==> !#[trigger] occurs_at(s, from, i),
    ensures
        replaced(s, from, to) == s.take(at) + to + replaced(s.skip(at + from.len()), from, to),
    decreases at,
{
    if at == 0 {
        assert(s.take(0) + to =~= to);
    } else {
        assert(!occurs_at(s, from, 0));
        let rest = s.skip(1);
        assert(rest.subrange(at - 1, at - 1 + from.len()) =~= s.subrange(at, at + from.len()));
        assert forall|i: int| 0 <= i < at - 1 implies !#[trigger] occurs_at(rest, from, i) by {
            if occurs_at(rest, from, i) {
                assert(s.subrange(i + 1, i + 1 + from.len()) =~= rest.subrange(i, i + from.len()));
                assert(occurs_at(s, from, i + 1));
            }
        }
        law_first_is_replaced(rest, from, to, at - 1);
        assert(rest.skip(at - 1 + from.len()) =~= s.skip(at + from.len()));
        let tail = replaced(s.skip(at + from.len()), from, to);
        assert(seq![s[0]] + (rest.take(at - 1) + to + tail) =~= s.take(at) + to + tail);
    }
}

/// Lines that are put together with a line feed behind each are read back one by one.
pub proof fn law_lines_are_read(p: Seq<Seq<char>>)
    requires
        p.len() > 0,
        forall|i: int| 0 <= i < p.len() ==> !(#[trigger] p[i]).contains('\n'),
        forall|i: int| 0 <= i < p.len() ==> !(#[trigger] p[i]).contains('\r'),
    ensures
        lines_of(joined(p, seq!['\n']) + seq!['\n']) == p,
        p.last().len() > 0 ==> lines_of(joined(p, seq!['\n'])) == p,
{
    let s = joined(p, seq!['\n']);
    let none = Seq::<char>::empty();
    law_split_undoes_join(p, '\n');
    assert(!none.contains('\n'));
    law_split_at_the_end(s, '\n', none);
    assert(s + seq!['\n'] =~= s.push('\n') + none);
    assert forall|i: int| 0 <= i < p.len() implies without_return(#[trigger] p[i]) == p[i] by {
        if p[i].len() > 0 && p[i].last() == '\r' {
            assert(p[i].contains('\r'));
        }
    }
    let q = p.push(none);
    assert(split_on(s + seq!['\n'], '\n') == q);
    assert forall|i: int| 0 <= i < p.len() implies without_return(#[trigger] q[i]) == p[i] by {
        assert(q[i] == p[i]);
    }
    assert(lines_of(s + seq!['\n']) =~= p);
    if p.last().len() > 0 {
        assert(lines_of(s) =~= p);
    }
}

proof fn lemma_split_where_end(
    s: Seq<char>,
    f: spec_fn(char) -> bool,
    c: char,
    t: Seq<char>,
)
    requires
        f(c),
        forall|i: int| 0 <= i < t.len() ==> !f(#[trigger] t[i]),
    ensures
        split_where(s.push(c) + t, f) == split_where(s, f).push(t),
    decreases t.len(),
{
    let all = s.push(c) + t;
    let p = split_where(s, f);
    if t.len() == 0 {
        assert(all =~= s.push(c));
        assert(all.drop_last() =~= s);
        assert(t =~= Seq::<char>::empty());
    } else {
        let front = t.drop_last();
        assert forall|i: int| 0 <= i < front.len() implies !f(#[trigger] front[i]) by {
            assert(front[i] == t[i]);
        }
        lemma_split_where_end(s, f, c, front);
        assert(all.drop_last() =~= s.push(c) + front);
        assert(all.last() == t.last());
        assert(!f(t[t.len() - 1]));
        assert(p.push(front).drop_last() =~= p);
        assert(front.push(t.last()) =~= t);
    }
}

proof fn lemma_split_where_one(f: spec_fn(char) -> bool, t: Seq<char>)
    requires
        forall|i: int| 0 <= i < t.len() ==> !f(#[trigger] t[i]),
    ensures
        split_where(t, f) == seq![t],
    decreases t.len(),
{
    if t.len() > 0 {
        let front = t.drop_last();
        assert forall|i: int| 0 <= i < front.len() implies !f(#[trigger] front[i]) by {
            assert(front[i] == t[i]);
        }
        lemma_split_where_one(f, front);
        assert(!f(t[t.len() - 1]));
        assert(seq![front].drop_last() =~= Seq::<Seq<char>>::empty());
        assert(front.push(t.last()) =~= t);
        assert(split_where(t, f) =~= seq![t]);
    } else {
        assert(t =~= Seq::<char>::empty());
        assert(split_where(t, f) =~= seq![t]);
    }
}

/// A word: it holds something, and no white space.
pub open spec fn is_word(w: Seq<char>) -> bool {
    w.len() > 0 && forall|i: int| 0 <= i < w.len() ==> !is_space(#[trigger] w[i])
}

proof fn lemma_spaces_split(p: Seq<Seq<char>>)
    requires
        p.len() > 0,
        forall|i: int| 0 <= i < p.len() ==> is_word(#[trigger] p[i]),
    ensures
        split_spaces(joined(p, seq![' '])) == p,
        split_spaces(seq![' '] + joined(p, seq![' '])) == seq![Seq::<char>::empty()] + p,
    decreases p.len(),
{
    let f = |x: char| is_space(x);
    let none = Seq::<char>::empty();
    assert(f(' '));
    let last = p.last();
    assert(is_word(p[p.len() - 1]));
    if p.len() == 1 {
        lemma_split_where_one(f, last);
        assert(p =~= seq![last]);
        lemma_split_where_one(f, none);
        lemma_split_where_end(none, f, ' ', last);
        assert(seq![' '] + last =~= none.push(' ') + last);
        assert(seq![none].push(last) =~= seq![none] + p);
    } else {
        let front = p.drop_last();
        assert forall|i: int| 0 <= i < front.len() implies is_word(#[trigger] front[i]) by {
            assert(front[i] == p[i]);
        }
        lemma_spaces_split(front);
        let s = joined(front, seq![' ']);
        lemma_split_where_end(s, f, ' ', last);
        assert(joined(p, seq![' ']) =~= s.push(' ') + last);
        assert(front.push(last) =~= p);
        let t = seq![' '] + s;
        lemma_split_where_end(t, f, ' ', last);
        assert(seq![' '] + joined(p, seq![' ']) =~= t.push(' ') + last);
        assert((seq![none] + front).push(last) =~= seq![none] + p);
    }
}

proof fn lemma_nonempty_all(p: Seq<Seq<char>>)
    requires
        forall|i: int| 0 <= i < p.len() ==> (#[trigger] p[i]).len() > 0,
    ensures
        nonempty(p) == p,
        nonempty(seq![Seq::<char>::empty()] + p) == p,
    decreases p.len(),
{
    let none = Seq::<char>::empty();
    if p.len() == 0 {
        assert(seq![none] + p =~= seq![none]);
        assert(seq![none].drop_last() =~= Seq::<Seq<char>>::empty());
        assert(nonempty(Seq::<Seq<char>>::empty()) =~= Seq::<Seq<char>>::empty());
        assert(p =~= Seq::<Seq<char>>::empty());
    } else {
        let front = p.drop_last();
        assert forall|i: int| 0 <= i < front.len() implies (#[trigger] front[i]).len() > 0 by {
            assert(front[i] == p[i]);
        }
        lemma_nonempty_all(front);
        assert(p[p.len() - 1].len() > 0);
        assert((seq![none] + p).drop_last() =~= seq![none] + front);
        assert((seq![none] + p).last() == p.last());
        assert(front.push(p.last()) =~= p);
    }
}

/// Words that are put together with spaces between them are read back one by one, also where a
/// space comes before them.
pub proof fn law_words_are_read(p: Seq<Seq<char>>)
    requires
        p.len() > 0,
        forall|i: int| 0 <= i < p.len() ==> is_word(#[trigger] p[i]),
    ensures
        words(joined(p, seq![' '])) == p,
        words(seq![' '] + joined(p, seq![' '])) == p,
{
    lemma_spaces_split(p);
    assert forall|i: int| 0 <= i < p.len() implies (#[trigger] p[i]).len() > 0 by {
        assert(is_word(p[i]));
    }
    lemma_nonempty_all(p);
}

/// What stands before the first `c` of a text and what stands after it are found apart.
pub proof fn law_cut_finds_the_first(a: Seq<char>, c: char, b: Seq<char>)
    requires
        !a.contains(c),
    ensures
        cut(a.push(c) + b, c) == Some((a, b)),
        cut(a, c) is None,
{
    let s = a.push(c) + b;
    lemma_char_from(s, c, 0);
    lemma_char_from(a, c, 0);
    assert(s[a.len() as int] == c);
    lemma_char_first(a, c, b, 0);
    assert(s.take(a.len() as int) =~= a);
    assert(s.skip(a.len() as int + 1) =~= b);
    if let Some(i) = char_from(a, c, 0) {
        assert(a.contains(c));
    }
}

proof fn lemma_char_first(a: Seq<char>, c: char, b: Seq<char>, from: int)
    requires
        !a.contains(c),
        0 <= from <= a.len(),
    ensures
        char_from(a.push(c) + b, c, from) == Some(a.len() as int),
    decreases a.len() - from,
{
    let s = a.push(c) + b;
    if from == a.len() {
        assert(s[from] == c);
    } else {
        assert(s[from] == a[from]);
        lemma_char_first(a, c, b, from + 1);
    }
}

/// A text that starts with a sign that is nowhere else is replaced where it stands, and nowhere
/// else.
pub proof fn law_marked_text_is_replaced(
    a: Seq<char>,
    p: Seq<char>,
    b: Seq<char>,
    to: Seq<char>,
)
    requires
        p.len() > 0,
        !a.contains(p[0]) && !b.contains(p[0]),
        forall|i: int| 0 < i < p.len() ==> #[trigger] p[i] != p[0],
    ensures
        replaced(a + p + b, p, to) == a + to + b,
{
    let s = a + p + b;
    let at = a.len() as int;
    assert(s.subrange(at, at + p.len()) =~= p);
    assert forall|i: int| 0 <= i < at implies !#[trigger] occurs_at(s, p, i) by {
        if occurs_at(s, p, i) {
            assert(s.subrange(i, i + p.len())[0] == p[0]);
            assert(a[i] == p[0]);
        }
    }
    law_first_is_replaced(s, p, to, at);
    assert(s.skip(at + p.len()) =~= b);
    assert(s.take(at) =~= a);
    law_text_without_the_mark_stays(b, p, to);
}

/// A text without the sign that another text starts with is not changed by replacing that.
pub proof fn law_text_without_the_mark_stays(s: Seq<char>, p: Seq<char>, to: Seq<char>)
    requires
        p.len() > 0,
        !s.contains(p[0]),
    ensures
        replaced(s, p, to) == s,
{
    assert forall|i: int| !#[trigger] occurs_at(s, p, i) by {
        if occurs_at(s, p, i) {
            assert(s.subrange(i, i + p.len())[0] == p[0]);
            assert(s[i] == p[0]);
        }
    }
    law_nothing_to_replace(s, p, to);
}

} // verus!
