//! File paths as texts: their components, parents and joins.

use vstd::prelude::*;

use crate::pieces::join;
use crate::pieces::joined;
use crate::pieces::split_char;
use crate::pieces::split_on;
use crate::text::chars_of;
use crate::text::lemma_texts_push;
use crate::text::skip_chars;
use crate::text::str_eq;
use crate::text::texts;

verus! {

/// A component of a path: the root, the directory that the path starts from, the parent of
/// what stands before it, or a name.
pub enum PathPart {
    Root,
    Cur,
    Up,
    Name(String),
}

/// What a component says.
pub enum Part {
    Root,
    Cur,
    Up,
    Name(Seq<char>),
}

impl View for PathPart {
    type V = Part;

    open spec fn view(&self) -> Part {
        match *self {
            PathPart::Root => Part::Root,
            PathPart::Cur => Part::Cur,
            PathPart::Up => Part::Up,
            PathPart::Name(s) => Part::Name(s@),
        }
    }
}

pub open spec fn part_views(v: Seq<PathPart>) -> Seq<Part> {
    Seq::new(v.len(), |i: int| v[i]@)
}

/// The path starts at the root.
pub open spec fn absolute(p: Seq<char>) -> bool {
    p.len() > 0 && p[0] == '/'
}

/// The component that the piece at `index` between slashes stands for. A piece that is empty
/// stands for none, nor does a dot, but for one at the start of a path that is not absolute.
pub open spec fn part_of(piece: Seq<char>, index: int, rooted: bool) -> Option<Part> {
    if piece.len() == 0 {
        None
    } else if piece == "."@ {
        if index == 0 && !rooted {
            Some(Part::Cur)
        } else {
            None
        }
    } else if piece == ".."@ {
        Some(Part::Up)
    } else {
        Some(Part::Name(piece))
    }
}

/// The components that the first `n` pieces stand for.
pub open spec fn parts_of(pieces: Seq<Seq<char>>, rooted: bool, n: int) -> Seq<Part>
    decreases n,
{
    if n <= 0 {
        Seq::empty()
    } else {
        match part_of(pieces[n - 1], n - 1, rooted) {
            Some(part) => parts_of(pieces, rooted, n - 1).push(part),
            None => parts_of(pieces, rooted, n - 1),
        }
    }
}

/// The components of a path, first to last.
pub open spec fn parts(p: Seq<char>) -> Seq<Part> {
    let pieces = split_on(p, '/');
    let body = parts_of(pieces, absolute(p), pieces.len() as int);
    if absolute(p) {
        seq![Part::Root] + body
    } else {
        body
    }
}

pub fn is_absolute(p: &str) -> (r: bool)
    ensures
        r == absolute(p@),
{
    let v: Vec<char> = chars_of(p);
    v.len() > 0 && v[0] == '/'
}

fn part(piece: &str, first: bool, rooted: bool) -> (r: Option<PathPart>)
    ensures
        match part_of(
            piece@,
            if first {
                0
            } else {
                1
            },
            rooted,
        ) {
            Some(q) => r is Some && r->0@ == q,
            None => r is None,
        },
{
    if piece.is_empty() {
        None
    } else if str_eq(piece, ".") {
        if first && !rooted {
            Some(PathPart::Cur)
        } else {
            None
        }
    } else if str_eq(piece, "..") {
        Some(PathPart::Up)
    } else {
        Some(PathPart::Name(piece.to_owned()))
    }
}

pub fn components(p: &str) -> (r: Vec<PathPart>)
    ensures
        part_views(r@) == parts(p@),
{
    let pieces: Vec<String> = split_char(p, '/');
    let ghost all = texts(pieces@);
    let rooted: bool = is_absolute(p);
    let mut r: Vec<PathPart> = Vec::new();
    if rooted {
        r.push(PathPart::Root);
    }
    let ghost head = part_views(r@);
    assert(head =~= if rooted {
        seq![Part::Root]
    } else {
        Seq::empty()
    });
    let mut i: usize = 0;
    assert(head + parts_of(all, rooted, 0) =~= head);
    while i < pieces.len()
        invariant
            i <= pieces@.len(),
            all == texts(pieces@),
            part_views(r@) == head + parts_of(all, rooted, i as int),
        decreases pieces@.len() - i,
    {
        assert(all[i as int] == pieces@[i as int]@);
        let ghost before = r@;
        if let Some(q) = part(&pieces[i], i == 0, rooted) {
            r.push(q);
            assert(part_views(r@) =~= part_views(before).push(q@));
            assert(part_views(r@) =~= head + parts_of(all, rooted, i + 1));
        }
        i = i + 1;
    }
    assert(parts(p@) =~= head + parts_of(all, rooted, all.len() as int));
    r
}

/// The name that a path ends with, if it ends with one.
pub open spec fn base_name(p: Seq<char>) -> Option<Seq<char>> {
    if parts(p).len() > 0 {
        match parts(p).last() {
            Part::Name(n) => Some(n),
            _ => None,
        }
    } else {
        None
    }
}

pub fn file_name(p: &str) -> (r: Option<String>)
    ensures
        match base_name(p@) {
            Some(n) => r is Some && r->0@ == n,
            None => r is None,
        },
{
    let c: Vec<PathPart> = components(p);
    if c.len() == 0 {
        return None;
    }
    assert(parts(p@).last() == c@[c@.len() - 1]@);
    match &c[c.len() - 1] {
        PathPart::Name(n) => Some(n.clone()),
        _ => None,
    }
}

/// The last of the first `n` pieces that stands for a component.
pub open spec fn last_piece(pieces: Seq<Seq<char>>, rooted: bool, n: int) -> Option<int>
    decreases n,
{
    if n <= 0 {
        None
    } else if part_of(pieces[n - 1], n - 1, rooted) is Some {
        Some(n - 1)
    } else {
        last_piece(pieces, rooted, n - 1)
    }
}

/// What stands before the body of a path: the slash of the root, or nothing.
pub open spec fn root_text(p: Seq<char>) -> Seq<char> {
    if absolute(p) {
        "/"@
    } else {
        Seq::empty()
    }
}

/// What stands after the root.
pub open spec fn body_text(p: Seq<char>) -> Seq<char> {
    if absolute(p) {
        p.skip(1)
    } else {
        p
    }
}

/// The path without its last component; none, where it has no component but the root.
pub open spec fn parent_of(p: Seq<char>) -> Option<Seq<char>> {
    let pieces = split_on(body_text(p), '/');
    match last_piece(pieces, absolute(p), pieces.len() as int) {
        None => None,
        Some(j) => match last_piece(pieces, absolute(p), j) {
            None => Some(root_text(p)),
            Some(i) => Some(root_text(p) + joined(pieces.take(i + 1), "/"@)),
        },
    }
}

fn find_last_piece(pieces: &Vec<String>, rooted: bool, n: usize) -> (r: Option<usize>)
    requires
        n <= pieces@.len(),
    ensures
        match last_piece(texts(pieces@), rooted, n as int) {
            Some(i) => r is Some && r->0 == i && 0 <= i < n,
            None => r is None,
        },
{
    let mut k: usize = n;
    while 0 < k
        invariant
            k <= n <= pieces@.len(),
            last_piece(texts(pieces@), rooted, n as int) == last_piece(
                texts(pieces@),
                rooted,
                k as int,
            ),
        decreases k,
    {
        assert(texts(pieces@)[k - 1] == pieces@[k - 1]@);
        if part(&pieces[k - 1], k == 1, rooted).is_some() {
            return Some(k - 1);
        }
        k = k - 1;
    }
    None
}

fn first_pieces(pieces: &Vec<String>, n: usize) -> (r: Vec<String>)
    requires
        n <= pieces@.len(),
    ensures
        texts(r@) == texts(pieces@).take(n as int),
{
    let mut r: Vec<String> = Vec::new();
    let mut i: usize = 0;
    assert(texts(r@) =~= texts(pieces@).take(0));
    while i < n
        invariant
            i <= n <= pieces@.len(),
            texts(r@) == texts(pieces@).take(i as int),
        decreases n - i,
    {
        let piece: String = pieces[i].clone();
        proof {
            lemma_texts_push(r@, piece);
        }
        r.push(piece);
        i = i + 1;
        assert(texts(r@) =~= texts(pieces@).take(i as int));
    }
    r
}

pub fn parent(p: &str) -> (r: Option<String>)
    ensures
        match parent_of(p@) {
            Some(q) => r is Some && r->0@ == q,
            None => r is None,
        },
{
    let rooted: bool = is_absolute(p);
    let body: String = if rooted {
        skip_chars(p, 1)
    } else {
        p.to_owned()
    };
    let pieces: Vec<String> = split_char(&body, '/');
    let j: usize = match find_last_piece(&pieces, rooted, pieces.len()) {
        None => {
            return None;
        },
        Some(j) => j,
    };
    let mut r: String = if rooted {
        "/".to_owned()
    } else {
        String::new()
    };
    if let Some(i) = find_last_piece(&pieces, rooted, j) {
        r.append(&join(&first_pieces(&pieces, i + 1), "/"));
    }
    Some(r)
}

/// `b` taken from the directory `a`: an absolute `b` stands alone.
pub open spec fn path_join(a: Seq<char>, b: Seq<char>) -> Seq<char> {
    if absolute(b) {
        b
    } else if a.len() == 0 || a.last() == '/' {
        a + b
    } else {
        a + "/"@ + b
    }
}

pub fn join_path(a: &str, b: &str) -> (r: String)
    ensures
        r@ == path_join(a@, b@),
{
    if is_absolute(b) {
        return b.to_owned();
    }
    let v: Vec<char> = chars_of(a);
    let mut r: String = a.to_owned();
    if v.len() > 0 && v[v.len() - 1] != '/' {
        r.append("/");
    }
    r.append(b);
    r
}

/// The names among the components from `from` on, in order.
pub open spec fn names_from(c: Seq<Part>, from: int) -> Seq<Seq<char>>
    decreases c.len() - from,
{
    if from < 0 || from >= c.len() {
        Seq::empty()
    } else {
        match c[from] {
            Part::Name(n) => seq![n] + names_from(c, from + 1),
            _ => names_from(c, from + 1),
        }
    }
}

pub fn names(c: &Vec<PathPart>, from: usize) -> (r: Vec<String>)
    requires
        from <= c@.len(),
    ensures
        texts(r@) == names_from(part_views(c@), from as int),
{
    let ghost v = part_views(c@);
    let mut r: Vec<String> = Vec::new();
    let mut i: usize = from;
    assert(texts(r@) + names_from(v, from as int) =~= names_from(v, from as int));
    while i < c.len()
        invariant
            from <= i <= c@.len(),
            v == part_views(c@),
            texts(r@) + names_from(v, i as int) == names_from(v, from as int),
        decreases c@.len() - i,
    {
        assert(v[i as int] == c@[i as int]@);
        if let PathPart::Name(n) = &c[i] {
            let name: String = n.clone();
            proof {
                lemma_texts_push(r@, name);
            }
            assert(texts(r@) + (seq![n@] + names_from(v, i + 1)) =~= texts(r@).push(n@)
                + names_from(v, i + 1));
            r.push(name);
        }
        i = i + 1;
    }
    assert(texts(r@) + names_from(v, i as int) =~= texts(r@));
    r
}

/// The components of `a` begin those of `b`.
pub open spec fn path_begins(a: Seq<char>, b: Seq<char>) -> bool {
    parts(a).len() <= parts(b).len() && parts(b).take(parts(a).len() as int) == parts(a)
}

fn same_part(a: &PathPart, b: &PathPart) -> (r: bool)
    ensures
        r == (a@ == b@),
{
    match (a, b) {
        (PathPart::Root, PathPart::Root) => true,
        (PathPart::Cur, PathPart::Cur) => true,
        (PathPart::Up, PathPart::Up) => true,
        (PathPart::Name(x), PathPart::Name(y)) => str_eq(x, y),
        _ => false,
    }
}

/// Whether the components `a` begin the components `b`.
pub fn parts_begin(a: &Vec<PathPart>, b: &Vec<PathPart>) -> (r: bool)
    ensures
        r == (a@.len() <= b@.len() && part_views(b@).take(a@.len() as int) == part_views(a@)),
{
    if a.len() > b.len() {
        return false;
    }
    let ghost va = part_views(a@);
    let ghost vb = part_views(b@);
    let mut i: usize = 0;
    while i < a.len()
        invariant
            i <= a@.len() <= b@.len(),
            va == part_views(a@),
            vb == part_views(b@),
            forall|k: int| 0 <= k < i ==> va[k] == vb[k],
        decreases a@.len() - i,
    {
        if !same_part(&a[i], &b[i]) {
            assert(va[i as int] != vb[i as int]);
            assert(vb.take(a@.len() as int)[i as int] == vb[i as int]);
            return false;
        }
        i = i + 1;
    }
    assert(vb.take(a@.len() as int) =~= va);
    true
}

/// Whether `b` is `a` or lies below it.
pub fn lies_under(a: &str, b: &str) -> (r: bool)
    ensures
        r == path_begins(a@, b@),
{
    parts_begin(&components(a), &components(b))
}

/// A name that stands for one component: it is no dot, no two dots, and holds no slash.
pub open spec fn plain_name(name: Seq<char>) -> bool {
    name.len() > 0 && !name.contains('/') && name != "."@ && name != ".."@
}

proof fn lemma_parts_of_first(pieces: Seq<Seq<char>>, more: Seq<char>, rooted: bool, n: int)
    requires
        n <= pieces.len(),
    ensures
        parts_of(pieces.push(more), rooted, n) == parts_of(pieces, rooted, n),
    decreases n,
{
    if n > 0 {
        lemma_parts_of_first(pieces, more, rooted, n - 1);
        assert(pieces.push(more)[n - 1] == pieces[n - 1]);
    }
}

/// A plain name that is joined to a directory lies in it: it adds one component to those of the
/// directory. An absolute path stays as it is.
pub proof fn law_joined_names_lie_in_the_directory(a: Seq<char>, b: Seq<char>)
    ensures
        plain_name(b) ==> parts(path_join(a, b)) == parts(a).push(Part::Name(b)),
        plain_name(b) ==> base_name(path_join(a, b)) == Some(b),
        absolute(b) ==> path_join(a, b) == b,
{
    if plain_name(b) {
        reveal_strlit("/");
        let j = path_join(a, b);
        let none = Seq::<char>::empty();
        assert(!none.contains('/'));
        assert(b[0] != '/');
        let before = if a.len() > 0 && a.last() == '/' {
            a.drop_last()
        } else {
            a
        };
        let pieces = split_on(before, '/');
        let rooted = absolute(j);
        let n = pieces.len() as int;
        if a.len() == 0 {
            assert(j =~= b);
            assert(a =~= none);
            crate::pieces::law_split_of_one_piece(b, '/');
            crate::pieces::law_split_of_one_piece(none, '/');
            assert(parts_of(seq![b], false, 1) =~= seq![Part::Name(b)]) by {
                assert(parts_of(seq![b], false, 0) =~= Seq::<Part>::empty());
            }
            assert(parts_of(seq![none], false, 1) =~= Seq::<Part>::empty()) by {
                assert(parts_of(seq![none], false, 0) =~= Seq::<Part>::empty());
            }
            assert(parts(j) =~= parts(a).push(Part::Name(b)));
        } else {
            assert(j =~= before.push('/') + b);
            assert(j[0] == a[0]) by {
                if before.len() > 0 {
                    assert(j[0] == before[0]);
                }
            }
            crate::pieces::law_split_at_the_end(before, '/', b);
            lemma_parts_of_first(pieces, b, rooted, n);
            assert(pieces.push(b)[n] == b);
            if a.last() == '/' {
                assert(a =~= before.push('/') + none);
                crate::pieces::law_split_at_the_end(before, '/', none);
                lemma_parts_of_first(pieces, none, rooted, n);
                assert(pieces.push(none)[n] == none);
            }
            assert(parts(j) =~= parts(a).push(Part::Name(b)));
        }
    }
}

/// The parent of what lies in a directory is that directory.
pub proof fn law_parent_is_the_directory(a: Seq<char>, b: Seq<char>)
    requires
        plain_name(b),
        a.len() > 0 && a.last() != '/',
        plain_name(split_on(body_text(a), '/').last()) || split_on(body_text(a), '/').last()
            == ".."@,
    ensures
        parent_of(path_join(a, b)) == Some(a),
{
    reveal_strlit("/");
    reveal_strlit("..");
    reveal_strlit(".");
    assert(b[0] != '/');
    let j = path_join(a, b);
    let body = body_text(a);
    let pieces = split_on(body, '/');
    let n = pieces.len() as int;
    crate::pieces::lemma_split_on_some(body, '/');
    assert(j =~= a.push('/') + b);
    assert(j[0] == a[0]);
    assert(body_text(j) =~= body.push('/') + b);
    crate::pieces::law_split_at_the_end(body, '/', b);
    let all = pieces.push(b);
    assert(all[n] == b);
    assert(all[n - 1] == pieces[n - 1]);
    assert(all.take(n) =~= pieces);
    crate::pieces::law_join_undoes_split(body, '/');
    assert("/"@ =~= seq!['/']);
    assert(root_text(j) + body =~= a);
}

} // verus!
