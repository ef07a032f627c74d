//! Environment variables: a list of names and values in which no name occurs twice.

use vstd::prelude::*;

use crate::text::str_eq;

verus! {

/// The names and values of a list of pairs, in order.
pub open spec fn pair_texts(v: Seq<(String, String)>) -> Seq<(Seq<char>, Seq<char>)> {
    Seq::new(v.len(), |i: int| (v[i].0@, v[i].1@))
}

/// What a list of pairs sets the variables to, on top of `base`: later pairs override.
pub open spec fn overlaid(
    base: Map<Seq<char>, Seq<char>>,
    pairs: Seq<(Seq<char>, Seq<char>)>,
) -> Map<Seq<char>, Seq<char>>
    decreases pairs.len(),
{
    if pairs.len() == 0 {
        base
    } else {
        overlaid(base, pairs.drop_last()).insert(pairs.last().0, pairs.last().1)
    }
}

/// No name occurs twice.
pub open spec fn distinct_names(pairs: Seq<(Seq<char>, Seq<char>)>) -> bool {
    forall|i: int, j: int| 0 <= i < j < pairs.len() ==> (#[trigger] pairs[i]).0 != (#[trigger]
    pairs[j]).0
}

/// A set of environment variables.
pub struct EnvList {
    pairs: Vec<(String, String)>,
}

impl View for EnvList {
    type V = Map<Seq<char>, Seq<char>>;

    closed spec fn view(&self) -> Map<Seq<char>, Seq<char>> {
        overlaid(Map::empty(), pair_texts(self.pairs@))
    }
}

proof fn lemma_overlaid_names(pairs: Seq<(Seq<char>, Seq<char>)>, name: Seq<char>)
    ensures
        overlaid(Map::empty(), pairs).contains_key(name) <==> exists|i: int|
            0 <= i < pairs.len() && (#[trigger] pairs[i]).0 == name,
    decreases pairs.len(),
{
    if pairs.len() > 0 {
        let front = pairs.drop_last();
        lemma_overlaid_names(front, name);
        if exists|i: int| 0 <= i < pairs.len() && (#[trigger] pairs[i]).0 == name {
            let i = choose|i: int| 0 <= i < pairs.len() && (#[trigger] pairs[i]).0 == name;
            if i < front.len() {
                assert(front[i].0 == name);
            }
        }
        if exists|i: int| 0 <= i < front.len() && (#[trigger] front[i]).0 == name {
            let i = choose|i: int| 0 <= i < front.len() && (#[trigger] front[i]).0 == name;
            assert(pairs[i].0 == name);
        }
        if pairs.last().0 == name {
            assert(pairs[pairs.len() - 1].0 == name);
        }
    }
}

proof fn lemma_overlaid_value(pairs: Seq<(Seq<char>, Seq<char>)>, i: int)
    requires
        distinct_names(pairs),
        0 <= i < pairs.len(),
    ensures
        overlaid(Map::empty(), pairs).contains_key(pairs[i].0),
        overlaid(Map::empty(), pairs)[pairs[i].0] == pairs[i].1,
    decreases pairs.len(),
{
    let front = pairs.drop_last();
    if i < front.len() {
        assert(front[i] == pairs[i]);
        assert(distinct_names(front)) by {
            assert forall|a: int, b: int| 0 <= a < b < front.len() implies (#[trigger] front[a]).0
                != (#[trigger] front[b]).0 by {
                assert(pairs[a].0 != pairs[b].0);
            }
        }
        lemma_overlaid_value(front, i);
        assert(pairs[i].0 != pairs[pairs.len() - 1].0);
    }
}

proof fn lemma_overlaid_update(
    pairs: Seq<(Seq<char>, Seq<char>)>,
    i: int,
    value: Seq<char>,
)
    requires
        distinct_names(pairs),
        0 <= i < pairs.len(),
    ensures
        overlaid(Map::empty(), pairs.update(i, (pairs[i].0, value))) == overlaid(
            Map::empty(),
            pairs,
        ).insert(pairs[i].0, value),
    decreases pairs.len(),
{
    let front = pairs.drop_last();
    let new = pairs.update(i, (pairs[i].0, value));
    if i == pairs.len() - 1 {
        assert(new.drop_last() =~= front);
        assert(overlaid(Map::empty(), new) =~= overlaid(Map::empty(), pairs).insert(
            pairs[i].0,
            value,
        ));
    } else {
        assert(distinct_names(front)) by {
            assert forall|a: int, b: int| 0 <= a < b < front.len() implies (#[trigger] front[a]).0
                != (#[trigger] front[b]).0 by {
                assert(pairs[a].0 != pairs[b].0);
            }
        }
        lemma_overlaid_update(front, i, value);
        assert(new.drop_last() =~= front.update(i, (front[i].0, value)));
        assert(pairs[i].0 != pairs[pairs.len() - 1].0);
        assert(overlaid(Map::empty(), new) =~= overlaid(Map::empty(), pairs).insert(
            pairs[i].0,
            value,
        ));
    }
}

/// Setting the variables of a list one by one lets what the list comes to prevail.
proof fn lemma_overlaid_union(
    base: Map<Seq<char>, Seq<char>>,
    pairs: Seq<(Seq<char>, Seq<char>)>,
)
    ensures
        overlaid(base, pairs) == base.union_prefer_right(overlaid(Map::empty(), pairs)),
    decreases pairs.len(),
{
    if pairs.len() == 0 {
        assert(base =~= base.union_prefer_right(Map::empty()));
    } else {
        let front = pairs.drop_last();
        lemma_overlaid_union(base, front);
        assert(overlaid(base, pairs) =~= base.union_prefer_right(overlaid(Map::empty(), pairs)));
    }
}

impl EnvList {
    #[verifier::type_invariant]
    spec fn names_occur_once(self) -> bool {
        distinct_names(pair_texts(self.pairs@))
    }

    pub fn new() -> (r: EnvList)
        ensures
            r@ == Map::<Seq<char>, Seq<char>>::empty(),
    {
        let r = EnvList { pairs: Vec::new() };
        assert(pair_texts(r.pairs@) =~= Seq::<(Seq<char>, Seq<char>)>::empty());
        r
    }

    fn position(&self, name: &str) -> (r: Option<usize>)
        ensures
            match r {
                Some(i) => i < self.pairs@.len() && self.pairs@[i as int].0@ == name@,
                None => forall|i: int|
                    0 <= i < self.pairs@.len() ==> (#[trigger] self.pairs@[i]).0@ != name@,
            },
    {
        let mut i: usize = 0;
        while i < self.pairs.len()
            invariant
                i <= self.pairs@.len(),
                forall|k: int| 0 <= k < i ==> (#[trigger] self.pairs@[k]).0@ != name@,
            decreases self.pairs@.len() - i,
        {
            if str_eq(&self.pairs[i].0, name) {
                return Some(i);
            }
            i = i + 1;
        }
        None
    }

    /// The variable's value.
    pub fn get(&self, name: &str) -> (r: Option<String>)
        ensures
            r is Some <==> self@.contains_key(name@),
            r is Some ==> r->0@ == self@[name@],
    {
        proof {
            use_type_invariant(self);
            lemma_overlaid_names(pair_texts(self.pairs@), name@);
        }
        match self.position(name) {
            Some(i) => {
                proof {
                    lemma_overlaid_value(pair_texts(self.pairs@), i as int);
                    assert(pair_texts(self.pairs@)[i as int].0 == name@);
                }
                Some(self.pairs[i].1.clone())
            },
            None => {
                assert(!self@.contains_key(name@)) by {
                    if self@.contains_key(name@) {
                        let p = pair_texts(self.pairs@);
                        let k = choose|k: int| 0 <= k < p.len() && (#[trigger] p[k]).0 == name@;
                        assert(self.pairs@[k].0@ == name@);
                    }
                }
                None
            },
        }
    }

    /// The variables with one more, or with another value for one.
    pub fn with(self, name: String, value: String) -> (r: EnvList)
        ensures
            r@ == self@.insert(name@, value@),
    {
        proof {
            use_type_invariant(&self);
        }
        let ghost old_texts = pair_texts(self.pairs@);
        let found: Option<usize> = self.position(&name);
        let mut pairs: Vec<(String, String)> = self.pairs;
        match found {
            Some(i) => {
                let ghost pair = (name@, value@);
                let ghost before = pairs@;
                pairs.set(i, (name, value));
                proof {
                    assert(pair_texts(pairs@) =~= old_texts.update(i as int, pair));
                    lemma_overlaid_update(old_texts, i as int, pair.1);
                    assert(distinct_names(pair_texts(pairs@))) by {
                        let p = pair_texts(pairs@);
                        assert forall|a: int, b: int| 0 <= a < b < p.len() implies (
                        #[trigger] p[a]).0 != (#[trigger] p[b]).0 by {
                            assert(p[a].0 == old_texts[a].0);
                            assert(p[b].0 == old_texts[b].0);
                        }
                    }
                }
            },
            None => {
                let ghost pair = (name@, value@);
                let ghost before = pairs@;
                pairs.push((name, value));
                proof {
                    assert(pair_texts(pairs@) =~= old_texts.push(pair));
                    assert(pair_texts(pairs@).drop_last() =~= old_texts);
                    assert(distinct_names(pair_texts(pairs@))) by {
                        let p = pair_texts(pairs@);
                        assert forall|a: int, b: int| 0 <= a < b < p.len() implies (
                        #[trigger] p[a]).0 != (#[trigger] p[b]).0 by {
                            assert(p[a].0 == before[a].0@);
                            if b < before.len() {
                                assert(old_texts[a].0 != old_texts[b].0);
                            }
                        }
                    }
                }
            },
        }
        EnvList { pairs }
    }

    /// The variables with those of a list on top.
    pub fn with_all(self, list: &Vec<(String, String)>) -> (r: EnvList)
        ensures
            r@ == overlaid(self@, pair_texts(list@)),
    {
        let ghost base = self@;
        let ghost all = pair_texts(list@);
        let mut r: EnvList = self;
        let mut i: usize = 0;
        assert(all.take(0) =~= Seq::<(Seq<char>, Seq<char>)>::empty());
        while i < list.len()
            invariant
                i <= list@.len(),
                all == pair_texts(list@),
                r@ == overlaid(base, all.take(i as int)),
            decreases list@.len() - i,
        {
            let ghost next = all.take(i + 1);
            assert(next.drop_last() =~= all.take(i as int));
            assert(next.last() == (list@[i as int].0@, list@[i as int].1@));
            r = r.with(list[i].0.clone(), list[i].1.clone());
            i = i + 1;
        }
        assert(all.take(all.len() as int) =~= all);
        r
    }

    /// The variables with those of another set on top.
    pub fn under(self, other: &EnvList) -> (r: EnvList)
        ensures
            r@ == self@.union_prefer_right(other@),
    {
        proof {
            lemma_overlaid_union(self@, pair_texts(other.pairs@));
        }
        self.with_all(&other.pairs)
    }

    /// The names and values, each name once.
    pub fn entries(self) -> (r: Vec<(String, String)>)
        ensures
            distinct_names(pair_texts(r@)),
            overlaid(Map::empty(), pair_texts(r@)) == self@,
    {
        proof {
            use_type_invariant(&self);
        }
        self.pairs
    }
}

/// A name that a list sets takes the value that comes last in the list.
pub proof fn law_last_value_prevails(
    base: Map<Seq<char>, Seq<char>>,
    pairs: Seq<(Seq<char>, Seq<char>)>,
    i: int,
)
    requires
        0 <= i < pairs.len(),
        forall|j: int| i < j < pairs.len() ==> (#[trigger] pairs[j]).0 != pairs[i].0,
    ensures
        overlaid(base, pairs).contains_key(pairs[i].0),
        overlaid(base, pairs)[pairs[i].0] == pairs[i].1,
    decreases pairs.len(),
{
    if i < pairs.len() - 1 {
        let front = pairs.drop_last();
        assert forall|j: int| i < j < front.len() implies (#[trigger] front[j]).0 != front[i].0 by {
            assert(pairs[j].0 != pairs[i].0);
        }
        law_last_value_prevails(base, front, i);
        assert(pairs[pairs.len() - 1].0 != pairs[i].0);
    }
}

/// A name that a list does not set keeps what it had.
pub proof fn law_other_names_stay(
    base: Map<Seq<char>, Seq<char>>,
    pairs: Seq<(Seq<char>, Seq<char>)>,
    name: Seq<char>,
)
    requires
        forall|i: int| 0 <= i < pairs.len() ==> (#[trigger] pairs[i]).0 != name,
    ensures
        overlaid(base, pairs).contains_key(name) == base.contains_key(name),
        base.contains_key(name) ==> overlaid(base, pairs)[name] == base[name],
    decreases pairs.len(),
{
    if pairs.len() > 0 {
        let front = pairs.drop_last();
        assert forall|i: int| 0 <= i < front.len() implies (#[trigger] front[i]).0 != name by {
            assert(pairs[i].0 != name);
        }
        law_other_names_stay(base, front, name);
        assert(pairs[pairs.len() - 1].0 != name);
    }
}

} // verus!
