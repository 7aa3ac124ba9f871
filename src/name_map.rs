//! An ordered map from names to values, kept as a list of pairs with
//! distinct names. The order of insertion is kept: variable expansion visits
//! variables in that order.
use crate::text::same_text;
use vstd::prelude::*;

verus! {

/// Index of the last pair named `k`, or -1 when there is none.
pub open spec fn index_of<X>(p: Seq<(Seq<char>, X)>, k: Seq<char>) -> int
    decreases p.len(),
{
    if p.len() == 0 {
        -1
    } else if p.last().0 == k {
        p.len() - 1
    } else {
        index_of(p.drop_last(), k)
    }
}

/// The map that a list of pairs denotes: the last pair of a name wins.
pub open spec fn map_of<X>(p: Seq<(Seq<char>, X)>) -> Map<Seq<char>, X> {
    Map::new(|k: Seq<char>| index_of(p, k) >= 0, |k: Seq<char>| p[index_of(p, k)].1)
}

/// No name occurs twice.
pub open spec fn names_unique<X>(p: Seq<(Seq<char>, X)>) -> bool {
    forall|i: int, j: int| 0 <= i < p.len() && 0 <= j < p.len() && i != j ==> p[i].0 != p[j].0
}

/// The pairs after setting `k` to `v`: in place where `k` is present, at the
/// end otherwise.
pub open spec fn pairs_insert<X>(p: Seq<(Seq<char>, X)>, k: Seq<char>, v: X) -> Seq<
    (Seq<char>, X),
> {
    if index_of(p, k) >= 0 {
        p.update(index_of(p, k), (k, v))
    } else {
        p.push((k, v))
    }
}

pub proof fn lemma_index_of<X>(p: Seq<(Seq<char>, X)>, k: Seq<char>)
    ensures
        -1 <= index_of(p, k) < p.len(),
        index_of(p, k) >= 0 ==> p[index_of(p, k)].0 == k,
        forall|t: int| index_of(p, k) < t < p.len() ==> p[t].0 != k,
    decreases p.len(),
{
    if p.len() > 0 && p.last().0 != k {
        lemma_index_of(p.drop_last(), k);
        assert forall|t: int| index_of(p, k) < t < p.len() implies p[t].0 != k by {
            if t < p.len() - 1 {
                assert(p[t] == p.drop_last()[t]);
            }
        }
    }
}

proof fn lemma_index_of_unique<X>(p: Seq<(Seq<char>, X)>, k: Seq<char>, i: int)
    requires
        0 <= i < p.len(),
        p[i].0 == k,
        forall|t: int| i < t < p.len() ==> p[t].0 != k,
    ensures
        index_of(p, k) == i,
    decreases p.len(),
{
    if i < p.len() - 1 {
        lemma_index_of_unique(p.drop_last(), k, i);
    }
}

/// `map_of` after a push is the map with the new pair inserted.
pub proof fn lemma_map_of_push<X>(p: Seq<(Seq<char>, X)>, k: Seq<char>, v: X)
    ensures
        map_of(p.push((k, v))) == map_of(p).insert(k, v),
{
    let q = p.push((k, v));
    assert(q.drop_last() =~= p);
    assert forall|j: Seq<char>| j != k implies index_of(q, j) == index_of(p, j) && (index_of(p, j)
        >= 0 ==> q[index_of(p, j)] == p[index_of(p, j)]) by {
        lemma_index_of(p, j);
    }
    assert(map_of(q) =~= map_of(p).insert(k, v));
}

proof fn lemma_index_of_update<X>(p: Seq<(Seq<char>, X)>, i: int, k: Seq<char>, v: X, j: Seq<char>)
    requires
        0 <= i < p.len(),
        p[i].0 == k,
        j != k,
    ensures
        index_of(p.update(i, (k, v)), j) == index_of(p, j),
    decreases p.len(),
{
    let q = p.update(i, (k, v));
    if i < p.len() - 1 {
        assert(q.drop_last() =~= p.drop_last().update(i, (k, v)));
        lemma_index_of_update(p.drop_last(), i, k, v, j);
    } else {
        assert(q.drop_last() =~= p.drop_last());
    }
}

/// `pairs_insert` denotes `Map::insert`, and keeps names distinct.
pub proof fn lemma_pairs_insert<X>(p: Seq<(Seq<char>, X)>, k: Seq<char>, v: X)
    ensures
        map_of(pairs_insert(p, k, v)) == map_of(p).insert(k, v),
        names_unique(p) ==> names_unique(pairs_insert(p, k, v)),
{
    lemma_index_of(p, k);
    if index_of(p, k) >= 0 {
        let i = index_of(p, k);
        let q = p.update(i, (k, v));
        lemma_index_of_unique(q, k, i);
        assert forall|j: Seq<char>| j != k implies index_of(q, j) == index_of(p, j) && (index_of(
            p,
            j,
        ) >= 0 ==> q[index_of(p, j)] == p[index_of(p, j)]) by {
            lemma_index_of_update(p, i, k, v, j);
            lemma_index_of(p, j);
        }
        assert(map_of(q) =~= map_of(p).insert(k, v));
    } else {
        lemma_map_of_push(p, k, v);
        let q = p.push((k, v));
        assert forall|a: int, b: int|
            names_unique(p) && 0 <= a < q.len() && 0 <= b < q.len() && a != b implies q[a].0
            != q[b].0 by {
            if a == p.len() && b < p.len() {
                assert(p[b].0 != k);
            }
            if b == p.len() && a < p.len() {
                assert(p[a].0 != k);
            }
        }
    }
}

/// With distinct names, the map holds each pair's value under its name.
pub proof fn lemma_map_of_unique<X>(p: Seq<(Seq<char>, X)>, i: int)
    requires
        names_unique(p),
        0 <= i < p.len(),
    ensures
        map_of(p).contains_key(p[i].0),
        map_of(p)[p[i].0] == p[i].1,
{
    lemma_index_of_unique(p, p[i].0, i);
}

/// A name is in the map exactly when some pair carries it.
pub proof fn lemma_map_of_dom<X>(p: Seq<(Seq<char>, X)>, k: Seq<char>)
    ensures
        map_of(p).contains_key(k) <==> exists|i: int| 0 <= i < p.len() && p[i].0 == k,
{
    lemma_index_of(p, k);
    if exists|i: int| 0 <= i < p.len() && p[i].0 == k {
        let i = choose|i: int| 0 <= i < p.len() && p[i].0 == k;
        if index_of(p, k) < 0 {
            assert(p[i].0 != k);
        }
    }
}

/// Names bound to values, in insertion order, each name once.
#[derive(Debug)]
pub struct NameMap<V> {
    pub entries: Vec<(String, V)>,
}

impl<V: View> View for NameMap<V> {
    type V = Map<Seq<char>, V::V>;

    open spec fn view(&self) -> Map<Seq<char>, V::V> {
        map_of(self.pairs())
    }
}

impl<V: View> NameMap<V> {
    /// The pairs as names and viewed values, in order.
    pub open spec fn pairs(&self) -> Seq<(Seq<char>, V::V)> {
        self.entries@.map_values(|e: (String, V)| (e.0@, e.1@))
    }

    pub open spec fn wf(&self) -> bool {
        names_unique(self.pairs())
    }

    pub fn new() -> (r: Self)
        ensures
            r.wf(),
            r.entries@.len() == 0,
            r.pairs() == Seq::<(Seq<char>, V::V)>::empty(),
            r@ == Map::<Seq<char>, V::V>::empty(),
    {
        let r = NameMap { entries: Vec::new() };
        assert(r.pairs() =~= Seq::<(Seq<char>, V::V)>::empty());
        assert(r@ =~= Map::<Seq<char>, V::V>::empty());
        r
    }

    pub fn len(&self) -> (r: usize)
        ensures
            r == self.pairs().len(),
    {
        self.entries.len()
    }

    /// The position of the pair named `name`.
    pub fn position(&self, name: &str) -> (r: Option<usize>)
        ensures
            r is Some ==> r->0 == index_of(self.pairs(), name@),
            r is None <==> index_of(self.pairs(), name@) < 0,
    {
        let ghost p = self.pairs();
        let mut j: usize = self.entries.len();
        while j > 0
            invariant
                j <= p.len(),
                p == self.pairs(),
                p.len() == self.entries@.len(),
                forall|t: int| j <= t < p.len() ==> p[t].0 != name@,
            decreases j,
        {
            if same_text(self.entries[j - 1].0.as_str(), name) {
                proof {
                    lemma_index_of_unique(p, name@, j - 1);
                }
                return Some(j - 1);
            }
            j = j - 1;
        }
        proof {
            lemma_index_of(p, name@);
        }
        None
    }

    pub fn contains_key(&self, name: &str) -> (r: bool)
        ensures
            r == self@.contains_key(name@),
    {
        self.position(name).is_some()
    }

    pub fn get(&self, name: &str) -> (r: Option<&V>)
        ensures
            r is Some <==> self@.contains_key(name@),
            r is Some ==> r->0@ == self@[name@],
    {
        proof {
            lemma_index_of(self.pairs(), name@);
        }
        assert(self.pairs().len() == self.entries@.len());
        match self.position(name) {
            Some(i) => Some(&self.entries[i].1),
            None => None,
        }
    }

    /// Binds `name` to `value`, replacing a previous binding in place.
    pub fn insert(&mut self, name: String, value: V)
        requires
            old(self).wf(),
        ensures
            final(self).wf(),
            final(self).pairs() == pairs_insert(old(self).pairs(), name@, value@),
            final(self)@ == old(self)@.insert(name@, value@),
            index_of(old(self).pairs(), name@) >= 0 ==> final(self).entries@ == old(
                self,
            ).entries@.update(index_of(old(self).pairs(), name@), (name, value)),
            index_of(old(self).pairs(), name@) < 0 ==> final(self).entries@ == old(
                self,
            ).entries@.push((name, value)),
    {
        let ghost p = self.pairs();
        assert(p.len() == self.entries@.len());
        proof {
            lemma_pairs_insert(p, name@, value@);
            lemma_index_of(p, name@);
        }
        match self.position(name.as_str()) {
            Some(i) => {
                self.entries.set(i, (name, value));
                assert(self.pairs() =~= pairs_insert(p, name@, value@));
            },
            None => {
                self.entries.push((name, value));
                assert(self.pairs() =~= pairs_insert(p, name@, value@));
            },
        }
    }
}

} // verus!
