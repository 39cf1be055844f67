//! Sets of names, maps keyed by a name, and the keys of maps keyed by a number.

use crate::ir::model;
use crate::text;
use std::collections::BTreeMap;
use vstd::prelude::*;

verus! {

/// Whether `name` is one of the texts.
pub fn contains_name(v: &Vec<String>, name: &str) -> (r: bool)
    ensures
        r == model::texts(v@).contains(name@),
{
    let ghost all = model::texts(v@);
    let mut i: usize = 0;
    while i < v.len()
        invariant
            i <= v.len(),
            all == model::texts(v@),
            forall|k: int| 0 <= k < i ==> all[k] != name@,
        decreases v.len() - i,
    {
        if text::same(&v[i], name) {
            assert(all[i as int] == name@);
            return true;
        }
        i += 1;
    }
    false
}

/// A set of names.
pub struct NameSet {
    items: Vec<String>,
}

impl NameSet {
    /// The names in the set.
    pub closed spec fn view(&self) -> Set<Seq<char>> {
        model::texts(self.items@).to_set()
    }

    /// There are finitely many names in a set.
    pub proof fn lemma_finite(&self)
        ensures
            self@.finite(),
    {
    }

    pub fn new() -> (r: NameSet)
        ensures
            r@ == Set::<Seq<char>>::empty(),
    {
        let r = NameSet { items: Vec::new() };
        assert(r@ =~= Set::<Seq<char>>::empty());
        r
    }

    pub fn contains(&self, name: &str) -> (r: bool)
        ensures
            r == self@.contains(name@),
    {
        contains_name(&self.items, name)
    }

    pub fn insert(&mut self, name: &str)
        ensures
            final(self)@ == old(self)@.insert(name@),
    {
        let ghost before = model::texts(self.items@);
        if !contains_name(&self.items, name) {
            self.items.push(name.to_owned());
            let ghost after = model::texts(self.items@);
            assert(after =~= before.push(name@));
            assert forall|n: Seq<char>|
                self@.contains(n) == old(self)@.insert(name@).contains(n) by {
                if before.contains(n) {
                    let k = choose|k: int| 0 <= k < before.len() && before[k] == n;
                    assert(after[k] == n);
                }
                if n == name@ {
                    assert(after[before.len() as int] == n);
                }
            }
            assert(self@ =~= old(self)@.insert(name@));
        } else {
            assert(self@ =~= old(self)@.insert(name@));
        }
    }

    pub fn is_empty(&self) -> (r: bool)
        ensures
            r == (self@ == Set::<Seq<char>>::empty()),
    {
        let ghost all = model::texts(self.items@);
        if self.items.len() == 0 {
            assert(self@ =~= Set::<Seq<char>>::empty());
            true
        } else {
            assert(all.contains(all[0]));
            assert(self@.contains(all[0]));
            false
        }
    }
}

/// A map keyed by a name. A later entry for a name hides an earlier one.
pub struct Dict<V> {
    entries: Vec<(String, V)>,
}

/// The map that a list of entries stands for.
pub open spec fn entries_map<V>(s: Seq<(String, V)>) -> Map<Seq<char>, V>
    decreases s.len(),
{
    if s.len() == 0 {
        Map::empty()
    } else {
        entries_map(s.drop_last()).insert(s.last().0@, s.last().1)
    }
}

impl<V> Dict<V> {
    /// The map from names to values.
    pub closed spec fn view(&self) -> Map<Seq<char>, V> {
        entries_map(self.entries@)
    }

    pub fn new() -> (r: Dict<V>)
        ensures
            r@ == Map::<Seq<char>, V>::empty(),
    {
        Dict { entries: Vec::new() }
    }

    pub fn insert(&mut self, name: &str, value: V)
        ensures
            final(self)@ == old(self)@.insert(name@, value),
    {
        let ghost before = self.entries@;
        self.entries.push((name.to_owned(), value));
        assert(self.entries@.drop_last() =~= before);
    }

    pub fn get(&self, name: &str) -> (r: Option<&V>)
        ensures
            match r {
                Some(v) => self@.dom().contains(name@) && self@[name@] == *v,
                None => !self@.dom().contains(name@),
            },
    {
        let mut i: usize = self.entries.len();
        assert(self.entries@.take(i as int) =~= self.entries@);
        while i > 0
            invariant
                i <= self.entries@.len(),
                self@.dom().contains(name@) == entries_map(
                    self.entries@.take(i as int),
                ).dom().contains(name@),
                self@.dom().contains(name@) ==> self@[name@] == entries_map(
                    self.entries@.take(i as int),
                )[name@],
            decreases i,
        {
            assert(self.entries@.take(i as int).drop_last() =~= self.entries@.take(i - 1));
            let e = &self.entries[i - 1];
            if text::same(&e.0, name) {
                return Some(&e.1);
            }
            i -= 1;
        }
        assert(self.entries@.take(0) =~= Seq::empty());
        None
    }

    pub fn contains(&self, name: &str) -> (r: bool)
        ensures
            r == self@.dom().contains(name@),
    {
        self.get(name).is_some()
    }
}

proof fn lemma_increasing(ks: Seq<u32>)
    requires
        vstd::std_specs::btree::increasing_seq(ks),
    ensures
        forall|i: int, j: int| 0 <= i < j < ks.len() ==> ks[i] < ks[j],
{
    broadcast use vstd::std_specs::btree::group_btree_axioms;
    broadcast use vstd::laws_cmp::group_laws_cmp;

    assert forall|i: int, j: int| 0 <= i < j < ks.len() implies ks[i] < ks[j] by {
        assert(vstd::std_specs::cmp::OrdSpec::cmp_spec(&ks[i], &ks[j]) is Less);
    }
}

/// The keys of a map in increasing order.
pub fn keys_in_order<V>(m: &BTreeMap<u32, V>) -> (r: Vec<u32>)
    ensures
        forall|k: u32| #[trigger] r@.contains(k) <==> m@.dom().contains(k),
        forall|i: int, j: int| 0 <= i < j < r@.len() ==> r@[i] < r@[j],
{
    broadcast use vstd::std_specs::btree::group_btree_axioms;

    let mut out: Vec<u32> = Vec::new();
    let pairs = m.iter();
    let ghost all = vstd::std_specs::iter::IteratorSpec::remaining(&pairs);
    let ghost ks = all.map_values(|kv: (&u32, &V)| *kv.0);
    proof {
        lemma_increasing(ks);
    }
    for kv in it: pairs
        invariant
            it.seq() == all,
            ks == all.map_values(|kv: (&u32, &V)| *kv.0),
            out@ == ks.take(it.index()),
    {
        let ghost at = it.index();
        assert(ks[at] == *kv.0);
        assert(ks.take(at + 1) =~= ks.take(at).push(*kv.0));
        out.push(*kv.0);
    }
    assert(out@ =~= ks);
    assert forall|k: u32| #[trigger] out@.contains(k) <==> m@.dom().contains(k) by {
        if m@.contains_key(k) {
            assert(all.contains((&k, &m@[k])));
            let i = choose|i: int| 0 <= i < all.len() && all[i] == (&k, &m@[k]);
            assert(ks[i] == k);
        }
        if out@.contains(k) {
            let i = choose|i: int| 0 <= i < ks.len() && ks[i] == k;
            assert(m@.contains_key(*all[i].0));
        }
    }
    out
}

} // verus!
