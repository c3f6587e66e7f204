//! A table of values under textual keys.

use vstd::prelude::*;
use crate::text::same_text;

verus! {

/// Values, each under a key of its own, in the order in which the keys came.
pub struct Table<V> {
    entries: Vec<(String, V)>,
}

impl<V> Table<V> {
    /// The keys, in the order in which they came.
    pub closed spec fn keys(self) -> Seq<Seq<char>> {
        self.entries@.map_values(|e: (String, V)| e.0@)
    }

    /// No key occurs twice.
    pub open spec fn wf(self) -> bool {
        self.keys().no_duplicates()
    }

    spec fn at(self, k: Seq<char>) -> V {
        self.entries@[self.keys().index_of(k)].1
    }
}

impl<V> View for Table<V> {
    type V = Map<Seq<char>, V>;

    /// What stands under each key.
    closed spec fn view(&self) -> Map<Seq<char>, V> {
        Map::new(|k: Seq<char>| self.keys().contains(k), |k: Seq<char>| self.at(k))
    }
}

impl<V> Table<V> {
    proof fn lemma_at(self, i: int)
        requires
            self.wf(),
            0 <= i < self.entries@.len(),
        ensures
            self.keys()[i] == self.entries@[i].0@,
            self@.contains_key(self.entries@[i].0@),
            self@[self.entries@[i].0@] == self.entries@[i].1,
    {
        let k = self.entries@[i].0@;
        assert(self.keys()[i] == k);
        assert(self.keys().contains(k));
        let j = self.keys().index_of(k);
        assert(self.keys()[j] == k);
    }

    /// The keys are those under which something stands.
    pub proof fn lemma_keys(self)
        ensures
            forall|k: Seq<char>| self@.contains_key(k) <==> #[trigger] self.keys().contains(k),
    {
    }

    pub fn new() -> (r: Self)
        ensures
            r.wf(),
            r@ == Map::<Seq<char>, V>::empty(),
            r.keys() == Seq::<Seq<char>>::empty(),
    {
        let r = Table { entries: Vec::new() };
        assert(r.keys() =~= Seq::empty());
        assert(r@ =~= Map::empty());
        r
    }

    pub fn len(&self) -> (r: usize)
        ensures
            r == self.keys().len(),
    {
        self.entries.len()
    }

    fn position(&self, key: &str) -> (r: Option<usize>)
        requires
            self.wf(),
        ensures
            r is None <==> !self@.contains_key(key@),
            r matches Some(i) ==> i < self.entries@.len() && self.entries@[i as int].0@ == key@
                && self.entries@[i as int].1 == self@[key@],
    {
        for i in 0..self.entries.len()
            invariant
                self.wf(),
                forall|j: int| 0 <= j < i ==> (#[trigger] self.entries@[j]).0@ != key@,
        {
            if same_text(self.entries[i].0.as_str(), key) {
                proof {
                    self.lemma_at(i as int);
                }
                return Some(i);
            }
        }
        assert(!self.keys().contains(key@));
        None
    }

    /// The value of the entry that came as the `i`th.
    pub fn nth(&self, i: usize) -> (r: &V)
        requires
            self.wf(),
            i < self.keys().len(),
        ensures
            self@.contains_key(self.keys()[i as int]),
            *r == self@[self.keys()[i as int]],
    {
        proof {
            self.lemma_at(i as int);
        }
        &self.entries[i].1
    }

    /// What stands under `key`.
    pub fn get(&self, key: &str) -> (r: Option<&V>)
        requires
            self.wf(),
        ensures
            r is Some <==> self@.contains_key(key@),
            r matches Some(v) ==> *v == self@[key@],
    {
        match self.position(key) {
            Some(i) => Some(&self.entries[i].1),
            None => None,
        }
    }

    /// What stands under `key`, to be changed.
    pub fn get_mut(&mut self, key: &str) -> (r: Option<&mut V>)
        requires
            old(self).wf(),
        ensures
            r is Some <==> old(self)@.contains_key(key@),
            r is None ==> *final(self) == *old(self),
            r matches Some(v) ==> {
                &&& *v == old(self)@[key@]
                &&& final(self).wf()
                &&& final(self)@ == old(self)@.insert(key@, *final(v))
                &&& final(self).keys() == old(self).keys()
            },
    {
        match self.position(key) {
            Some(i) => {
                let ghost before = *self;
                proof {
                    assert forall|after: Table<V>, v: V|
                        #![trigger after.entries@, before.entries@.update(i as int, (before.entries@[i as int].0, v))]
                        after.entries@ == before.entries@.update(
                            i as int,
                            (before.entries@[i as int].0, v),
                        ) implies after.wf() && after.keys() == before.keys() && after@
                        == before@.insert(key@, v) by {
                        lemma_set(before, after, i as int, v);
                    }
                }
                Some(&mut self.entries[i].1)
            },
            None => None,
        }
    }

    /// Puts `value` under `key` and hands back what stood there before.
    pub fn insert(&mut self, key: String, value: V) -> (r: Option<V>)
        requires
            old(self).wf(),
        ensures
            final(self).wf(),
            final(self)@ == old(self)@.insert(key@, value),
            final(self).keys() == if old(self)@.contains_key(key@) {
                old(self).keys()
            } else {
                old(self).keys().push(key@)
            },
            r is Some <==> old(self)@.contains_key(key@),
            r matches Some(v) ==> v == old(self)@[key@],
    {
        match self.get_mut(key.as_str()) {
            Some(place) => {
                let mut v = value;
                std::mem::swap(place, &mut v);
                return Some(v);
            },
            None => {},
        }
        let ghost before = *self;
        proof {
            self.lemma_keys();
        }
        self.entries.push((key, value));
        proof {
            assert(self.keys() =~= before.keys().push(key@));
            assert(self.keys().no_duplicates());
            assert forall|k: Seq<char>| self.keys().contains(k) implies self.at(k)
                == before@.insert(key@, value)[k] by {
                let i = self.keys().index_of(k);
                self.lemma_at(i);
                if i < before.entries@.len() {
                    before.lemma_at(i);
                }
            }
            assert forall|k: Seq<char>| before@.insert(key@, value).contains_key(
                k,
            ) implies self.keys().contains(k) by {
                if k == key@ {
                    self.lemma_at(before.entries@.len() as int);
                } else {
                    let i = before.keys().index_of(k);
                    assert(self.keys()[i] == k);
                }
            }
            assert(self@ =~= before@.insert(key@, value));
        }
        None
    }

    /// Takes away what stands under `key`.
    pub fn remove(&mut self, key: &str) -> (r: Option<V>)
        requires
            old(self).wf(),
        ensures
            final(self).wf(),
            final(self)@ == old(self)@.remove(key@),
            final(self).keys() == old(self).keys().filter(|k: Seq<char>| k != key@),
            r is Some <==> old(self)@.contains_key(key@),
            r matches Some(v) ==> v == old(self)@[key@],
    {
        let ghost before = *self;
        let ghost other = |k: Seq<char>| k != key@;
        match self.position(key) {
            Some(i) => {
                let e = self.entries.remove(i);
                proof {
                    let ks = before.keys();
                    assert(self.keys() =~= ks.remove(i as int));
                    assert(ks[i as int] == key@);
                    assert(self.keys().no_duplicates());
                    let a = ks.take(i as int);
                    let b = ks.skip(i + 1);
                    assert(ks =~= a.push(key@) + b);
                    Seq::filter_distributes_over_add(a.push(key@), b, other);
                    a.lemma_filter_push(key@, other);
                    lemma_filter_all(a, other);
                    lemma_filter_all(b, other);
                    assert(self.keys() =~= a + b);
                    assert forall|k: Seq<char>| self.keys().contains(k) implies k != key@
                        && before.keys().contains(k) && self.at(k) == before.at(k) by {
                        let j = self.keys().index_of(k);
                        self.lemma_at(j);
                        let j0 = if j < i {
                            j
                        } else {
                            j + 1
                        };
                        before.lemma_at(j0);
                    }
                    assert forall|k: Seq<char>| k != key@ && before.keys().contains(
                        k,
                    ) implies self.keys().contains(k) by {
                        let j = before.keys().index_of(k);
                        if j < i {
                            assert(self.keys()[j] == k);
                        } else {
                            assert(self.keys()[j - 1] == k);
                        }
                    }
                    assert(self@ =~= before@.remove(key@));
                }
                Some(e.1)
            },
            None => {
                proof {
                    self.lemma_keys();
                    lemma_filter_all(self.keys(), other);
                    assert(self@ =~= before@.remove(key@));
                }
                None
            },
        }
    }
}

/// A filter that keeps everything keeps the sequence.
proof fn lemma_filter_all<A>(s: Seq<A>, f: spec_fn(A) -> bool)
    requires
        forall|i: int| 0 <= i < s.len() ==> f(#[trigger] s[i]),
    ensures
        s.filter(f) == s,
    decreases s.len(),
{
    reveal(Seq::filter);
    if s.len() > 0 {
        lemma_filter_all(s.drop_last(), f);
        assert(s.drop_last().push(s.last()) =~= s);
    }
}

/// Changing the value of one entry changes what stands under its key.
proof fn lemma_set<V>(a: Table<V>, b: Table<V>, i: int, v: V)
    requires
        a.wf(),
        0 <= i < a.entries@.len(),
        b.entries@ == a.entries@.update(i, (a.entries@[i].0, v)),
    ensures
        b.wf(),
        b.keys() == a.keys(),
        b@ == a@.insert(a.entries@[i].0@, v),
{
    assert(b.keys() =~= a.keys());
    a.lemma_at(i);
    b.lemma_at(i);
    assert forall|k: Seq<char>| b.keys().contains(k) implies b.at(k) == a@.insert(
        a.entries@[i].0@,
        v,
    )[k] by {
        let j = b.keys().index_of(k);
        b.lemma_at(j);
        a.lemma_at(j);
    }
    assert(b@ =~= a@.insert(a.entries@[i].0@, v));
}

} // verus!
