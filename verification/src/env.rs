//! Name-keyed environments. The typestate verifier tracks a state
//! environment mapping each peripheral name to its current state name; the
//! walk over the control-flow graph also keeps a set of visited block ids.
//! Both are modelled exactly: the environment as an ordered sequence of
//! key/value pairs (first occurrence wins), the visited set as a set of ids.

use vstd::prelude::*;

verus! {

/// The value bound to the first occurrence of key `k`, if any.
pub open spec fn assoc_find<V>(e: Seq<(Seq<char>, V)>, k: Seq<char>) -> Option<V>
    decreases e.len(),
{
    if e.len() == 0 {
        None
    } else if e[0].0 == k {
        Some(e[0].1)
    } else {
        assoc_find(e.drop_first(), k)
    }
}

/// Binds `k` to `v`: replaces the first occurrence of `k` in place, or
/// appends the pair when `k` is absent.
pub open spec fn assoc_set<V>(e: Seq<(Seq<char>, V)>, k: Seq<char>, v: V) -> Seq<(Seq<char>, V)>
    decreases e.len(),
{
    if e.len() == 0 {
        seq![(k, v)]
    } else if e[0].0 == k {
        seq![(k, v)] + e.drop_first()
    } else {
        seq![e[0]] + assoc_set(e.drop_first(), k, v)
    }
}

/// When no key among the first `i` entries is `k`, the search result is the
/// search result of the rest.
pub proof fn lemma_assoc_find_skip<V>(e: Seq<(Seq<char>, V)>, k: Seq<char>, i: int)
    requires
        0 <= i <= e.len(),
        forall|j: int| 0 <= j < i ==> (#[trigger] e[j]).0 != k,
    ensures
        assoc_find(e, k) == assoc_find(e.skip(i), k),
    decreases i,
{
    if i > 0 {
        assert(e.drop_first().skip(i - 1) =~= e.skip(i));
        lemma_assoc_find_skip(e.drop_first(), k, i - 1);
    } else {
        assert(e.skip(0) =~= e);
    }
}

/// Setting a key found first at position `i` updates that entry in place.
pub proof fn lemma_assoc_set_at<V>(e: Seq<(Seq<char>, V)>, k: Seq<char>, v: V, i: int)
    requires
        0 <= i < e.len(),
        e[i].0 == k,
        forall|j: int| 0 <= j < i ==> (#[trigger] e[j]).0 != k,
    ensures
        assoc_set(e, k, v) =~= e.update(i, (k, v)),
    decreases i,
{
    if i == 0 {
        assert(assoc_set(e, k, v) =~= e.update(0, (k, v)));
    } else {
        lemma_assoc_set_at(e.drop_first(), k, v, i - 1);
        assert(assoc_set(e, k, v) =~= seq![e[0]] + e.drop_first().update(i - 1, (k, v)));
        assert(seq![e[0]] + e.drop_first().update(i - 1, (k, v)) =~= e.update(i, (k, v)));
    }
}

/// Setting an absent key appends the pair.
pub proof fn lemma_assoc_set_absent<V>(e: Seq<(Seq<char>, V)>, k: Seq<char>, v: V)
    requires
        forall|j: int| 0 <= j < e.len() ==> (#[trigger] e[j]).0 != k,
    ensures
        assoc_set(e, k, v) =~= e.push((k, v)),
    decreases e.len(),
{
    if e.len() > 0 {
        lemma_assoc_set_absent(e.drop_first(), k, v);
        assert(assoc_set(e, k, v) =~= seq![e[0]] + e.drop_first().push((k, v)));
        assert(seq![e[0]] + e.drop_first().push((k, v)) =~= e.push((k, v)));
    }
}

/// A state environment: peripheral name to current state name, in insertion
/// order.
#[derive(Debug)]
pub struct StateEnv {
    pub entries: Vec<(String, String)>,
}

impl View for StateEnv {
    type V = Seq<(Seq<char>, Seq<char>)>;

    open spec fn view(&self) -> Seq<(Seq<char>, Seq<char>)> {
        self.entries@.map_values(|p: (String, String)| (p.0@, p.1@))
    }
}

impl StateEnv {
    pub fn new() -> (r: Self)
        ensures
            r@ =~= Seq::<(Seq<char>, Seq<char>)>::empty(),
    {
        StateEnv { entries: Vec::new() }
    }

    pub fn len(&self) -> (r: usize)
        ensures
            r == self@.len(),
    {
        self.entries.len()
    }

    pub fn key_at(&self, i: usize) -> (r: &String)
        requires
            i < self@.len(),
        ensures
            r@ == self@[i as int].0,
    {
        &self.entries[i].0
    }

    pub fn value_at(&self, i: usize) -> (r: &String)
        requires
            i < self@.len(),
        ensures
            r@ == self@[i as int].1,
    {
        &self.entries[i].1
    }

    /// The state currently bound to `name`.
    pub fn get(&self, name: &String) -> (r: Option<&String>)
        ensures
            match r {
                Some(s) => assoc_find(self@, name@) == Some(s@),
                None => assoc_find(self@, name@) is None,
            },
    {
        let mut i: usize = 0;
        while i < self.entries.len()
            invariant
                i <= self@.len(),
                forall|j: int| 0 <= j < i ==> (#[trigger] self@[j]).0 != name@,
            decreases self@.len() - i,
        {
            if self.entries[i].0 == *name {
                proof {
                    lemma_assoc_find_skip(self@, name@, i as int);
                    assert(self@.skip(i as int)[0] == self@[i as int]);
                }
                return Some(&self.entries[i].1);
            }
            i = i + 1;
        }
        proof {
            lemma_assoc_find_skip(self@, name@, self@.len() as int);
        }
        None
    }

    /// Binds `name` to `value`, replacing an existing binding in place.
    pub fn set(&mut self, name: &String, value: &String)
        ensures
            final(self)@ =~= assoc_set(old(self)@, name@, value@),
    {
        let mut i: usize = 0;
        while i < self.entries.len()
            invariant
                i <= self@.len(),
                self@ == old(self)@,
                forall|j: int| 0 <= j < i ==> (#[trigger] self@[j]).0 != name@,
            decreases self@.len() - i,
        {
            if self.entries[i].0 == *name {
                self.entries.set(i, (name.clone(), value.clone()));
                proof {
                    lemma_assoc_set_at(old(self)@, name@, value@, i as int);
                    assert(final(self)@ =~= old(self)@.update(i as int, (name@, value@)));
                }
                return ;
            }
            i = i + 1;
        }
        self.entries.push((name.clone(), value.clone()));
        proof {
            lemma_assoc_set_absent(old(self)@, name@, value@);
            assert(final(self)@ =~= old(self)@.push((name@, value@)));
        }
    }

    /// An independent copy with the same contents.
    pub fn duplicate(&self) -> (r: Self)
        ensures
            r@ =~= self@,
    {
        let mut entries: Vec<(String, String)> = Vec::new();
        let mut i: usize = 0;
        while i < self.entries.len()
            invariant
                i <= self.entries@.len(),
                entries@.len() == i,
                forall|j: int|
                    0 <= j < i ==> (#[trigger] entries@[j]).0@ == self@[j].0 && entries@[j].1@
                        == self@[j].1,
            decreases self.entries@.len() - i,
        {
            entries.push((self.entries[i].0.clone(), self.entries[i].1.clone()));
            i = i + 1;
        }
        let r = StateEnv { entries };
        proof {
            assert(r@ =~= self@);
        }
        r
    }
}

/// A set of block ids drawn from `0..capacity`, as a membership vector.
#[derive(Debug)]
pub struct IdSet {
    pub bits: Vec<bool>,
    pub count: usize,
}

impl View for IdSet {
    type V = Set<int>;

    open spec fn view(&self) -> Set<int> {
        Set::new(|i: int| 0 <= i < self.bits@.len() && self.bits@[i])
    }
}

impl IdSet {
    /// All ids the set can hold are below this bound, and the view stays
    /// finite with `count` members.
    pub open spec fn wf(&self) -> bool {
        &&& self@.finite()
        &&& self@.len() == self.count
        &&& self.count <= self.bits@.len()
    }

    pub open spec fn capacity(&self) -> nat {
        self.bits@.len()
    }

    pub fn new(capacity: usize) -> (r: Self)
        ensures
            r.wf(),
            r@ =~= Set::<int>::empty(),
            r.capacity() == capacity,
    {
        let mut bits: Vec<bool> = Vec::new();
        let mut i: usize = 0;
        while i < capacity
            invariant
                i <= capacity,
                bits@.len() == i,
                forall|j: int| 0 <= j < i ==> !(#[trigger] bits@[j]),
            decreases capacity - i,
        {
            bits.push(false);
            i = i + 1;
        }
        let r = IdSet { bits, count: 0 };
        proof {
            assert(r@ =~= Set::<int>::empty());
        }
        r
    }

    pub fn contains(&self, id: usize) -> (r: bool)
        requires
            id < self.capacity(),
        ensures
            r == self@.contains(id as int),
    {
        self.bits[id]
    }

    pub fn insert(&mut self, id: usize)
        requires
            old(self).wf(),
            id < old(self).capacity(),
            !old(self)@.contains(id as int),
        ensures
            final(self).wf(),
            final(self)@ =~= old(self)@.insert(id as int),
            final(self).capacity() == old(self).capacity(),
            final(self).count == old(self).count + 1,
    {
        proof {
            let cap = old(self).bits@.len() as int;
            let rng = vstd::set_lib::set_int_range(0, cap);
            vstd::set_lib::lemma_int_range(0, cap);
            assert(old(self)@.insert(id as int).subset_of(rng));
            vstd::set_lib::lemma_len_subset(old(self)@.insert(id as int), rng);
            assert(old(self)@.insert(id as int).len() == old(self)@.len() + 1);
            assert(rng.len() == cap);
            assert(old(self).count + 1 <= cap);
            assert(old(self).bits@.len() == vstd::std_specs::vec::spec_vec_len(&old(self).bits));
        }
        self.bits.set(id, true);
        self.count = self.count + 1;
        proof {
            assert(final(self)@ =~= old(self)@.insert(id as int));
            assert(final(self)@.len() == final(self).count);
        }
    }

    /// An independent copy with the same contents.
    pub fn duplicate(&self) -> (r: Self)
        ensures
            r@ =~= self@,
            r.wf() == self.wf(),
            r.capacity() == self.capacity(),
            r.count == self.count,
    {
        let mut bits: Vec<bool> = Vec::new();
        let mut i: usize = 0;
        while i < self.bits.len()
            invariant
                i <= self.bits@.len(),
                bits@.len() == i,
                forall|j: int| 0 <= j < i ==> #[trigger] bits@[j] == self.bits@[j],
            decreases self.bits@.len() - i,
        {
            bits.push(self.bits[i]);
            i = i + 1;
        }
        let r = IdSet { bits, count: self.count };
        proof {
            assert(r@ =~= self@);
        }
        r
    }
}

} // verus!
