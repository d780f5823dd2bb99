use crate::error::SimError;
use std::collections::HashMap;
use vstd::prelude::*;

verus! {

broadcast use vstd::std_specs::hash::group_hash_axioms;

/// A value that carries its own key.
pub trait Keyed {
    /// The key of this value.
    spec fn key_of(&self) -> u64;

    fn store_key(&self) -> (k: u64)
        ensures
            k == self.key_of(),
    ;
}

/// `k` is the key of some element of `s`.
pub open spec fn has_key<V: Keyed>(s: Seq<V>, k: u64) -> bool {
    exists|i: int| 0 <= i < s.len() && (#[trigger] s[i]).key_of() == k
}

/// No two elements of `s` share a key.
pub open spec fn unique_keys<V: Keyed>(s: Seq<V>) -> bool {
    forall|i: int, j: int|
        0 <= i < s.len() && 0 <= j < s.len() && (#[trigger] s[i]).key_of() == (#[trigger] s[j]).key_of()
            ==> i == j
}

/// One operation on a store's contents `s`: `Some(v)` inserts `v`, which
/// appends it unless its key is present, and `None` clears.
pub open spec fn store_step<V: Keyed>(s: Seq<V>, op: Option<V>) -> Seq<V> {
    match op {
        Some(v) => if has_key(s, v.key_of()) {
            s
        } else {
            s.push(v)
        },
        None => Seq::empty(),
    }
}

/// The contents of a new store after the operations `ops`, in order.
pub open spec fn replay<V: Keyed>(ops: Seq<Option<V>>) -> Seq<V>
    decreases ops.len(),
{
    if ops.len() == 0 {
        Seq::empty()
    } else {
        store_step(replay(ops.drop_last()), ops.last())
    }
}

/// An insertion-ordered sequence of values with an index from key to position.
#[derive(Debug)]
pub struct KeyedStore<V> {
    items: Vec<V>,
    index: HashMap<u64, usize>,
}

impl<V: Keyed> View for KeyedStore<V> {
    type V = Seq<V>;

    /// The elements, in insertion order.
    closed spec fn view(&self) -> Seq<V> {
        self.items@
    }
}

impl<V: Keyed> KeyedStore<V> {
    /// The index maps exactly the elements' keys to their positions.
    pub closed spec fn index_consistent(&self) -> bool {
        &&& forall|i: int|
            0 <= i < self.items@.len() ==> #[trigger] self.index@.contains_key(
                self.items@[i].key_of(),
            ) && self.index@[self.items@[i].key_of()] == i
        &&& forall|k: u64|
            #[trigger] self.index@.contains_key(k) ==> self.index@[k] < self.items@.len()
                && self.items@[self.index@[k] as int].key_of() == k
    }

    /// Well-formedness: keys are unique and the index agrees with the sequence.
    pub open spec fn wf(&self) -> bool {
        self.index_consistent() && unique_keys(self@)
    }

    pub fn new() -> (r: Self)
        ensures
            r.wf(),
            r@ == Seq::<V>::empty(),
    {
        KeyedStore { items: Vec::new(), index: HashMap::new() }
    }

    pub fn len(&self) -> (r: usize)
        ensures
            r == self@.len(),
    {
        self.items.len()
    }

    /// Whether some element has key `k`.
    pub fn contains_key(&self, k: u64) -> (r: bool)
        requires
            self.wf(),
        ensures
            r == has_key(self@, k),
    {
        let r = self.index.contains_key(&k);
        proof {
            if has_key(self@, k) {
                let i = choose|i: int| 0 <= i < self@.len() && (#[trigger] self@[i]).key_of() == k;
                assert(self.index@.contains_key(self.items@[i].key_of()));
            }
            if r {
                assert(self@[self.index@[k] as int].key_of() == k);
            }
        }
        r
    }

    /// Appends `v`, unless its key is already present.
    pub fn insert(&mut self, v: V) -> (r: Result<(), SimError>)
        requires
            old(self).wf(),
        ensures
            final(self).wf(),
            has_key(old(self)@, v.key_of()) ==> r == Err::<(), SimError>(SimError::DuplicateKey)
                && final(self)@ == old(self)@,
            !has_key(old(self)@, v.key_of()) ==> r is Ok && final(self)@ == old(self)@.push(v),
            final(self)@ == store_step(old(self)@, Some(v)),
    {
        let k = v.store_key();
        if self.contains_key(k) {
            return Err(SimError::DuplicateKey);
        }
        let pos = self.items.len();
        self.items.push(v);
        self.index.insert(k, pos);
        proof {
            assert forall|i: int| 0 <= i < self.items@.len() implies #[trigger] self.index@.contains_key(
                self.items@[i].key_of(),
            ) && self.index@[self.items@[i].key_of()] == i by {
                if i < pos {
                    assert(old(self).items@[i] == self.items@[i]);
                    assert(old(self).index@.contains_key(old(self).items@[i].key_of()));
                    assert(old(self)@[i].key_of() != k);
                }
            }
            assert forall|i: int, j: int|
                0 <= i < self@.len() && 0 <= j < self@.len() && (#[trigger] self@[i]).key_of() == (
                #[trigger] self@[j]).key_of() implies i == j by {
                if i < pos && j < pos {
                    assert(old(self)@[i] == self@[i] && old(self)@[j] == self@[j]);
                } else if i < pos {
                    assert(old(self)@[i] == self@[i]);
                } else if j < pos {
                    assert(old(self)@[j] == self@[j]);
                }
            }
        }
        Ok(())
    }

    /// The element with key `k`.
    pub fn get(&self, k: u64) -> (r: Result<&V, SimError>)
        requires
            self.wf(),
        ensures
            has_key(self@, k) <==> r is Ok,
            !has_key(self@, k) ==> r == Err::<&V, SimError>(SimError::NotFound),
            r matches Ok(v) ==> self@.contains(*v) && v.key_of() == k,
            r matches Ok(v) ==> forall|i: int|
                0 <= i < self@.len() && (#[trigger] self@[i]).key_of() == k ==> *v == self@[i],
    {
        match self.index.get(&k) {
            Some(pos) => {
                let p = *pos;
                assert(self@[p as int].key_of() == k);
                assert(forall|i: int|
                    0 <= i < self@.len() && (#[trigger] self@[i]).key_of() == k ==> i == p as int);
                Ok(&self.items[p])
            },
            None => {
                proof {
                    if has_key(self@, k) {
                        let i = choose|i: int| 0 <= i < self@.len() && (#[trigger] self@[i]).key_of() == k;
                        assert(self.index@.contains_key(self.items@[i].key_of()));
                    }
                }
                Err(SimError::NotFound)
            },
        }
    }

    /// The element at position `i` of the insertion order.
    pub fn get_at(&self, i: usize) -> (r: &V)
        requires
            i < self@.len(),
        ensures
            *r == self@[i as int],
    {
        &self.items[i]
    }

    /// Mutable access to the element at position `i`. The store stays
    /// well-formed when the caller leaves the element's key as it was.
    pub fn get_mut_at(&mut self, i: usize) -> (r: &mut V)
        requires
            old(self).wf(),
            i < old(self)@.len(),
        ensures
            *r == old(self)@[i as int],
            final(self)@ == old(self)@.update(i as int, *final(r)),
            final(r).key_of() == old(self)@[i as int].key_of() ==> final(self).wf(),
    {
        &mut self.items[i]
    }

    /// All elements, in insertion order.
    pub fn as_slice(&self) -> (r: &[V])
        ensures
            r@ == self@,
    {
        self.items.as_slice()
    }

    /// Removes every element and every index entry.
    pub fn clear(&mut self)
        ensures
            final(self).wf(),
            final(self)@ == Seq::<V>::empty(),
            final(self)@ == store_step(old(self)@, None),
    {
        self.items.clear();
        self.index.clear();
    }
}

} // verus!

verus! {

/// In a well-formed store a present key belongs to exactly one element, so a
/// lookup by that key has one possible answer. Every operation that changes a
/// store keeps it well-formed, so this holds after any sequence of them.
pub proof fn lemma_key_names_one_element<V: Keyed>(s: &KeyedStore<V>, k: u64)
    requires
        s.wf(),
        has_key(s@, k),
    ensures
        exists|i: int|
            0 <= i < s@.len() && (#[trigger] s@[i]).key_of() == k && forall|j: int|
                0 <= j < s@.len() && (#[trigger] s@[j]).key_of() == k ==> j == i,
{
    let i = choose|i: int| 0 <= i < s@.len() && (#[trigger] s@[i]).key_of() == k;
    assert(0 <= i < s@.len() && s@[i].key_of() == k);
}

} // verus!

verus! {

/// Whatever inserts and clears are applied to a new store, no two elements
/// share a key, and every element present was inserted by one of the
/// operations since the last clear, in the order of those operations.
pub proof fn lemma_replay_consistent<V: Keyed>(ops: Seq<Option<V>>)
    ensures
        unique_keys(replay(ops)),
        forall|i: int|
            0 <= i < replay(ops).len() ==> exists|j: int|
                0 <= j < ops.len() && ops[j] == Some(#[trigger] replay(ops)[i]),
        forall|i: int, i2: int|
            0 <= i < i2 < replay(ops).len() ==> exists|j: int, j2: int|
                0 <= j < j2 < ops.len() && ops[j] == Some(#[trigger] replay(ops)[i]) && ops[j2]
                    == Some(#[trigger] replay(ops)[i2]),
    decreases ops.len(),
{
    if ops.len() > 0 {
        let prev = ops.drop_last();
        lemma_replay_consistent(prev);
        let s = replay(prev);
        let t = replay(ops);
        assert forall|i: int| 0 <= i < t.len() implies exists|j: int|
            0 <= j < ops.len() && ops[j] == Some(#[trigger] t[i]) by {
            if i < s.len() {
                let j = choose|j: int| 0 <= j < prev.len() && prev[j] == Some(#[trigger] s[i]);
                assert(ops[j] == prev[j]);
                assert(t[i] == s[i]);
            } else {
                assert(ops[ops.len() - 1] == Some(t[i]));
            }
        }
        assert forall|i: int, i2: int| 0 <= i < i2 < t.len() implies exists|j: int, j2: int|
            0 <= j < j2 < ops.len() && ops[j] == Some(#[trigger] t[i]) && ops[j2] == Some(
                #[trigger] t[i2],
            ) by {
            if i2 < s.len() {
                let (j, j2) = choose|j: int, j2: int|
                    0 <= j < j2 < prev.len() && prev[j] == Some(#[trigger] s[i]) && prev[j2]
                        == Some(#[trigger] s[i2]);
                assert(ops[j] == prev[j] && ops[j2] == prev[j2]);
                assert(t[i] == s[i] && t[i2] == s[i2]);
            } else {
                let j = choose|j: int| 0 <= j < prev.len() && prev[j] == Some(#[trigger] s[i]);
                assert(ops[j] == prev[j]);
                assert(t[i] == s[i]);
                assert(ops[ops.len() - 1] == Some(t[i2]));
            }
        }
        assert forall|i: int, j: int|
            0 <= i < t.len() && 0 <= j < t.len() && (#[trigger] t[i]).key_of() == (
            #[trigger] t[j]).key_of() implies i == j by {
            if i < s.len() && j < s.len() {
                assert(t[i] == s[i] && t[j] == s[j]);
            } else if i < s.len() {
                assert(t[i] == s[i]);
            } else if j < s.len() {
                assert(t[j] == s[j]);
            }
        }
    }
}

} // verus!
