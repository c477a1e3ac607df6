use std::collections::HashMap;
use vstd::prelude::*;

use crate::types::{AccountId, Error};

verus! {

broadcast use vstd::std_specs::hash::group_hash_axioms;

/// The sequence left after removing position `i` of `s` by moving the last
/// element into its place.
pub open spec fn swap_removed(s: Seq<u64>, i: int) -> Seq<u64> {
    s.update(i, s.last()).drop_last()
}

/// For each account, the ids that it owns, at most `capacity` of them.
///
/// Removal swaps the target with the last id and drops the last, so the
/// order of the remaining ids may change.
pub struct OwnershipIndex {
    lists: HashMap<AccountId, Vec<u64>>,
    capacity: u32,
}

impl OwnershipIndex {
    /// The ids that `a` owns, in index order.
    pub closed spec fn owned(&self, a: AccountId) -> Seq<u64> {
        if self.lists@.contains_key(a) {
            self.lists@[a]@
        } else {
            Seq::empty()
        }
    }

    pub closed spec fn capacity(&self) -> nat {
        self.capacity as nat
    }

    /// No account holds more than `capacity` ids, nor any id twice.
    pub open spec fn wf(&self) -> bool {
        forall|a: AccountId|
            #![trigger self.owned(a)]
            self.owned(a).len() <= self.capacity() && self.owned(a).no_duplicates()
    }

    pub fn new(capacity: u32) -> (r: Self)
        ensures
            r.wf(),
            r.capacity() == capacity as nat,
            forall|a: AccountId| #[trigger] r.owned(a) == Seq::<u64>::empty(),
    {
        OwnershipIndex { lists: HashMap::new(), capacity }
    }

    pub fn capacity_of(&self) -> (r: u32)
        ensures
            r as nat == self.capacity(),
    {
        self.capacity
    }

    /// The ids that `a` owns, in index order.
    pub fn ids_of(&self, a: AccountId) -> (r: Vec<u64>)
        ensures
            r@ == self.owned(a),
    {
        let mut out: Vec<u64> = Vec::new();
        match self.lists.get(&a) {
            Some(v) => {
                let mut i: usize = 0;
                while i < v.len()
                    invariant
                        i <= v@.len(),
                        v@ == self.owned(a),
                        out@ == v@.subrange(0, i as int),
                    decreases v@.len() - i,
                {
                    out.push(v[i]);
                    i = i + 1;
                    proof {
                        assert(out@ =~= v@.subrange(0, i as int));
                    }
                }
                proof {
                    assert(out@ =~= v@);
                }
            },
            None => {},
        }
        out
    }

    /// Whether `a` has room for one more id.
    pub fn has_room(&self, a: AccountId) -> (r: bool)
        ensures
            r == (self.owned(a).len() < self.capacity()),
    {
        match self.lists.get(&a) {
            Some(v) => v.len() < self.capacity as usize,
            None => 0 < self.capacity,
        }
    }

    /// Where `id` stands in the index of `a`, if it is there.
    pub fn position(&self, a: AccountId, id: u64) -> (r: Option<usize>)
        ensures
            match r {
                Some(i) => i < self.owned(a).len() && self.owned(a)[i as int] == id,
                None => !self.owned(a).contains(id),
            },
    {
        match self.lists.get(&a) {
            Some(v) => {
                let mut i: usize = 0;
                while i < v.len()
                    invariant
                        i <= v@.len(),
                        v@ == self.owned(a),
                        forall|j: int| 0 <= j < i ==> v@[j] != id,
                    decreases v@.len() - i,
                {
                    if v[i] == id {
                        return Some(i);
                    }
                    i = i + 1;
                }
                None
            },
            None => None,
        }
    }

    /// Adds `id` at the end of the index of `a`, unless that index is full.
    pub fn try_append(&mut self, a: AccountId, id: u64) -> (r: Result<(), Error>)
        requires
            old(self).wf(),
            !old(self).owned(a).contains(id),
        ensures
            final(self).wf(),
            final(self).capacity() == old(self).capacity(),
            old(self).owned(a).len() < old(self).capacity() ==> {
                &&& r == Ok::<(), Error>(())
                &&& final(self).owned(a) == old(self).owned(a).push(id)
                &&& forall|b: AccountId| b != a ==> #[trigger] final(self).owned(b) == old(self).owned(b)
            },
            old(self).owned(a).len() >= old(self).capacity() ==> {
                &&& r == Err::<(), Error>(Error::MaximumCollectiblesOwned)
                &&& *final(self) == *old(self)
            },
    {
        if !self.has_room(a) {
            return Err(Error::MaximumCollectiblesOwned);
        }
        let mut v = match self.lists.remove(&a) {
            Some(v) => v,
            None => Vec::new(),
        };
        assert(v@ == old(self).owned(a));
        v.push(id);
        self.lists.insert(a, v);
        proof {
            assert(self.owned(a) == old(self).owned(a).push(id));
            assert forall|b: AccountId| b != a implies #[trigger] self.owned(b) == old(self).owned(b) by {}
            assert forall|b: AccountId| #![trigger self.owned(b)]
                self.owned(b).len() <= self.capacity() && self.owned(b).no_duplicates() by {
                if b == a {
                    assert forall|i: int, j: int|
                        0 <= i < j < self.owned(a).len() implies self.owned(a)[i] != self.owned(a)[j] by {
                        if j == old(self).owned(a).len() {
                            assert(old(self).owned(a).contains(self.owned(a)[i]));
                        }
                    }
                }
            }
        }
        Ok(())
    }

    /// Removes `id` from the index of `a` by moving the last id into its place.
    pub fn remove(&mut self, a: AccountId, id: u64) -> (r: Result<(), Error>)
        requires
            old(self).wf(),
        ensures
            final(self).wf(),
            final(self).capacity() == old(self).capacity(),
            old(self).owned(a).contains(id) ==> {
                &&& r == Ok::<(), Error>(())
                &&& exists|i: int|
                    0 <= i < old(self).owned(a).len() && old(self).owned(a)[i] == id
                        && final(self).owned(a) == swap_removed(old(self).owned(a), i)
                &&& final(self).owned(a).len() + 1 == old(self).owned(a).len()
                &&& forall|x: u64| #[trigger] final(self).owned(a).contains(x)
                    <==> (old(self).owned(a).contains(x) && x != id)
                &&& forall|b: AccountId| b != a ==> #[trigger] final(self).owned(b) == old(self).owned(b)
            },
            !old(self).owned(a).contains(id) ==> {
                &&& r == Err::<(), Error>(Error::NoCollectible)
                &&& *final(self) == *old(self)
            },
    {
        let i = match self.position(a, id) {
            Some(i) => i,
            None => {
                return Err(Error::NoCollectible);
            },
        };
        let ghost s = old(self).owned(a);
        let mut v = match self.lists.remove(&a) {
            Some(v) => v,
            None => Vec::new(),
        };
        assert(v@ == s);
        v.swap_remove(i);
        assert(v@ == swap_removed(s, i as int));
        self.lists.insert(a, v);
        proof {
            let t = swap_removed(s, i as int);
            assert(self.owned(a) == t);
            assert(s.no_duplicates());
            assert forall|x: u64| #[trigger] t.contains(x) <==> (s.contains(x) && x != id) by {
                if t.contains(x) {
                    let k = choose|k: int| 0 <= k < t.len() && t[k] == x;
                    if k == i {
                        assert(s[s.len() - 1] == x);
                    } else {
                        assert(s[k] == x);
                    }
                }
                if s.contains(x) && x != id {
                    let k = choose|k: int| 0 <= k < s.len() && s[k] == x;
                    if k == s.len() - 1 {
                        assert(t[i as int] == x);
                    } else {
                        assert(t[k] == x);
                    }
                }
            }
            assert forall|p: int, q: int| 0 <= p < q < t.len() implies t[p] != t[q] by {
                if p == i {
                    assert(s[s.len() - 1] != s[q]);
                } else if q == i {
                    assert(s[p] != s[s.len() - 1]);
                }
            }
            assert forall|b: AccountId| b != a implies #[trigger] self.owned(b) == old(self).owned(b) by {}
            assert forall|b: AccountId| #![trigger self.owned(b)]
                self.owned(b).len() <= self.capacity() && self.owned(b).no_duplicates() by {
                if b == a {
                    assert(t.no_duplicates());
                }
            }
        }
        Ok(())
    }
}

} // verus!
