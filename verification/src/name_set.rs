//! A set of byte-string names kept as a duplicate-free vector, used for the
//! Block Index, the Allow-list Closure and URL collections.

use vstd::prelude::*;

use crate::scan::bytes_eq;

verus! {

/// A set of names; insertion order is kept, entries are unique.
pub struct NameSet {
    names: Vec<Vec<u8>>,
}

impl View for NameSet {
    type V = Seq<Seq<u8>>;

    closed spec fn view(&self) -> Seq<Seq<u8>> {
        Seq::new(self.names@.len(), |i: int| self.names@[i]@)
    }
}

impl NameSet {
    /// Entries are pairwise distinct.
    pub open spec fn wf(&self) -> bool {
        forall|i: int, j: int| 0 <= i < j < self@.len() ==> self@[i] != self@[j]
    }

    /// The entries as a mathematical set.
    pub open spec fn as_set(&self) -> Set<Seq<u8>> {
        Set::new(|n: Seq<u8>| self@.contains(n))
    }

    /// An empty set.
    pub fn new() -> (r: NameSet)
        ensures
            r@ =~= Seq::<Seq<u8>>::empty(),
            r.wf(),
    {
        NameSet { names: Vec::new() }
    }

    /// Number of entries.
    pub fn len(&self) -> (r: usize)
        ensures
            r == self@.len(),
    {
        self.names.len()
    }

    /// The entry at position `i`, in insertion order.
    pub fn get(&self, i: usize) -> (r: &Vec<u8>)
        requires
            i < self@.len(),
        ensures
            r@ == self@[i as int],
    {
        &self.names[i]
    }

    /// Membership test.
    #[verifier::loop_isolation(false)]
    pub fn contains(&self, name: &[u8]) -> (r: bool)
        ensures
            r == self@.contains(name@),
    {
        let mut i: usize = 0;
        while i < self.names.len()
            invariant
                i <= self@.len(),
                forall|j: int| 0 <= j < i ==> self@[j] != name@,
            decreases self@.len() - i,
        {
            if bytes_eq(self.names[i].as_slice(), name) {
                assert(self@[i as int] == name@);
                return true;
            }
            i = i + 1;
        }
        assert(!self@.contains(name@));
        false
    }

    /// Inserts `name` unless it is already present; reports whether it was
    /// added.
    pub fn insert(&mut self, name: Vec<u8>) -> (added: bool)
        requires
            old(self).wf(),
        ensures
            final(self).wf(),
            added == !old(self)@.contains(name@),
            final(self)@ == if added {
                old(self)@.push(name@)
            } else {
                old(self)@
            },
            final(self).as_set() == old(self).as_set().insert(name@),
    {
        if self.contains(name.as_slice()) {
            proof {
                assert(self.as_set() =~= self.as_set().insert(name@));
            }
            false
        } else {
            let ghost pre = self@;
            self.names.push(name);
            proof {
                assert(self@ =~= pre.push(name@));
                assert forall|n: Seq<u8>|
                    self.as_set().contains(n) <==> Set::new(
                        |m: Seq<u8>| pre.contains(m),
                    ).insert(name@).contains(n) by {
                    if pre.contains(n) {
                        let i = choose|i: int| 0 <= i < pre.len() && pre[i] == n;
                        assert(self@[i] == n);
                    }
                    if n == name@ {
                        assert(self@[pre.len() as int] == n);
                    }
                    if self@.contains(n) {
                        let i = choose|i: int| 0 <= i < self@.len() && self@[i] == n;
                        if i < pre.len() {
                            assert(pre[i] == n);
                        }
                    }
                }
                assert(self.as_set() =~= Set::new(|m: Seq<u8>| pre.contains(m)).insert(name@));
            }
            true
        }
    }
}

} // verus!
