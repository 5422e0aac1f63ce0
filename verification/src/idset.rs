//! A small executable set of component ids, backed by a vector.
//!
//! The view of an [`IdSet`] is the mathematical [`Set`] of ids it holds;
//! the backing vector also gives each set a fixed, deterministic iteration
//! order, which the matcher relies on for reproducible results.

use vstd::prelude::*;
use crate::component::{ComponentId, spec_id_is_dense};

verus! {

/// An executable set of component ids.
#[derive(Clone, Debug)]
pub struct IdSet {
    /// The ids, in insertion order; `insert` never adds a duplicate.
    pub ids: Vec<ComponentId>,
}

impl View for IdSet {
    type V = Set<ComponentId>;

    /// The set of ids held.
    open spec fn view(&self) -> Set<ComponentId> {
        Set::new(|c: ComponentId| self.ids@.contains(c))
    }
}

impl IdSet {
    /// The empty set.
    pub fn new() -> (r: IdSet)
        ensures
            r@ == Set::<ComponentId>::empty(),
            r.ids@ == Seq::<ComponentId>::empty(),
    {
        let r = IdSet { ids: Vec::new() };
        proof {
            assert(r@ =~= Set::<ComponentId>::empty());
        }
        r
    }

    /// The number of ids held.
    pub fn len(&self) -> (r: usize)
        ensures
            r == self.ids@.len(),
    {
        self.ids.len()
    }

    /// Whether no ids are held.
    pub fn is_empty(&self) -> (r: bool)
        ensures
            r == (self.ids@.len() == 0),
    {
        self.ids.len() == 0
    }

    /// The id at position `i` of the iteration order.
    pub fn index(&self, i: usize) -> (r: ComponentId)
        requires
            i < self.ids@.len(),
        ensures
            r == self.ids@[i as int],
            self@.contains(r),
    {
        self.ids[i]
    }

    /// Whether `c` is held.
    pub fn contains(&self, c: ComponentId) -> (r: bool)
        ensures
            r == self@.contains(c),
    {
        let n = self.ids.len();
        let mut i: usize = 0;
        while i < n
            invariant
                n == self.ids@.len(),
                i <= n,
                forall|j: int| 0 <= j < i ==> self.ids@[j] != c,
            decreases n - i,
        {
            if self.ids[i] == c {
                return true;
            }
            i = i + 1;
        }
        false
    }

    /// Add `c` to the set.
    pub fn insert(&mut self, c: ComponentId)
        ensures
            final(self)@ == old(self)@.insert(c),
    {
        if !self.contains(c) {
            self.ids.push(c);
            proof {
                assert forall|x: ComponentId| self@.contains(x) <==> old(self)@.insert(c).contains(x) by {
                    if self.ids@.contains(x) {
                        let j = choose|j: int| 0 <= j < self.ids@.len() && self.ids@[j] == x;
                        if j < old(self).ids@.len() {
                            assert(old(self).ids@[j] == x);
                        }
                    }
                    if old(self).ids@.contains(x) {
                        let j = choose|j: int| 0 <= j < old(self).ids@.len() && old(self).ids@[j] == x;
                        assert(self.ids@[j] == x);
                    }
                    if x == c {
                        assert(self.ids@[self.ids@.len() - 1] == c);
                    }
                };
                assert(self@ =~= old(self)@.insert(c));
            }
        } else {
            proof {
                assert(self@ =~= old(self)@.insert(c));
            }
        }
    }

    /// Add every id of `other` to the set.
    pub fn union_from(&mut self, other: &IdSet)
        ensures
            final(self)@ == old(self)@.union(other@),
    {
        let n = other.ids.len();
        let mut i: usize = 0;
        while i < n
            invariant
                n == other.ids@.len(),
                i <= n,
                forall|x: ComponentId| #[trigger] self@.contains(x) <==> old(self)@.contains(x)
                    || exists|j: int| 0 <= j < i && other.ids@[j] == x,
            decreases n - i,
        {
            let c = other.ids[i];
            let ghost pre = self@;
            self.insert(c);
            proof {
                assert forall|x: ComponentId| #[trigger] self@.contains(x) implies old(self)@.contains(x)
                    || exists|j: int| 0 <= j < i + 1 && other.ids@[j] == x by {
                    if x == c {
                        assert(other.ids@[i as int] == x);
                    } else {
                        assert(pre.contains(x));
                        if !old(self)@.contains(x) {
                            let j = choose|j: int| 0 <= j < i && other.ids@[j] == x;
                            assert(0 <= j < i + 1 && other.ids@[j] == x);
                        }
                    }
                };
                assert forall|x: ComponentId| old(self)@.contains(x)
                    || exists|j: int| 0 <= j < i + 1 && other.ids@[j] == x implies #[trigger] self@.contains(x) by {
                    if old(self)@.contains(x) {
                        assert(pre.contains(x));
                    } else {
                        let j = choose|j: int| 0 <= j < i + 1 && other.ids@[j] == x;
                        if j < i {
                            assert(pre.contains(x));
                        } else {
                            assert(x == c);
                        }
                    }
                };
            }
            i = i + 1;
        }
        proof {
            assert forall|x: ComponentId| #[trigger] self@.contains(x) <==> old(self)@.union(other@).contains(x) by {
                if exists|j: int| 0 <= j < n && other.ids@[j] == x {
                    assert(other.ids@.contains(x));
                }
                if other.ids@.contains(x) {
                    let j = choose|j: int| 0 <= j < other.ids@.len() && other.ids@[j] == x;
                    assert(0 <= j < n && other.ids@[j] == x);
                }
            };
            assert(self@ =~= old(self)@.union(other@));
        }
    }

    /// An element-for-element copy.
    pub fn duplicate(&self) -> (r: IdSet)
        ensures
            r@ == self@,
            r.ids@ == self.ids@,
    {
        let n = self.ids.len();
        let mut out: Vec<ComponentId> = Vec::new();
        let mut i: usize = 0;
        while i < n
            invariant
                n == self.ids@.len(),
                i <= n,
                out@ == self.ids@.take(i as int),
            decreases n - i,
        {
            out.push(self.ids[i]);
            proof {
                assert(out@ =~= self.ids@.take(i + 1));
            }
            i = i + 1;
        }
        proof {
            assert(out@ =~= self.ids@);
        }
        let r = IdSet { ids: out };
        proof {
            assert(r@ =~= self@);
        }
        r
    }

    /// Whether every id held is also held by `other`.
    pub fn subset_of(&self, other: &IdSet) -> (r: bool)
        ensures
            r == self@.subset_of(other@),
    {
        let n = self.ids.len();
        let mut i: usize = 0;
        while i < n
            invariant
                n == self.ids@.len(),
                i <= n,
                forall|j: int| 0 <= j < i ==> other@.contains(#[trigger] self.ids@[j]),
            decreases n - i,
        {
            if !other.contains(self.ids[i]) {
                proof {
                    assert(self@.contains(self.ids@[i as int]));
                }
                return false;
            }
            i = i + 1;
        }
        proof {
            assert forall|c: ComponentId| self@.contains(c) implies other@.contains(c) by {
                let j = choose|j: int| 0 <= j < self.ids@.len() && self.ids@[j] == c;
                assert(other@.contains(self.ids@[j]));
            };
        }
        true
    }

    /// Whether some id is held by both this set and `other`.
    pub fn intersects(&self, other: &IdSet) -> (r: bool)
        ensures
            r == exists|c: ComponentId| self@.contains(c) && other@.contains(c),
    {
        let n = self.ids.len();
        let mut i: usize = 0;
        while i < n
            invariant
                n == self.ids@.len(),
                i <= n,
                forall|j: int| 0 <= j < i ==> !other@.contains(#[trigger] self.ids@[j]),
            decreases n - i,
        {
            if other.contains(self.ids[i]) {
                proof {
                    assert(self@.contains(self.ids@[i as int]));
                }
                return true;
            }
            i = i + 1;
        }
        proof {
            assert forall|c: ComponentId| self@.contains(c) implies !other@.contains(c) by {
                let j = choose|j: int| 0 <= j < self.ids@.len() && self.ids@[j] == c;
                assert(!other@.contains(self.ids@[j]));
            };
        }
        false
    }

    /// Whether every id held names a kind with dense storage in `registry`.
    pub fn all_dense(&self, registry: &crate::component::ComponentRegistry) -> (r: bool)
        ensures
            r == forall|c: ComponentId| self@.contains(c) ==> #[trigger] spec_id_is_dense(registry@, c),
    {
        let n = self.ids.len();
        let mut i: usize = 0;
        while i < n
            invariant
                n == self.ids@.len(),
                i <= n,
                forall|j: int| 0 <= j < i ==> #[trigger] spec_id_is_dense(registry@, self.ids@[j]),
            decreases n - i,
        {
            if !registry.is_dense_id(self.ids[i]) {
                proof {
                    assert(self@.contains(self.ids@[i as int]));
                }
                return false;
            }
            i = i + 1;
        }
        proof {
            assert forall|c: ComponentId| self@.contains(c) implies #[trigger] spec_id_is_dense(registry@, c) by {
                let j = choose|j: int| 0 <= j < self.ids@.len() && self.ids@[j] == c;
                assert(spec_id_is_dense(registry@, self.ids@[j]));
            };
        }
        true
    }
}

} // verus!
