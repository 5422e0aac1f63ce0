//! Filtered component access: the set algebra the matcher uses for
//! archetype pruning and the scheduler uses for conflict detection.
//!
//! A [`FilteredAccess`] pairs an access map over component ids — reads,
//! writes and archetypal accesses, with distinguished read-all / write-all
//! states — with a disjunction of conjunctions of `with` / `without`
//! constraints (the filter sets).  `extend` AND-combines two values: the
//! access maps union and the filter sets distribute; `append_or`
//! OR-combines by concatenating filter sets.  *Matches-everything* (one
//! empty filter set) and *matches-nothing* (no filter sets) are
//! distinguished constants.

use vstd::prelude::*;
use crate::component::{ComponentId, ComponentRegistry, ComponentInfo, spec_id_is_dense};
use crate::idset::IdSet;

verus! {

/// One enumerated component access: how a single id is touched.
#[derive(Clone, Copy, PartialEq, Eq, Structural, Debug)]
pub enum ComponentAccessKind {
    /// The id is written (and may also be read).
    Exclusive(ComponentId),
    /// The id is read but never written.
    Shared(ComponentId),
    /// The id is required on the archetype without being read.
    Archetypal(ComponentId),
}

impl ComponentAccessKind {
    /// The component id this access touches.
    pub open spec fn spec_id(self) -> ComponentId {
        match self {
            ComponentAccessKind::Exclusive(c) => c,
            ComponentAccessKind::Shared(c) => c,
            ComponentAccessKind::Archetypal(c) => c,
        }
    }

    /// The component id this access touches.
    pub fn index(&self) -> (r: ComponentId)
        ensures
            r == self.spec_id(),
    {
        match self {
            ComponentAccessKind::Exclusive(c) => *c,
            ComponentAccessKind::Shared(c) => *c,
            ComponentAccessKind::Archetypal(c) => *c,
        }
    }
}

/// Returned when concrete ids cannot be enumerated because the access may
/// read any component.
#[derive(Clone, Copy, PartialEq, Eq, Structural, Debug)]
pub struct UnboundedAccess;

/// The mathematical model of an [`Access`].
#[verifier::ext_equal]
pub ghost struct AccessSpec {
    /// Ids read.
    pub reads: Set<ComponentId>,
    /// Ids written.  Writing implies reading: the executable operations
    /// keep `writes` a subset of `reads`.
    pub writes: Set<ComponentId>,
    /// Ids required on the archetype without being read.
    pub archetypal: Set<ComponentId>,
    /// Whether the access may read any component.
    pub read_all: bool,
    /// Whether the access may write any component.
    pub write_all: bool,
}

/// The read/write/archetypal access map over component ids.
#[derive(Clone, Debug)]
pub struct Access {
    /// Ids read.
    pub reads: IdSet,
    /// Ids written; always also read.
    pub writes: IdSet,
    /// Ids required on the archetype without being read.
    pub archetypal: IdSet,
    /// Whether the access may read any component.
    pub read_all: bool,
    /// Whether the access may write any component.
    pub write_all: bool,
}

impl View for Access {
    type V = AccessSpec;

    open spec fn view(&self) -> AccessSpec {
        AccessSpec {
            reads: self.reads@,
            writes: self.writes@,
            archetypal: self.archetypal@,
            read_all: self.read_all,
            write_all: self.write_all,
        }
    }
}

/// The access map that touches nothing.
pub open spec fn spec_access_empty() -> AccessSpec {
    AccessSpec {
        reads: Set::empty(),
        writes: Set::empty(),
        archetypal: Set::empty(),
        read_all: false,
        write_all: false,
    }
}

/// The union of two access maps.
pub open spec fn spec_access_union(a: AccessSpec, b: AccessSpec) -> AccessSpec {
    AccessSpec {
        reads: a.reads.union(b.reads),
        writes: a.writes.union(b.writes),
        archetypal: a.archetypal.union(b.archetypal),
        read_all: a.read_all || b.read_all,
        write_all: a.write_all || b.write_all,
    }
}

/// Every id an access map touches: reads, writes and archetypal together.
pub open spec fn spec_accessed_ids(a: AccessSpec) -> Set<ComponentId> {
    a.reads.union(a.writes).union(a.archetypal)
}

/// Two accesses conflict iff one writes a component the other also
/// touches, or either may write any component.
pub open spec fn spec_conflicts(a: AccessSpec, b: AccessSpec) -> bool {
    ||| a.write_all
    ||| b.write_all
    ||| exists|c: ComponentId|
        #[trigger] a.writes.contains(c) && (b.reads.contains(c) || b.writes.contains(c))
    ||| exists|c: ComponentId|
        #[trigger] b.writes.contains(c) && (a.reads.contains(c) || a.writes.contains(c))
}

/// Whether some entry of `v` touches the id `c`.
pub open spec fn spec_covers(v: Seq<ComponentAccessKind>, c: ComponentId) -> bool {
    exists|j: int| 0 <= j < v.len() && (#[trigger] v[j]).spec_id() == c
}

impl Access {
    /// An access map that touches nothing.
    pub fn new() -> (r: Access)
        ensures
            r@ == spec_access_empty(),
            r.reads.ids@ == Seq::<ComponentId>::empty(),
            r.writes.ids@ == Seq::<ComponentId>::empty(),
            r.archetypal.ids@ == Seq::<ComponentId>::empty(),
    {
        let r = Access {
            reads: IdSet::new(),
            writes: IdSet::new(),
            archetypal: IdSet::new(),
            read_all: false,
            write_all: false,
        };
        proof {
            assert(r@ =~= spec_access_empty());
        }
        r
    }

    /// An element-for-element copy.
    pub fn duplicate(&self) -> (r: Access)
        ensures
            r@ == self@,
            r.reads.ids@ == self.reads.ids@,
            r.writes.ids@ == self.writes.ids@,
            r.archetypal.ids@ == self.archetypal.ids@,
    {
        Access {
            reads: self.reads.duplicate(),
            writes: self.writes.duplicate(),
            archetypal: self.archetypal.duplicate(),
            read_all: self.read_all,
            write_all: self.write_all,
        }
    }

    /// Record a read of `id`.
    pub fn add_component_read(&mut self, id: ComponentId)
        ensures
            final(self)@ == (AccessSpec { reads: old(self)@.reads.insert(id), ..old(self)@ }),
    {
        self.reads.insert(id);
    }

    /// Record a write of `id`.  A write implies a read.
    pub fn add_component_write(&mut self, id: ComponentId)
        ensures
            final(self)@ == (AccessSpec {
                reads: old(self)@.reads.insert(id),
                writes: old(self)@.writes.insert(id),
                ..old(self)@
            }),
    {
        self.reads.insert(id);
        self.writes.insert(id);
    }

    /// Record an archetypal requirement on `id`: the archetype must hold
    /// it, though it is never read.
    pub fn add_archetypal(&mut self, id: ComponentId)
        ensures
            final(self)@ == (AccessSpec { archetypal: old(self)@.archetypal.insert(id), ..old(self)@ }),
    {
        self.archetypal.insert(id);
    }

    /// Enter the distinguished state that may read any component.
    pub fn set_read_all(&mut self)
        ensures
            final(self)@ == (AccessSpec { read_all: true, ..old(self)@ }),
    {
        self.read_all = true;
    }

    /// Enter the distinguished state that may write (and read) any
    /// component.
    pub fn set_write_all(&mut self)
        ensures
            final(self)@ == (AccessSpec { read_all: true, write_all: true, ..old(self)@ }),
    {
        self.read_all = true;
        self.write_all = true;
    }

    /// Whether `id` may be read.
    pub fn has_component_read(&self, id: ComponentId) -> (r: bool)
        ensures
            r == (self@.read_all || self@.reads.contains(id)),
    {
        self.read_all || self.reads.contains(id)
    }

    /// Whether `id` may be written.
    pub fn has_component_write(&self, id: ComponentId) -> (r: bool)
        ensures
            r == (self@.write_all || self@.writes.contains(id)),
    {
        self.write_all || self.writes.contains(id)
    }

    /// Whether the access may read any component.
    pub fn has_read_all_components(&self) -> (r: bool)
        ensures
            r == self@.read_all,
    {
        self.read_all
    }

    /// Union the other access map into this one.
    pub fn union_with(&mut self, other: &Access)
        ensures
            final(self)@ == spec_access_union(old(self)@, other@),
    {
        self.reads.union_from(&other.reads);
        self.writes.union_from(&other.writes);
        self.archetypal.union_from(&other.archetypal);
        self.read_all = self.read_all || other.read_all;
        self.write_all = self.write_all || other.write_all;
        proof {
            assert(self@ =~= spec_access_union(old(self)@, other@));
        }
    }

    /// Enumerate every touched id with its kind: written ids as exclusive,
    /// ids only read as shared, ids only required as archetypal.  Fails
    /// with [`UnboundedAccess`] exactly when the access may read any
    /// component, since concrete ids then cannot be enumerated.
    pub fn try_iter_component_access(&self) -> (r: Result<Vec<ComponentAccessKind>, UnboundedAccess>)
        ensures
            self@.read_all <==> r is Err,
            match r {
                Ok(v) => {
                    &&& forall|j: int|
                        0 <= j < v@.len() ==> spec_kind_sound(self@, #[trigger] v@[j])
                    &&& forall|c: ComponentId|
                        #[trigger] spec_accessed_ids(self@).contains(c) ==> spec_covers(v@, c)
                },
                Err(_) => true,
            },
    {
        if self.read_all {
            return Err(UnboundedAccess);
        }
        let mut out: Vec<ComponentAccessKind> = Vec::new();
        let nw = self.writes.len();
        let mut i: usize = 0;
        while i < nw
            invariant
                nw == self.writes.ids@.len(),
                i <= nw,
                !self@.read_all,
                forall|j: int| 0 <= j < out@.len() ==> spec_kind_sound(self@, #[trigger] out@[j]),
                forall|jj: int|
                    0 <= jj < i ==> spec_covers(out@, #[trigger] self.writes.ids@[jj]),
            decreases nw - i,
        {
            let c = self.writes.index(i);
            let ghost pre = out@;
            out.push(ComponentAccessKind::Exclusive(c));
            proof {
                assert(out@[out@.len() - 1].spec_id() == c);
                assert(spec_covers(out@, c));
                assert forall|x: ComponentId| spec_covers(pre, x) implies spec_covers(out@, x) by {
                    let j = choose|j: int| 0 <= j < pre.len() && (#[trigger] pre[j]).spec_id() == x;
                    assert((out@[j]).spec_id() == x);
                };
            }
            i = i + 1;
        }
        let nr = self.reads.len();
        i = 0;
        while i < nr
            invariant
                nr == self.reads.ids@.len(),
                i <= nr,
                !self@.read_all,
                forall|j: int| 0 <= j < out@.len() ==> spec_kind_sound(self@, #[trigger] out@[j]),
                forall|jj: int|
                    0 <= jj < self.writes.ids@.len() ==> spec_covers(out@, #[trigger] self.writes.ids@[jj]),
                forall|jj: int|
                    0 <= jj < i ==> spec_covers(out@, #[trigger] self.reads.ids@[jj]),
            decreases nr - i,
        {
            let c = self.reads.index(i);
            if !self.writes.contains(c) {
                let ghost pre = out@;
                out.push(ComponentAccessKind::Shared(c));
                proof {
                    assert(out@[out@.len() - 1].spec_id() == c);
                    assert(spec_covers(out@, c));
                    assert forall|x: ComponentId| spec_covers(pre, x) implies spec_covers(out@, x) by {
                        let j = choose|j: int| 0 <= j < pre.len() && (#[trigger] pre[j]).spec_id() == x;
                        assert((out@[j]).spec_id() == x);
                    };
                }
            } else {
                proof {
                    assert(spec_covers(out@, c));
                }
            }
            i = i + 1;
        }
        let na = self.archetypal.len();
        i = 0;
        while i < na
            invariant
                na == self.archetypal.ids@.len(),
                i <= na,
                !self@.read_all,
                forall|j: int| 0 <= j < out@.len() ==> spec_kind_sound(self@, #[trigger] out@[j]),
                forall|jj: int|
                    0 <= jj < self.writes.ids@.len() ==> spec_covers(out@, #[trigger] self.writes.ids@[jj]),
                forall|jj: int|
                    0 <= jj < self.reads.ids@.len() ==> spec_covers(out@, #[trigger] self.reads.ids@[jj]),
                forall|jj: int|
                    0 <= jj < i ==> spec_covers(out@, #[trigger] self.archetypal.ids@[jj]),
            decreases na - i,
        {
            let c = self.archetypal.index(i);
            if !self.writes.contains(c) && !self.reads.contains(c) {
                let ghost pre = out@;
                out.push(ComponentAccessKind::Archetypal(c));
                proof {
                    assert(out@[out@.len() - 1].spec_id() == c);
                    assert(spec_covers(out@, c));
                    assert forall|x: ComponentId| spec_covers(pre, x) implies spec_covers(out@, x) by {
                        let j = choose|j: int| 0 <= j < pre.len() && (#[trigger] pre[j]).spec_id() == x;
                        assert((out@[j]).spec_id() == x);
                    };
                }
            } else {
                proof {
                    if self.writes@.contains(c) {
                        let jj = choose|jj: int|
                            0 <= jj < self.writes.ids@.len() && self.writes.ids@[jj] == c;
                        assert(spec_covers(out@, self.writes.ids@[jj]));
                    } else {
                        let jj = choose|jj: int|
                            0 <= jj < self.reads.ids@.len() && self.reads.ids@[jj] == c;
                        assert(spec_covers(out@, self.reads.ids@[jj]));
                    }
                }
            }
            i = i + 1;
        }
        proof {
            assert forall|c: ComponentId|
                #[trigger] spec_accessed_ids(self@).contains(c) implies spec_covers(out@, c) by {
                if self.writes@.contains(c) {
                    let jj = choose|jj: int|
                        0 <= jj < self.writes.ids@.len() && self.writes.ids@[jj] == c;
                    assert(spec_covers(out@, self.writes.ids@[jj]));
                } else if self.reads@.contains(c) {
                    let jj = choose|jj: int|
                        0 <= jj < self.reads.ids@.len() && self.reads.ids@[jj] == c;
                    assert(spec_covers(out@, self.reads.ids@[jj]));
                } else {
                    let jj = choose|jj: int|
                        0 <= jj < self.archetypal.ids@.len() && self.archetypal.ids@[jj] == c;
                    assert(spec_covers(out@, self.archetypal.ids@[jj]));
                }
            };
        }
        Ok(out)
    }

    /// Whether this access conflicts with `other`: one writes a component
    /// the other touches, or either may write any component.
    pub fn conflicts_with(&self, other: &Access) -> (r: bool)
        ensures
            r == spec_conflicts(self@, other@),
    {
        if self.write_all || other.write_all {
            return true;
        }
        if self.writes_touch(other) || other.writes_touch(self) {
            return true;
        }
        false
    }

    /// Whether some id written here is read or written by `other`.
    fn writes_touch(&self, other: &Access) -> (r: bool)
        ensures
            r == exists|c: ComponentId|
                #[trigger] self@.writes.contains(c)
                    && (other@.reads.contains(c) || other@.writes.contains(c)),
    {
        let n = self.writes.len();
        let mut i: usize = 0;
        while i < n
            invariant
                n == self.writes.ids@.len(),
                i <= n,
                forall|j: int|
                    0 <= j < i ==> !(other@.reads.contains(#[trigger] self.writes.ids@[j])
                        || other@.writes.contains(self.writes.ids@[j])),
            decreases n - i,
        {
            let c = self.writes.index(i);
            if other.reads.contains(c) || other.writes.contains(c) {
                proof {
                    assert(self@.writes.contains(c));
                }
                return true;
            }
            i = i + 1;
        }
        proof {
            assert forall|c: ComponentId|
                #[trigger] self@.writes.contains(c) implies !(other@.reads.contains(c)
                    || other@.writes.contains(c)) by {
                let j = choose|j: int|
                    0 <= j < self.writes.ids@.len() && self.writes.ids@[j] == c;
                assert(!(other@.reads.contains(self.writes.ids@[j])
                    || other@.writes.contains(self.writes.ids@[j])));
            };
        }
        false
    }
}

/// Whether one enumerated access is truthful about `a`: an exclusive entry
/// is written, a shared entry is read but not written, an archetypal entry
/// is only required.
pub open spec fn spec_kind_sound(a: AccessSpec, k: ComponentAccessKind) -> bool {
    match k {
        ComponentAccessKind::Exclusive(c) => a.writes.contains(c),
        ComponentAccessKind::Shared(c) => a.reads.contains(c) && !a.writes.contains(c),
        ComponentAccessKind::Archetypal(c) => a.archetypal.contains(c) && !a.reads.contains(c)
            && !a.writes.contains(c),
    }
}

/// The mathematical model of one conjunction of filters.
#[verifier::ext_equal]
pub ghost struct AccessFiltersSpec {
    /// Ids the archetype must hold.
    pub with: Set<ComponentId>,
    /// Ids the archetype must not hold.
    pub without: Set<ComponentId>,
}

/// One conjunction of `with` / `without` constraints.
#[derive(Clone, Debug)]
pub struct AccessFilters {
    /// Ids the archetype must hold.
    pub with: IdSet,
    /// Ids the archetype must not hold.
    pub without: IdSet,
}

impl View for AccessFilters {
    type V = AccessFiltersSpec;

    open spec fn view(&self) -> AccessFiltersSpec {
        AccessFiltersSpec { with: self.with@, without: self.without@ }
    }
}

impl AccessFilters {
    /// The empty conjunction, satisfied by every archetype.
    pub fn new() -> (r: AccessFilters)
        ensures
            r@ == spec_filters_empty(),
            r.with.ids@ == Seq::<ComponentId>::empty(),
            r.without.ids@ == Seq::<ComponentId>::empty(),
    {
        let r = AccessFilters { with: IdSet::new(), without: IdSet::new() };
        proof {
            assert(r@ =~= spec_filters_empty());
        }
        r
    }

    /// An element-for-element copy.
    pub fn duplicate(&self) -> (r: AccessFilters)
        ensures
            r@ == self@,
    {
        AccessFilters { with: self.with.duplicate(), without: self.without.duplicate() }
    }

    /// Whether an archetype holding exactly the ids of `present` satisfies
    /// this conjunction.
    pub fn matches_ids(&self, present: &IdSet) -> (r: bool)
        ensures
            r == spec_filters_match(self@, present@),
    {
        let sub = self.with.subset_of(present);
        let inter = self.without.intersects(present);
        proof {
            if inter {
                assert(exists|c: ComponentId| self.without@.contains(c) && present@.contains(c));
                let c = choose|c: ComponentId| self.without@.contains(c) && present@.contains(c);
                assert(self@.without.contains(c) && present@.contains(c));
                assert(!spec_filters_match(self@, present@));
            } else {
                assert forall|c: ComponentId| #[trigger] self@.without.contains(c)
                    implies !present@.contains(c) by {
                    if present@.contains(c) {
                        assert(exists|c2: ComponentId|
                            self.without@.contains(c2) && present@.contains(c2));
                    }
                };
            }
        }
        sub && !inter
    }
}

/// The empty conjunction of filters.
pub open spec fn spec_filters_empty() -> AccessFiltersSpec {
    AccessFiltersSpec { with: Set::empty(), without: Set::empty() }
}

/// The conjunction demanding everything both `a` and `b` demand.
pub open spec fn spec_merge_filters(a: AccessFiltersSpec, b: AccessFiltersSpec) -> AccessFiltersSpec {
    AccessFiltersSpec { with: a.with.union(b.with), without: a.without.union(b.without) }
}

/// Whether a component set `s` satisfies the conjunction `f`: every
/// `with` id present, no `without` id present.
pub open spec fn spec_filters_match(f: AccessFiltersSpec, s: Set<ComponentId>) -> bool {
    f.with.subset_of(s) && forall|c: ComponentId| #[trigger] f.without.contains(c) ==> !s.contains(c)
}

/// `f` merged over every conjunction of `b`, in order.
pub open spec fn spec_row(f: AccessFiltersSpec, b: Seq<AccessFiltersSpec>) -> Seq<AccessFiltersSpec> {
    Seq::new(b.len(), |i: int| spec_merge_filters(f, b[i]))
}

/// The distributed AND of two disjunctions: every conjunction of `a`
/// merged with every conjunction of `b`, `a`-major in order.
pub open spec fn spec_cross(
    a: Seq<AccessFiltersSpec>,
    b: Seq<AccessFiltersSpec>,
) -> Seq<AccessFiltersSpec>
    decreases a.len(),
{
    if a.len() == 0 {
        Seq::empty()
    } else {
        spec_row(a[0], b) + spec_cross(a.drop_first(), b)
    }
}

/// The mathematical model of a [`FilteredAccess`].
#[verifier::ext_equal]
pub ghost struct FilteredAccessSpec {
    /// The access map.
    pub access: AccessSpec,
    /// The disjunction of filter conjunctions.
    pub filter_sets: Seq<AccessFiltersSpec>,
}

/// The value that matches every archetype: no accesses, one empty filter
/// conjunction.
pub open spec fn spec_everything() -> FilteredAccessSpec {
    FilteredAccessSpec { access: spec_access_empty(), filter_sets: seq![spec_filters_empty()] }
}

/// The value that matches no archetype: an empty disjunction.
pub open spec fn spec_nothing() -> FilteredAccessSpec {
    FilteredAccessSpec { access: spec_access_empty(), filter_sets: Seq::empty() }
}

/// AND-combine two filtered accesses: access maps union, filter sets
/// distribute.
pub open spec fn spec_extend(a: FilteredAccessSpec, b: FilteredAccessSpec) -> FilteredAccessSpec {
    FilteredAccessSpec {
        access: spec_access_union(a.access, b.access),
        filter_sets: spec_cross(a.filter_sets, b.filter_sets),
    }
}

/// OR-combine two filtered accesses: the filter sets concatenate; the
/// access map is left for `extend` to merge.
pub open spec fn spec_append_or(a: FilteredAccessSpec, b: FilteredAccessSpec) -> FilteredAccessSpec {
    FilteredAccessSpec { access: a.access, filter_sets: a.filter_sets + b.filter_sets }
}

/// Whether a component set `s` satisfies the filtered access `a`: if the
/// access may read any component the answer is yes outright; otherwise
/// every enumerable id must be present and at least one filter
/// conjunction must be satisfied.
pub open spec fn spec_matches_set(a: FilteredAccessSpec, s: Set<ComponentId>) -> bool {
    ||| a.access.read_all
    ||| (spec_accessed_ids(a.access).subset_of(s) && exists|k: int|
        0 <= k < a.filter_sets.len() && spec_filters_match(#[trigger] a.filter_sets[k], s))
}

/// Whether every id a filtered access names — accessed, required or
/// forbidden — has dense storage, and the access is bounded.  An access
/// that may read any component is pessimistically not dense.
pub open spec fn spec_is_dense(a: FilteredAccessSpec, reg: Seq<(u64, ComponentInfo)>) -> bool {
    &&& !a.access.read_all
    &&& forall|c: ComponentId|
        spec_accessed_ids(a.access).contains(c) ==> #[trigger] spec_id_is_dense(reg, c)
    &&& forall|k: int, c: ComponentId|
        0 <= k < a.filter_sets.len() && (#[trigger] a.filter_sets[k].with.contains(c))
            ==> spec_id_is_dense(reg, c)
    &&& forall|k: int, c: ComponentId|
        0 <= k < a.filter_sets.len() && (#[trigger] a.filter_sets[k].without.contains(c))
            ==> spec_id_is_dense(reg, c)
}

/// A set of component ids with read/write/with/without semantics and an
/// OR-of-AND disjunction of filter conjunctions.
#[derive(Clone, Debug)]
pub struct FilteredAccess {
    /// The access map.
    pub access: Access,
    /// The disjunction of filter conjunctions.
    pub filter_sets: Vec<AccessFilters>,
}

impl View for FilteredAccess {
    type V = FilteredAccessSpec;

    open spec fn view(&self) -> FilteredAccessSpec {
        FilteredAccessSpec {
            access: self.access@,
            filter_sets: Seq::new(self.filter_sets@.len(), |i: int| self.filter_sets@[i]@),
        }
    }
}

impl Default for FilteredAccess {
    /// The default value matches every archetype.
    fn default() -> (r: FilteredAccess)
        ensures
            r@ == spec_everything(),
    {
        FilteredAccess::matches_everything()
    }
}

impl FilteredAccess {
    /// The filtered access that matches every archetype.
    pub fn matches_everything() -> (r: FilteredAccess)
        ensures
            r@ == spec_everything(),
    {
        let mut filter_sets: Vec<AccessFilters> = Vec::new();
        filter_sets.push(AccessFilters::new());
        let r = FilteredAccess { access: Access::new(), filter_sets };
        proof {
            assert(r@.filter_sets =~= seq![spec_filters_empty()]);
            assert(r@ =~= spec_everything());
        }
        r
    }

    /// The filtered access that matches no archetype.
    pub fn matches_nothing() -> (r: FilteredAccess)
        ensures
            r@ == spec_nothing(),
    {
        let r = FilteredAccess { access: Access::new(), filter_sets: Vec::new() };
        proof {
            assert(r@.filter_sets =~= Seq::<AccessFiltersSpec>::empty());
            assert(r@ =~= spec_nothing());
        }
        r
    }

    /// An element-for-element copy.
    pub fn duplicate(&self) -> (r: FilteredAccess)
        ensures
            r@ == self@,
    {
        let mut filter_sets: Vec<AccessFilters> = Vec::new();
        let n = self.filter_sets.len();
        let mut i: usize = 0;
        while i < n
            invariant
                n == self.filter_sets@.len(),
                i <= n,
                filter_sets@.len() == i,
                forall|j: int| 0 <= j < i ==> filter_sets@[j]@ == self.filter_sets@[j]@,
            decreases n - i,
        {
            filter_sets.push(self.filter_sets[i].duplicate());
            i = i + 1;
        }
        let r = FilteredAccess { access: self.access.duplicate(), filter_sets };
        proof {
            assert(r@.filter_sets =~= self@.filter_sets);
            assert(r@ =~= self@);
        }
        r
    }

    /// The underlying access map.
    pub fn access(&self) -> (r: &Access)
        ensures
            r@ == self@.access,
    {
        &self.access
    }

    /// Record a read of `id` in the access map.
    pub fn add_component_read(&mut self, id: ComponentId)
        ensures
            final(self)@ == (FilteredAccessSpec {
                access: AccessSpec { reads: old(self)@.access.reads.insert(id), ..old(self)@.access },
                ..old(self)@
            }),
    {
        self.access.add_component_read(id);
        proof {
            assert(self@ =~= (FilteredAccessSpec {
                access: AccessSpec { reads: old(self)@.access.reads.insert(id), ..old(self)@.access },
                ..old(self)@
            }));
        }
    }

    /// Record a write of `id` in the access map.  A write implies a read.
    pub fn add_component_write(&mut self, id: ComponentId)
        ensures
            final(self)@ == (FilteredAccessSpec {
                access: AccessSpec {
                    reads: old(self)@.access.reads.insert(id),
                    writes: old(self)@.access.writes.insert(id),
                    ..old(self)@.access
                },
                ..old(self)@
            }),
    {
        self.access.add_component_write(id);
        proof {
            assert(self@ =~= (FilteredAccessSpec {
                access: AccessSpec {
                    reads: old(self)@.access.reads.insert(id),
                    writes: old(self)@.access.writes.insert(id),
                    ..old(self)@.access
                },
                ..old(self)@
            }));
        }
    }

    /// Require `id` in every filter conjunction.
    pub fn and_with(&mut self, id: ComponentId)
        ensures
            final(self)@.access == old(self)@.access,
            final(self)@.filter_sets.len() == old(self)@.filter_sets.len(),
            forall|k: int|
                0 <= k < old(self)@.filter_sets.len() ==> final(self)@.filter_sets[k]
                    == (AccessFiltersSpec {
                    with: old(self)@.filter_sets[k].with.insert(id),
                    ..old(self)@.filter_sets[k]
                }),
    {
        let n = self.filter_sets.len();
        let mut out: Vec<AccessFilters> = Vec::new();
        let mut i: usize = 0;
        while i < n
            invariant
                n == self.filter_sets@.len(),
                self@.filter_sets.len() == n,
                i <= n,
                out@.len() == i,
                self == old(self),
                forall|j: int|
                    0 <= j < i ==> out@[j]@ == (AccessFiltersSpec {
                        with: self@.filter_sets[j].with.insert(id),
                        ..self@.filter_sets[j]
                    }),
            decreases n - i,
        {
            let mut w = self.filter_sets[i].with.duplicate();
            w.insert(id);
            let f = AccessFilters { with: w, without: self.filter_sets[i].without.duplicate() };
            proof {
                assert(f@ =~= (AccessFiltersSpec {
                    with: self@.filter_sets[i as int].with.insert(id),
                    ..self@.filter_sets[i as int]
                }));
            }
            out.push(f);
            i = i + 1;
        }
        self.filter_sets = out;
    }

    /// Forbid `id` in every filter conjunction.
    pub fn and_without(&mut self, id: ComponentId)
        ensures
            final(self)@.access == old(self)@.access,
            final(self)@.filter_sets.len() == old(self)@.filter_sets.len(),
            forall|k: int|
                0 <= k < old(self)@.filter_sets.len() ==> final(self)@.filter_sets[k]
                    == (AccessFiltersSpec {
                    without: old(self)@.filter_sets[k].without.insert(id),
                    ..old(self)@.filter_sets[k]
                }),
    {
        let n = self.filter_sets.len();
        let mut out: Vec<AccessFilters> = Vec::new();
        let mut i: usize = 0;
        while i < n
            invariant
                n == self.filter_sets@.len(),
                self@.filter_sets.len() == n,
                i <= n,
                out@.len() == i,
                self == old(self),
                forall|j: int|
                    0 <= j < i ==> out@[j]@ == (AccessFiltersSpec {
                        without: self@.filter_sets[j].without.insert(id),
                        ..self@.filter_sets[j]
                    }),
            decreases n - i,
        {
            let mut w = self.filter_sets[i].without.duplicate();
            w.insert(id);
            let f = AccessFilters { with: self.filter_sets[i].with.duplicate(), without: w };
            proof {
                assert(f@ =~= (AccessFiltersSpec {
                    without: self@.filter_sets[i as int].without.insert(id),
                    ..self@.filter_sets[i as int]
                }));
            }
            out.push(f);
            i = i + 1;
        }
        self.filter_sets = out;
    }

    /// AND-combine `other` into this value: the access maps union and the
    /// filter sets distribute (each conjunction of this value merged with
    /// each conjunction of `other`).
    pub fn extend(&mut self, other: &FilteredAccess)
        ensures
            final(self)@ == spec_extend(old(self)@, other@),
    {
        self.access.union_with(&other.access);
        let n = self.filter_sets.len();
        let m = other.filter_sets.len();
        let mut out: Vec<AccessFilters> = Vec::new();
        let mut i: usize = 0;
        while i < n
            invariant
                n == self.filter_sets@.len(),
                self@.filter_sets.len() == n,
                m == other.filter_sets@.len(),
                other@.filter_sets.len() == m,
                i <= n,
                self.filter_sets == old(self).filter_sets,
                out@.len() == i * m,
                Seq::new(out@.len(), |t: int| out@[t]@)
                    =~= spec_cross(self@.filter_sets.take(i as int), other@.filter_sets),
            decreases n - i,
        {
            let mut j: usize = 0;
            while j < m
                invariant
                    n == self.filter_sets@.len(),
                    self@.filter_sets.len() == n,
                    m == other.filter_sets@.len(),
                    other@.filter_sets.len() == m,
                    i < n,
                    j <= m,
                    self.filter_sets == old(self).filter_sets,
                    out@.len() == i * m + j,
                    Seq::new(out@.len(), |t: int| out@[t]@)
                        =~= spec_cross(self@.filter_sets.take(i as int), other@.filter_sets)
                        + spec_row(self@.filter_sets[i as int], other@.filter_sets).take(j as int),
                decreases m - j,
            {
                let mut w = self.filter_sets[i].with.duplicate();
                w.union_from(&other.filter_sets[j].with);
                let mut wo = self.filter_sets[i].without.duplicate();
                wo.union_from(&other.filter_sets[j].without);
                let f = AccessFilters { with: w, without: wo };
                proof {
                    assert(f@ =~= spec_merge_filters(
                        self@.filter_sets[i as int],
                        other@.filter_sets[j as int],
                    ));
                }
                let ghost pre = out@;
                let ghost prev = Seq::new(pre.len(), |t: int| pre[t]@);
                out.push(f);
                proof {
                    let fs = self@.filter_sets;
                    let ofs = other@.filter_sets;
                    let cr = spec_cross(fs.take(i as int), ofs);
                    let row = spec_row(fs[i as int], ofs);
                    assert(prev =~= cr + row.take(j as int));
                    let cur = Seq::new(out@.len(), |t: int| out@[t]@);
                    assert(cur.len() == prev.len() + 1);
                    assert forall|t: int| 0 <= t < prev.len() implies cur[t] == prev[t] by {
                        assert(out@[t] == pre[t]);
                    };
                    assert(cur[prev.len() as int] == f@);
                    assert(row.take(j + 1) =~= row.take(j as int).push(row[j as int]));
                    assert(f@ == row[j as int]);
                    assert(cur =~= cr + row.take(j + 1));
                }
                j = j + 1;
            }
            proof {
                let fs = self@.filter_sets;
                let ofs = other@.filter_sets;
                assert((i + 1) * m == i * m + m) by (nonlinear_arith);
                assert(spec_row(fs[i as int], ofs).take(m as int) =~= spec_row(fs[i as int], ofs));
                lemma_cross_take_step(fs, ofs, i as int);
                assert(Seq::new(out@.len(), |t: int| out@[t]@)
                    =~= spec_cross(fs.take(i + 1), ofs));
            }
            i = i + 1;
        }
        self.filter_sets = out;
        proof {
            assert(old(self)@.filter_sets.take(n as int) =~= old(self)@.filter_sets);
            assert(self@.filter_sets =~= spec_cross(old(self)@.filter_sets, other@.filter_sets));
            assert(self@ =~= spec_extend(old(self)@, other@));
        }
    }

    /// OR-combine `other` into this value by appending its filter
    /// conjunctions; the access map is untouched.
    pub fn append_or(&mut self, other: &FilteredAccess)
        ensures
            final(self)@ == spec_append_or(old(self)@, other@),
    {
        let m = other.filter_sets.len();
        let mut j: usize = 0;
        while j < m
            invariant
                m == other.filter_sets@.len(),
                other@.filter_sets.len() == m,
                j <= m,
                self.access == old(self).access,
                self@.filter_sets =~= old(self)@.filter_sets + other@.filter_sets.take(j as int),
            decreases m - j,
        {
            let ghost pre = self.filter_sets@;
            let ghost prev = self@.filter_sets;
            let d = other.filter_sets[j].duplicate();
            self.filter_sets.push(d);
            proof {
                let cur = self@.filter_sets;
                assert(cur.len() == prev.len() + 1);
                assert forall|t: int| 0 <= t < prev.len() implies cur[t] == prev[t] by {
                    assert(self.filter_sets@[t] == pre[t]);
                };
                assert(cur[prev.len() as int] == d@);
                assert(d@ == other@.filter_sets[j as int]);
                assert(other@.filter_sets.take(j + 1)
                    =~= other@.filter_sets.take(j as int).push(other@.filter_sets[j as int]));
                assert(cur =~= old(self)@.filter_sets + other@.filter_sets.take(j + 1));
            }
            j = j + 1;
        }
        proof {
            assert(other@.filter_sets.take(m as int) =~= other@.filter_sets);
            assert(self@ =~= spec_append_or(old(self)@, other@));
        }
    }

    /// Union only the access map of `other` into this value, leaving the
    /// filter sets alone; used to take accesses over as optional.
    pub fn extend_access(&mut self, other: &FilteredAccess)
        ensures
            final(self)@ == (FilteredAccessSpec {
                access: spec_access_union(old(self)@.access, other@.access),
                ..old(self)@
            }),
    {
        self.access.union_with(&other.access);
        proof {
            assert(self@ =~= (FilteredAccessSpec {
                access: spec_access_union(old(self)@.access, other@.access),
                ..old(self)@
            }));
        }
    }

    /// Whether an archetype holding exactly the ids of `present` satisfies
    /// this filtered access.
    pub fn matches_ids(&self, present: &IdSet) -> (r: bool)
        ensures
            r == spec_matches_set(self@, present@),
    {
        if self.access.has_read_all_components() {
            return true;
        }
        let sub_r = self.access.reads.subset_of(present);
        let sub_w = self.access.writes.subset_of(present);
        let sub_a = self.access.archetypal.subset_of(present);
        if !sub_r || !sub_w || !sub_a {
            proof {
                if !sub_r {
                    let c = choose|c: ComponentId|
                        self@.access.reads.contains(c) && !present@.contains(c);
                    assert(spec_accessed_ids(self@.access).contains(c));
                } else if !sub_w {
                    let c = choose|c: ComponentId|
                        self@.access.writes.contains(c) && !present@.contains(c);
                    assert(spec_accessed_ids(self@.access).contains(c));
                } else {
                    let c = choose|c: ComponentId|
                        self@.access.archetypal.contains(c) && !present@.contains(c);
                    assert(spec_accessed_ids(self@.access).contains(c));
                }
                assert(!spec_accessed_ids(self@.access).subset_of(present@));
            }
            return false;
        }
        proof {
            assert forall|c: ComponentId| spec_accessed_ids(self@.access).contains(c)
                implies present@.contains(c) by {
                assert(self@.access.reads.contains(c) || self@.access.writes.contains(c)
                    || self@.access.archetypal.contains(c));
            };
            assert(spec_accessed_ids(self@.access).subset_of(present@));
        }
        let n = self.filter_sets.len();
        let mut k: usize = 0;
        while k < n
            invariant
                n == self.filter_sets@.len(),
                self@.filter_sets.len() == n,
                k <= n,
                !self@.access.read_all,
                spec_accessed_ids(self@.access).subset_of(present@),
                forall|j: int|
                    0 <= j < k ==> !spec_filters_match(#[trigger] self@.filter_sets[j], present@),
            decreases n - k,
        {
            if self.filter_sets[k].matches_ids(present) {
                proof {
                    assert(spec_filters_match(self@.filter_sets[k as int], present@));
                }
                return true;
            }
            k = k + 1;
        }
        false
    }

    /// Whether this filtered access is dense: bounded, with every id it
    /// names stored in tables.  Ids not registered count as sparse.
    pub fn is_dense(&self, registry: &ComponentRegistry) -> (r: bool)
        ensures
            r == spec_is_dense(self@, registry@),
    {
        if self.access.has_read_all_components() {
            return false;
        }
        let dense_r = self.access.reads.all_dense(registry);
        let dense_w = self.access.writes.all_dense(registry);
        let dense_a = self.access.archetypal.all_dense(registry);
        if !dense_r || !dense_w || !dense_a {
            proof {
                if !dense_r {
                    let c = choose|c: ComponentId|
                        self@.access.reads.contains(c) && !spec_id_is_dense(registry@, c);
                    assert(spec_accessed_ids(self@.access).contains(c));
                } else if !dense_w {
                    let c = choose|c: ComponentId|
                        self@.access.writes.contains(c) && !spec_id_is_dense(registry@, c);
                    assert(spec_accessed_ids(self@.access).contains(c));
                } else {
                    let c = choose|c: ComponentId|
                        self@.access.archetypal.contains(c) && !spec_id_is_dense(registry@, c);
                    assert(spec_accessed_ids(self@.access).contains(c));
                }
            }
            return false;
        }
        proof {
            assert forall|c: ComponentId| spec_accessed_ids(self@.access).contains(c)
                implies #[trigger] spec_id_is_dense(registry@, c) by {
                assert(self@.access.reads.contains(c) || self@.access.writes.contains(c)
                    || self@.access.archetypal.contains(c));
            };
        }
        let n = self.filter_sets.len();
        let mut k: usize = 0;
        while k < n
            invariant
                n == self.filter_sets@.len(),
                self@.filter_sets.len() == n,
                k <= n,
                !self@.access.read_all,
                forall|c: ComponentId|
                    spec_accessed_ids(self@.access).contains(c)
                        ==> #[trigger] spec_id_is_dense(registry@, c),
                forall|j: int, c: ComponentId|
                    0 <= j < k && (#[trigger] self@.filter_sets[j].with.contains(c))
                        ==> spec_id_is_dense(registry@, c),
                forall|j: int, c: ComponentId|
                    0 <= j < k && (#[trigger] self@.filter_sets[j].without.contains(c))
                        ==> spec_id_is_dense(registry@, c),
            decreases n - k,
        {
            let dense_with = self.filter_sets[k].with.all_dense(registry);
            let dense_without = self.filter_sets[k].without.all_dense(registry);
            if !dense_with || !dense_without {
                proof {
                    if !dense_with {
                        assert(exists|c: ComponentId|
                            self@.filter_sets[k as int].with.contains(c)
                                && !spec_id_is_dense(registry@, c));
                        let c = choose|c: ComponentId|
                            self@.filter_sets[k as int].with.contains(c)
                                && !spec_id_is_dense(registry@, c);
                        assert(self@.filter_sets[k as int].with.contains(c));
                    } else {
                        assert(exists|c: ComponentId|
                            self@.filter_sets[k as int].without.contains(c)
                                && !spec_id_is_dense(registry@, c));
                        let c = choose|c: ComponentId|
                            self@.filter_sets[k as int].without.contains(c)
                                && !spec_id_is_dense(registry@, c);
                        assert(self@.filter_sets[k as int].without.contains(c));
                    }
                }
                return false;
            }
            k = k + 1;
        }
        true
    }
}

/// Extending the cross product one conjunction at a time: taking one more
/// conjunction of `a` appends one more row.
pub proof fn lemma_cross_take_step(a: Seq<AccessFiltersSpec>, b: Seq<AccessFiltersSpec>, i: int)
    requires
        0 <= i < a.len(),
    ensures
        spec_cross(a.take(i + 1), b) =~= spec_cross(a.take(i), b) + spec_row(a[i], b),
    decreases i,
{
    if i == 0 {
        assert(a.take(1).drop_first() =~= Seq::<AccessFiltersSpec>::empty());
        assert(a.take(0) =~= Seq::<AccessFiltersSpec>::empty());
        assert(a.take(1)[0] == a[0]);
    } else {
        lemma_cross_take_step(a.drop_first(), b, i - 1);
        assert(a.take(i + 1)[0] == a[0]);
        assert(a.take(i + 1).drop_first() =~= a.drop_first().take(i));
        assert(a.take(i).drop_first() =~= a.drop_first().take(i - 1));
        assert(a.take(i)[0] == a[0]);
        assert(a.drop_first()[i - 1] == a[i]);
        assert(spec_cross(a.take(i + 1), b)
            =~= spec_row(a[0], b) + spec_cross(a.drop_first().take(i), b));
        assert(spec_cross(a.take(i), b)
            =~= spec_row(a[0], b) + spec_cross(a.drop_first().take(i - 1), b));
    }
}


/// Merging conjunctions is associative.
pub proof fn lemma_merge_filters_assoc(f: AccessFiltersSpec, g: AccessFiltersSpec, h: AccessFiltersSpec)
    ensures
        spec_merge_filters(spec_merge_filters(f, g), h) == spec_merge_filters(f, spec_merge_filters(g, h)),
{
    assert(spec_merge_filters(spec_merge_filters(f, g), h)
        =~~= spec_merge_filters(f, spec_merge_filters(g, h)));
}

/// Merging the empty conjunction changes nothing.
pub proof fn lemma_merge_filters_empty(f: AccessFiltersSpec)
    ensures
        spec_merge_filters(spec_filters_empty(), f) == f,
        spec_merge_filters(f, spec_filters_empty()) == f,
{
    assert(spec_merge_filters(spec_filters_empty(), f) =~~= f);
    assert(spec_merge_filters(f, spec_filters_empty()) =~~= f);
}

/// A row over a concatenation is the concatenation of the rows.
pub proof fn lemma_row_concat(f: AccessFiltersSpec, u: Seq<AccessFiltersSpec>, v: Seq<AccessFiltersSpec>)
    ensures
        spec_row(f, u + v) == spec_row(f, u) + spec_row(f, v),
{
    assert(spec_row(f, u + v) =~= spec_row(f, u) + spec_row(f, v));
}

/// The cross product distributes over concatenation on the left.
pub proof fn lemma_cross_concat(u: Seq<AccessFiltersSpec>, v: Seq<AccessFiltersSpec>, b: Seq<AccessFiltersSpec>)
    ensures
        spec_cross(u + v, b) == spec_cross(u, b) + spec_cross(v, b),
    decreases u.len(),
{
    if u.len() == 0 {
        assert(u + v =~= v);
        assert(spec_cross(u, b) =~= Seq::<AccessFiltersSpec>::empty());
        assert(spec_cross(u, b) + spec_cross(v, b) =~= spec_cross(v, b));
    } else {
        lemma_cross_concat(u.drop_first(), v, b);
        assert((u + v)[0] == u[0]);
        assert((u + v).len() > 0);
        assert((u + v).drop_first() =~= u.drop_first() + v);
        assert(spec_cross(u + v, b) == spec_row(u[0], b) + spec_cross(u.drop_first() + v, b));
        assert(spec_row(u[0], b) + (spec_cross(u.drop_first(), b) + spec_cross(v, b))
            =~= (spec_row(u[0], b) + spec_cross(u.drop_first(), b)) + spec_cross(v, b));
    }
}

/// A cross product against a row: merging `f` into every conjunction of
/// `b` first, or into every conjunction of the product afterwards, comes
/// to the same.
pub proof fn lemma_cross_row(f: AccessFiltersSpec, b: Seq<AccessFiltersSpec>, c: Seq<AccessFiltersSpec>)
    ensures
        spec_cross(spec_row(f, b), c) == spec_row(f, spec_cross(b, c)),
    decreases b.len(),
{
    if b.len() == 0 {
        assert(spec_row(f, b) =~= Seq::<AccessFiltersSpec>::empty());
        assert(spec_cross(b, c) =~= Seq::<AccessFiltersSpec>::empty());
        assert(spec_row(f, spec_cross(b, c)) =~= Seq::<AccessFiltersSpec>::empty());
    } else {
        lemma_cross_row(f, b.drop_first(), c);
        let fb = spec_row(f, b);
        assert(fb.len() > 0);
        assert(fb[0] == spec_merge_filters(f, b[0]));
        assert(fb.drop_first() =~= spec_row(f, b.drop_first()));
        assert(spec_cross(fb, c)
            == spec_row(spec_merge_filters(f, b[0]), c) + spec_cross(spec_row(f, b.drop_first()), c));
        assert forall|j: int| 0 <= j < c.len()
            implies spec_row(spec_merge_filters(f, b[0]), c)[j]
                == spec_row(f, spec_row(b[0], c))[j] by {
            lemma_merge_filters_assoc(f, b[0], c[j]);
        };
        assert(spec_row(spec_merge_filters(f, b[0]), c) =~= spec_row(f, spec_row(b[0], c)));
        assert(spec_cross(b, c) == spec_row(b[0], c) + spec_cross(b.drop_first(), c));
        lemma_row_concat(f, spec_row(b[0], c), spec_cross(b.drop_first(), c));
        assert(spec_row(f, spec_cross(b, c))
            == spec_row(f, spec_row(b[0], c)) + spec_row(f, spec_cross(b.drop_first(), c)));
    }
}

/// The cross product of filter disjunctions is associative.
pub proof fn lemma_cross_assoc(a: Seq<AccessFiltersSpec>, b: Seq<AccessFiltersSpec>, c: Seq<AccessFiltersSpec>)
    ensures
        spec_cross(spec_cross(a, b), c) == spec_cross(a, spec_cross(b, c)),
    decreases a.len(),
{
    if a.len() == 0 {
        assert(spec_cross(a, b) =~= Seq::<AccessFiltersSpec>::empty());
        assert(spec_cross(a, spec_cross(b, c)) =~= Seq::<AccessFiltersSpec>::empty());
    } else {
        lemma_cross_assoc(a.drop_first(), b, c);
        assert(spec_cross(a, b) == spec_row(a[0], b) + spec_cross(a.drop_first(), b));
        lemma_cross_concat(spec_row(a[0], b), spec_cross(a.drop_first(), b), c);
        lemma_cross_row(a[0], b, c);
        assert(spec_cross(a, spec_cross(b, c))
            == spec_row(a[0], spec_cross(b, c)) + spec_cross(a.drop_first(), spec_cross(b, c)));
    }
}

/// The single empty conjunction is the identity of the cross product.
pub proof fn lemma_cross_identity(a: Seq<AccessFiltersSpec>)
    ensures
        spec_cross(seq![spec_filters_empty()], a) == a,
        spec_cross(a, seq![spec_filters_empty()]) == a,
    decreases a.len(),
{
    let e = seq![spec_filters_empty()];
    assert(e.len() == 1);
    assert(e[0] == spec_filters_empty());
    assert(e.drop_first() =~= Seq::<AccessFiltersSpec>::empty());
    assert(spec_cross(Seq::<AccessFiltersSpec>::empty(), a) =~= Seq::<AccessFiltersSpec>::empty());
    assert forall|j: int| 0 <= j < a.len() implies spec_row(spec_filters_empty(), a)[j] == a[j] by {
        lemma_merge_filters_empty(a[j]);
    };
    assert(spec_row(spec_filters_empty(), a) =~= a);
    assert(spec_cross(e, a) =~= spec_row(spec_filters_empty(), a) + Seq::<AccessFiltersSpec>::empty());
    assert(spec_cross(e, a) =~= a);
    if a.len() == 0 {
        assert(spec_cross(a, e) =~= a);
    } else {
        lemma_cross_identity(a.drop_first());
        lemma_merge_filters_empty(a[0]);
        assert(spec_row(a[0], e) =~= seq![a[0]]);
        assert(spec_cross(a, e) == spec_row(a[0], e) + spec_cross(a.drop_first(), e));
        assert(seq![a[0]] + a.drop_first() =~= a);
    }
}

/// AND-combining filtered accesses is associative: extending by `y` and
/// then by `z` is the same as extending once by `y` extended with `z`.
pub proof fn lemma_extend_associative(x: FilteredAccessSpec, y: FilteredAccessSpec, z: FilteredAccessSpec)
    ensures
        spec_extend(spec_extend(x, y), z) == spec_extend(x, spec_extend(y, z)),
{
    lemma_cross_assoc(x.filter_sets, y.filter_sets, z.filter_sets);
    assert(spec_access_union(spec_access_union(x.access, y.access), z.access)
        =~~= spec_access_union(x.access, spec_access_union(y.access, z.access)));
    assert(spec_extend(spec_extend(x, y), z) =~~= spec_extend(x, spec_extend(y, z)));
}

/// The value that matches everything is the identity of `extend`, on
/// either side.
pub proof fn lemma_extend_identity(x: FilteredAccessSpec)
    ensures
        spec_extend(spec_everything(), x) == x,
        spec_extend(x, spec_everything()) == x,
{
    lemma_cross_identity(x.filter_sets);
    assert(spec_access_union(spec_access_empty(), x.access) =~~= x.access);
    assert(spec_access_union(x.access, spec_access_empty()) =~~= x.access);
    assert(spec_extend(spec_everything(), x) =~~= x);
    assert(spec_extend(x, spec_everything()) =~~= x);
}

} // verus!
