//! Query plans over multiple related entities: terms, relationship edges,
//! the plan builders, and the matcher that executes a plan.
//!
//! A plan holds a vector of terms — one filtered access set per tuple
//! slot — a vector of directed relationship edges between terms, and the
//! index of the main term.  Executing a plan for a candidate main entity
//! yields every tuple of entities, one per term, in which the main slot
//! holds the candidate, every entity satisfies its term's access, and
//! every edge is witnessed by the relationship component it names.

use vstd::prelude::*;
use vstd::bytes::{u64_from_le_bytes, spec_u64_from_le_bytes};
use vstd::slice::slice_subrange;
use crate::access::{FilteredAccess, FilteredAccessSpec, spec_matches_set, spec_extend, spec_everything, spec_accessed_ids};
use crate::component::{ComponentId, ComponentKind, RelationshipAccessor, spec_register};
use crate::entity::Entity;
use crate::world::{ComponentData, WorldView};

verus! {

/// A single source in a multi-source query: one tuple slot, with the
/// component accesses it requires.
#[derive(Clone, Debug)]
pub struct QueryElement {
    /// The components that need to be accessed for this term.
    pub access: FilteredAccess,
    /// The position of this term in the plan's term vector.
    pub term_index: usize,
}

/// Whether entity `e` matches term `t` in world `w`: `e` is live and its
/// component set satisfies the term's filtered access.
pub open spec fn spec_term_matches(w: WorldView, t: QueryElement, e: Entity) -> bool {
    w.spec_live(e) && spec_matches_set(t.access@, w.spec_components_of(e))
}

impl QueryElement {
    /// Create a new query term with the given access.
    pub fn new(term_index: usize, access: FilteredAccess) -> (r: QueryElement)
        ensures
            r.access@ == access@,
            r.term_index == term_index,
    {
        QueryElement { access, term_index }
    }

    /// Check whether an entity matches this term's requirements: the
    /// entity must be live and its archetype must satisfy the term's
    /// filtered access.  An unbounded access matches any live entity.
    pub fn matches(&self, entity: Entity, world: &WorldView) -> (r: bool)
        ensures
            r == spec_term_matches(*world, *self, entity),
    {
        if !world.is_live(entity) {
            return false;
        }
        let present = world.component_ids_of(entity);
        self.access.matches_ids(&present)
    }
}

/// A directed edge of a plan: how one term's entity is connected to
/// another's through a relationship component.
#[derive(Clone, Debug)]
pub struct QueryRelationship {
    /// The source term index.
    pub source_term: usize,
    /// The target term index.
    pub target_term: usize,
    /// The relationship component that links source to target.
    pub relationship_component: ComponentId,
    /// How entity targets are read out of that component, captured from
    /// the registry when the edge was added.
    pub accessor: RelationshipAccessor,
}

/// The candidate target entities an edge yields from a source entity: for
/// a plain relationship, the single entity packed at the accessor's byte
/// offset of the component payload; for a relationship target, the whole
/// stored collection.  A stale source, a missing component, a payload of
/// the wrong shape or one too short all yield no candidates.
pub open spec fn spec_candidates(w: WorldView, r: QueryRelationship, src: Entity) -> Seq<Entity> {
    match w.spec_component_of(src, r.relationship_component) {
        Option::None => Seq::empty(),
        Option::Some(d) => match r.accessor {
            RelationshipAccessor::Relationship { entity_field_offset, .. } => match d {
                ComponentData::Bytes(b) => if entity_field_offset + 8 <= b@.len() {
                    seq![
                        Entity::spec_from_bits(
                            spec_u64_from_le_bytes(
                                b@.subrange(
                                    entity_field_offset as int,
                                    entity_field_offset as int + 8,
                                ),
                            ),
                        ),
                    ]
                } else {
                    Seq::empty()
                },
                ComponentData::Entities(_) => Seq::empty(),
            },
            RelationshipAccessor::RelationshipTarget { .. } => match d {
                ComponentData::Entities(es) => es@,
                ComponentData::Bytes(_) => Seq::empty(),
            },
        },
    }
}

impl QueryRelationship {
    /// The candidate related entities reachable from `source_entity` over
    /// this edge.  Pruning conditions — a stale source, a missing or
    /// malformed relationship component — yield an empty vector, never an
    /// error.
    pub fn get_related_entities(&self, source_entity: Entity, world: &WorldView) -> (r: Vec<Entity>)
        ensures
            r@ == spec_candidates(*world, *self, source_entity),
    {
        let mut out: Vec<Entity> = Vec::new();
        match world.get_component(source_entity, self.relationship_component) {
            Option::None => out,
            Option::Some(d) => {
                match self.accessor {
                    RelationshipAccessor::Relationship { entity_field_offset, .. } => {
                        match d {
                            ComponentData::Bytes(b) => {
                                if entity_field_offset <= b.len()
                                    && b.len() - entity_field_offset >= 8 {
                                    let raw = slice_subrange(
                                        b.as_slice(),
                                        entity_field_offset,
                                        entity_field_offset + 8,
                                    );
                                    let bits = u64_from_le_bytes(raw);
                                    out.push(Entity::from_bits(bits));
                                    proof {
                                        assert(out@ =~= spec_candidates(*world, *self, source_entity));
                                    }
                                }
                                out
                            },
                            ComponentData::Entities(_) => out,
                        }
                    },
                    RelationshipAccessor::RelationshipTarget { .. } => {
                        match d {
                            ComponentData::Entities(es) => {
                                let n = es.len();
                                let mut j: usize = 0;
                                while j < n
                                    invariant
                                        n == es@.len(),
                                        j <= n,
                                        out@ == es@.take(j as int),
                                    decreases n - j,
                                {
                                    out.push(es[j]);
                                    proof {
                                        assert(out@ =~= es@.take(j + 1));
                                    }
                                    j = j + 1;
                                }
                                proof {
                                    assert(out@ =~= es@);
                                }
                                out
                            },
                            ComponentData::Bytes(_) => out,
                        }
                    },
                }
            },
        }
    }
}

/// A small typed handle naming one term of a plan.
#[derive(Clone, Copy, PartialEq, Eq, Structural, Debug)]
pub struct QueryVariable {
    /// The term index named.
    pub index: u8,
}

impl From<u8> for QueryVariable {
    /// Wrap a raw term index.
    fn from(value: u8) -> (r: QueryVariable) {
        QueryVariable { index: value }
    }
}

impl vstd::std_specs::convert::FromSpecImpl<u8> for QueryVariable {
    open spec fn obeys_from_spec() -> bool {
        true
    }

    open spec fn from_spec(value: u8) -> QueryVariable {
        QueryVariable { index: value }
    }
}

/// Why building or extending a plan failed.
#[derive(Clone, Copy, PartialEq, Eq, Structural, Debug)]
pub enum QueryPlanError {
    /// A term index named a term that does not exist in the plan.
    UnknownTerm(usize),
    /// The component named in `related_to` has no relationship accessor.
    NotARelationship(ComponentId),
}


/// A dynamic query plan: how to match multiple entities connected through
/// relationships.
#[derive(Clone, Debug)]
pub struct QueryPlan {
    /// All terms of this query, one per tuple slot.
    pub terms: Vec<QueryElement>,
    /// The relationship edges that connect the terms.
    pub relationships: Vec<QueryRelationship>,
    /// The index of the main term — the one iterated over.
    pub main_term_index: usize,
}

/// A frozen plan is well formed when its main index and every edge
/// endpoint name an existing term.
pub open spec fn spec_plan_wf(p: QueryPlan) -> bool {
    &&& p.main_term_index < p.terms@.len()
    &&& forall|j: int|
        0 <= j < p.relationships@.len() ==> (#[trigger] p.relationships@[j]).source_term
            < p.terms@.len() && p.relationships@[j].target_term < p.terms@.len()
}

/// The combined access of the first `i` terms: the fold of `extend` over
/// their accesses, starting from the value that matches everything.
pub open spec fn spec_combined_prefix(s: Seq<FilteredAccessSpec>, i: int) -> FilteredAccessSpec
    decreases i,
{
    if i <= 0 {
        spec_everything()
    } else {
        spec_extend(spec_combined_prefix(s, i - 1), s[i - 1])
    }
}

impl QueryPlan {
    /// Create a new, empty query plan whose main term will be
    /// `main_term_index`.
    pub fn new(main_term_index: usize) -> (r: QueryPlan)
        ensures
            r.terms@ == Seq::<QueryElement>::empty(),
            r.relationships@ == Seq::<QueryRelationship>::empty(),
            r.main_term_index == main_term_index,
    {
        QueryPlan { terms: Vec::new(), relationships: Vec::new(), main_term_index }
    }

    /// Append a term to the plan and return its index.
    pub fn add_term(&mut self, access: FilteredAccess) -> (r: usize)
        requires
            old(self).terms@.len() < usize::MAX,
        ensures
            r == old(self).terms@.len(),
            final(self).terms@.len() == old(self).terms@.len() + 1,
            forall|j: int|
                0 <= j < old(self).terms@.len() ==> final(self).terms@[j] == old(self).terms@[j],
            final(self).terms@[r as int].access@ == access@,
            final(self).terms@[r as int].term_index == r,
            final(self).relationships@ == old(self).relationships@,
            final(self).main_term_index == old(self).main_term_index,
    {
        let term_index = self.terms.len();
        self.terms.push(QueryElement::new(term_index, access));
        term_index
    }

    /// Append a relationship edge between two existing terms, reading the
    /// targets with `accessor`.  Fails with [`QueryPlanError::UnknownTerm`]
    /// — naming the offending index — iff `source` or `target` is out of
    /// range; the plan is then unchanged.
    pub fn add_relationship(
        &mut self,
        source: usize,
        target: usize,
        relationship_component: ComponentId,
        accessor: RelationshipAccessor,
    ) -> (r: Result<(), QueryPlanError>)
        requires
            old(self).relationships@.len() < usize::MAX,
        ensures
            final(self).terms@ == old(self).terms@,
            final(self).main_term_index == old(self).main_term_index,
            match r {
                Ok(()) => {
                    &&& source < old(self).terms@.len()
                    &&& target < old(self).terms@.len()
                    &&& final(self).relationships@ == old(self).relationships@.push(
                        QueryRelationship {
                            source_term: source,
                            target_term: target,
                            relationship_component,
                            accessor,
                        },
                    )
                },
                Err(e) => {
                    &&& final(self).relationships@ == old(self).relationships@
                    &&& (source >= old(self).terms@.len() || target >= old(self).terms@.len())
                    &&& e == (if source >= old(self).terms@.len() {
                        QueryPlanError::UnknownTerm(source)
                    } else {
                        QueryPlanError::UnknownTerm(target)
                    })
                },
            },
    {
        if source >= self.terms.len() {
            return Err(QueryPlanError::UnknownTerm(source));
        }
        if target >= self.terms.len() {
            return Err(QueryPlanError::UnknownTerm(target));
        }
        self.relationships.push(QueryRelationship {
            source_term: source,
            target_term: target,
            relationship_component,
            accessor,
        });
        Ok(())
    }

    /// The access of the main term, used for archetype matching.
    pub fn main_term_access(&self) -> (r: &FilteredAccess)
        requires
            self.main_term_index < self.terms@.len(),
        ensures
            r@ == self.terms@[self.main_term_index as int].access@,
    {
        &self.terms[self.main_term_index].access
    }

    /// The combined access of the whole plan: the fold of `extend` over
    /// every term's access, starting from the value that matches
    /// everything.  It is conservative: a scheduler treating it as the
    /// plan's access set over-approximates but never under-approximates
    /// the accesses any term performs.
    pub fn combined_access(&self) -> (r: FilteredAccess)
        ensures
            r@ == spec_combined_prefix(
                Seq::new(self.terms@.len(), |j: int| self.terms@[j].access@),
                self.terms@.len() as int,
            ),
    {
        let ghost accs = Seq::new(self.terms@.len(), |j: int| self.terms@[j].access@);
        let mut combined = FilteredAccess::matches_everything();
        let n = self.terms.len();
        let mut i: usize = 0;
        while i < n
            invariant
                n == self.terms@.len(),
                i <= n,
                accs == Seq::new(self.terms@.len(), |j: int| self.terms@[j].access@),
                combined@ == spec_combined_prefix(accs, i as int),
            decreases n - i,
        {
            combined.extend(&self.terms[i].access);
            i = i + 1;
        }
        combined
    }
}

/// Every id any single term reads, writes or requires is covered by the
/// combined access of the plan, and the unbounded states propagate: the
/// combined access over-approximates each term's access.
pub proof fn lemma_combined_access_covers(s: Seq<FilteredAccessSpec>, n: int, i: int)
    requires
        0 <= i < n <= s.len(),
    ensures
        s[i].access.reads.subset_of(spec_combined_prefix(s, n).access.reads),
        s[i].access.writes.subset_of(spec_combined_prefix(s, n).access.writes),
        s[i].access.archetypal.subset_of(spec_combined_prefix(s, n).access.archetypal),
        s[i].access.read_all ==> spec_combined_prefix(s, n).access.read_all,
        s[i].access.write_all ==> spec_combined_prefix(s, n).access.write_all,
        spec_accessed_ids(s[i].access).subset_of(spec_accessed_ids(spec_combined_prefix(s, n).access)),
    decreases n,
{
    if i == n - 1 {
        assert(spec_combined_prefix(s, n)
            == spec_extend(spec_combined_prefix(s, n - 1), s[n - 1]));
    } else {
        lemma_combined_access_covers(s, n - 1, i);
        assert(spec_combined_prefix(s, n)
            == spec_extend(spec_combined_prefix(s, n - 1), s[n - 1]));
    }
}


/// Whether every tuple slot of a partial assignment is bound.
pub open spec fn spec_all_bound(partial: Seq<Option<Entity>>) -> bool {
    forall|j: int| 0 <= j < partial.len() ==> (#[trigger] partial[j]) is Some
}

/// The tuple a fully bound partial assignment denotes.
pub open spec fn spec_unwrap_all(partial: Seq<Option<Entity>>) -> Seq<Entity> {
    Seq::new(partial.len(), |j: int| partial[j]->Some_0)
}

/// The tuples of a result vector, as a sequence of sequences.
pub open spec fn spec_tuples_view(r: Seq<Vec<Entity>>) -> Seq<Seq<Entity>> {
    Seq::new(r.len(), |i: int| r[i]@)
}

/// The tuples the depth-first search emits from edge `k` onwards, given
/// the partial assignment built so far.  Past the last edge, a fully
/// bound assignment emits its tuple and anything else emits nothing; at
/// edge `k`, an unbound or out-of-range source prunes, and otherwise each
/// candidate read through the edge's accessor is tried in order.
pub open spec fn spec_dfs(
    p: QueryPlan,
    w: WorldView,
    k: int,
    partial: Seq<Option<Entity>>,
) -> Seq<Seq<Entity>>
    decreases p.relationships@.len() - k + 1, 0int, 0int,
{
    if !(0 <= k < p.relationships@.len()) {
        if spec_all_bound(partial) {
            seq![spec_unwrap_all(partial)]
        } else {
            Seq::empty()
        }
    } else {
        let edge = p.relationships@[k];
        if edge.source_term >= partial.len() {
            Seq::empty()
        } else {
            match partial[edge.source_term as int] {
                Option::None => Seq::empty(),
                Option::Some(src) => spec_dfs_cands(p, w, k, partial, spec_candidates(w, edge, src), 0),
            }
        }
    }
}

/// The tuples contributed by the candidates of edge `k` from position `i`
/// onwards: each candidate's branch, in candidate order.
pub open spec fn spec_dfs_cands(
    p: QueryPlan,
    w: WorldView,
    k: int,
    partial: Seq<Option<Entity>>,
    cands: Seq<Entity>,
    i: int,
) -> Seq<Seq<Entity>>
    decreases p.relationships@.len() - k, cands.len() - i + 2, 0int,
{
    if !(0 <= k < p.relationships@.len()) || !(0 <= i < cands.len()) {
        Seq::empty()
    } else {
        spec_branch(p, w, k, partial, cands[i]) + spec_dfs_cands(p, w, k, partial, cands, i + 1)
    }
}

/// The tuples contributed by one candidate `cand` for edge `k`: nothing
/// if the target slot is out of range, the candidate fails the target
/// term, or the slot is already bound to a different entity; the deeper
/// search otherwise, with the candidate bound into the target slot.
pub open spec fn spec_branch(
    p: QueryPlan,
    w: WorldView,
    k: int,
    partial: Seq<Option<Entity>>,
    cand: Entity,
) -> Seq<Seq<Entity>>
    decreases p.relationships@.len() - k, 1int, 0int,
{
    if !(0 <= k < p.relationships@.len()) {
        Seq::empty()
    } else {
        let target = p.relationships@[k].target_term;
        if target >= partial.len() || target >= p.terms@.len() {
            Seq::empty()
        } else if !spec_term_matches(w, p.terms@[target as int], cand) {
            Seq::empty()
        } else {
            match partial[target as int] {
                Option::Some(x) => if x == cand {
                    spec_dfs(p, w, k + 1, partial)
                } else {
                    Seq::empty()
                },
                Option::None => spec_dfs(p, w, k + 1, partial.update(target as int, Option::Some(cand))),
            }
        }
    }
}

/// The initial partial assignment: only the main slot bound, to `e`.
pub open spec fn spec_init_partial(p: QueryPlan, e: Entity) -> Seq<Option<Entity>> {
    Seq::new(p.terms@.len(), |j: int| if j == p.main_term_index as int {
        Option::Some(e)
    } else {
        Option::None
    })
}

/// Everything `execute` returns: the empty sequence when the main term is
/// missing or the main entity fails it, and otherwise the tuples of the
/// depth-first search over all edges in insertion order.  The result is a
/// function of the plan, the world and the entity alone, so two
/// executions against the same world return identical results.
pub open spec fn spec_execute(p: QueryPlan, w: WorldView, e: Entity) -> Seq<Seq<Entity>> {
    if p.main_term_index >= p.terms@.len() {
        Seq::empty()
    } else if !spec_term_matches(w, p.terms@[p.main_term_index as int], e) {
        Seq::empty()
    } else {
        spec_dfs(p, w, 0, spec_init_partial(p, e))
    }
}

impl QueryPlan {
    /// Execute the query plan for a given main entity, returning every
    /// matched entity tuple, one entity per term, in depth-first order
    /// over the edges in insertion order.  Execution never fails: a stale
    /// main entity, a failed term or a missing relationship component
    /// simply contribute no tuples.
    pub fn execute(&self, main_entity: Entity, world: &WorldView) -> (r: Vec<Vec<Entity>>)
        ensures
            spec_tuples_view(r@) == spec_execute(*self, *world, main_entity),
    {
        let results: Vec<Vec<Entity>> = Vec::new();
        if self.main_term_index >= self.terms.len() {
            proof {
                assert(spec_tuples_view(results@) =~= spec_execute(*self, *world, main_entity));
            }
            return results;
        }
        if !self.terms[self.main_term_index].matches(main_entity, world) {
            proof {
                assert(spec_tuples_view(results@) =~= spec_execute(*self, *world, main_entity));
            }
            return results;
        }
        let mut results = results;
        let n = self.terms.len();
        let mut partial: Vec<Option<Entity>> = Vec::new();
        let mut j: usize = 0;
        while j < n
            invariant
                j <= n,
                partial@.len() == j,
                forall|t: int| 0 <= t < j ==> (#[trigger] partial@[t]) is None,
            decreases n - j,
        {
            partial.push(Option::None);
            j = j + 1;
        }
        partial.set(self.main_term_index, Option::Some(main_entity));
        proof {
            assert(partial@ =~= spec_init_partial(*self, main_entity));
        }
        self.resolve_from(world, 0, &mut partial, &mut results);
        proof {
            assert(Seq::<Seq<Entity>>::empty() + spec_dfs(*self, *world, 0, spec_init_partial(*self, main_entity))
                =~= spec_dfs(*self, *world, 0, spec_init_partial(*self, main_entity)));
            assert(spec_tuples_view(Seq::<Vec<Entity>>::empty()) =~= Seq::<Seq<Entity>>::empty());
        }
        results
    }

    /// Resolve the plan from edge `k` onwards: emit into `results` every
    /// tuple the depth-first search finds under the current partial
    /// assignment, restoring the assignment before returning.
    fn resolve_from(
        &self,
        world: &WorldView,
        k: usize,
        partial: &mut Vec<Option<Entity>>,
        results: &mut Vec<Vec<Entity>>,
    )
        requires
            k <= self.relationships@.len(),
        ensures
            final(partial)@ == old(partial)@,
            spec_tuples_view(final(results)@) == spec_tuples_view(old(results)@)
                + spec_dfs(*self, *world, k as int, old(partial)@),
        decreases self.relationships@.len() - k,
    {
        let e_count = self.relationships.len();
        if k == e_count {
            let n = partial.len();
            let mut j: usize = 0;
            while j < n
                invariant
                    k as int == self.relationships@.len(),
                    n == partial@.len(),
                    j <= n,
                    partial@ == old(partial)@,
                    results@ == old(results)@,
                    forall|t: int| 0 <= t < j ==> (#[trigger] partial@[t]) is Some,
                decreases n - j,
            {
                if partial[j].is_none() {
                    proof {
                        assert(!spec_all_bound(old(partial)@));
                        assert(spec_dfs(*self, *world, k as int, old(partial)@)
                            =~= Seq::<Seq<Entity>>::empty());
                        assert(spec_tuples_view(results@)
                            =~= spec_tuples_view(old(results)@)
                                + spec_dfs(*self, *world, k as int, old(partial)@));
                    }
                    return;
                }
                j = j + 1;
            }
            let mut tuple: Vec<Entity> = Vec::new();
            j = 0;
            while j < n
                invariant
                    k as int == self.relationships@.len(),
                    n == partial@.len(),
                    j <= n,
                    partial@ == old(partial)@,
                    results@ == old(results)@,
                    spec_all_bound(partial@),
                    tuple@ == spec_unwrap_all(old(partial)@).take(j as int),
                decreases n - j,
            {
                match partial[j] {
                    Option::Some(e) => {
                        tuple.push(e);
                        proof {
                            assert(tuple@ =~= spec_unwrap_all(old(partial)@).take(j + 1));
                        }
                    },
                    Option::None => {
                        proof {
                            assert(false);
                        }
                    },
                }
                j = j + 1;
            }
            proof {
                assert(tuple@ =~= spec_unwrap_all(old(partial)@));
            }
            let ghost pre = results@;
            results.push(tuple);
            proof {
                assert(spec_all_bound(old(partial)@));
                assert(spec_dfs(*self, *world, k as int, old(partial)@)
                    =~= seq![spec_unwrap_all(old(partial)@)]);
                let cur = spec_tuples_view(results@);
                let prev = spec_tuples_view(pre);
                assert(cur.len() == prev.len() + 1);
                assert forall|t: int| 0 <= t < prev.len() implies cur[t] == prev[t] by {
                    assert(results@[t] == pre[t]);
                };
                assert(cur[prev.len() as int] == tuple@);
                assert(cur =~= prev + spec_dfs(*self, *world, k as int, old(partial)@));
            }
            return;
        }
        let edge_source = self.relationships[k].source_term;
        if edge_source >= partial.len() {
            proof {
                assert(spec_dfs(*self, *world, k as int, old(partial)@)
                    =~= Seq::<Seq<Entity>>::empty());
                assert(spec_tuples_view(results@)
                    =~= spec_tuples_view(old(results)@)
                        + spec_dfs(*self, *world, k as int, old(partial)@));
            }
            return;
        }
        let src_opt = partial[edge_source];
        let src: Entity;
        match src_opt {
            Option::None => {
                proof {
                    assert(spec_dfs(*self, *world, k as int, old(partial)@)
                        =~= Seq::<Seq<Entity>>::empty());
                    assert(spec_tuples_view(results@)
                        =~= spec_tuples_view(old(results)@)
                            + spec_dfs(*self, *world, k as int, old(partial)@));
                }
                return;
            },
            Option::Some(s) => {
                src = s;
            },
        }
        let cands = self.relationships[k].get_related_entities(src, world);
        let m = cands.len();
        let ghost entry_results = spec_tuples_view(results@);
        let ghost entry_partial = partial@;
        let mut i: usize = 0;
        while i < m
            invariant
                k < e_count,
                e_count == self.relationships@.len(),
                edge_source == self.relationships@[k as int].source_term,
                edge_source < partial@.len(),
                partial@ == entry_partial,
                entry_partial == old(partial)@,
                partial@[edge_source as int] == Option::Some(src),
                m == cands@.len(),
                i <= m,
                cands@ == spec_candidates(*world, self.relationships@[k as int], src),
                spec_tuples_view(results@)
                    + spec_dfs_cands(*self, *world, k as int, partial@, cands@, i as int)
                    == entry_results
                        + spec_dfs_cands(*self, *world, k as int, partial@, cands@, 0),
            decreases m - i,
        {
            let cand = cands[i];
            let ghost pre_view = spec_tuples_view(results@);
            let target = self.relationships[k].target_term;
            if target < partial.len() && target < self.terms.len() {
                if self.terms[target].matches(cand, world) {
                    let cur = partial[target];
                    match cur {
                        Option::Some(x) => {
                            if x == cand {
                                self.resolve_from(world, k + 1, partial, results);
                            }
                        },
                        Option::None => {
                            partial.set(target, Option::Some(cand));
                            self.resolve_from(world, k + 1, partial, results);
                            partial.set(target, Option::None);
                            proof {
                                assert(partial@ =~= entry_partial);
                            }
                        },
                    }
                }
            }
            proof {
                let branch = spec_branch(*self, *world, k as int, entry_partial, cand);
                assert(spec_tuples_view(results@) == pre_view + branch);
                assert(spec_dfs_cands(*self, *world, k as int, entry_partial, cands@, i as int)
                    == branch + spec_dfs_cands(*self, *world, k as int, entry_partial, cands@, i + 1));
                assert((pre_view + branch)
                    + spec_dfs_cands(*self, *world, k as int, entry_partial, cands@, i + 1)
                    =~= pre_view
                        + (branch + spec_dfs_cands(*self, *world, k as int, entry_partial, cands@, i + 1)));
            }
            i = i + 1;
        }
        proof {
            assert(spec_dfs_cands(*self, *world, k as int, entry_partial, cands@, m as int)
                =~= Seq::<Seq<Entity>>::empty());
            assert(spec_tuples_view(results@) + Seq::<Seq<Entity>>::empty()
                =~= spec_tuples_view(results@));
            assert(spec_dfs(*self, *world, k as int, old(partial)@)
                == spec_dfs_cands(*self, *world, k as int, old(partial)@, cands@, 0));
        }
    }
}


/// Whether tuple `t` witnesses the edge `edge`: both endpoints name slots
/// of the tuple, and reading the edge's relationship component from the
/// source entity yields a sequence containing the target entity.
pub open spec fn spec_tuple_witnessed(w: WorldView, edge: QueryRelationship, t: Seq<Entity>) -> bool {
    &&& (edge.source_term as int) < t.len()
    &&& (edge.target_term as int) < t.len()
    &&& spec_candidates(w, edge, t[edge.source_term as int]).contains(t[edge.target_term as int])
}

/// Everything the search guarantees of slot `j` of an emitted tuple: it
/// agrees with the partial assignment if that slot was bound, its term
/// exists, and its entity matches that term.
pub open spec fn spec_slot_ok(
    p: QueryPlan,
    w: WorldView,
    partial: Seq<Option<Entity>>,
    t: Seq<Entity>,
    j: int,
) -> bool {
    &&& (partial[j] is Some ==> t[j] == partial[j]->Some_0)
    &&& j < p.terms@.len()
    &&& spec_term_matches(w, p.terms@[j], t[j])
}

/// Everything the search guarantees of an emitted tuple: it has one entry
/// per slot, each entry is in order (agreeing with the assignment and
/// matching its term), and every edge of the plan is witnessed.
pub open spec fn spec_tuple_ok(
    p: QueryPlan,
    w: WorldView,
    partial: Seq<Option<Entity>>,
    t: Seq<Entity>,
) -> bool {
    &&& t.len() == partial.len()
    &&& forall|j: int| 0 <= j < t.len() ==> #[trigger] spec_slot_ok(p, w, partial, t, j)
    &&& forall|j: int|
        0 <= j < p.relationships@.len() ==> spec_tuple_witnessed(w, #[trigger] p.relationships@[j], t)
}

/// Whether every bound slot of the assignment names an existing term and
/// holds an entity matching it.
pub open spec fn spec_bound_matches(p: QueryPlan, w: WorldView, partial: Seq<Option<Entity>>) -> bool {
    forall|j: int|
        0 <= j < partial.len() && (#[trigger] partial[j]) is Some ==> j < p.terms@.len()
            && spec_term_matches(w, p.terms@[j], partial[j]->Some_0)
}

/// Whether the assignment already witnesses edge `j` of the plan: both
/// endpoint slots are bound and the target's entity is among the
/// candidates the edge yields from the source's entity.
pub open spec fn spec_edge_witnessed(
    p: QueryPlan,
    w: WorldView,
    partial: Seq<Option<Entity>>,
    j: int,
) -> bool {
    let edge = p.relationships@[j];
    &&& (edge.source_term as int) < partial.len()
    &&& (edge.target_term as int) < partial.len()
    &&& partial[edge.source_term as int] is Some
    &&& partial[edge.target_term as int] is Some
    &&& spec_candidates(w, edge, partial[edge.source_term as int]->Some_0)
        .contains(partial[edge.target_term as int]->Some_0)
}

/// The inductive heart of the matcher's soundness: from edge `k` onwards,
/// if every bound slot matches its term and every earlier edge is already
/// witnessed, then every emitted tuple agrees with the assignment,
/// matches every term, and witnesses every edge.
proof fn lemma_dfs_props(p: QueryPlan, w: WorldView, k: int, partial: Seq<Option<Entity>>)
    requires
        0 <= k <= p.relationships@.len(),
        spec_bound_matches(p, w, partial),
        forall|j: int| 0 <= j < k ==> spec_edge_witnessed(p, w, partial, j),
    ensures
        forall|ti: int|
            0 <= ti < spec_dfs(p, w, k, partial).len() ==> spec_tuple_ok(
                p,
                w,
                partial,
                #[trigger] spec_dfs(p, w, k, partial)[ti],
            ),
    decreases p.relationships@.len() - k + 1, 0int, 0int,
{
    let res = spec_dfs(p, w, k, partial);
    if k == p.relationships@.len() {
        if spec_all_bound(partial) {
            let t = spec_unwrap_all(partial);
            assert(res == seq![t]);
            assert(t.len() == partial.len());
            assert forall|j: int| 0 <= j < t.len()
                implies #[trigger] spec_slot_ok(p, w, partial, t, j) by {
                assert(partial[j] is Some);
                assert(t[j] == partial[j]->Some_0);
            };
            assert forall|j: int| 0 <= j < p.relationships@.len()
                implies spec_tuple_witnessed(w, #[trigger] p.relationships@[j], t) by {
                assert(spec_edge_witnessed(p, w, partial, j));
                let edge = p.relationships@[j];
                assert(t[edge.source_term as int] == partial[edge.source_term as int]->Some_0);
                assert(t[edge.target_term as int] == partial[edge.target_term as int]->Some_0);
            };
            assert(spec_tuple_ok(p, w, partial, t));
            assert forall|ti: int| 0 <= ti < spec_dfs(p, w, k, partial).len()
                implies spec_tuple_ok(p, w, partial, #[trigger] spec_dfs(p, w, k, partial)[ti]) by {
                assert(spec_dfs(p, w, k, partial)[ti] == t);
            };
        }
    } else {
        let edge = p.relationships@[k];
        if edge.source_term < partial.len() {
            match partial[edge.source_term as int] {
                Option::None => {},
                Option::Some(src) => {
                    lemma_cands_props(p, w, k, partial, spec_candidates(w, edge, src), 0, src);
                    assert(spec_dfs(p, w, k, partial)
                        == spec_dfs_cands(p, w, k, partial, spec_candidates(w, edge, src), 0));
                    assert forall|ti: int| 0 <= ti < spec_dfs(p, w, k, partial).len()
                        implies spec_tuple_ok(p, w, partial, #[trigger] spec_dfs(p, w, k, partial)[ti]) by {
                        assert(spec_dfs(p, w, k, partial)[ti]
                            == spec_dfs_cands(p, w, k, partial, spec_candidates(w, edge, src), 0)[ti]);
                        assert(spec_tuple_ok(
                            p,
                            w,
                            partial,
                            spec_dfs_cands(p, w, k, partial, spec_candidates(w, edge, src), 0)[ti],
                        ));
                    };
                },
            }
        }
    }
}

/// The candidate-list step of the soundness induction.
proof fn lemma_cands_props(
    p: QueryPlan,
    w: WorldView,
    k: int,
    partial: Seq<Option<Entity>>,
    cands: Seq<Entity>,
    i: int,
    src: Entity,
)
    requires
        0 <= k < p.relationships@.len(),
        0 <= i,
        spec_bound_matches(p, w, partial),
        forall|j: int| 0 <= j < k ==> spec_edge_witnessed(p, w, partial, j),
        (p.relationships@[k].source_term as int) < partial.len(),
        partial[p.relationships@[k].source_term as int] == Option::Some(src),
        cands == spec_candidates(w, p.relationships@[k], src),
    ensures
        forall|ti: int|
            0 <= ti < spec_dfs_cands(p, w, k, partial, cands, i).len() ==> spec_tuple_ok(
                p,
                w,
                partial,
                #[trigger] spec_dfs_cands(p, w, k, partial, cands, i)[ti],
            ),
    decreases p.relationships@.len() - k, cands.len() - i + 2, 0int,
{
    if i < cands.len() {
        lemma_branch_props(p, w, k, partial, cands[i], src);
        lemma_cands_props(p, w, k, partial, cands, i + 1, src);
        let res = spec_dfs_cands(p, w, k, partial, cands, i);
        let b = spec_branch(p, w, k, partial, cands[i]);
        let rest = spec_dfs_cands(p, w, k, partial, cands, i + 1);
        assert(res == b + rest);
        assert forall|ti: int| 0 <= ti < res.len()
            implies spec_tuple_ok(p, w, partial, #[trigger] res[ti]) by {
            if ti < b.len() {
                assert(res[ti] == b[ti]);
                assert(spec_tuple_ok(p, w, partial, b[ti]));
            } else {
                assert(res[ti] == rest[ti - b.len()]);
                assert(spec_tuple_ok(p, w, partial, rest[ti - b.len()]));
            }
        };
    }
}

/// The single-candidate step of the soundness induction.
proof fn lemma_branch_props(
    p: QueryPlan,
    w: WorldView,
    k: int,
    partial: Seq<Option<Entity>>,
    cand: Entity,
    src: Entity,
)
    requires
        0 <= k < p.relationships@.len(),
        spec_bound_matches(p, w, partial),
        forall|j: int| 0 <= j < k ==> spec_edge_witnessed(p, w, partial, j),
        (p.relationships@[k].source_term as int) < partial.len(),
        partial[p.relationships@[k].source_term as int] == Option::Some(src),
        spec_candidates(w, p.relationships@[k], src).contains(cand),
    ensures
        forall|ti: int|
            0 <= ti < spec_branch(p, w, k, partial, cand).len() ==> spec_tuple_ok(
                p,
                w,
                partial,
                #[trigger] spec_branch(p, w, k, partial, cand)[ti],
            ),
    decreases p.relationships@.len() - k, 1int, 0int,
{
    let edge = p.relationships@[k];
    let target = edge.target_term;
    let res = spec_branch(p, w, k, partial, cand);
    if target < partial.len() && target < p.terms@.len()
        && spec_term_matches(w, p.terms@[target as int], cand) {
        match partial[target as int] {
            Option::Some(x) => {
                if x == cand {
                    assert(spec_edge_witnessed(p, w, partial, k));
                    lemma_dfs_props(p, w, k + 1, partial);
                    assert(res == spec_dfs(p, w, k + 1, partial));
                    assert forall|ti: int| 0 <= ti < res.len()
                        implies spec_tuple_ok(p, w, partial, #[trigger] res[ti]) by {
                        assert(res[ti] == spec_dfs(p, w, k + 1, partial)[ti]);
                        assert(spec_tuple_ok(p, w, partial, spec_dfs(p, w, k + 1, partial)[ti]));
                    };
                } else {
                    assert(res =~= Seq::<Seq<Entity>>::empty());
                }
            },
            Option::None => {
                let updated = partial.update(target as int, Option::Some(cand));
                assert(spec_bound_matches(p, w, updated)) by {
                    assert forall|j: int|
                        0 <= j < updated.len() && (#[trigger] updated[j]) is Some
                        implies j < p.terms@.len()
                            && spec_term_matches(w, p.terms@[j], updated[j]->Some_0) by {
                        if j != target {
                            assert(updated[j] == partial[j]);
                        }
                    };
                };
                assert forall|j: int| 0 <= j < k + 1
                    implies spec_edge_witnessed(p, w, updated, j) by {
                    if j < k {
                        assert(spec_edge_witnessed(p, w, partial, j));
                        let ej = p.relationships@[j];
                        assert(partial[ej.source_term as int] is Some);
                        assert(partial[ej.target_term as int] is Some);
                        assert(ej.source_term != target && ej.target_term != target);
                        assert(updated[ej.source_term as int] == partial[ej.source_term as int]);
                        assert(updated[ej.target_term as int] == partial[ej.target_term as int]);
                    } else {
                        assert(edge.source_term != target);
                        assert(updated[edge.source_term as int] == Option::Some(src));
                        assert(updated[target as int] == Option::Some(cand));
                    }
                };
                lemma_dfs_props(p, w, k + 1, updated);
                assert(res == spec_dfs(p, w, k + 1, updated));
                assert forall|ti: int| 0 <= ti < res.len()
                    implies spec_tuple_ok(p, w, partial, #[trigger] res[ti]) by {
                    assert(res[ti] == spec_dfs(p, w, k + 1, updated)[ti]);
                    assert(spec_tuple_ok(p, w, updated, spec_dfs(p, w, k + 1, updated)[ti]));
                    let t = res[ti];
                    assert(spec_tuple_ok(p, w, updated, t));
                    assert(t.len() == partial.len());
                    assert forall|j: int| 0 <= j < t.len()
                        implies #[trigger] spec_slot_ok(p, w, partial, t, j) by {
                        assert(spec_slot_ok(p, w, updated, t, j));
                        if j != target {
                            assert(updated[j] == partial[j]);
                        }
                    };
                    assert(spec_tuple_ok(p, w, partial, t));
                };
            },
        }
    } else {
        assert(res =~= Seq::<Seq<Entity>>::empty());
    }
}

/// Every tuple `execute` emits puts the queried entity in the main slot
/// and has exactly one entity per term of the plan.
pub proof fn lemma_execute_main_anchor(p: QueryPlan, w: WorldView, e: Entity)
    ensures
        forall|ti: int|
            0 <= ti < spec_execute(p, w, e).len() ==> (#[trigger] spec_execute(p, w, e)[ti]).len()
                == p.terms@.len() && spec_execute(p, w, e)[ti][p.main_term_index as int] == e,
{
    if p.main_term_index < p.terms@.len()
        && spec_term_matches(w, p.terms@[p.main_term_index as int], e) {
        let init = spec_init_partial(p, e);
        lemma_dfs_props(p, w, 0, init);
        assert forall|ti: int| 0 <= ti < spec_execute(p, w, e).len()
            implies (#[trigger] spec_execute(p, w, e)[ti]).len() == p.terms@.len()
                && spec_execute(p, w, e)[ti][p.main_term_index as int] == e by {
            let t = spec_execute(p, w, e)[ti];
            assert(spec_tuple_ok(p, w, init, t));
            assert(spec_slot_ok(p, w, init, t, p.main_term_index as int));
            assert(init[p.main_term_index as int] == Option::Some(e));
        };
    }
}

/// Every entity of every tuple `execute` emits is live and satisfies its
/// term's filtered access: in particular, every enumerable id the term
/// requires is among the components of the entity's archetype.
pub proof fn lemma_execute_term_match(p: QueryPlan, w: WorldView, e: Entity)
    ensures
        forall|ti: int, j: int|
            0 <= ti < spec_execute(p, w, e).len()
                && 0 <= j < spec_execute(p, w, e)[ti].len() ==> j < p.terms@.len()
                && spec_term_matches(w, p.terms@[j], #[trigger] spec_execute(p, w, e)[ti][j]),
{
    if p.main_term_index < p.terms@.len()
        && spec_term_matches(w, p.terms@[p.main_term_index as int], e) {
        let init = spec_init_partial(p, e);
        lemma_dfs_props(p, w, 0, init);
        assert forall|ti: int, j: int|
            0 <= ti < spec_execute(p, w, e).len()
                && 0 <= j < spec_execute(p, w, e)[ti].len()
            implies j < p.terms@.len()
                && spec_term_matches(w, p.terms@[j], #[trigger] spec_execute(p, w, e)[ti][j]) by {
            let t = spec_execute(p, w, e)[ti];
            assert(spec_tuple_ok(p, w, init, t));
            assert(spec_slot_ok(p, w, init, t, j));
        };
    }
}

/// Every edge of the plan is witnessed by every tuple `execute` emits:
/// reading the edge's relationship component from the tuple's source
/// entity yields a sequence containing the tuple's target entity.
pub proof fn lemma_execute_edge_witness(p: QueryPlan, w: WorldView, e: Entity)
    ensures
        forall|ti: int, j: int|
            0 <= ti < spec_execute(p, w, e).len() && 0 <= j < p.relationships@.len()
                ==> spec_tuple_witnessed(
                w,
                #[trigger] p.relationships@[j],
                #[trigger] spec_execute(p, w, e)[ti],
            ),
{
    if p.main_term_index < p.terms@.len()
        && spec_term_matches(w, p.terms@[p.main_term_index as int], e) {
        let init = spec_init_partial(p, e);
        lemma_dfs_props(p, w, 0, init);
        assert forall|ti: int, j: int|
            0 <= ti < spec_execute(p, w, e).len() && 0 <= j < p.relationships@.len()
            implies spec_tuple_witnessed(
                w,
                #[trigger] p.relationships@[j],
                #[trigger] spec_execute(p, w, e)[ti],
            ) by {
            let t = spec_execute(p, w, e)[ti];
            assert(spec_tuple_ok(p, w, init, t));
        };
    }
}

/// A stale main entity yields no tuples: if the world does not know `e`
/// as a live entity, execution returns the empty sequence.
pub proof fn lemma_execute_stale(p: QueryPlan, w: WorldView, e: Entity)
    requires
        !w.spec_live(e),
    ensures
        spec_execute(p, w, e) == Seq::<Seq<Entity>>::empty(),
{
    if p.main_term_index < p.terms@.len() {
        assert(!spec_term_matches(w, p.terms@[p.main_term_index as int], e));
    }
}


/// A low-level builder for query plans: terms and edges accumulate, and
/// `build` freezes the plan around a chosen main term.
#[derive(Clone, Debug)]
pub struct QueryPlanBuilder {
    /// The plan under construction.
    pub plan: QueryPlan,
}

impl QueryPlanBuilder {
    /// Every edge added so far connects existing terms.
    pub open spec fn wf(&self) -> bool {
        forall|j: int|
            0 <= j < self.plan.relationships@.len()
                ==> (#[trigger] self.plan.relationships@[j]).source_term
                < self.plan.terms@.len() && self.plan.relationships@[j].target_term
                < self.plan.terms@.len()
    }

    /// An empty builder.
    pub fn new() -> (r: QueryPlanBuilder)
        ensures
            r.plan.terms@ == Seq::<QueryElement>::empty(),
            r.plan.relationships@ == Seq::<QueryRelationship>::empty(),
            r.wf(),
    {
        QueryPlanBuilder { plan: QueryPlan::new(0) }
    }

    /// Append a term with the given access; returns its index.
    pub fn add_term(&mut self, access: FilteredAccess) -> (r: usize)
        requires
            old(self).plan.terms@.len() < usize::MAX,
        ensures
            r == old(self).plan.terms@.len(),
            final(self).plan.terms@.len() == old(self).plan.terms@.len() + 1,
            forall|j: int|
                0 <= j < old(self).plan.terms@.len() ==> final(self).plan.terms@[j]
                    == old(self).plan.terms@[j],
            final(self).plan.terms@[r as int].access@ == access@,
            final(self).plan.terms@[r as int].term_index == r,
            final(self).plan.relationships@ == old(self).plan.relationships@,
            final(self).plan.main_term_index == old(self).plan.main_term_index,
            old(self).wf() ==> final(self).wf(),
    {
        self.plan.add_term(access)
    }

    /// Append a source: a term built from a prepared filtered access.
    pub fn add_source(&mut self, access: FilteredAccess) -> (r: usize)
        requires
            old(self).plan.terms@.len() < usize::MAX,
        ensures
            r == old(self).plan.terms@.len(),
            final(self).plan.terms@.len() == old(self).plan.terms@.len() + 1,
            forall|j: int|
                0 <= j < old(self).plan.terms@.len() ==> final(self).plan.terms@[j]
                    == old(self).plan.terms@[j],
            final(self).plan.terms@[r as int].access@ == access@,
            final(self).plan.terms@[r as int].term_index == r,
            final(self).plan.relationships@ == old(self).plan.relationships@,
            final(self).plan.main_term_index == old(self).plan.main_term_index,
            old(self).wf() ==> final(self).wf(),
    {
        self.add_term(access)
    }

    /// Append an edge between two existing terms; fails with
    /// [`QueryPlanError::UnknownTerm`] iff an index is out of range.
    pub fn add_relationship(
        &mut self,
        source: usize,
        target: usize,
        relationship_component: ComponentId,
        accessor: RelationshipAccessor,
    ) -> (r: Result<(), QueryPlanError>)
        requires
            old(self).plan.relationships@.len() < usize::MAX,
        ensures
            final(self).plan.terms@ == old(self).plan.terms@,
            final(self).plan.main_term_index == old(self).plan.main_term_index,
            match r {
                Ok(()) => {
                    &&& source < old(self).plan.terms@.len()
                    &&& target < old(self).plan.terms@.len()
                    &&& final(self).plan.relationships@ == old(self).plan.relationships@.push(
                        QueryRelationship {
                            source_term: source,
                            target_term: target,
                            relationship_component,
                            accessor,
                        },
                    )
                },
                Err(e) => {
                    &&& final(self).plan.relationships@ == old(self).plan.relationships@
                    &&& (source >= old(self).plan.terms@.len()
                        || target >= old(self).plan.terms@.len())
                    &&& e == (if source >= old(self).plan.terms@.len() {
                        QueryPlanError::UnknownTerm(source)
                    } else {
                        QueryPlanError::UnknownTerm(target)
                    })
                },
            },
            old(self).wf() ==> final(self).wf(),
    {
        self.plan.add_relationship(source, target, relationship_component, accessor)
    }

    /// Freeze the plan around `main_term_index`.  Fails with
    /// [`QueryPlanError::UnknownTerm`] iff the index names no term; a
    /// frozen plan is well formed.
    pub fn build(self, main_term_index: usize) -> (r: Result<QueryPlan, QueryPlanError>)
        requires
            self.wf(),
        ensures
            match r {
                Ok(p) => {
                    &&& main_term_index < self.plan.terms@.len()
                    &&& p.terms@ == self.plan.terms@
                    &&& p.relationships@ == self.plan.relationships@
                    &&& p.main_term_index == main_term_index
                    &&& spec_plan_wf(p)
                },
                Err(e) => {
                    &&& main_term_index >= self.plan.terms@.len()
                    &&& e == QueryPlanError::UnknownTerm(main_term_index)
                },
            },
    {
        if main_term_index >= self.plan.terms.len() {
            return Err(QueryPlanError::UnknownTerm(main_term_index));
        }
        let mut plan = self.plan;
        plan.main_term_index = main_term_index;
        Ok(plan)
    }
}


impl QueryPlan {
    /// Add read access to a component on an existing term.
    pub fn term_add_read(&mut self, term_index: usize, id: ComponentId)
        requires
            term_index < old(self).terms@.len(),
        ensures
            final(self).terms@.len() == old(self).terms@.len(),
            forall|j: int|
                0 <= j < old(self).terms@.len() && j != term_index ==> final(self).terms@[j]
                    == old(self).terms@[j],
            final(self).terms@[term_index as int].term_index
                == old(self).terms@[term_index as int].term_index,
            final(self).terms@[term_index as int].access@ == (FilteredAccessSpec {
                access: crate::access::AccessSpec {
                    reads: old(self).terms@[term_index as int].access@.access.reads.insert(id),
                    ..old(self).terms@[term_index as int].access@.access
                },
                ..old(self).terms@[term_index as int].access@
            }),
            final(self).relationships@ == old(self).relationships@,
            final(self).main_term_index == old(self).main_term_index,
    {
        let mut access = self.terms[term_index].access.duplicate();
        access.add_component_read(id);
        let ti = self.terms[term_index].term_index;
        self.terms.set(term_index, QueryElement { access, term_index: ti });
    }

    /// Add write access to a component on an existing term.
    pub fn term_add_write(&mut self, term_index: usize, id: ComponentId)
        requires
            term_index < old(self).terms@.len(),
        ensures
            final(self).terms@.len() == old(self).terms@.len(),
            forall|j: int|
                0 <= j < old(self).terms@.len() && j != term_index ==> final(self).terms@[j]
                    == old(self).terms@[j],
            final(self).terms@[term_index as int].term_index
                == old(self).terms@[term_index as int].term_index,
            final(self).terms@[term_index as int].access@ == (FilteredAccessSpec {
                access: crate::access::AccessSpec {
                    reads: old(self).terms@[term_index as int].access@.access.reads.insert(id),
                    writes: old(self).terms@[term_index as int].access@.access.writes.insert(id),
                    ..old(self).terms@[term_index as int].access@.access
                },
                ..old(self).terms@[term_index as int].access@
            }),
            final(self).relationships@ == old(self).relationships@,
            final(self).main_term_index == old(self).main_term_index,
    {
        let mut access = self.terms[term_index].access.duplicate();
        access.add_component_write(id);
        let ti = self.terms[term_index].term_index;
        self.terms.set(term_index, QueryElement { access, term_index: ti });
    }

    /// Forbid a component on an existing term: every filter conjunction of
    /// the term gains a `without` constraint on it.
    pub fn term_add_without(&mut self, term_index: usize, id: ComponentId)
        requires
            term_index < old(self).terms@.len(),
        ensures
            final(self).terms@.len() == old(self).terms@.len(),
            forall|j: int|
                0 <= j < old(self).terms@.len() && j != term_index ==> final(self).terms@[j]
                    == old(self).terms@[j],
            final(self).terms@[term_index as int].term_index
                == old(self).terms@[term_index as int].term_index,
            final(self).terms@[term_index as int].access@.access
                == old(self).terms@[term_index as int].access@.access,
            final(self).terms@[term_index as int].access@.filter_sets.len()
                == old(self).terms@[term_index as int].access@.filter_sets.len(),
            forall|kk: int|
                0 <= kk < old(self).terms@[term_index as int].access@.filter_sets.len()
                    ==> final(self).terms@[term_index as int].access@.filter_sets[kk]
                    == (crate::access::AccessFiltersSpec {
                    without: old(self).terms@[term_index as int].access@.filter_sets[kk].without
                        .insert(id),
                    ..old(self).terms@[term_index as int].access@.filter_sets[kk]
                }),
            final(self).relationships@ == old(self).relationships@,
            final(self).main_term_index == old(self).main_term_index,
    {
        let mut access = self.terms[term_index].access.duplicate();
        access.and_without(id);
        let ti = self.terms[term_index].term_index;
        self.terms.set(term_index, QueryElement { access, term_index: ti });
    }
}

/// A typed convenience over [`QueryPlanBuilder`]: component kinds are
/// registered through the world on the spot, and relationship accessors
/// are resolved from the registry rather than assumed.
#[derive(Clone, Debug)]
pub struct TypedQueryPlanBuilder {
    /// The low-level builder driven by the typed methods.
    pub builder: QueryPlanBuilder,
}

impl TypedQueryPlanBuilder {
    /// Every edge added so far connects existing terms.
    pub open spec fn wf(&self) -> bool {
        self.builder.wf()
    }

    /// A fresh typed builder.
    pub fn new() -> (r: TypedQueryPlanBuilder)
        ensures
            r.builder.plan.terms@ == Seq::<QueryElement>::empty(),
            r.builder.plan.relationships@ == Seq::<QueryRelationship>::empty(),
            r.wf(),
    {
        TypedQueryPlanBuilder { builder: QueryPlanBuilder::new() }
    }

    /// Add a term that requires read access to `kind`, registering the
    /// kind in the world if it is new; returns the term's index.
    pub fn with(&mut self, world: &mut WorldView, kind: &ComponentKind) -> (r: usize)
        requires
            old(self).wf(),
            old(world).wf(),
            old(world).spec_registry().len() < usize::MAX,
            old(self).builder.plan.terms@.len() < usize::MAX,
        ensures
            final(self).wf(),
            final(world).wf(),
            (final(world).spec_registry(), spec_kind_id_of(old(world).spec_registry(), kind))
                == spec_register(old(world).spec_registry(), kind.key, kind.info),
            final(world).slots@ == old(world).slots@,
            r == old(self).builder.plan.terms@.len(),
            final(self).builder.plan.terms@.len() == old(self).builder.plan.terms@.len() + 1,
            forall|j: int|
                0 <= j < old(self).builder.plan.terms@.len() ==> final(self).builder.plan.terms@[j]
                    == old(self).builder.plan.terms@[j],
            final(self).builder.plan.relationships@ == old(self).builder.plan.relationships@,
            final(self).builder.plan.main_term_index == old(self).builder.plan.main_term_index,
            final(self).builder.plan.terms@[r as int].term_index == r,
            final(self).builder.plan.terms@[r as int].access@ == spec_read_only_access(
                ComponentId(spec_kind_id_of(old(world).spec_registry(), kind) as usize),
            ),
    {
        let id = world.register_component(kind.key, kind.info);
        let mut access = FilteredAccess::matches_everything();
        access.add_component_read(id);
        proof {
            assert(access@ =~~= spec_read_only_access(id));
        }
        self.builder.add_term(access)
    }

    /// Add a term that requires write access to `kind`; returns the term's
    /// index.
    pub fn with_mut(&mut self, world: &mut WorldView, kind: &ComponentKind) -> (r: usize)
        requires
            old(self).wf(),
            old(world).wf(),
            old(world).spec_registry().len() < usize::MAX,
            old(self).builder.plan.terms@.len() < usize::MAX,
        ensures
            final(self).wf(),
            final(world).wf(),
            (final(world).spec_registry(), spec_kind_id_of(old(world).spec_registry(), kind))
                == spec_register(old(world).spec_registry(), kind.key, kind.info),
            final(world).slots@ == old(world).slots@,
            r == old(self).builder.plan.terms@.len(),
            final(self).builder.plan.terms@.len() == old(self).builder.plan.terms@.len() + 1,
            forall|j: int|
                0 <= j < old(self).builder.plan.terms@.len() ==> final(self).builder.plan.terms@[j]
                    == old(self).builder.plan.terms@[j],
            final(self).builder.plan.relationships@ == old(self).builder.plan.relationships@,
            final(self).builder.plan.main_term_index == old(self).builder.plan.main_term_index,
            final(self).builder.plan.terms@[r as int].term_index == r,
            final(self).builder.plan.terms@[r as int].access@ == spec_write_access(
                ComponentId(spec_kind_id_of(old(world).spec_registry(), kind) as usize),
            ),
    {
        let id = world.register_component(kind.key, kind.info);
        let mut access = FilteredAccess::matches_everything();
        access.add_component_write(id);
        proof {
            assert(access@ =~~= spec_write_access(id));
        }
        self.builder.add_term(access)
    }

    /// Add a term with no component requirements: it matches any live
    /// entity.  Returns the term's index.
    pub fn term(&mut self) -> (r: usize)
        requires
            old(self).wf(),
            old(self).builder.plan.terms@.len() < usize::MAX,
        ensures
            final(self).wf(),
            r == old(self).builder.plan.terms@.len(),
            final(self).builder.plan.terms@.len() == old(self).builder.plan.terms@.len() + 1,
            forall|j: int|
                0 <= j < old(self).builder.plan.terms@.len() ==> final(self).builder.plan.terms@[j]
                    == old(self).builder.plan.terms@[j],
            final(self).builder.plan.relationships@ == old(self).builder.plan.relationships@,
            final(self).builder.plan.main_term_index == old(self).builder.plan.main_term_index,
            final(self).builder.plan.terms@[r as int].term_index == r,
            final(self).builder.plan.terms@[r as int].access@ == spec_everything(),
    {
        let access = FilteredAccess::matches_everything();
        self.builder.add_term(access)
    }

    /// Add read access to `kind` on an existing term, registering the
    /// kind in the world if it is new; nothing else of the plan moves.
    pub fn add_read(&mut self, world: &mut WorldView, kind: &ComponentKind, term_index: usize)
        requires
            old(self).wf(),
            old(world).wf(),
            old(world).spec_registry().len() < usize::MAX,
            term_index < old(self).builder.plan.terms@.len(),
        ensures
            final(self).wf(),
            final(world).wf(),
            (final(world).spec_registry(), spec_kind_id_of(old(world).spec_registry(), kind))
                == spec_register(old(world).spec_registry(), kind.key, kind.info),
            final(world).slots@ == old(world).slots@,
            final(self).builder.plan.terms@.len() == old(self).builder.plan.terms@.len(),
            forall|j: int|
                0 <= j < old(self).builder.plan.terms@.len() && j != term_index
                    ==> final(self).builder.plan.terms@[j] == old(self).builder.plan.terms@[j],
            final(self).builder.plan.terms@[term_index as int].term_index
                == old(self).builder.plan.terms@[term_index as int].term_index,
            final(self).builder.plan.terms@[term_index as int].access@ == (FilteredAccessSpec {
                access: crate::access::AccessSpec {
                    reads: old(self).builder.plan.terms@[term_index as int].access@.access.reads
                        .insert(
                        ComponentId(spec_kind_id_of(old(world).spec_registry(), kind) as usize),
                    ),
                    ..old(self).builder.plan.terms@[term_index as int].access@.access
                },
                ..old(self).builder.plan.terms@[term_index as int].access@
            }),
            final(self).builder.plan.relationships@ == old(self).builder.plan.relationships@,
            final(self).builder.plan.main_term_index == old(self).builder.plan.main_term_index,
    {
        let id = world.register_component(kind.key, kind.info);
        self.builder.plan.term_add_read(term_index, id);
        proof {
            assert(self.wf());
        }
    }

    /// Add write access to `kind` on an existing term, registering the
    /// kind in the world if it is new.  A write implies a read; nothing
    /// else of the plan moves.
    pub fn add_write(&mut self, world: &mut WorldView, kind: &ComponentKind, term_index: usize)
        requires
            old(self).wf(),
            old(world).wf(),
            old(world).spec_registry().len() < usize::MAX,
            term_index < old(self).builder.plan.terms@.len(),
        ensures
            final(self).wf(),
            final(world).wf(),
            (final(world).spec_registry(), spec_kind_id_of(old(world).spec_registry(), kind))
                == spec_register(old(world).spec_registry(), kind.key, kind.info),
            final(world).slots@ == old(world).slots@,
            final(self).builder.plan.terms@.len() == old(self).builder.plan.terms@.len(),
            forall|j: int|
                0 <= j < old(self).builder.plan.terms@.len() && j != term_index
                    ==> final(self).builder.plan.terms@[j] == old(self).builder.plan.terms@[j],
            final(self).builder.plan.terms@[term_index as int].term_index
                == old(self).builder.plan.terms@[term_index as int].term_index,
            final(self).builder.plan.terms@[term_index as int].access@ == (FilteredAccessSpec {
                access: crate::access::AccessSpec {
                    reads: old(self).builder.plan.terms@[term_index as int].access@.access.reads
                        .insert(
                        ComponentId(spec_kind_id_of(old(world).spec_registry(), kind) as usize),
                    ),
                    writes: old(self).builder.plan.terms@[term_index as int].access@.access.writes
                        .insert(
                        ComponentId(spec_kind_id_of(old(world).spec_registry(), kind) as usize),
                    ),
                    ..old(self).builder.plan.terms@[term_index as int].access@.access
                },
                ..old(self).builder.plan.terms@[term_index as int].access@
            }),
            final(self).builder.plan.relationships@ == old(self).builder.plan.relationships@,
            final(self).builder.plan.main_term_index == old(self).builder.plan.main_term_index,
    {
        let id = world.register_component(kind.key, kind.info);
        self.builder.plan.term_add_write(term_index, id);
        proof {
            assert(self.wf());
        }
    }

    /// Forbid `kind` on an existing term, registering the kind in the
    /// world if it is new: every filter conjunction of the term gains a
    /// `without` constraint on its id, and the term's access map and
    /// every other term stay exactly as they were.
    pub fn without(&mut self, world: &mut WorldView, kind: &ComponentKind, term_index: usize)
        requires
            old(self).wf(),
            old(world).wf(),
            old(world).spec_registry().len() < usize::MAX,
            term_index < old(self).builder.plan.terms@.len(),
        ensures
            final(self).wf(),
            final(world).wf(),
            (final(world).spec_registry(), spec_kind_id_of(old(world).spec_registry(), kind))
                == spec_register(old(world).spec_registry(), kind.key, kind.info),
            final(world).slots@ == old(world).slots@,
            final(self).builder.plan.terms@.len() == old(self).builder.plan.terms@.len(),
            forall|j: int|
                0 <= j < old(self).builder.plan.terms@.len() && j != term_index
                    ==> final(self).builder.plan.terms@[j] == old(self).builder.plan.terms@[j],
            final(self).builder.plan.terms@[term_index as int].term_index
                == old(self).builder.plan.terms@[term_index as int].term_index,
            final(self).builder.plan.terms@[term_index as int].access@.access
                == old(self).builder.plan.terms@[term_index as int].access@.access,
            final(self).builder.plan.terms@[term_index as int].access@.filter_sets.len()
                == old(self).builder.plan.terms@[term_index as int].access@.filter_sets.len(),
            forall|kk: int|
                0 <= kk < old(self).builder.plan.terms@[term_index as int].access@.filter_sets.len()
                    ==> final(self).builder.plan.terms@[term_index as int].access@.filter_sets[kk]
                    == (crate::access::AccessFiltersSpec {
                    without: old(self).builder.plan.terms@[term_index as int].access@
                        .filter_sets[kk].without.insert(
                        ComponentId(spec_kind_id_of(old(world).spec_registry(), kind) as usize),
                    ),
                    ..old(self).builder.plan.terms@[term_index as int].access@.filter_sets[kk]
                }),
            final(self).builder.plan.relationships@ == old(self).builder.plan.relationships@,
            final(self).builder.plan.main_term_index == old(self).builder.plan.main_term_index,
    {
        let id = world.register_component(kind.key, kind.info);
        self.builder.plan.term_add_without(term_index, id);
        proof {
            assert(self.wf());
        }
    }

    /// Add a relationship edge between two terms, reading targets with the
    /// accessor the registry records for `kind`.  Fails with
    /// [`QueryPlanError::NotARelationship`] iff the registered kind has no
    /// accessor, and with [`QueryPlanError::UnknownTerm`] iff an index is
    /// out of range; the plan is unchanged on failure.
    pub fn related_to(
        &mut self,
        world: &mut WorldView,
        kind: &ComponentKind,
        source_term: usize,
        target_term: usize,
    ) -> (r: Result<(), QueryPlanError>)
        requires
            old(self).wf(),
            old(world).wf(),
            old(world).spec_registry().len() < usize::MAX,
            old(self).builder.plan.relationships@.len() < usize::MAX,
        ensures
            final(self).wf(),
            final(world).wf(),
            (final(world).spec_registry(), spec_kind_id_of(old(world).spec_registry(), kind))
                == spec_register(old(world).spec_registry(), kind.key, kind.info),
            final(world).slots@ == old(world).slots@,
            final(self).builder.plan.terms@ == old(self).builder.plan.terms@,
            final(self).builder.plan.main_term_index == old(self).builder.plan.main_term_index,
            ({
                let id = ComponentId(spec_kind_id_of(old(world).spec_registry(), kind) as usize);
                let recorded = final(world).spec_registry()[id.0 as int].1;
                match r {
                    Ok(()) => {
                        &&& recorded.accessor is Some
                        &&& source_term < old(self).builder.plan.terms@.len()
                        &&& target_term < old(self).builder.plan.terms@.len()
                        &&& final(self).builder.plan.relationships@
                            == old(self).builder.plan.relationships@.push(QueryRelationship {
                            source_term,
                            target_term,
                            relationship_component: id,
                            accessor: recorded.accessor->Some_0,
                        })
                    },
                    Err(e) => {
                        &&& final(self).builder.plan.relationships@
                            == old(self).builder.plan.relationships@
                        &&& (recorded.accessor is None || source_term
                            >= old(self).builder.plan.terms@.len() || target_term
                            >= old(self).builder.plan.terms@.len())
                        &&& (recorded.accessor is None <==> e == QueryPlanError::NotARelationship(id))
                        &&& (recorded.accessor is Some ==> e == (
                            if source_term >= old(self).builder.plan.terms@.len() {
                                QueryPlanError::UnknownTerm(source_term)
                            } else {
                                QueryPlanError::UnknownTerm(target_term)
                            }))
                    },
                }
            }),
    {
        let id = world.register_component(kind.key, kind.info);
        let accessor: RelationshipAccessor;
        match world.components().get_info(id) {
            Option::Some(info) => {
                match info.accessor {
                    Option::Some(acc) => {
                        accessor = acc;
                    },
                    Option::None => {
                        return Err(QueryPlanError::NotARelationship(id));
                    },
                }
            },
            Option::None => {
                return Err(QueryPlanError::NotARelationship(id));
            },
        }
        self.builder.add_relationship(source_term, target_term, id, accessor)
    }

    /// Freeze the accumulated plan around `main_term_index`; fails with
    /// [`QueryPlanError::UnknownTerm`] iff that index names no term.
    pub fn build(self, main_term_index: usize) -> (r: Result<QueryPlan, QueryPlanError>)
        requires
            self.wf(),
        ensures
            match r {
                Ok(p) => {
                    &&& main_term_index < self.builder.plan.terms@.len()
                    &&& p.terms@ == self.builder.plan.terms@
                    &&& p.relationships@ == self.builder.plan.relationships@
                    &&& p.main_term_index == main_term_index
                    &&& spec_plan_wf(p)
                },
                Err(e) => {
                    &&& main_term_index >= self.builder.plan.terms@.len()
                    &&& e == QueryPlanError::UnknownTerm(main_term_index)
                },
            },
    {
        self.builder.build(main_term_index)
    }
}

/// The id `register` hands back for `kind` against the given registry
/// entries: the kind's existing id, or the next free one.
pub open spec fn spec_kind_id_of(entries: Seq<(u64, crate::component::ComponentInfo)>, kind: &ComponentKind) -> int {
    spec_register(entries, kind.key, kind.info).1
}

/// The access of a term that only reads `id`: everything matches, one
/// component read.
pub open spec fn spec_read_only_access(id: ComponentId) -> FilteredAccessSpec {
    FilteredAccessSpec {
        access: crate::access::AccessSpec {
            reads: Set::empty().insert(id),
            ..crate::access::spec_access_empty()
        },
        filter_sets: seq![crate::access::spec_filters_empty()],
    }
}

/// The access of a term that writes (and so also reads) `id`.
pub open spec fn spec_write_access(id: ComponentId) -> FilteredAccessSpec {
    FilteredAccessSpec {
        access: crate::access::AccessSpec {
            reads: Set::empty().insert(id),
            writes: Set::empty().insert(id),
            ..crate::access::spec_access_empty()
        },
        filter_sets: seq![crate::access::spec_filters_empty()],
    }
}


/// The component-set form of term matching: unless a term may read any
/// component, every id its access enumerates is among the components of
/// the entity standing in that slot, for every emitted tuple.
pub proof fn lemma_execute_required_components(p: QueryPlan, w: WorldView, e: Entity)
    ensures
        forall|ti: int, j: int|
            0 <= ti < spec_execute(p, w, e).len() && 0 <= j < spec_execute(p, w, e)[ti].len()
                && !p.terms@[j].access@.access.read_all ==> spec_accessed_ids(
                p.terms@[j].access@.access,
            ).subset_of(w.spec_components_of(#[trigger] spec_execute(p, w, e)[ti][j])),
{
    lemma_execute_term_match(p, w, e);
    assert forall|ti: int, j: int|
        0 <= ti < spec_execute(p, w, e).len() && 0 <= j < spec_execute(p, w, e)[ti].len()
            && !p.terms@[j].access@.access.read_all
        implies spec_accessed_ids(p.terms@[j].access@.access).subset_of(
            w.spec_components_of(#[trigger] spec_execute(p, w, e)[ti][j]),
        ) by {
        assert(spec_term_matches(w, p.terms@[j], spec_execute(p, w, e)[ti][j]));
    };
}

/// Execution is deterministic: the tuples are a function of the plan, the
/// world and the main entity alone, so any two results of the same
/// execution are equal.
pub proof fn lemma_execute_deterministic(
    p: QueryPlan,
    w: WorldView,
    e: Entity,
    r1: Seq<Seq<Entity>>,
    r2: Seq<Seq<Entity>>,
)
    requires
        r1 == spec_execute(p, w, e),
        r2 == spec_execute(p, w, e),
    ensures
        r1 == r2,
{
}


} // verus!
