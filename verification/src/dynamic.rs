//! Executing plans as a query: states, fetches, matches and filtered
//! per-entity views over the results.
//!
//! A [`DynamicState`] carries a frozen [`QueryPlan`]; a [`DynamicFetch`]
//! runs it against a world for one candidate main entity, producing a
//! [`DynamicItem`] that holds one [`DynamicMatch`] per matched tuple.
//! Each match exposes its entities and, through [`FilteredEntityRef`],
//! component reads restricted to the access its term declared.

use vstd::prelude::*;
use crate::access::{Access, FilteredAccess, spec_accessed_ids};
use crate::component::ComponentId;
use crate::entity::Entity;
use crate::idset::IdSet;
use crate::plan::{QueryPlan, spec_execute, spec_tuples_view};
use crate::world::{ComponentData, WorldView};

verus! {

/// The marker type of plan-driven queries; its state is a
/// [`DynamicState`] and its fetch a [`DynamicFetch`].
pub struct Dynamic {
    _private: (),
}

/// The state of a plan-driven query: the frozen plan it runs.
#[derive(Clone, Debug)]
pub struct DynamicState {
    /// The query plan defining how entities are related.
    pub plan: QueryPlan,
}

impl DynamicState {
    /// Create a query state from a frozen plan.
    pub fn from_plan(plan: QueryPlan) -> (r: DynamicState)
        ensures
            r.plan == plan,
    {
        DynamicState { plan }
    }

    /// The underlying query plan.
    pub fn plan(&self) -> (r: &QueryPlan)
        ensures
            r == &self.plan,
    {
        &self.plan
    }

    /// The underlying query plan, mutably.
    pub fn plan_mut(&mut self) -> (r: &mut QueryPlan)
        ensures
            *r == old(self).plan,
            final(self).plan == *final(r),
    {
        &mut self.plan
    }
}

/// The fetch of a plan-driven query: the world it reads and the main
/// entity currently being processed.
pub struct DynamicFetch<'w> {
    /// The world the query reads.
    pub world: &'w WorldView,
    /// The current main entity, once one has been fetched.
    pub current_entity: Option<Entity>,
    /// The tick of the last run, for change-detection-enabled reads made
    /// by callers; traversal itself compares no ticks.
    pub last_run: u32,
    /// The current tick.
    pub this_run: u32,
}

/// One matched tuple: one entity per term of the plan, with the world and
/// state needed to read components through term-filtered views.
pub struct DynamicMatch<'w, 's> {
    /// The entities that matched, one per term in the query plan.
    pub entities: Vec<Entity>,
    /// The world the tuple was matched against.
    pub world: &'w WorldView,
    /// The state whose plan produced the tuple.
    pub state: &'s DynamicState,
}

/// A view of one matched entity restricted to one term's access: reads
/// succeed only for components the term declared.
pub struct FilteredEntityRef<'w, 's> {
    /// The entity viewed.
    pub entity: Entity,
    /// The world the entity lives in.
    pub world: &'w WorldView,
    /// The access the view is restricted to.
    pub access: &'s Access,
}

impl<'w, 's> FilteredEntityRef<'w, 's> {
    /// Read a component of the viewed entity.  Yields the payload iff the
    /// view's access permits reading `component` and the entity holds it.
    pub fn get(&self, component: ComponentId) -> (r: Option<&'w ComponentData>)
        ensures
            match r {
                Some(d) => (self.access@.read_all || self.access@.reads.contains(component))
                    && self.world.spec_component_of(self.entity, component) == Some(*d),
                None => !(self.access@.read_all || self.access@.reads.contains(component))
                    || self.world.spec_component_of(self.entity, component) is None,
            },
    {
        if !self.access.has_component_read(component) {
            return None;
        }
        self.world.get_component(self.entity, component)
    }
}

impl<'w, 's> DynamicMatch<'w, 's> {
    /// A view of the entity at `term_index`, restricted to that term's
    /// access.
    pub fn entity_ref(&self, term_index: usize) -> (r: FilteredEntityRef<'w, 's>)
        requires
            term_index < self.entities@.len(),
            term_index < self.state.plan.terms@.len(),
        ensures
            r.entity == self.entities@[term_index as int],
            r.world == self.world,
            r.access@ == self.state.plan.terms@[term_index as int].access@.access,
    {
        FilteredEntityRef {
            entity: self.entities[term_index],
            world: self.world,
            access: &self.state.plan.terms[term_index].access.access,
        }
    }

    /// The entity bound to a specific term.
    pub fn entity(&self, term_index: usize) -> (r: Entity)
        requires
            term_index < self.entities@.len(),
        ensures
            r == self.entities@[term_index as int],
    {
        self.entities[term_index]
    }

    /// Read a component of the entity at `term_index`.  Yields the
    /// payload iff the term's access permits reading `component` and the
    /// entity holds it.
    pub fn get(&self, term_index: usize, component: ComponentId) -> (r: Option<&'w ComponentData>)
        requires
            term_index < self.entities@.len(),
            term_index < self.state.plan.terms@.len(),
        ensures
            ({
                let acc = self.state.plan.terms@[term_index as int].access@.access;
                let e = self.entities@[term_index as int];
                match r {
                    Some(d) => (acc.read_all || acc.reads.contains(component))
                        && self.world.spec_component_of(e, component) == Some(*d),
                    None => !(acc.read_all || acc.reads.contains(component))
                        || self.world.spec_component_of(e, component) is None,
                }
            }),
    {
        let entity_ref = self.entity_ref(term_index);
        entity_ref.get(component)
    }

    /// All entities in this match, one per term.
    pub fn entities(&self) -> (r: &Vec<Entity>)
        ensures
            r@ == self.entities@,
    {
        &self.entities
    }

    /// The number of terms in this match.
    pub fn len(&self) -> (r: usize)
        ensures
            r == self.entities@.len(),
    {
        self.entities.len()
    }

    /// Whether there are no terms.
    pub fn is_empty(&self) -> (r: bool)
        ensures
            r == (self.entities@.len() == 0),
    {
        self.entities.len() == 0
    }
}

/// The query item for one main entity: every tuple that matched.
pub struct DynamicItem<'w, 's> {
    /// All entity combinations that matched the query plan.
    pub matches: Vec<DynamicMatch<'w, 's>>,
}

impl<'w, 's> DynamicItem<'w, 's> {
    /// The matches, for iteration.
    pub fn iter(&self) -> (r: &Vec<DynamicMatch<'w, 's>>)
        ensures
            r == &self.matches,
    {
        &self.matches
    }

    /// The number of matches.
    pub fn len(&self) -> (r: usize)
        ensures
            r == self.matches@.len(),
    {
        self.matches.len()
    }

    /// Whether there are no matches.
    pub fn is_empty(&self) -> (r: bool)
        ensures
            r == (self.matches@.len() == 0),
    {
        self.matches.len() == 0
    }
}

/// An element-for-element copy of an entity vector.
fn copy_entities(v: &Vec<Entity>) -> (r: Vec<Entity>)
    ensures
        r@ == v@,
{
    let n = v.len();
    let mut out: Vec<Entity> = Vec::new();
    let mut i: usize = 0;
    while i < n
        invariant
            n == v@.len(),
            i <= n,
            out@ == v@.take(i as int),
        decreases n - i,
    {
        out.push(v[i]);
        proof {
            assert(out@ =~= v@.take(i + 1));
        }
        i = i + 1;
    }
    proof {
        assert(out@ =~= v@);
    }
    out
}

impl<'w> DynamicFetch<'w> {
    /// A fetch over `world` with no entity processed yet; the world's
    /// change ticks are captured for callers that read change-detecting
    /// components.
    pub fn init(world: &'w WorldView) -> (r: DynamicFetch<'w>)
        ensures
            r.world == world,
            r.current_entity is None,
            r.last_run == world.last_change_tick,
            r.this_run == world.change_tick,
    {
        DynamicFetch {
            world,
            current_entity: None,
            last_run: world.last_change_tick(),
            this_run: world.change_tick(),
        }
    }

    /// Fetch the item for one candidate main entity: execute the state's
    /// plan and wrap each resulting tuple as a [`DynamicMatch`].
    pub fn fetch<'s>(&mut self, state: &'s DynamicState, entity: Entity) -> (r: DynamicItem<'w, 's>)
        ensures
            final(self).world == old(self).world,
            final(self).current_entity == Some(entity),
            final(self).last_run == old(self).last_run,
            final(self).this_run == old(self).this_run,
            r.matches@.len() == spec_execute(state.plan, *old(self).world, entity).len(),
            forall|i: int|
                0 <= i < r.matches@.len() ==> (#[trigger] r.matches@[i]).entities@
                    == spec_execute(state.plan, *old(self).world, entity)[i]
                    && r.matches@[i].world == old(self).world && r.matches@[i].state == state,
    {
        self.current_entity = Some(entity);
        let results = state.plan.execute(entity, self.world);
        let n = results.len();
        let mut matches: Vec<DynamicMatch<'w, 's>> = Vec::new();
        let mut i: usize = 0;
        while i < n
            invariant
                n == results@.len(),
                i <= n,
                matches@.len() == i,
                spec_tuples_view(results@) == spec_execute(state.plan, *self.world, entity),
                forall|j: int|
                    0 <= j < i ==> (#[trigger] matches@[j]).entities@ == results@[j]@
                        && matches@[j].world == self.world && matches@[j].state == state,
            decreases n - i,
        {
            matches.push(DynamicMatch {
                entities: copy_entities(&results[i]),
                world: self.world,
                state,
            });
            i = i + 1;
        }
        proof {
            assert forall|j: int| 0 <= j < n
                implies (#[trigger] matches@[j]).entities@
                    == spec_execute(state.plan, *self.world, entity)[j] by {
                assert(matches@[j].entities@ == results@[j]@);
                assert(spec_tuples_view(results@)[j] == results@[j]@);
            };
        }
        DynamicItem { matches }
    }
}

impl Dynamic {
    /// The state a plan-less query starts from: an empty plan around main
    /// term zero.
    pub fn init_state() -> (r: DynamicState)
        ensures
            r.plan.terms@ == Seq::<crate::plan::QueryElement>::empty(),
            r.plan.relationships@ == Seq::<crate::plan::QueryRelationship>::empty(),
            r.plan.main_term_index == 0,
    {
        DynamicState { plan: QueryPlan::new(0) }
    }

    /// Extend `access` with the main term's access, for archetype
    /// matching of the main iteration.
    pub fn update_component_access(state: &DynamicState, access: &mut FilteredAccess)
        requires
            state.plan.main_term_index < state.plan.terms@.len(),
        ensures
            final(access)@ == crate::access::spec_extend(
                old(access)@,
                state.plan.terms@[state.plan.main_term_index as int].access@,
            ),
    {
        access.extend(state.plan.main_term_access());
    }

    /// The accesses of every term other than the main one: what the query
    /// touches on entities beyond the iterated one, in term order.
    pub fn init_nested_access(state: &DynamicState) -> (r: Vec<FilteredAccess>)
        ensures
            r@.len() == (if state.plan.main_term_index < state.plan.terms@.len() {
                state.plan.terms@.len() - 1
            } else {
                state.plan.terms@.len() as int
            }),
            forall|j: int|
                0 <= j < r@.len() ==> (#[trigger] r@[j])@ == state.plan.terms@[
                    spec_nested_slot(state.plan.main_term_index as int, j)
                ].access@,
    {
        let mut out: Vec<FilteredAccess> = Vec::new();
        let n = state.plan.terms.len();
        let main = state.plan.main_term_index;
        let mut i: usize = 0;
        while i < n
            invariant
                n == state.plan.terms@.len(),
                main == state.plan.main_term_index,
                i <= n,
                out@.len() == (if main < i { i - 1 } else { i as int }),
                forall|j: int|
                    0 <= j < out@.len() ==> (#[trigger] out@[j])@ == state.plan.terms@[
                        spec_nested_slot(main as int, j)
                    ].access@,
            decreases n - i,
        {
            if i != main {
                let ghost pre = out@;
                out.push(state.plan.terms[i].access.duplicate());
                proof {
                    assert forall|j: int| 0 <= j < out@.len()
                        implies (#[trigger] out@[j])@ == state.plan.terms@[
                            spec_nested_slot(main as int, j)
                        ].access@ by {
                        if j < pre.len() {
                            assert(out@[j] == pre[j]);
                        } else {
                            assert(out@[j]@ == state.plan.terms@[i as int].access@);
                            assert(spec_nested_slot(main as int, j) == i as int);
                        }
                    };
                }
            }
            i = i + 1;
        }
        out
    }

    /// Whether the main term could match an archetype holding exactly the
    /// ids of `set`: every id the main term's access enumerates is
    /// present.  An unbounded main access matches any archetype.
    pub fn matches_component_set(state: &DynamicState, set: &IdSet) -> (r: bool)
        requires
            state.plan.main_term_index < state.plan.terms@.len(),
        ensures
            ({
                let acc = state.plan.terms@[state.plan.main_term_index as int].access@.access;
                r == (acc.read_all || spec_accessed_ids(acc).subset_of(set@))
            }),
    {
        let access = state.plan.main_term_access();
        match access.access().try_iter_component_access() {
            Err(_) => true,
            Ok(items) => {
                let ghost acc = state.plan.terms@[state.plan.main_term_index as int].access@.access;
                let n = items.len();
                let mut i: usize = 0;
                while i < n
                    invariant
                        acc == state.plan.terms@[state.plan.main_term_index as int].access@.access,
                        state.plan.main_term_index < state.plan.terms@.len(),
                        !acc.read_all,
                        n == items@.len(),
                        i <= n,
                        forall|j: int|
                            0 <= j < items@.len() ==> crate::access::spec_kind_sound(
                                acc,
                                #[trigger] items@[j],
                            ),
                        forall|c: ComponentId|
                            #[trigger] spec_accessed_ids(acc).contains(c)
                                ==> crate::access::spec_covers(items@, c),
                        forall|j: int|
                            0 <= j < i ==> set@.contains((#[trigger] items@[j]).spec_id()),
                    decreases n - i,
                {
                    if !set.contains(items[i].index()) {
                        proof {
                            assert(crate::access::spec_kind_sound(acc, items@[i as int]));
                            assert(spec_accessed_ids(acc).contains(items@[i as int].spec_id()));
                        }
                        return false;
                    }
                    i = i + 1;
                }
                proof {
                    assert forall|c: ComponentId| #[trigger] spec_accessed_ids(acc).contains(c)
                        implies set@.contains(c) by {
                        assert(crate::access::spec_covers(items@, c));
                        let j = choose|j: int|
                            0 <= j < items@.len() && (#[trigger] items@[j]).spec_id() == c;
                        assert(set@.contains(items@[j].spec_id()));
                    };
                }
                true
            },
        }
    }
}


/// The term index the `j`-th nested access comes from: term indices with
/// the main term skipped.
pub open spec fn spec_nested_slot(main: int, j: int) -> int {
    if j < main {
        j
    } else {
        j + 1
    }
}

} // verus!
