//! A plain-value view of an entity-component world: the substrate the
//! matcher reads.
//!
//! The view keeps the component registry, a slot per entity index (its
//! generation, liveness and components), and a free list of dead indices.
//! Component payloads are held as plain values: raw bytes for ordinary
//! components — a relationship's target entity is read out of them at a
//! byte offset — or a sequence of entities for relationship-target
//! components, standing for the collection such a component iterates.
//! Storage classes (table versus sparse set) remain registry metadata,
//! consulted when a plan reports its density.

use vstd::prelude::*;
use crate::component::{ComponentId, ComponentInfo, ComponentRegistry, spec_register};
use crate::entity::{Entity, inc_generation_by, spec_inc_generation_by};
use crate::idset::IdSet;

verus! {

/// The stored payload of one component on one entity.
#[derive(Clone, PartialEq, Eq, Debug)]
pub enum ComponentData {
    /// An opaque in-memory payload, addressed by byte offset.
    Bytes(Vec<u8>),
    /// The target collection of a relationship-target component.
    Entities(Vec<Entity>),
}

/// One entity index: its current generation, whether it is alive, and the
/// components it holds while alive.
#[derive(Clone, Debug)]
pub struct EntitySlot {
    /// The generation the index is currently at.
    pub generation: u32,
    /// Whether the index holds a live entity.
    pub live: bool,
    /// The components the live entity holds.
    pub components: Vec<(ComponentId, ComponentData)>,
}

/// A world seen as plain values: registry, entity slots and a free list.
#[derive(Clone, Debug)]
pub struct WorldView {
    /// The component registry.
    pub registry: ComponentRegistry,
    /// One slot per allocated entity index.
    pub slots: Vec<EntitySlot>,
    /// Dead indices available for reuse.
    pub free: Vec<usize>,
    /// The tick of the last run that observed changes.
    pub last_change_tick: u32,
    /// The current change tick.
    pub change_tick: u32,
}

/// The first payload recorded under `c` in an entity's component list.
pub open spec fn spec_lookup(s: Seq<(ComponentId, ComponentData)>, c: ComponentId) -> Option<ComponentData>
    decreases s.len(),
{
    if s.len() == 0 {
        None
    } else if s[0].0 == c {
        Some(s[0].1)
    } else {
        spec_lookup(s.drop_first(), c)
    }
}

/// Skipping entries that do not carry `c` leaves the lookup unchanged.
proof fn lemma_lookup_skip(s: Seq<(ComponentId, ComponentData)>, c: ComponentId, j: int)
    requires
        0 <= j <= s.len(),
        forall|k: int| 0 <= k < j ==> s[k].0 != c,
    ensures
        spec_lookup(s, c) == spec_lookup(s.skip(j), c),
    decreases j,
{
    if j > 0 {
        lemma_lookup_skip(s.drop_first(), c, j - 1);
        assert(s.drop_first().skip(j - 1) =~= s.skip(j));
    } else {
        assert(s.skip(0) =~= s);
    }
}

impl WorldView {
    /// The registry entries of this world.
    pub open spec fn spec_registry(&self) -> Seq<(u64, ComponentInfo)> {
        self.registry@
    }

    /// A world is well formed when its registry is and every free-list
    /// entry names a dead, in-bounds slot.
    pub open spec fn wf(&self) -> bool {
        &&& self.registry.wf()
        &&& forall|j: int|
            0 <= j < self.free@.len() ==> #[trigger] self.free@[j] < self.slots@.len()
                && !self.slots@[self.free@[j] as int].live
        &&& forall|j: int, k: int|
            0 <= j < k < self.free@.len() ==> self.free@[j] != self.free@[k]
    }

    /// Whether `e` names a live entity: its index is allocated, the slot is
    /// alive, and the generations agree.
    pub open spec fn spec_live(&self, e: Entity) -> bool {
        &&& (e.index as int) < self.slots@.len()
        &&& self.slots@[e.index as int].live
        &&& self.slots@[e.index as int].generation == e.generation
    }

    /// The component ids a live entity holds; a stale or never-allocated
    /// entity holds none.
    pub open spec fn spec_components_of(&self, e: Entity) -> Set<ComponentId> {
        if self.spec_live(e) {
            Set::new(|c: ComponentId| exists|j: int|
                0 <= j < self.slots@[e.index as int].components@.len()
                    && (#[trigger] self.slots@[e.index as int].components@[j]).0 == c)
        } else {
            Set::empty()
        }
    }

    /// The payload a live entity holds under `c`, if any.
    pub open spec fn spec_component_of(&self, e: Entity, c: ComponentId) -> Option<ComponentData> {
        if self.spec_live(e) {
            spec_lookup(self.slots@[e.index as int].components@, c)
        } else {
            None
        }
    }

    /// An empty world.
    pub fn new() -> (r: WorldView)
        ensures
            r.wf(),
            r.spec_registry() == Seq::<(u64, ComponentInfo)>::empty(),
            r.slots@ == Seq::<EntitySlot>::empty(),
            r.free@ == Seq::<usize>::empty(),
            r.last_change_tick == 0,
            r.change_tick == 0,
            forall|e: Entity| !r.spec_live(e),
    {
        WorldView {
            registry: ComponentRegistry::new(),
            slots: Vec::new(),
            free: Vec::new(),
            last_change_tick: 0,
            change_tick: 0,
        }
    }

    /// The tick of the last run that observed changes.
    pub fn last_change_tick(&self) -> (r: u32)
        ensures
            r == self.last_change_tick,
    {
        self.last_change_tick
    }

    /// The current change tick.
    pub fn change_tick(&self) -> (r: u32)
        ensures
            r == self.change_tick,
    {
        self.change_tick
    }

    /// The component registry.
    pub fn components(&self) -> (r: &ComponentRegistry)
        ensures
            r@ == self.spec_registry(),
    {
        &self.registry
    }

    /// Register a component kind in this world's registry.  Idempotent, as
    /// [`ComponentRegistry::register`] is; entities are untouched.
    pub fn register_component(&mut self, kind: u64, info: ComponentInfo) -> (r: ComponentId)
        requires
            old(self).wf(),
            old(self).spec_registry().len() < usize::MAX,
        ensures
            final(self).wf(),
            (final(self).spec_registry(), r.0 as int)
                == spec_register(old(self).spec_registry(), kind, info),
            final(self).slots@ == old(self).slots@,
            final(self).free@ == old(self).free@,
    {
        self.registry.register(kind, info)
    }

    /// Whether `e` names a live entity.
    pub fn is_live(&self, e: Entity) -> (r: bool)
        ensures
            r == self.spec_live(e),
    {
        let idx = e.index() as usize;
        idx < self.slots.len() && self.slots[idx].live && self.slots[idx].generation == e.generation()
    }

    /// The set of component ids `e` holds; empty for a stale entity.
    pub fn component_ids_of(&self, e: Entity) -> (r: IdSet)
        ensures
            r@ == self.spec_components_of(e),
    {
        let mut out = IdSet::new();
        if !self.is_live(e) {
            proof {
                assert(out@ =~= self.spec_components_of(e));
            }
            return out;
        }
        let idx = e.index() as usize;
        let n = self.slots[idx].components.len();
        let mut j: usize = 0;
        while j < n
            invariant
                (idx as int) < self.slots@.len(),
                n == self.slots@[idx as int].components@.len(),
                j <= n,
                forall|c: ComponentId| #[trigger] out@.contains(c) <==> exists|k: int|
                    0 <= k < j && (#[trigger] self.slots@[idx as int].components@[k]).0 == c,
            decreases n - j,
        {
            let c = self.slots[idx].components[j].0;
            let ghost pre = out@;
            out.insert(c);
            proof {
                assert forall|x: ComponentId| #[trigger] out@.contains(x) implies exists|k: int|
                    0 <= k < j + 1 && (#[trigger] self.slots@[idx as int].components@[k]).0 == x by {
                    if x == c {
                        assert((self.slots@[idx as int].components@[j as int]).0 == x);
                    } else {
                        assert(pre.contains(x));
                    }
                };
                assert forall|x: ComponentId| (exists|k: int|
                    0 <= k < j + 1 && (#[trigger] self.slots@[idx as int].components@[k]).0 == x)
                    implies #[trigger] out@.contains(x) by {
                    let k = choose|k: int|
                        0 <= k < j + 1 && (#[trigger] self.slots@[idx as int].components@[k]).0 == x;
                    if k < j {
                        assert(pre.contains(x));
                    }
                };
            }
            j = j + 1;
        }
        proof {
            assert(out@ =~= self.spec_components_of(e));
        }
        out
    }

    /// The payload `e` holds under `c`, if `e` is live and holds one.
    pub fn get_component(&self, e: Entity, c: ComponentId) -> (r: Option<&ComponentData>)
        ensures
            match r {
                Some(d) => self.spec_component_of(e, c) == Some(*d),
                None => self.spec_component_of(e, c) is None,
            },
    {
        if !self.is_live(e) {
            return None;
        }
        let idx = e.index() as usize;
        let n = self.slots[idx].components.len();
        let ghost comps = self.slots@[idx as int].components@;
        let mut j: usize = 0;
        while j < n
            invariant
                self.spec_live(e),
                idx == e.index as int,
                (idx as int) < self.slots@.len(),
                comps == self.slots@[idx as int].components@,
                n == comps.len(),
                j <= n,
                forall|k: int| 0 <= k < j ==> (#[trigger] comps[k]).0 != c,
            decreases n - j,
        {
            if self.slots[idx].components[j].0 == c {
                proof {
                    lemma_lookup_skip(comps, c, j as int);
                    assert(comps.skip(j as int)[0] == comps[j as int]);
                    assert(comps.skip(j as int).len() > 0);
                    assert(spec_lookup(comps.skip(j as int), c) == Some(comps[j as int].1));
                }
                return Some(&self.slots[idx].components[j].1);
            }
            j = j + 1;
        }
        proof {
            lemma_lookup_skip(comps, c, n as int);
            assert(comps.skip(n as int) =~= Seq::<(ComponentId, ComponentData)>::empty());
        }
        None
    }

    /// Spawn a new entity holding the given components.  A dead index is
    /// reused at its current generation if one is free; otherwise a fresh
    /// index starts at generation zero.  No live entity is disturbed.
    pub fn spawn(&mut self, components: Vec<(ComponentId, ComponentData)>) -> (r: Entity)
        requires
            old(self).wf(),
            old(self).slots@.len() < u32::MAX,
        ensures
            final(self).wf(),
            final(self).spec_registry() == old(self).spec_registry(),
            final(self).spec_live(r),
            !old(self).spec_live(r),
            forall|c: ComponentId| final(self).spec_component_of(r, c) == spec_lookup(components@, c),
            final(self).spec_components_of(r) == Set::new(|c: ComponentId| exists|j: int|
                0 <= j < components@.len() && (#[trigger] components@[j]).0 == c),
            forall|e: Entity| old(self).spec_live(e) ==> final(self).spec_live(e),
            forall|e: Entity| e != r && final(self).spec_live(e) ==> old(self).spec_live(e),
            forall|e: Entity, c: ComponentId| old(self).spec_live(e)
                ==> final(self).spec_component_of(e, c) == old(self).spec_component_of(e, c),
            forall|e: Entity| old(self).spec_live(e)
                ==> final(self).spec_components_of(e) == old(self).spec_components_of(e),
    {
        let ghost oldw = *self;
        let r: Entity;
        if self.free.len() > 0 {
            let idx = self.free[self.free.len() - 1];
            self.free.pop();
            let generation = self.slots[idx].generation;
            let slot = EntitySlot { generation, live: true, components };
            self.slots.set(idx, slot);
            r = Entity::from_raw_and_generation(idx as u32, generation);
        } else {
            let idx = self.slots.len();
            self.slots.push(EntitySlot { generation: 0, live: true, components });
            r = Entity::from_raw_and_generation(idx as u32, 0);
        }
        proof {
            assert(self.spec_live(r));
            assert(!oldw.spec_live(r));
            assert forall|e: Entity| oldw.spec_live(e) implies self.spec_live(e) by {
                if e.index as int != r.index as int {
                    assert(self.slots@[e.index as int] == oldw.slots@[e.index as int]);
                }
            };
            assert forall|e: Entity, c: ComponentId| oldw.spec_live(e)
                implies self.spec_component_of(e, c) == oldw.spec_component_of(e, c) by {
                assert(e.index as int != r.index as int);
                assert(self.slots@[e.index as int] == oldw.slots@[e.index as int]);
            };
            assert forall|e: Entity| oldw.spec_live(e)
                implies self.spec_components_of(e) =~= oldw.spec_components_of(e) by {
                assert(e.index as int != r.index as int);
                assert(self.slots@[e.index as int] == oldw.slots@[e.index as int]);
            };
            assert(self.spec_components_of(r) =~= Set::new(|c: ComponentId| exists|j: int|
                0 <= j < components@.len() && (#[trigger] components@[j]).0 == c));
        }
        r
    }

    /// Spawn an entity with no components.
    pub fn spawn_empty(&mut self) -> (r: Entity)
        requires
            old(self).wf(),
            old(self).slots@.len() < u32::MAX,
        ensures
            final(self).wf(),
            final(self).spec_registry() == old(self).spec_registry(),
            final(self).spec_live(r),
            !old(self).spec_live(r),
            final(self).spec_components_of(r) == Set::<ComponentId>::empty(),
            forall|e: Entity| old(self).spec_live(e) ==> final(self).spec_live(e),
            forall|e: Entity| e != r && final(self).spec_live(e) ==> old(self).spec_live(e),
            forall|e: Entity, c: ComponentId| old(self).spec_live(e)
                ==> final(self).spec_component_of(e, c) == old(self).spec_component_of(e, c),
            forall|e: Entity| old(self).spec_live(e)
                ==> final(self).spec_components_of(e) == old(self).spec_components_of(e),
    {
        let r = self.spawn(Vec::new());
        proof {
            assert(self.spec_components_of(r) =~= Set::<ComponentId>::empty());
        }
        r
    }

    /// Allocate a bare entity; the entity-mapper uses this for its
    /// temporary base entity.
    pub fn allocate(&mut self) -> (r: Entity)
        requires
            old(self).wf(),
            old(self).slots@.len() < u32::MAX,
        ensures
            final(self).wf(),
            final(self).spec_registry() == old(self).spec_registry(),
            final(self).spec_live(r),
            !old(self).spec_live(r),
            forall|e: Entity| old(self).spec_live(e) ==> final(self).spec_live(e),
    {
        self.spawn_empty()
    }

    /// Free a live entity: its slot dies, its generation advances, and its
    /// index becomes reusable.  Returns whether `e` was live.
    pub fn free(&mut self, e: Entity) -> (r: bool)
        ensures
            old(self).wf() ==> final(self).wf(),
            final(self).spec_registry() == old(self).spec_registry(),
            r == old(self).spec_live(e),
            !final(self).spec_live(e),
            r ==> final(self).slots@[e.index as int].generation
                == spec_inc_generation_by(e.generation, 1),
            r ==> (e.index as int) < final(self).slots@.len()
                && !final(self).slots@[e.index as int].live,
            forall|x: Entity| x != e && old(self).spec_live(x) ==> final(self).spec_live(x),
            forall|x: Entity, c: ComponentId| x != e && old(self).spec_live(x)
                ==> final(self).spec_component_of(x, c) == old(self).spec_component_of(x, c),
            !r ==> final(self).slots@ == old(self).slots@ && final(self).free@ == old(self).free@,
    {
        if !self.is_live(e) {
            return false;
        }
        let idx = e.index() as usize;
        let generation = inc_generation_by(self.slots[idx].generation, 1);
        let slot = EntitySlot { generation, live: false, components: Vec::new() };
        self.slots.set(idx, slot);
        self.free.push(idx);
        proof {
            assert forall|x: Entity| x != e && old(self).spec_live(x) implies self.spec_live(x) by {
                if x.index as int != idx as int {
                    assert(self.slots@[x.index as int] == old(self).slots@[x.index as int]);
                }
            };
            assert forall|x: Entity, c: ComponentId| x != e && old(self).spec_live(x)
                implies self.spec_component_of(x, c) == old(self).spec_component_of(x, c) by {
                assert(x.index as int != idx as int);
                assert(self.slots@[x.index as int] == old(self).slots@[x.index as int]);
            };
        }
        true
    }

    /// Reserve `generations` further generations on a dead index, so that
    /// entities handed out against them can never collide with a live one.
    /// Returns whether the index named a dead, allocated slot.
    pub fn reserve_generations(&mut self, index: u32, generations: u32) -> (r: bool)
        ensures
            old(self).wf() ==> final(self).wf(),
            final(self).spec_registry() == old(self).spec_registry(),
            r == ((index as int) < old(self).slots@.len()
                && !old(self).slots@[index as int].live),
            r ==> final(self).slots@[index as int].generation == spec_inc_generation_by(
                old(self).slots@[index as int].generation,
                generations,
            ),
            r ==> !final(self).slots@[index as int].live,
            forall|x: Entity| old(self).spec_live(x) ==> final(self).spec_live(x),
            forall|x: Entity, c: ComponentId| old(self).spec_live(x)
                ==> final(self).spec_component_of(x, c) == old(self).spec_component_of(x, c),
    {
        let idx = index as usize;
        if idx >= self.slots.len() || self.slots[idx].live {
            return false;
        }
        let generation = inc_generation_by(self.slots[idx].generation, generations);
        let slot = EntitySlot { generation, live: false, components: Vec::new() };
        self.slots.set(idx, slot);
        proof {
            assert forall|x: Entity| old(self).spec_live(x) implies self.spec_live(x) by {
                assert(x.index as int != idx as int);
                assert(self.slots@[x.index as int] == old(self).slots@[x.index as int]);
            };
            assert forall|x: Entity, c: ComponentId| old(self).spec_live(x)
                implies self.spec_component_of(x, c) == old(self).spec_component_of(x, c) by {
                assert(x.index as int != idx as int);
                assert(self.slots@[x.index as int] == old(self).slots@[x.index as int]);
            };
        }
        true
    }
}

} // verus!
