//! Mapping entity references between worlds.
//!
//! Entity ids are valid only for the world they were allocated in; values
//! copied between worlds must have every [`Entity`] field rewritten.  The
//! [`MapEntities`] trait lets a type expose its entity fields to a
//! [`Mapper`], of which two are provided: [`SimpleEntityMapper`] leaves
//! unknown entities as they are, while [`EntityMapper`] reserves a fresh
//! dead reference for each unknown entity, guaranteed never to collide
//! with a live one.

use vstd::prelude::*;
use crate::entity::{Entity, inc_generation_by, spec_inc_generation_by};
use crate::world::WorldView;

verus! {

/// A mapping from entities of one world to entities of another, keyed by
/// the whole (index, generation) identity.
#[derive(Clone, Debug)]
pub struct EntityMap {
    /// The `(from, to)` pairs; `insert` keeps keys unique.
    pub entries: Vec<(Entity, Entity)>,
}

impl View for EntityMap {
    type V = Map<Entity, Entity>;

    /// The mapping as a mathematical map.
    open spec fn view(&self) -> Map<Entity, Entity> {
        Map::new(
            |k: Entity| exists|i: int| 0 <= i < self.entries@.len() && (#[trigger] self.entries@[i]).0 == k,
            |k: Entity| {
                let i = choose|i: int|
                    0 <= i < self.entries@.len() && (#[trigger] self.entries@[i]).0 == k;
                self.entries@[i].1
            },
        )
    }
}

impl EntityMap {
    /// No key appears twice.
    pub open spec fn wf(&self) -> bool {
        forall|i: int, j: int|
            0 <= i < j < self.entries@.len() ==> (#[trigger] self.entries@[i]).0
                != (#[trigger] self.entries@[j]).0
    }

    /// An empty mapping.
    pub fn new() -> (r: EntityMap)
        ensures
            r@ == Map::<Entity, Entity>::empty(),
            r.wf(),
    {
        let r = EntityMap { entries: Vec::new() };
        proof {
            assert(r@ =~= Map::<Entity, Entity>::empty());
        }
        r
    }

    /// The number of mapped entities.
    pub fn len(&self) -> (r: usize)
        ensures
            r == self.entries@.len(),
    {
        self.entries.len()
    }

    /// The position of `k` among the entries, if it is mapped.
    fn index_of(&self, k: Entity) -> (r: Option<usize>)
        ensures
            match r {
                Some(i) => i < self.entries@.len() && self.entries@[i as int].0 == k,
                None => !self@.dom().contains(k),
            },
    {
        let n = self.entries.len();
        let mut i: usize = 0;
        while i < n
            invariant
                n == self.entries@.len(),
                i <= n,
                forall|j: int| 0 <= j < i ==> (#[trigger] self.entries@[j]).0 != k,
            decreases n - i,
        {
            if self.entries[i].0 == k {
                return Some(i);
            }
            i = i + 1;
        }
        None
    }

    /// The entity `k` maps to, if any: the first entry holding `k`, which
    /// in a well-formed map is the only one.
    pub fn get(&self, k: Entity) -> (r: Option<Entity>)
        ensures
            self.wf() ==> match r {
                Some(v) => self@.dom().contains(k) && self@[k] == v,
                None => !self@.dom().contains(k),
            },
            r is Some ==> self@.dom().contains(k),
            r is None ==> !self@.dom().contains(k),
    {
        match self.index_of(k) {
            Some(i) => {
                proof {
                    assert(self@.dom().contains(k));
                    if self.wf() {
                        let w = choose|w: int|
                            0 <= w < self.entries@.len() && (#[trigger] self.entries@[w]).0 == k;
                        if w != i {
                            if w < i {
                                assert(self.entries@[w].0 != self.entries@[i as int].0);
                            } else {
                                assert(self.entries@[i as int].0 != self.entries@[w].0);
                            }
                        }
                    }
                }
                Some(self.entries[i].1)
            },
            None => None,
        }
    }

    /// Map `k` to `v`, replacing any earlier mapping of `k`.
    pub fn insert(&mut self, k: Entity, v: Entity)
        ensures
            old(self).wf() ==> final(self).wf() && final(self)@ == old(self)@.insert(k, v),
    {
        match self.index_of(k) {
            Some(i) => {
                self.entries.set(i, (k, v));
                proof {
                    if old(self).wf() {
                    assert forall|x: Entity| self@.dom().contains(x)
                        <==> old(self)@.insert(k, v).dom().contains(x) by {
                        if x == k {
                            assert(self.entries@[i as int].0 == k);
                        } else {
                            if exists|w: int|
                                0 <= w < self.entries@.len()
                                    && (#[trigger] self.entries@[w]).0 == x {
                                let w = choose|w: int|
                                    0 <= w < self.entries@.len()
                                        && (#[trigger] self.entries@[w]).0 == x;
                                assert(old(self).entries@[w].0 == x);
                            }
                            if exists|w: int|
                                0 <= w < old(self).entries@.len()
                                    && (#[trigger] old(self).entries@[w]).0 == x {
                                let w = choose|w: int|
                                    0 <= w < old(self).entries@.len()
                                        && (#[trigger] old(self).entries@[w]).0 == x;
                                assert(self.entries@[w].0 == x);
                            }
                        }
                    };
                    assert forall|x: Entity| self@.dom().contains(x)
                        implies self@[x] == old(self)@.insert(k, v)[x] by {
                        let w = choose|w: int|
                            0 <= w < self.entries@.len() && (#[trigger] self.entries@[w]).0 == x;
                        if x == k {
                            assert(self.entries@[i as int] == (k, v));
                            if w != i {
                                if w < i {
                                    assert(self.entries@[w].0 != self.entries@[i as int].0);
                                } else {
                                    assert(self.entries@[i as int].0 != self.entries@[w].0);
                                }
                            }
                        } else {
                            assert(w != i);
                            assert(self.entries@[w] == old(self).entries@[w]);
                            let w2 = choose|w2: int|
                                0 <= w2 < old(self).entries@.len()
                                    && (#[trigger] old(self).entries@[w2]).0 == x;
                            if w2 != w {
                                if w2 < w {
                                    assert(old(self).entries@[w2].0 != old(self).entries@[w].0);
                                } else {
                                    assert(old(self).entries@[w].0 != old(self).entries@[w2].0);
                                }
                            }
                        }
                    };
                    assert(self@ =~= old(self)@.insert(k, v));
                    }
                }
            },
            None => {
                self.entries.push((k, v));
                proof {
                    if old(self).wf() {
                    let n = old(self).entries@.len() as int;
                    assert forall|x: Entity| self@.dom().contains(x)
                        <==> old(self)@.insert(k, v).dom().contains(x) by {
                        if x == k {
                            assert(self.entries@[n].0 == k);
                        } else {
                            if exists|w: int|
                                0 <= w < self.entries@.len()
                                    && (#[trigger] self.entries@[w]).0 == x {
                                let w = choose|w: int|
                                    0 <= w < self.entries@.len()
                                        && (#[trigger] self.entries@[w]).0 == x;
                                assert(w < n);
                                assert(old(self).entries@[w].0 == x);
                            }
                            if exists|w: int|
                                0 <= w < old(self).entries@.len()
                                    && (#[trigger] old(self).entries@[w]).0 == x {
                                let w = choose|w: int|
                                    0 <= w < old(self).entries@.len()
                                        && (#[trigger] old(self).entries@[w]).0 == x;
                                assert(self.entries@[w].0 == x);
                            }
                        }
                    };
                    assert forall|x: Entity| self@.dom().contains(x)
                        implies self@[x] == old(self)@.insert(k, v)[x] by {
                        let w = choose|w: int|
                            0 <= w < self.entries@.len() && (#[trigger] self.entries@[w]).0 == x;
                        if x == k {
                            assert(!old(self)@.dom().contains(k));
                            if w < n {
                                assert(old(self).entries@[w].0 == k);
                            }
                            assert(w == n);
                        } else {
                            assert(w < n);
                            let w2 = choose|w2: int|
                                0 <= w2 < old(self).entries@.len()
                                    && (#[trigger] old(self).entries@[w2]).0 == x;
                            if w2 != w {
                                if w2 < w {
                                    assert(old(self).entries@[w2].0 != old(self).entries@[w].0);
                                } else {
                                    assert(old(self).entries@[w].0 != old(self).entries@[w2].0);
                                }
                            }
                        }
                    };
                    assert(self@ =~= old(self)@.insert(k, v));
                    }
                }
            },
        }
    }
}

/// A type that knows how to rewrite the entity references it stores.
pub trait MapEntities {
    /// Update every stored [`Entity`] reference through `entity_mapper`.
    fn map_entities<M: Mapper>(&mut self, entity_mapper: &mut M);
}

/// A type that knows how to map one entity reference to another.
pub trait Mapper {
    /// Map an entity to another entity.
    fn map(&mut self, entity: Entity) -> Entity;
}

impl MapEntities for Entity {
    /// An entity is itself a reference: map it directly.
    fn map_entities<M: Mapper>(&mut self, entity_mapper: &mut M) {
        *self = entity_mapper.map(*self);
    }
}

/// A mapper that tries the mapping and, when an entity is unknown,
/// returns it unchanged.
pub struct SimpleEntityMapper<'m> {
    /// The mapping consulted.
    pub map: &'m EntityMap,
}

impl Mapper for SimpleEntityMapper<'_> {
    /// The mapped entity, or the same entity if it is not mapped.
    fn map(&mut self, entity: Entity) -> (r: Entity)
        ensures
            *final(self) == *old(self),
            old(self).map.wf() ==> r == (if old(self).map@.dom().contains(entity) {
                old(self).map@[entity]
            } else {
                entity
            }),
    {
        match self.get(entity) {
            Some(mapped) => mapped,
            None => entity,
        }
    }
}

impl<'m> SimpleEntityMapper<'m> {
    /// Wrap an existing mapping.
    pub fn new(map: &'m EntityMap) -> (r: SimpleEntityMapper<'m>)
        ensures
            r.map == map,
    {
        SimpleEntityMapper { map }
    }

    /// The mapped entity, or `None` if `entity` is not mapped.
    pub fn get(&self, entity: Entity) -> (r: Option<Entity>)
        ensures
            self.map.wf() ==> match r {
                Some(v) => self.map@.dom().contains(entity) && self.map@[entity] == v,
                None => !self.map@.dom().contains(entity),
            },
    {
        self.map.get(entity)
    }

    /// The underlying mapping.
    pub fn get_map(&'m self) -> (r: &'m EntityMap)
        ensures
            r == self.map,
    {
        self.map
    }
}

/// A mapper that owns its mapping and can reserve brand-new dead entity
/// references for unknown entities.  References are allocated as
/// successive generations of an internally reserved base entity, so they
/// can never point at a living entity of the destination world.
pub struct EntityMapper {
    /// The mapping accumulated so far.
    map: EntityMap,
    /// The base entity used to mint new dead references.
    dead_start: Entity,
    /// How many generations this mapper has handed out so far.
    generations: u32,
}

impl Mapper for EntityMapper {
    /// The mapped entity, or a freshly reserved dead reference, exactly
    /// as [`EntityMapper::get_or_reserve`] hands them out.
    fn map(&mut self, entity: Entity) -> (r: Entity)
        ensures
            old(self).wf() ==> final(self).wf() && spec_mapper_step(
                *old(self),
                entity,
                *final(self),
                r,
            ),
    {
        self.get_or_reserve(entity)
    }
}

/// What one `get_or_reserve` call does: a known entity is returned from
/// the map and nothing changes; an unknown entity is mapped to the next
/// generation of the base entity, which is recorded, and the generation
/// counter advances modulo 2^31.
pub open spec fn spec_mapper_step(
    pre: EntityMapper,
    entity: Entity,
    post: EntityMapper,
    r: Entity,
) -> bool {
    if pre.spec_map()@.dom().contains(entity) {
        r == pre.spec_map()@[entity] && post == pre
    } else {
        &&& r == (Entity {
            index: pre.spec_dead_start().index,
            generation: spec_inc_generation_by(
                pre.spec_dead_start().generation,
                pre.spec_generations(),
            ),
        })
        &&& post.spec_map()@ == pre.spec_map()@.insert(entity, r)
        &&& post.spec_dead_start() == pre.spec_dead_start()
        &&& post.spec_generations() == (pre.spec_generations() + 1) % 0x8000_0000
    }
}

impl EntityMapper {
    /// The accumulated mapping.
    pub closed spec fn spec_map(&self) -> EntityMap {
        self.map
    }

    /// The base entity new references are minted from.
    pub closed spec fn spec_dead_start(&self) -> Entity {
        self.dead_start
    }

    /// The number of generations handed out so far.
    pub closed spec fn spec_generations(&self) -> u32 {
        self.generations
    }

    /// The mapping is well formed.
    pub open spec fn wf(&self) -> bool {
        self.spec_map().wf()
    }

    /// Create a mapper over `map`, reserving a temporary base entity in
    /// `world` from which dead references will be minted.
    pub fn new(map: EntityMap, world: &mut WorldView) -> (r: EntityMapper)
        requires
            map.wf(),
            old(world).wf(),
            old(world).slots@.len() < u32::MAX,
        ensures
            final(world).wf(),
            r.wf(),
            r.spec_map() == map,
            r.spec_generations() == 0,
            final(world).spec_live(r.spec_dead_start()),
            !old(world).spec_live(r.spec_dead_start()),
            forall|e: Entity| old(world).spec_live(e) ==> final(world).spec_live(e),
    {
        let dead_start = world.allocate();
        EntityMapper { map, dead_start, generations: 0 }
    }

    /// The mapped entity, or a freshly reserved reference for an unknown
    /// one: the next generation of the base entity, so every minted
    /// reference shares the base index.  The base entity stays alive
    /// until [`Self::finish`] kills its index, after which no minted
    /// reference names a living entity.
    pub fn get_or_reserve(&mut self, entity: Entity) -> (r: Entity)
        ensures
            old(self).wf() ==> final(self).wf() && spec_mapper_step(
                *old(self),
                entity,
                *final(self),
                r,
            ),
    {
        match self.map.get(entity) {
            Some(mapped) => mapped,
            None => {
                let new = Entity::from_raw_and_generation(
                    self.dead_start.index(),
                    inc_generation_by(self.dead_start.generation(), self.generations),
                );
                self.generations = (((self.generations as u64) + 1) % 0x8000_0000u64) as u32;
                self.map.insert(entity, new);
                new
            },
        }
    }

    /// The accumulated mapping.
    pub fn get_map(&self) -> (r: &EntityMap)
        ensures
            r == &self.spec_map(),
    {
        &self.map
    }

    /// The accumulated mapping, mutably.
    pub fn get_map_mut(&mut self) -> (r: &mut EntityMap)
        ensures
            *r == old(self).spec_map(),
            final(self).spec_map() == *final(r),
            final(self).spec_dead_start() == old(self).spec_dead_start(),
            final(self).spec_generations() == old(self).spec_generations(),
    {
        &mut self.map
    }

    /// Release the mapper: free the temporary base entity and reserve the
    /// generations handed out.  Every reference the mapper minted shares
    /// the base entity's index, so once that index is dead no minted
    /// reference names a living entity.  Hands the accumulated mapping
    /// back.
    pub fn finish(self, world: &mut WorldView) -> (r: EntityMap)
        ensures
            old(world).wf() ==> final(world).wf(),
            r == self.spec_map(),
            !final(world).spec_live(self.spec_dead_start()),
            old(world).spec_live(self.spec_dead_start()) ==> forall|e: Entity|
                e.index == self.spec_dead_start().index ==> !final(world).spec_live(e),
    {
        let dead_start = self.dead_start;
        let freed = world.free(dead_start);
        if freed {
            world.reserve_generations(dead_start.index(), self.generations);
        }
        self.map
    }
}


/// Run `f` with a world and a mapper over `entity_map`, then release the
/// mapper: the references minted inside the scope all share the mapper's
/// base index, which is dead once the scope closes, so none of them can
/// name a live entity of `world` afterwards.  Hands back `f`'s result
/// with the accumulated mapping.  The witnesses below are the world and
/// mapper `f` actually ran over: the mapper starts fresh over
/// `entity_map` with a base entity newly reserved in the world, and both
/// are read back in the state `f` left them.
pub fn world_scope<R, F: FnOnce(&mut WorldView, &mut EntityMapper) -> R>(
    entity_map: EntityMap,
    world: &mut WorldView,
    f: F,
) -> (res: (R, EntityMap))
    requires
        entity_map.wf(),
        old(world).wf(),
        old(world).slots@.len() < u32::MAX,
        forall|w: &mut WorldView, m: &mut EntityMapper| call_requires(f, (w, m)),
    ensures
        exists|w: &mut WorldView, m: &mut EntityMapper|
            {
                &&& #[trigger] call_ensures(f, (w, m), res.0)
                &&& mut_ref_current(m).wf()
                &&& mut_ref_current(m).spec_map() == entity_map
                &&& mut_ref_current(m).spec_generations() == 0
                &&& mut_ref_current(w).wf()
                &&& mut_ref_current(w).spec_live(mut_ref_current(m).spec_dead_start())
                &&& !old(world).spec_live(mut_ref_current(m).spec_dead_start())
                &&& (forall|e: Entity|
                    old(world).spec_live(e) ==> mut_ref_current(w).spec_live(e))
                &&& res.1 == mut_ref_future(m).spec_map()
                &&& !final(world).spec_live(mut_ref_future(m).spec_dead_start())
                &&& (mut_ref_future(w).wf() ==> final(world).wf())
                &&& (mut_ref_future(w).spec_live(mut_ref_future(m).spec_dead_start())
                    ==> forall|e: Entity|
                        e.index == mut_ref_future(m).spec_dead_start().index
                            ==> !final(world).spec_live(e))
            },
{
    let mut mapper = EntityMapper::new(entity_map, world);
    let wref = &mut *world;
    let mref = &mut mapper;
    let result = f(wref, mref);
    let map = mapper.finish(world);
    let res_val = (result, map);
    proof {
        assert(res_val.0 == result);
        assert(exists|w: &mut WorldView, m: &mut EntityMapper|
            #[trigger] call_ensures(f, (w, m), res_val.0));
    }
    res_val
}

} // verus!
