use query_plan::entity::Entity;
use query_plan::map_entities::{
    world_scope, EntityMap, EntityMapper, MapEntities, Mapper, SimpleEntityMapper,
};
use query_plan::world::WorldView;

#[test]
fn simple_entity_mapper() {
    const FIRST_IDX: u32 = 1;
    const SECOND_IDX: u32 = 2;

    const MISSING_IDX: u32 = 10;

    let mut map = EntityMap::new();
    map.insert(Entity::from_raw(FIRST_IDX), Entity::from_raw(SECOND_IDX));
    let mut mapper = SimpleEntityMapper::new(&map);

    assert_eq!(
        mapper.map(Entity::from_raw(FIRST_IDX)),
        Entity::from_raw(SECOND_IDX)
    );

    assert_eq!(
        mapper.map(Entity::from_raw(MISSING_IDX)),
        Entity::from_raw(MISSING_IDX)
    );
}

#[test]
fn entity_mapper() {
    const FIRST_IDX: u32 = 1;
    const SECOND_IDX: u32 = 2;

    let map = EntityMap::new();
    let mut world = WorldView::new();
    let mut mapper = EntityMapper::new(map, &mut world);

    let mapped_ent = Entity::from_raw(FIRST_IDX);
    let dead_ref = mapper.get_or_reserve(mapped_ent);

    assert_eq!(
        dead_ref,
        mapper.get_or_reserve(mapped_ent),
        "should persist the allocated mapping from the previous line"
    );
    assert_eq!(
        mapper.get_or_reserve(Entity::from_raw(SECOND_IDX)).index(),
        dead_ref.index(),
        "should re-use the same index for further dead refs"
    );

    mapper.finish(&mut world);
    let entity = world.spawn_empty();
    assert_eq!(entity.index(), dead_ref.index());
    assert!(entity.generation() > dead_ref.generation());
}

#[test]
fn world_scope_reserves_generations() {
    let map = EntityMap::new();
    let mut world = WorldView::new();

    let (dead_ref, _map) = world_scope(map, &mut world, |_, mapper| {
        mapper.get_or_reserve(Entity::from_raw(0))
    });

    let entity = world.spawn_empty();
    assert_eq!(entity.index(), dead_ref.index());
    assert!(entity.generation() > dead_ref.generation());
}

#[test]
fn map_entities_rewrites_entity_fields() {
    let mut map = EntityMap::new();
    map.insert(Entity::from_raw(3), Entity::from_raw(7));
    let mut mapper = SimpleEntityMapper::new(&map);

    let mut value = Entity::from_raw(3);
    value.map_entities(&mut mapper);
    assert_eq!(value, Entity::from_raw(7));

    let mut untouched = Entity::from_raw(4);
    untouched.map_entities(&mut mapper);
    assert_eq!(untouched, Entity::from_raw(4));
}

#[test]
fn entity_map_replaces_existing_keys() {
    let mut map = EntityMap::new();
    map.insert(Entity::from_raw(1), Entity::from_raw(2));
    map.insert(Entity::from_raw(1), Entity::from_raw(3));
    assert_eq!(map.get(Entity::from_raw(1)), Some(Entity::from_raw(3)));
    assert_eq!(map.len(), 1);
    assert_eq!(map.get(Entity::from_raw(2)), None);
}

#[test]
fn entity_bits_round_trip() {
    let e = Entity::from_raw_and_generation(17, 5);
    assert_eq!(Entity::from_bits(e.to_bits()), e);
    assert_eq!(e.index(), 17);
    assert_eq!(e.generation(), 5);

    let top = Entity::from_raw_and_generation(u32::MAX, u32::MAX);
    assert_eq!(Entity::from_bits(top.to_bits()), top);
}

#[test]
fn freed_index_reuses_with_greater_generation() {
    let mut world = WorldView::new();
    let e = world.spawn_empty();
    assert!(world.is_live(e));
    assert!(world.free(e));
    assert!(!world.is_live(e));

    let reused = world.spawn_empty();
    assert_eq!(reused.index(), e.index());
    assert!(reused.generation() > e.generation());
    assert!(!world.is_live(e));
    assert!(world.is_live(reused));
}
