use query_plan::access::FilteredAccess;
use query_plan::component::{ComponentInfo, ComponentKind, RelationshipAccessor, StorageType};
use query_plan::dynamic::{DynamicFetch, DynamicMatch, DynamicState};
use query_plan::plan::{QueryPlanBuilder, QueryPlanError, TypedQueryPlanBuilder};
use query_plan::world::{ComponentData, WorldView};

fn plain_info() -> ComponentInfo {
    ComponentInfo { storage: StorageType::Table, accessor: None, change_detection_enabled: true }
}

fn sparse_info() -> ComponentInfo {
    ComponentInfo {
        storage: StorageType::SparseSet,
        accessor: None,
        change_detection_enabled: true,
    }
}

fn relationship_info() -> ComponentInfo {
    ComponentInfo {
        storage: StorageType::Table,
        accessor: Some(RelationshipAccessor::Relationship {
            entity_field_offset: 0,
            linked_spawn: true,
        }),
        change_detection_enabled: true,
    }
}

fn target_info() -> ComponentInfo {
    ComponentInfo {
        storage: StorageType::Table,
        accessor: Some(RelationshipAccessor::RelationshipTarget { linked_spawn: false }),
        change_detection_enabled: true,
    }
}

fn plain_kind(key: u64) -> ComponentKind {
    ComponentKind { key, info: plain_info() }
}

fn relationship_kind(key: u64) -> ComponentKind {
    ComponentKind { key, info: relationship_info() }
}

fn entity_payload(e: query_plan::entity::Entity) -> ComponentData {
    ComponentData::Bytes(e.to_bits().to_le_bytes().to_vec())
}

fn u32_payload(v: u32) -> ComponentData {
    ComponentData::Bytes(v.to_le_bytes().to_vec())
}

#[test]
fn test_dynamic_state_creation() {
    let mut world = WorldView::new();
    let marker_id = world.register_component(1, plain_info());

    let mut builder = QueryPlanBuilder::new();
    let mut access = FilteredAccess::matches_everything();
    access.add_component_read(marker_id);
    let term = builder.add_term(access);
    let plan = builder.build(term).unwrap();

    let state = DynamicState::from_plan(plan);
    assert_eq!(state.plan.terms.len(), 1);
}

#[test]
fn test_query_plan_builder() {
    let mut world = WorldView::new();
    let marker_id = world.register_component(1, plain_info());

    let mut builder = QueryPlanBuilder::new();
    let mut access = FilteredAccess::matches_everything();
    access.add_component_read(marker_id);
    let term = builder.add_term(access);
    let plan = builder.build(term).unwrap();

    assert_eq!(plan.terms.len(), 1);
    assert_eq!(plan.relationships.len(), 0);
    assert_eq!(plan.main_term_index, 0);
}

#[test]
fn test_query_plan_basic() {
    let mut world = WorldView::new();
    let marker_id = world.register_component(1, plain_info());
    let child_of_id = world.register_component(2, relationship_info());

    let parent = world.spawn_empty();
    let child = world.spawn(vec![
        (marker_id, u32_payload(0)),
        (child_of_id, entity_payload(parent)),
    ]);

    let mut builder = QueryPlanBuilder::new();
    let mut access0 = FilteredAccess::matches_everything();
    access0.add_component_read(marker_id);
    let term0 = builder.add_term(access0);
    let access1 = FilteredAccess::matches_everything();
    let term1 = builder.add_term(access1);
    let accessor = RelationshipAccessor::Relationship { entity_field_offset: 0, linked_spawn: true };
    builder.add_relationship(term0, term1, child_of_id, accessor).unwrap();
    let plan = builder.build(term0).unwrap();

    let results = plan.execute(child, &world);

    assert_eq!(results.len(), 1);
    assert_eq!(results[0][0], child);
    assert_eq!(results[0][1], parent);
}

#[test]
fn test_dynamic_match() {
    let mut world = WorldView::new();
    let marker_id = world.register_component(1, plain_info());
    let child_of_id = world.register_component(2, relationship_info());

    let parent = world.spawn_empty();
    let child = world.spawn(vec![
        (marker_id, u32_payload(0)),
        (child_of_id, entity_payload(parent)),
    ]);

    let mut builder = QueryPlanBuilder::new();
    let mut access0 = FilteredAccess::matches_everything();
    access0.add_component_read(marker_id);
    let term0 = builder.add_term(access0);
    let term1 = builder.add_term(FilteredAccess::matches_everything());
    builder
        .add_relationship(
            term0,
            term1,
            child_of_id,
            RelationshipAccessor::Relationship { entity_field_offset: 0, linked_spawn: true },
        )
        .unwrap();
    let plan = builder.build(term0).unwrap();

    let results = plan.execute(child, &world);

    assert_eq!(results.len(), 1);
    assert_eq!(results[0].len(), 2);
    assert_eq!(results[0][0], child);
    assert_eq!(results[0][1], parent);
}

#[test]
fn test_dynamic_match_component_access() {
    let mut world = WorldView::new();
    let health_id = world.register_component(1, plain_info());
    let child_of_id = world.register_component(2, relationship_info());

    let parent = world.spawn(vec![(health_id, u32_payload(100))]);
    let child = world.spawn(vec![
        (health_id, u32_payload(50)),
        (child_of_id, entity_payload(parent)),
    ]);

    let mut builder = QueryPlanBuilder::new();
    let mut access0 = FilteredAccess::matches_everything();
    access0.add_component_read(health_id);
    let term0 = builder.add_term(access0);
    let mut access1 = FilteredAccess::matches_everything();
    access1.add_component_read(health_id);
    let term1 = builder.add_term(access1);
    builder
        .add_relationship(
            term0,
            term1,
            child_of_id,
            RelationshipAccessor::Relationship { entity_field_offset: 0, linked_spawn: true },
        )
        .unwrap();
    let plan = builder.build(term0).unwrap();

    let results = plan.execute(child, &world);
    assert_eq!(results.len(), 1);

    let state = DynamicState::from_plan(plan);
    let dynamic_match = DynamicMatch { entities: results[0].clone(), world: &world, state: &state };

    let child_health = dynamic_match.get(0, health_id);
    assert_eq!(child_health, Some(&u32_payload(50)));

    let parent_health = dynamic_match.get(1, health_id);
    assert_eq!(parent_health, Some(&u32_payload(100)));
}

#[test]
fn test_typed_builder_with_dynamic() {
    let mut world = WorldView::new();
    let health = plain_kind(1);
    let child_of = relationship_kind(2);

    let mut builder = TypedQueryPlanBuilder::new();
    let child_term = builder.with(&mut world, &health);
    let parent_term = builder.with(&mut world, &health);
    builder.related_to(&mut world, &child_of, child_term, parent_term).unwrap();
    let plan = builder.build(child_term).unwrap();

    let health_id = world.register_component(1, plain_info());
    let child_of_id = world.register_component(2, relationship_info());
    let parent = world.spawn(vec![(health_id, u32_payload(100))]);
    let child = world.spawn(vec![
        (health_id, u32_payload(50)),
        (child_of_id, entity_payload(parent)),
    ]);

    let results = plan.execute(child, &world);

    assert_eq!(results.len(), 1);
    assert_eq!(results[0][0], child);
    assert_eq!(results[0][1], parent);
}

#[test]
fn test_typed_query_plan_builder() {
    let mut world = WorldView::new();
    let marker = plain_kind(1);
    let child_of = relationship_kind(2);

    let mut builder = TypedQueryPlanBuilder::new();
    let child_term = builder.with(&mut world, &marker);
    let parent_term = builder.term();
    builder.related_to(&mut world, &child_of, child_term, parent_term).unwrap();

    let plan = builder.build(child_term).unwrap();

    assert_eq!(plan.terms.len(), 2);
    assert_eq!(plan.relationships.len(), 1);
    assert_eq!(plan.main_term_index, 0);

    let marker_id = world.register_component(1, plain_info());
    let child_of_id = world.register_component(2, relationship_info());
    let parent = world.spawn_empty();
    let child = world.spawn(vec![
        (marker_id, u32_payload(0)),
        (child_of_id, entity_payload(parent)),
    ]);

    let results = plan.execute(child, &world);

    assert_eq!(results.len(), 1);
    assert_eq!(results[0][0], child);
    assert_eq!(results[0][1], parent);
}

#[test]
fn test_typed_builder_multiple_components() {
    let mut world = WorldView::new();
    let marker = plain_kind(1);
    let name = plain_kind(2);
    let position = plain_kind(3);

    let mut builder = TypedQueryPlanBuilder::new();
    let term0 = builder.with(&mut world, &marker);
    builder.add_read(&mut world, &name, term0);
    builder.add_read(&mut world, &position, term0);

    let plan = builder.build(term0).unwrap();

    assert_eq!(plan.terms.len(), 1);

    let marker_id = world.register_component(1, plain_info());
    let name_id = world.register_component(2, plain_info());
    let position_id = world.register_component(3, plain_info());
    let access = &plan.terms[0].access;
    assert!(access.access().has_component_read(marker_id));
    assert!(access.access().has_component_read(name_id));
    assert!(access.access().has_component_read(position_id));
}

#[test]
fn single_term_with_without() {
    let mut world = WorldView::new();
    let a = world.register_component(1, plain_info());
    let b = world.register_component(2, plain_info());
    let c = world.register_component(3, plain_info());

    let e1 = world.spawn(vec![(a, u32_payload(0)), (b, u32_payload(0))]);
    let e2 = world.spawn(vec![(a, u32_payload(0)), (c, u32_payload(0))]);

    let mut builder = QueryPlanBuilder::new();
    let mut access = FilteredAccess::matches_everything();
    access.add_component_read(a);
    access.and_without(c);
    let term = builder.add_term(access);
    let plan = builder.build(term).unwrap();

    let results1 = plan.execute(e1, &world);
    assert_eq!(results1, vec![vec![e1]]);

    let results2 = plan.execute(e2, &world);
    assert!(results2.is_empty());
}

#[test]
fn parent_child_health() {
    let mut world = WorldView::new();
    let health_id = world.register_component(1, plain_info());
    let child_of_id = world.register_component(2, relationship_info());

    let parent = world.spawn(vec![(health_id, u32_payload(100))]);
    let child = world.spawn(vec![
        (health_id, u32_payload(50)),
        (child_of_id, entity_payload(parent)),
    ]);

    let mut builder = QueryPlanBuilder::new();
    let mut access0 = FilteredAccess::matches_everything();
    access0.add_component_read(health_id);
    let term0 = builder.add_term(access0);
    let mut access1 = FilteredAccess::matches_everything();
    access1.add_component_read(health_id);
    let term1 = builder.add_term(access1);
    builder
        .add_relationship(
            term0,
            term1,
            child_of_id,
            RelationshipAccessor::Relationship { entity_field_offset: 0, linked_spawn: true },
        )
        .unwrap();
    let plan = builder.build(term0).unwrap();

    let results = plan.execute(child, &world);
    assert_eq!(results, vec![vec![child, parent]]);

    let state = DynamicState::from_plan(plan);
    let matched = DynamicMatch { entities: results[0].clone(), world: &world, state: &state };
    let view = matched.entity_ref(1);
    assert_eq!(view.get(health_id), Some(&u32_payload(100)));
}

#[test]
fn multi_hop_must_agree() {
    let mut world = WorldView::new();
    let spaceship_id = world.register_component(1, plain_info());
    let faction_id = world.register_component(2, plain_info());
    let planet_id = world.register_component(3, plain_info());
    let belongs_id = world.register_component(4, relationship_info());
    let docked_id = world.register_component(5, relationship_info());
    let ruled_id = world.register_component(6, relationship_info());
    let allied_id = world.register_component(7, relationship_info());

    let fb = world.spawn(vec![(faction_id, u32_payload(2))]);
    let fa = world.spawn(vec![
        (faction_id, u32_payload(1)),
        (allied_id, entity_payload(fb)),
    ]);
    let p = world.spawn(vec![
        (planet_id, u32_payload(0)),
        (ruled_id, entity_payload(fb)),
    ]);
    let s = world.spawn(vec![
        (spaceship_id, u32_payload(0)),
        (belongs_id, entity_payload(fa)),
        (docked_id, entity_payload(p)),
    ]);

    let mut builder = QueryPlanBuilder::new();
    let mut ship_access = FilteredAccess::matches_everything();
    ship_access.add_component_read(spaceship_id);
    let ship_term = builder.add_term(ship_access);
    let mut sf_access = FilteredAccess::matches_everything();
    sf_access.add_component_read(faction_id);
    let ship_faction_term = builder.add_term(sf_access);
    let mut planet_access = FilteredAccess::matches_everything();
    planet_access.add_component_read(planet_id);
    let planet_term = builder.add_term(planet_access);
    let mut pf_access = FilteredAccess::matches_everything();
    pf_access.add_component_read(faction_id);
    let planet_faction_term = builder.add_term(pf_access);

    let rel = |_id| RelationshipAccessor::Relationship { entity_field_offset: 0, linked_spawn: true };
    builder.add_relationship(ship_term, ship_faction_term, belongs_id, rel(belongs_id)).unwrap();
    builder.add_relationship(ship_term, planet_term, docked_id, rel(docked_id)).unwrap();
    builder.add_relationship(planet_term, planet_faction_term, ruled_id, rel(ruled_id)).unwrap();
    builder
        .add_relationship(ship_faction_term, planet_faction_term, allied_id, rel(allied_id))
        .unwrap();

    let plan = builder.build(ship_term).unwrap();
    let results = plan.execute(s, &world);

    assert_eq!(results, vec![vec![s, fa, p, fb]]);
}

#[test]
fn filter_disjunction() {
    let mut world = WorldView::new();
    let a = world.register_component(1, plain_info());
    let b = world.register_component(2, plain_info());
    let c = world.register_component(3, plain_info());

    let e1 = world.spawn(vec![(a, u32_payload(0)), (b, u32_payload(0))]);
    let e2 = world.spawn(vec![(b, u32_payload(0))]);
    let e3 = world.spawn(vec![(c, u32_payload(0))]);

    let mut with_a = FilteredAccess::matches_everything();
    with_a.and_with(a);
    let mut with_b = FilteredAccess::matches_everything();
    with_b.and_with(b);
    let mut access = FilteredAccess::matches_nothing();
    access.append_or(&with_a);
    access.append_or(&with_b);

    let mut builder = QueryPlanBuilder::new();
    let term = builder.add_term(access);
    let plan = builder.build(term).unwrap();

    assert_eq!(plan.execute(e1, &world).len(), 1);
    assert_eq!(plan.execute(e2, &world).len(), 1);
    assert_eq!(plan.execute(e3, &world).len(), 0);
}

#[test]
fn or_without() {
    let mut world = WorldView::new();
    let a = world.register_component(1, plain_info());
    let b = world.register_component(2, plain_info());

    let e1 = world.spawn(vec![(a, u32_payload(0)), (b, u32_payload(0))]);
    let e2 = world.spawn(vec![(a, u32_payload(0))]);

    let mut with_a = FilteredAccess::matches_everything();
    with_a.and_with(a);
    let mut without_b = FilteredAccess::matches_everything();
    without_b.and_without(b);
    let mut access = FilteredAccess::matches_nothing();
    access.append_or(&with_a);
    access.append_or(&without_b);

    let mut builder = QueryPlanBuilder::new();
    let term = builder.add_term(access);
    let plan = builder.build(term).unwrap();

    assert_eq!(plan.execute(e1, &world).len(), 1);
    assert_eq!(plan.execute(e2, &world).len(), 1);
}

#[test]
fn dense_sparse_mix() {
    let mut world = WorldView::new();
    let dense_id = world.register_component(1, plain_info());
    let sparse_id = world.register_component(2, sparse_info());

    let x = world.spawn(vec![(dense_id, u32_payload(0))]);
    let y = world.spawn(vec![(dense_id, u32_payload(0)), (sparse_id, u32_payload(0))]);

    let mut access = FilteredAccess::matches_everything();
    access.add_component_read(dense_id);
    access.and_with(sparse_id);
    assert!(!access.is_dense(world.components()));

    let mut builder = QueryPlanBuilder::new();
    let term = builder.add_term(access);
    let plan = builder.build(term).unwrap();

    assert!(plan.execute(x, &world).is_empty());
    assert_eq!(plan.execute(y, &world), vec![vec![y]]);
}

#[test]
fn execute_is_deterministic() {
    let mut world = WorldView::new();
    let health_id = world.register_component(1, plain_info());
    let child_of_id = world.register_component(2, relationship_info());

    let parent = world.spawn(vec![(health_id, u32_payload(1))]);
    let child = world.spawn(vec![
        (health_id, u32_payload(2)),
        (child_of_id, entity_payload(parent)),
    ]);

    let mut builder = QueryPlanBuilder::new();
    let mut access0 = FilteredAccess::matches_everything();
    access0.add_component_read(health_id);
    let term0 = builder.add_term(access0);
    let term1 = builder.add_term(FilteredAccess::matches_everything());
    builder
        .add_relationship(
            term0,
            term1,
            child_of_id,
            RelationshipAccessor::Relationship { entity_field_offset: 0, linked_spawn: true },
        )
        .unwrap();
    let plan = builder.build(term0).unwrap();

    let first = plan.execute(child, &world);
    let second = plan.execute(child, &world);
    assert_eq!(first, second);
}

#[test]
fn stale_entity_yields_nothing() {
    let mut world = WorldView::new();
    let a = world.register_component(1, plain_info());
    let e = world.spawn(vec![(a, u32_payload(0))]);

    let mut builder = QueryPlanBuilder::new();
    let mut access = FilteredAccess::matches_everything();
    access.add_component_read(a);
    let term = builder.add_term(access);
    let plan = builder.build(term).unwrap();

    assert_eq!(plan.execute(e, &world).len(), 1);

    assert!(world.free(e));
    assert!(plan.execute(e, &world).is_empty());
}

#[test]
fn unknown_term_is_reported() {
    let mut builder = QueryPlanBuilder::new();
    let term = builder.add_term(FilteredAccess::matches_everything());
    let err = builder
        .add_relationship(
            term,
            7,
            query_plan::component::ComponentId(0),
            RelationshipAccessor::Relationship { entity_field_offset: 0, linked_spawn: true },
        )
        .unwrap_err();
    assert_eq!(err, QueryPlanError::UnknownTerm(7));

    let err = builder.build(5).unwrap_err();
    assert_eq!(err, QueryPlanError::UnknownTerm(5));
}

#[test]
fn not_a_relationship_is_reported() {
    let mut world = WorldView::new();
    let plain = plain_kind(1);

    let mut builder = TypedQueryPlanBuilder::new();
    let t0 = builder.with(&mut world, &plain);
    let t1 = builder.term();
    let err = builder.related_to(&mut world, &plain, t0, t1).unwrap_err();
    let id = world.register_component(1, plain_info());
    assert_eq!(err, QueryPlanError::NotARelationship(id));
}

#[test]
fn fetch_wraps_matches() {
    let mut world = WorldView::new();
    let a = world.register_component(1, plain_info());
    let e = world.spawn(vec![(a, u32_payload(9))]);

    let mut builder = QueryPlanBuilder::new();
    let mut access = FilteredAccess::matches_everything();
    access.add_component_read(a);
    let term = builder.add_term(access);
    let plan = builder.build(term).unwrap();
    let state = DynamicState::from_plan(plan);

    let mut fetch = DynamicFetch::init(&world);
    let item = fetch.fetch(&state, e);

    assert_eq!(item.len(), 1);
    assert!(!item.is_empty());
    let m = &item.iter()[0];
    assert_eq!(m.len(), 1);
    assert_eq!(m.entity(0), e);
    assert_eq!(m.entities().as_slice(), &[e]);
    assert_eq!(m.get(0, a), Some(&u32_payload(9)));
}

#[test]
fn relationship_target_iterates_all_candidates() {
    let mut world = WorldView::new();
    let marker_id = world.register_component(1, plain_info());
    let children_id = world.register_component(2, target_info());

    let c1 = world.spawn(vec![(marker_id, u32_payload(1))]);
    let c2 = world.spawn(vec![(marker_id, u32_payload(2))]);
    let parent = world.spawn(vec![
        (marker_id, u32_payload(0)),
        (children_id, ComponentData::Entities(vec![c1, c2])),
    ]);

    let mut builder = QueryPlanBuilder::new();
    let mut access0 = FilteredAccess::matches_everything();
    access0.add_component_read(marker_id);
    let term0 = builder.add_term(access0);
    let mut access1 = FilteredAccess::matches_everything();
    access1.add_component_read(marker_id);
    let term1 = builder.add_term(access1);
    builder
        .add_relationship(
            term0,
            term1,
            children_id,
            RelationshipAccessor::RelationshipTarget { linked_spawn: false },
        )
        .unwrap();
    let plan = builder.build(term0).unwrap();

    let results = plan.execute(parent, &world);
    assert_eq!(results, vec![vec![parent, c1], vec![parent, c2]]);
}

#[test]
fn cyclic_edges_respect_bindings() {
    let mut world = WorldView::new();
    let rel_id = world.register_component(1, relationship_info());

    let e2_predicted = query_plan::entity::Entity::from_raw(1);
    let e1 = world.spawn(vec![(rel_id, entity_payload(e2_predicted))]);
    let e2 = world.spawn(vec![(rel_id, entity_payload(e1))]);
    assert_eq!(e2, e2_predicted);
    let e3 = world.spawn(vec![(rel_id, entity_payload(e2))]);

    let mut builder = QueryPlanBuilder::new();
    let term0 = builder.add_term(FilteredAccess::matches_everything());
    let term1 = builder.add_term(FilteredAccess::matches_everything());
    let accessor = RelationshipAccessor::Relationship { entity_field_offset: 0, linked_spawn: true };
    builder.add_relationship(term0, term1, rel_id, accessor).unwrap();
    builder.add_relationship(term1, term0, rel_id, accessor).unwrap();
    let plan = builder.build(term0).unwrap();

    let results = plan.execute(e1, &world);
    assert_eq!(results, vec![vec![e1, e2]]);

    let disagreeing = plan.execute(e3, &world);
    assert!(disagreeing.is_empty());
}

#[test]
fn unbound_terms_emit_nothing() {
    let mut world = WorldView::new();
    let a = world.register_component(1, plain_info());
    let e = world.spawn(vec![(a, u32_payload(0))]);

    let mut builder = QueryPlanBuilder::new();
    let mut access = FilteredAccess::matches_everything();
    access.add_component_read(a);
    let term0 = builder.add_term(access);
    builder.add_term(FilteredAccess::matches_everything());
    let plan = builder.build(term0).unwrap();

    assert!(plan.execute(e, &world).is_empty());
}

#[test]
fn missing_relationship_component_prunes() {
    let mut world = WorldView::new();
    let a = world.register_component(1, plain_info());
    let rel_id = world.register_component(2, relationship_info());

    let e = world.spawn(vec![(a, u32_payload(0))]);

    let mut builder = QueryPlanBuilder::new();
    let mut access = FilteredAccess::matches_everything();
    access.add_component_read(a);
    let term0 = builder.add_term(access);
    let term1 = builder.add_term(FilteredAccess::matches_everything());
    builder
        .add_relationship(
            term0,
            term1,
            rel_id,
            RelationshipAccessor::Relationship { entity_field_offset: 0, linked_spawn: true },
        )
        .unwrap();
    let plan = builder.build(term0).unwrap();

    assert!(plan.execute(e, &world).is_empty());
}
