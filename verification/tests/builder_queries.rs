use query_plan::builder::QueryBuilder;
use query_plan::component::{ComponentId, ComponentInfo, ComponentRegistry, StorageType};
use query_plan::dynamic_plan::{Constraint, DynamicPlan, TermVar, VarId};
use query_plan::idset::IdSet;
use query_plan::world::WorldView;

fn info(storage: StorageType) -> ComponentInfo {
    ComponentInfo { storage, accessor: None, change_detection_enabled: true }
}

fn present(world: &WorldView, e: query_plan::entity::Entity) -> IdSet {
    world.component_ids_of(e)
}

fn payload() -> query_plan::world::ComponentData {
    query_plan::world::ComponentData::Bytes(vec![0])
}

#[test]
fn builder_with_without_dynamic() {
    let mut world = WorldView::new();
    let component_id_a = world.register_component(1, info(StorageType::Table));
    let component_id_b = world.register_component(2, info(StorageType::Table));
    let component_id_c = world.register_component(3, info(StorageType::Table));

    let entity_a = world.spawn(vec![(component_id_a, payload()), (component_id_b, payload())]);
    let entity_b = world.spawn(vec![(component_id_a, payload()), (component_id_c, payload())]);

    let mut query_a = QueryBuilder::new();
    query_a.with_id(component_id_a);
    query_a.without_id(component_id_c);
    assert!(query_a.access().matches_ids(&present(&world, entity_a)));
    assert!(!query_a.access().matches_ids(&present(&world, entity_b)));

    let mut query_b = QueryBuilder::new();
    query_b.with_id(component_id_a);
    query_b.without_id(component_id_b);
    assert!(query_b.access().matches_ids(&present(&world, entity_b)));
    assert!(!query_b.access().matches_ids(&present(&world, entity_a)));
}

#[test]
fn builder_or() {
    let mut world = WorldView::new();
    let a = world.register_component(1, info(StorageType::Table));
    let b = world.register_component(2, info(StorageType::Table));
    let c = world.register_component(3, info(StorageType::Table));

    let e1 = world.spawn(vec![(a, payload()), (b, payload())]);
    let e2 = world.spawn(vec![(b, payload())]);
    let e3 = world.spawn(vec![(c, payload())]);
    let all = [e1, e2, e3];

    let mut query_a = QueryBuilder::new();
    query_a.or(|builder| {
        builder.with_id(a);
        builder.with_id(b);
    });
    let matched = all.iter().filter(|e| query_a.access().matches_ids(&present(&world, **e))).count();
    assert_eq!(2, matched);

    let mut query_b = QueryBuilder::new();
    query_b.or(|builder| {
        builder.with_id(a);
        builder.without_id(b);
    });
    let matched = all.iter().filter(|e| query_b.access().matches_ids(&present(&world, **e))).count();
    assert_eq!(2, matched);

    let mut query_c = QueryBuilder::new();
    query_c.or(|builder| {
        builder.with_id(a);
        builder.with_id(b);
        builder.with_id(c);
    });
    let matched = all.iter().filter(|e| query_c.access().matches_ids(&present(&world, **e))).count();
    assert_eq!(3, matched);
}

#[test]
fn builder_static_dense_dynamic_sparse() {
    let mut world = WorldView::new();
    let dense = world.register_component(1, info(StorageType::Table));
    let sparse = world.register_component(2, info(StorageType::SparseSet));

    let x = world.spawn(vec![(dense, payload())]);
    let y = world.spawn(vec![(dense, payload()), (sparse, payload())]);

    let mut query = QueryBuilder::new();
    query.ref_id(dense);
    query.with_id(sparse);

    let all = [x, y];
    let matched = all.iter().filter(|e| query.access().matches_ids(&present(&world, **e))).count();
    assert_eq!(matched, 1);
    assert!(!query.is_dense(world.components()));
}

#[test]
fn builder_dynamic_components() {
    let mut world = WorldView::new();
    let component_id_a = world.register_component(1, info(StorageType::Table));
    let component_id_b = world.register_component(2, info(StorageType::Table));

    let entity = world.spawn(vec![
        (component_id_a, query_plan::world::ComponentData::Bytes(vec![0])),
        (component_id_b, query_plan::world::ComponentData::Bytes(vec![1])),
    ]);

    let mut query = QueryBuilder::new();
    query.ref_id(component_id_a);
    query.ref_id(component_id_b);

    assert!(query.access().matches_ids(&present(&world, entity)));

    let view = query_plan::dynamic::FilteredEntityRef {
        entity,
        world: &world,
        access: query.access().access(),
    };
    let a = view.get(component_id_a).unwrap();
    let b = view.get(component_id_b).unwrap();

    assert_eq!(a, &query_plan::world::ComponentData::Bytes(vec![0]));
    assert_eq!(b, &query_plan::world::ComponentData::Bytes(vec![1]));
}

#[test]
fn builder_reads_and_writes() {
    let mut registry = ComponentRegistry::new();
    let a = registry.register(1, info(StorageType::Table));
    let b = registry.register(2, info(StorageType::Table));

    let mut query = QueryBuilder::new();
    query.ref_id(a);
    query.mut_id(b);

    assert!(query.access().access().has_component_read(a));
    assert!(query.access().access().has_component_read(b));
    assert!(query.access().access().has_component_write(b));
    assert!(!query.access().access().has_component_write(a));
    assert!(query.is_dense(&registry));
}

#[test]
fn dynamic_plan_variables_and_constraints() {
    let mut plan = DynamicPlan::new();
    assert_eq!(plan.var_count(), 1);
    assert_eq!(plan.var_at(0), TermVar::This);

    let v1 = plan.var();
    let v2 = plan.var();
    assert_eq!(v1, VarId(1));
    assert_eq!(v2, VarId(2));
    assert_eq!(plan.var_count(), 3);
    assert_eq!(plan.var_at(1), TermVar::Var(v1));
    assert_eq!(plan.var_at(2), TermVar::Var(v2));
}

#[test]
fn builder_collects_var_constraints() {
    let a = ComponentId(1);
    let rel = ComponentId(2);

    let mut builder = QueryBuilder::new();
    let v = builder.var();
    builder.with_id_var(a, TermVar::This);
    builder.without_id_var(a, TermVar::Var(v));
    builder.relation_id(rel, TermVar::This, TermVar::Var(v));

    let plan = builder.build_dynamic();
    assert_eq!(plan.constraints.len(), 3);
    assert_eq!(
        plan.constraints[0],
        Constraint::With { var: TermVar::This, component: a, write: false }
    );
    assert_eq!(
        plan.constraints[1],
        Constraint::Without { var: TermVar::Var(v), component: a }
    );
    assert_eq!(
        plan.constraints[2],
        Constraint::Relation { rel, from: TermVar::This, to: TermVar::Var(v) }
    );
    assert!(plan.filtered_access.access().has_component_read(a));
}

#[test]
fn registry_reregistration_is_idempotent() {
    let mut registry = ComponentRegistry::new();
    let first = registry.register(9, info(StorageType::SparseSet));
    let second = registry.register(9, info(StorageType::Table));

    assert_eq!(first, second);
    let recorded = registry.get_info(first).unwrap();
    assert_eq!(recorded.storage, StorageType::SparseSet);
    assert_eq!(recorded.accessor, None);
    assert_eq!(registry.len(), 1);
}
