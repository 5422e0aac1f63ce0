use query_plan::access::{Access, ComponentAccessKind, FilteredAccess};
use query_plan::component::{ComponentId, ComponentInfo, ComponentRegistry, StorageType};
use query_plan::idset::IdSet;
use query_plan::plan::QueryPlanBuilder;

fn ids(list: &[usize]) -> IdSet {
    let mut out = IdSet::new();
    for v in list {
        out.insert(ComponentId(*v));
    }
    out
}

fn with_of(id: usize) -> FilteredAccess {
    let mut f = FilteredAccess::matches_everything();
    f.and_with(ComponentId(id));
    f
}

fn without_of(id: usize) -> FilteredAccess {
    let mut f = FilteredAccess::matches_everything();
    f.and_without(ComponentId(id));
    f
}

#[test]
fn everything_and_nothing() {
    let everything = FilteredAccess::matches_everything();
    let nothing = FilteredAccess::matches_nothing();

    assert!(everything.matches_ids(&ids(&[])));
    assert!(everything.matches_ids(&ids(&[1, 2])));
    assert!(!nothing.matches_ids(&ids(&[])));
    assert!(!nothing.matches_ids(&ids(&[1, 2])));
}

#[test]
fn extend_requires_both() {
    let mut combined = with_of(1);
    combined.extend(&with_of(2));

    assert!(combined.matches_ids(&ids(&[1, 2])));
    assert!(!combined.matches_ids(&ids(&[1])));
    assert!(!combined.matches_ids(&ids(&[2])));
}

#[test]
fn append_or_takes_either_branch() {
    let mut access = FilteredAccess::matches_nothing();
    access.append_or(&with_of(1));
    access.append_or(&with_of(2));

    assert!(access.matches_ids(&ids(&[1])));
    assert!(access.matches_ids(&ids(&[2])));
    assert!(!access.matches_ids(&ids(&[3])));
}

#[test]
fn extend_distributes_over_branches() {
    let mut branches = FilteredAccess::matches_nothing();
    branches.append_or(&with_of(1));
    branches.append_or(&with_of(2));

    let mut combined = with_of(3);
    combined.extend(&branches);

    assert!(combined.matches_ids(&ids(&[1, 3])));
    assert!(combined.matches_ids(&ids(&[2, 3])));
    assert!(!combined.matches_ids(&ids(&[1, 2])));
    assert!(!combined.matches_ids(&ids(&[3])));
}

#[test]
fn extend_behaves_associatively() {
    let candidates = [
        ids(&[1]),
        ids(&[1, 2]),
        ids(&[1, 2, 3]),
        ids(&[2, 3]),
        ids(&[]),
    ];

    let mut left = with_of(1);
    left.extend(&with_of(2));
    left.extend(&without_of(4));

    let mut right_tail = with_of(2);
    right_tail.extend(&without_of(4));
    let mut right = with_of(1);
    right.extend(&right_tail);

    for set in &candidates {
        assert_eq!(left.matches_ids(set), right.matches_ids(set));
    }
}

#[test]
fn extend_identity_changes_nothing() {
    let candidates = [ids(&[1]), ids(&[1, 2]), ids(&[2]), ids(&[])];

    let plain = with_of(1);
    let mut left = FilteredAccess::matches_everything();
    left.extend(&with_of(1));
    let mut right = with_of(1);
    right.extend(&FilteredAccess::matches_everything());

    for set in &candidates {
        assert_eq!(left.matches_ids(set), plain.matches_ids(set));
        assert_eq!(right.matches_ids(set), plain.matches_ids(set));
    }
}

#[test]
fn try_iter_enumerates_kinds() {
    let mut access = Access::new();
    access.add_component_write(ComponentId(1));
    access.add_component_read(ComponentId(2));
    access.add_archetypal(ComponentId(3));

    let items = access.try_iter_component_access().unwrap();
    assert_eq!(items.len(), 3);
    assert!(items.contains(&ComponentAccessKind::Exclusive(ComponentId(1))));
    assert!(items.contains(&ComponentAccessKind::Shared(ComponentId(2))));
    assert!(items.contains(&ComponentAccessKind::Archetypal(ComponentId(3))));
}

#[test]
fn read_all_is_unbounded() {
    let mut access = Access::new();
    access.set_read_all();
    assert!(access.has_read_all_components());
    assert!(access.try_iter_component_access().is_err());

    let mut filtered = FilteredAccess::matches_everything();
    filtered.access.set_read_all();
    assert!(filtered.matches_ids(&ids(&[])));
}

#[test]
fn conflicting_accesses_are_detected() {
    let mut writer = Access::new();
    writer.add_component_write(ComponentId(1));
    let mut reader = Access::new();
    reader.add_component_read(ComponentId(1));
    let mut other = Access::new();
    other.add_component_read(ComponentId(2));

    assert!(writer.conflicts_with(&reader));
    assert!(reader.conflicts_with(&writer));
    assert!(!reader.conflicts_with(&other));
    assert!(!writer.conflicts_with(&other));

    let mut write_all = Access::new();
    write_all.set_write_all();
    assert!(write_all.conflicts_with(&other));
}

#[test]
fn density_follows_registry() {
    let mut registry = ComponentRegistry::new();
    let dense = registry.register(
        1,
        ComponentInfo { storage: StorageType::Table, accessor: None, change_detection_enabled: true },
    );
    let sparse = registry.register(
        2,
        ComponentInfo {
            storage: StorageType::SparseSet,
            accessor: None,
            change_detection_enabled: true,
        },
    );

    let mut dense_access = FilteredAccess::matches_everything();
    dense_access.add_component_read(dense);
    assert!(dense_access.is_dense(&registry));

    let mut sparse_access = FilteredAccess::matches_everything();
    sparse_access.add_component_read(dense);
    sparse_access.and_with(sparse);
    assert!(!sparse_access.is_dense(&registry));

    let mut unknown_access = FilteredAccess::matches_everything();
    unknown_access.add_component_read(ComponentId(9));
    assert!(!unknown_access.is_dense(&registry));
}

#[test]
fn combined_access_covers_all_terms() {
    let mut builder = QueryPlanBuilder::new();
    let mut access0 = FilteredAccess::matches_everything();
    access0.add_component_read(ComponentId(1));
    let term0 = builder.add_term(access0);
    let mut access1 = FilteredAccess::matches_everything();
    access1.add_component_write(ComponentId(2));
    builder.add_term(access1);
    let plan = builder.build(term0).unwrap();

    let combined = plan.combined_access();
    assert!(combined.access().has_component_read(ComponentId(1)));
    assert!(combined.access().has_component_read(ComponentId(2)));
    assert!(combined.access().has_component_write(ComponentId(2)));
    assert!(!combined.access().has_component_read(ComponentId(3)));
}

#[test]
fn main_term_access_is_exposed() {
    let mut builder = QueryPlanBuilder::new();
    let mut access = FilteredAccess::matches_everything();
    access.add_component_read(ComponentId(4));
    let term = builder.add_term(access);
    let plan = builder.build(term).unwrap();

    assert!(plan.main_term_access().access().has_component_read(ComponentId(4)));
    assert!(!plan.main_term_access().access().has_component_read(ComponentId(5)));
}
