use query_plan::component::StorageType;
use query_plan::decl::{
    parse_component_attrs, parse_resource_attrs, storage_path, AttrItem, AttrValue, DeclError,
};

fn name_value(key: &str, value: AttrValue) -> AttrItem {
    AttrItem::NameValue { key: key.to_owned(), value }
}

#[test]
fn component_defaults_apply() {
    let attrs = parse_component_attrs(&vec![]).unwrap();
    assert_eq!(attrs.storage, StorageType::Table);
    assert!(attrs.change_detection_enabled);
}

#[test]
fn component_storage_is_parsed() {
    let attrs = parse_component_attrs(&vec![
        name_value("storage", AttrValue::Str("Sparse".to_owned())),
    ])
    .unwrap();
    assert_eq!(attrs.storage, StorageType::SparseSet);

    let attrs = parse_component_attrs(&vec![
        name_value("storage", AttrValue::Str("Dense".to_owned())),
    ])
    .unwrap();
    assert_eq!(attrs.storage, StorageType::Table);
}

#[test]
fn component_change_detection_is_parsed() {
    let attrs = parse_component_attrs(&vec![
        name_value("change_detection", AttrValue::Bool(false)),
    ])
    .unwrap();
    assert!(!attrs.change_detection_enabled);
    assert_eq!(attrs.storage, StorageType::Table);
}

#[test]
fn last_component_item_wins() {
    let attrs = parse_component_attrs(&vec![
        name_value("storage", AttrValue::Str("Sparse".to_owned())),
        name_value("storage", AttrValue::Str("Dense".to_owned())),
    ])
    .unwrap();
    assert_eq!(attrs.storage, StorageType::Table);
}

#[test]
fn invalid_storage_is_rejected() {
    let err = parse_component_attrs(&vec![
        name_value("storage", AttrValue::Str("Heap".to_owned())),
    ])
    .unwrap_err();
    assert_eq!(err, DeclError::InvalidStorage("Heap".to_owned()));
    assert!(!err.message().is_empty());
}

#[test]
fn non_string_storage_is_rejected() {
    let err = parse_component_attrs(&vec![
        name_value("storage", AttrValue::Bool(true)),
    ])
    .unwrap_err();
    assert_eq!(err, DeclError::ExpectedStringValue);
}

#[test]
fn non_boolean_change_detection_is_rejected() {
    let err = parse_component_attrs(&vec![
        name_value("change_detection", AttrValue::Str("yes".to_owned())),
    ])
    .unwrap_err();
    assert_eq!(err, DeclError::NonBooleanChangeDetection);
}

#[test]
fn unknown_component_key_is_rejected() {
    let err = parse_component_attrs(&vec![
        name_value("colour", AttrValue::Bool(true)),
    ])
    .unwrap_err();
    assert_eq!(err, DeclError::UnknownComponentAttr("colour".to_owned()));

    let err = parse_component_attrs(&vec![AttrItem::OtherMeta { key: "flag".to_owned() }])
        .unwrap_err();
    assert_eq!(err, DeclError::UnknownComponentAttr("flag".to_owned()));
}

#[test]
fn literal_component_item_is_rejected() {
    let err = parse_component_attrs(&vec![AttrItem::Literal]).unwrap_err();
    assert_eq!(err, DeclError::UnexpectedLiteral);
}

#[test]
fn resource_accepts_only_change_detection() {
    let attrs = parse_resource_attrs(&vec![]).unwrap();
    assert!(attrs.change_detection_enabled);

    let attrs = parse_resource_attrs(&vec![
        name_value("change_detection", AttrValue::Bool(false)),
    ])
    .unwrap();
    assert!(!attrs.change_detection_enabled);

    let err = parse_resource_attrs(&vec![
        name_value("storage", AttrValue::Str("Sparse".to_owned())),
    ])
    .unwrap_err();
    assert_eq!(err, DeclError::UnknownResourceAttr("storage".to_owned()));

    let err = parse_resource_attrs(&vec![AttrItem::Literal]).unwrap_err();
    assert_eq!(err, DeclError::UnexpectedLiteral);
}

#[test]
fn first_error_is_reported() {
    let err = parse_component_attrs(&vec![
        name_value("storage", AttrValue::Str("Bad".to_owned())),
        name_value("colour", AttrValue::Bool(true)),
    ])
    .unwrap_err();
    assert_eq!(err, DeclError::InvalidStorage("Bad".to_owned()));
}

#[test]
fn storage_paths_name_marker_types() {
    assert_eq!(storage_path(StorageType::Table), "TableStorage");
    assert_eq!(storage_path(StorageType::SparseSet), "SparseStorage");
}
