//! The declarative surface for component and resource kinds.
//!
//! A component declaration carries a storage class (`Dense` by default,
//! opted into `Sparse` via `storage = "Sparse"`) and a change-detection
//! flag (`change_detection = <bool>`, default true); a resource
//! declaration carries only the flag.  Declarations arrive as a list of
//! attribute items — key/value pairs, bare meta paths, or stray literals —
//! and parsing folds them left to right, reporting the first offending
//! item as a descriptive error.

use vstd::prelude::*;
use crate::component::StorageType;

verus! {

/// The value of one attribute item.
#[derive(Clone, PartialEq, Eq, Debug)]
pub enum AttrValue {
    /// A string literal value.
    Str(String),
    /// A boolean literal value.
    Bool(bool),
    /// Any other literal.
    Other,
}

/// One parsed attribute item of a declaration.
#[derive(Clone, PartialEq, Eq, Debug)]
pub enum AttrItem {
    /// A `key = value` pair.
    NameValue { key: String, value: AttrValue },
    /// A bare meta item naming `key`.
    OtherMeta { key: String },
    /// A stray literal.
    Literal,
}

/// Why a declaration was rejected.
#[derive(Clone, PartialEq, Eq, Debug)]
pub enum DeclError {
    /// The `storage` value names no storage class; the offending value is
    /// carried.
    InvalidStorage(String),
    /// The `storage` value was not a string literal.
    ExpectedStringValue,
    /// The `change_detection` value was not a boolean literal.
    NonBooleanChangeDetection,
    /// A component declaration used an unknown key, carried here.
    UnknownComponentAttr(String),
    /// A resource declaration used an unknown key, carried here.
    UnknownResourceAttr(String),
    /// A literal stood where an attribute item was expected.
    UnexpectedLiteral,
}

impl DeclError {
    /// A fixed description of the error kind.
    pub fn message(&self) -> (r: &'static str)
        ensures
            r@ == self.spec_message(),
    {
        match self {
            DeclError::InvalidStorage(_) => "invalid storage type, expected 'Dense' or 'Sparse'",
            DeclError::ExpectedStringValue => "expected a string literal value",
            DeclError::NonBooleanChangeDetection => "change detection must be a bool, expected 'true' or 'false'",
            DeclError::UnknownComponentAttr(_) => "unknown component attribute",
            DeclError::UnknownResourceAttr(_) => "unknown resource attribute",
            DeclError::UnexpectedLiteral => "unexpected literal in attribute",
        }
    }

    /// The description `message` returns.
    pub open spec fn spec_message(&self) -> Seq<char> {
        match self {
            DeclError::InvalidStorage(_) => "invalid storage type, expected 'Dense' or 'Sparse'"@,
            DeclError::ExpectedStringValue => "expected a string literal value"@,
            DeclError::NonBooleanChangeDetection => "change detection must be a bool, expected 'true' or 'false'"@,
            DeclError::UnknownComponentAttr(_) => "unknown component attribute"@,
            DeclError::UnknownResourceAttr(_) => "unknown resource attribute"@,
            DeclError::UnexpectedLiteral => "unexpected literal in attribute"@,
        }
    }
}

/// What a component declaration settles on.
#[derive(Clone, Copy, PartialEq, Eq, Structural, Debug)]
pub struct ComponentAttrs {
    /// Whether change detection is enabled; true unless declared off.
    pub change_detection_enabled: bool,
    /// The storage class; dense table storage unless declared sparse.
    pub storage: StorageType,
}

/// What a resource declaration settles on.
#[derive(Clone, Copy, PartialEq, Eq, Structural, Debug)]
pub struct ResourceAttrs {
    /// Whether change detection is enabled; true unless declared off.
    pub change_detection_enabled: bool,
}

/// The component attributes before any item is applied.
pub open spec fn spec_component_defaults() -> ComponentAttrs {
    ComponentAttrs { change_detection_enabled: true, storage: StorageType::Table }
}

/// The resource attributes before any item is applied.
pub open spec fn spec_resource_defaults() -> ResourceAttrs {
    ResourceAttrs { change_detection_enabled: true }
}

/// Applying one item to accumulated component attributes: the outcome,
/// or the error the item provokes.
pub open spec fn spec_component_step(acc: ComponentAttrs, item: AttrItem) -> Result<ComponentAttrs, DeclError> {
    match item {
        AttrItem::NameValue { key, value } => {
            if key@ == "storage"@ {
                match value {
                    AttrValue::Str(s) => {
                        if s@ == "Dense"@ {
                            Ok(ComponentAttrs { storage: StorageType::Table, ..acc })
                        } else if s@ == "Sparse"@ {
                            Ok(ComponentAttrs { storage: StorageType::SparseSet, ..acc })
                        } else {
                            Err(DeclError::InvalidStorage(s))
                        }
                    },
                    _ => Err(DeclError::ExpectedStringValue),
                }
            } else if key@ == "change_detection"@ {
                match value {
                    AttrValue::Bool(b) => Ok(ComponentAttrs { change_detection_enabled: b, ..acc }),
                    _ => Err(DeclError::NonBooleanChangeDetection),
                }
            } else {
                Err(DeclError::UnknownComponentAttr(key))
            }
        },
        AttrItem::OtherMeta { key } => Err(DeclError::UnknownComponentAttr(key)),
        AttrItem::Literal => Err(DeclError::UnexpectedLiteral),
    }
}

/// Folding component items from the left over accumulated attributes.
pub open spec fn spec_parse_component_from(items: Seq<AttrItem>, acc: ComponentAttrs) -> Result<ComponentAttrs, DeclError>
    decreases items.len(),
{
    if items.len() == 0 {
        Ok(acc)
    } else {
        match spec_component_step(acc, items[0]) {
            Ok(next) => spec_parse_component_from(items.drop_first(), next),
            Err(e) => Err(e),
        }
    }
}

/// What a whole component declaration parses to: the fold of its items
/// over the defaults, the last occurrence of a key winning, the first
/// offending item reported.
pub open spec fn spec_parse_component_attrs(items: Seq<AttrItem>) -> Result<ComponentAttrs, DeclError> {
    spec_parse_component_from(items, spec_component_defaults())
}

/// Applying one item to accumulated resource attributes.
pub open spec fn spec_resource_step(acc: ResourceAttrs, item: AttrItem) -> Result<ResourceAttrs, DeclError> {
    match item {
        AttrItem::NameValue { key, value } => {
            if key@ == "change_detection"@ {
                match value {
                    AttrValue::Bool(b) => Ok(ResourceAttrs { change_detection_enabled: b }),
                    _ => Err(DeclError::NonBooleanChangeDetection),
                }
            } else {
                Err(DeclError::UnknownResourceAttr(key))
            }
        },
        AttrItem::OtherMeta { key } => Err(DeclError::UnknownResourceAttr(key)),
        AttrItem::Literal => Err(DeclError::UnexpectedLiteral),
    }
}

/// Folding resource items from the left over accumulated attributes.
pub open spec fn spec_parse_resource_from(items: Seq<AttrItem>, acc: ResourceAttrs) -> Result<ResourceAttrs, DeclError>
    decreases items.len(),
{
    if items.len() == 0 {
        Ok(acc)
    } else {
        match spec_resource_step(acc, items[0]) {
            Ok(next) => spec_parse_resource_from(items.drop_first(), next),
            Err(e) => Err(e),
        }
    }
}

/// What a whole resource declaration parses to.
pub open spec fn spec_parse_resource_attrs(items: Seq<AttrItem>) -> Result<ResourceAttrs, DeclError> {
    spec_parse_resource_from(items, spec_resource_defaults())
}

/// Parse the attribute items of a component declaration.  Unknown keys,
/// non-string storage values, storage names other than `Table` or
/// `SparseSet`, non-boolean change-detection values and stray literals
/// are all rejected, naming the offending item; the defaults are dense
/// storage with change detection on.
pub fn parse_component_attrs(items: &Vec<AttrItem>) -> (r: Result<ComponentAttrs, DeclError>)
    ensures
        r == spec_parse_component_attrs(items@),
{
    let storage_key: String = "storage".to_owned();
    let change_detection_key: String = "change_detection".to_owned();
    let table_name: String = "Dense".to_owned();
    let sparse_name: String = "Sparse".to_owned();
    let mut attrs = ComponentAttrs {
        change_detection_enabled: true,
        storage: StorageType::Table,
    };
    let n = items.len();
    let mut i: usize = 0;
    proof {
        assert(items@.skip(0) =~= items@);
    }
    while i < n
        invariant
            n == items@.len(),
            i <= n,
            storage_key@ == "storage"@,
            change_detection_key@ == "change_detection"@,
            table_name@ == "Dense"@,
            sparse_name@ == "Sparse"@,
            spec_parse_component_attrs(items@) == spec_parse_component_from(
                items@.skip(i as int),
                attrs,
            ),
        decreases n - i,
    {
        let ghost pre = attrs;
        match &items[i] {
            AttrItem::NameValue { key, value } => {
                if *key == storage_key {
                    match value {
                        AttrValue::Str(s) => {
                            if *s == table_name {
                                attrs.storage = StorageType::Table;
                            } else if *s == sparse_name {
                                attrs.storage = StorageType::SparseSet;
                            } else {
                                return Err(DeclError::InvalidStorage(s.clone()));
                            }
                        },
                        _ => {
                            return Err(DeclError::ExpectedStringValue);
                        },
                    }
                } else if *key == change_detection_key {
                    match value {
                        AttrValue::Bool(b) => {
                            attrs.change_detection_enabled = *b;
                        },
                        _ => {
                            return Err(DeclError::NonBooleanChangeDetection);
                        },
                    }
                } else {
                    return Err(DeclError::UnknownComponentAttr(key.clone()));
                }
            },
            AttrItem::OtherMeta { key } => {
                return Err(DeclError::UnknownComponentAttr(key.clone()));
            },
            AttrItem::Literal => {
                return Err(DeclError::UnexpectedLiteral);
            },
        }
        proof {
            assert(items@.skip(i as int)[0] == items@[i as int]);
            assert(items@.skip(i as int).drop_first() =~= items@.skip(i + 1));
            assert(spec_component_step(pre, items@[i as int]) == Ok::<ComponentAttrs, DeclError>(attrs));
        }
        i = i + 1;
    }
    proof {
        assert(items@.skip(n as int) =~= Seq::<AttrItem>::empty());
    }
    Ok(attrs)
}

/// Parse the attribute items of a resource declaration: only the
/// change-detection flag is accepted; anything else is rejected naming
/// the offending item.
pub fn parse_resource_attrs(items: &Vec<AttrItem>) -> (r: Result<ResourceAttrs, DeclError>)
    ensures
        r == spec_parse_resource_attrs(items@),
{
    let change_detection_key: String = "change_detection".to_owned();
    let mut attrs = ResourceAttrs { change_detection_enabled: true };
    let n = items.len();
    let mut i: usize = 0;
    proof {
        assert(items@.skip(0) =~= items@);
    }
    while i < n
        invariant
            n == items@.len(),
            i <= n,
            change_detection_key@ == "change_detection"@,
            spec_parse_resource_attrs(items@) == spec_parse_resource_from(
                items@.skip(i as int),
                attrs,
            ),
        decreases n - i,
    {
        let ghost pre = attrs;
        match &items[i] {
            AttrItem::NameValue { key, value } => {
                if *key == change_detection_key {
                    match value {
                        AttrValue::Bool(b) => {
                            attrs.change_detection_enabled = *b;
                        },
                        _ => {
                            return Err(DeclError::NonBooleanChangeDetection);
                        },
                    }
                } else {
                    return Err(DeclError::UnknownResourceAttr(key.clone()));
                }
            },
            AttrItem::OtherMeta { key } => {
                return Err(DeclError::UnknownResourceAttr(key.clone()));
            },
            AttrItem::Literal => {
                return Err(DeclError::UnexpectedLiteral);
            },
        }
        proof {
            assert(items@.skip(i as int)[0] == items@[i as int]);
            assert(items@.skip(i as int).drop_first() =~= items@.skip(i + 1));
            assert(spec_resource_step(pre, items@[i as int]) == Ok::<ResourceAttrs, DeclError>(attrs));
        }
        i = i + 1;
    }
    proof {
        assert(items@.skip(n as int) =~= Seq::<AttrItem>::empty());
    }
    Ok(attrs)
}

/// The name of the storage marker type a declaration selects: dense
/// kinds use table storage, sparse kinds the sparse-set storage.
pub fn storage_path(storage: StorageType) -> (r: &'static str)
    ensures
        storage == StorageType::Table ==> r@ == "TableStorage"@,
        storage == StorageType::SparseSet ==> r@ == "SparseStorage"@,
{
    match storage {
        StorageType::Table => "TableStorage",
        StorageType::SparseSet => "SparseStorage",
    }
}

} // verus!
