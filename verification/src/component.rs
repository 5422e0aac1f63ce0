//! Component identity and the component registry.
//!
//! The registry assigns a dense, stable [`ComponentId`] to every component
//! kind on first registration and records the kind's storage class, its
//! relationship accessor (when the kind is a relationship or a relationship
//! target), and whether change detection is enabled for it.  Registration is
//! idempotent: registering the same kind again returns the original id and
//! leaves the recorded information untouched.

use vstd::prelude::*;

verus! {

/// A dense non-negative integer naming a registered component kind.
#[derive(Clone, Copy, PartialEq, Eq, Structural, Hash, Debug)]
pub struct ComponentId(pub usize);

/// Where values of a component kind live: rows of an archetype table, or a
/// sparse set keyed by entity.
#[derive(Clone, Copy, PartialEq, Eq, Structural, Debug)]
pub enum StorageType {
    /// Dense storage: one row per entity in the archetype's table.
    Table,
    /// Sparse storage: a per-component set keyed by entity.
    SparseSet,
}

/// A type-erased description of how entity targets are read out of a
/// relationship-bearing component.
///
/// Exactly one variant applies to any relationship-bearing kind, fixed at
/// registration and never changed afterwards.
#[derive(Clone, Copy, PartialEq, Eq, Structural, Debug)]
pub enum RelationshipAccessor {
    /// The component's payload contains one target [`crate::entity::Entity`],
    /// packed as a 64-bit little-endian value at the given byte offset from
    /// the payload base.  `linked_spawn` records whether despawning the
    /// target cascades.
    Relationship { entity_field_offset: usize, linked_spawn: bool },
    /// The component stores the collection of source entities pointing at
    /// its owner; reading it yields that whole sequence.
    RelationshipTarget { linked_spawn: bool },
}

/// What the registry records about one component kind.
#[derive(Clone, Copy, PartialEq, Eq, Structural, Debug)]
pub struct ComponentInfo {
    /// The storage class declared for the kind.
    pub storage: StorageType,
    /// The relationship accessor, when the kind is a relationship or a
    /// relationship target; `None` for plain components.
    pub accessor: Option<RelationshipAccessor>,
    /// Whether change detection is enabled for the kind.
    pub change_detection_enabled: bool,
}

/// A component kind as a value: the caller-chosen key naming the kind and
/// the information to record for it on first registration.  The typed
/// plan builder resolves component ids and relationship accessors from
/// these through the world's registry.
#[derive(Clone, Copy, PartialEq, Eq, Structural, Debug)]
pub struct ComponentKind {
    /// The key naming the kind.
    pub key: u64,
    /// What the registry should record for the kind.
    pub info: ComponentInfo,
}

/// The canonical mapping from component kinds (named by a caller-chosen
/// 64-bit key) to component ids and their recorded [`ComponentInfo`].
#[derive(Clone, Debug)]
pub struct ComponentRegistry {
    /// `entries[i]` is the kind key that was assigned id `i`, with the
    /// information recorded for it.
    entries: Vec<(u64, ComponentInfo)>,
}

impl View for ComponentRegistry {
    type V = Seq<(u64, ComponentInfo)>;

    /// The registry as the sequence of `(kind, info)` entries in id order.
    closed spec fn view(&self) -> Seq<(u64, ComponentInfo)> {
        self.entries@
    }
}

/// Whether some entry of `entries` registers the kind `kind`.
pub open spec fn spec_has_kind(entries: Seq<(u64, ComponentInfo)>, kind: u64) -> bool {
    exists|i: int| 0 <= i < entries.len() && entries[i].0 == kind
}

/// The id assigned to `kind` by `entries`: the position holding it (unique
/// in a well-formed registry).
pub open spec fn spec_kind_id(entries: Seq<(u64, ComponentInfo)>, kind: u64) -> int {
    choose|i: int| 0 <= i < entries.len() && entries[i].0 == kind
}

/// A registry is well formed when no kind key is registered twice.
pub open spec fn spec_registry_wf(entries: Seq<(u64, ComponentInfo)>) -> bool {
    forall|i: int, j: int| 0 <= i < j < entries.len() ==> entries[i].0 != entries[j].0
}

/// What registering `kind` with `info` does to a registry: the entries
/// afterwards, and the id handed back.  A kind already present keeps its
/// entry and its id; a fresh kind is appended and gets the next id.
pub open spec fn spec_register(
    entries: Seq<(u64, ComponentInfo)>,
    kind: u64,
    info: ComponentInfo,
) -> (Seq<(u64, ComponentInfo)>, int) {
    if spec_has_kind(entries, kind) {
        (entries, spec_kind_id(entries, kind))
    } else {
        (entries.push((kind, info)), entries.len() as int)
    }
}

/// Whether `id` names a registered kind with dense (table) storage; an
/// unregistered id counts as sparse.
pub open spec fn spec_id_is_dense(entries: Seq<(u64, ComponentInfo)>, id: ComponentId) -> bool {
    id.0 < entries.len() && entries[id.0 as int].1.storage == StorageType::Table
}

impl ComponentRegistry {
    /// A registry is well formed when no kind key appears twice.
    pub open spec fn wf(&self) -> bool {
        spec_registry_wf(self@)
    }

    /// The information recorded for `id`, or `None` if `id` was never
    /// assigned.
    pub open spec fn spec_info_of(&self, id: ComponentId) -> Option<ComponentInfo> {
        if id.0 < self@.len() {
            Some(self@[id.0 as int].1)
        } else {
            None
        }
    }

    /// An empty registry.
    pub fn new() -> (r: ComponentRegistry)
        ensures
            r@ == Seq::<(u64, ComponentInfo)>::empty(),
            r.wf(),
    {
        let r = ComponentRegistry { entries: Vec::new() };
        proof {
            assert(r@ =~= Seq::<(u64, ComponentInfo)>::empty());
        }
        r
    }

    /// The number of registered kinds.
    pub fn len(&self) -> (r: usize)
        ensures
            r == self@.len(),
    {
        self.entries.len()
    }

    /// The position at which `kind` is registered, if it is: the first (and
    /// in a well-formed registry, only) entry holding it.
    fn index_of_kind(&self, kind: u64) -> (r: Option<usize>)
        ensures
            match r {
                Some(i) => i < self@.len() && self@[i as int].0 == kind,
                None => !spec_has_kind(self@, kind),
            },
    {
        let n = self.entries.len();
        let mut i: usize = 0;
        while i < n
            invariant
                n == self@.len(),
                i <= n,
                forall|j: int| 0 <= j < i ==> self@[j].0 != kind,
            decreases n - i,
        {
            if self.entries[i].0 == kind {
                return Some(i);
            }
            i = i + 1;
        }
        None
    }

    /// Register a component kind.  The first registration of a kind assigns
    /// the next free id and records `info`; any later registration of the
    /// same kind returns the original id and changes nothing.
    pub fn register(&mut self, kind: u64, info: ComponentInfo) -> (r: ComponentId)
        requires
            old(self).wf(),
            old(self)@.len() < usize::MAX,
        ensures
            final(self).wf(),
            (final(self)@, r.0 as int) == spec_register(old(self)@, kind, info),
            r.0 < final(self)@.len(),
            final(self)@[r.0 as int].0 == kind,
    {
        match self.index_of_kind(kind) {
            Some(i) => {
                proof {
                    assert(spec_has_kind(self@, kind));
                    let w = spec_kind_id(self@, kind);
                    assert(0 <= w < self@.len() && self@[w].0 == kind);
                    if w != i {
                        if w < i {
                            assert(self@[w].0 != self@[i as int].0);
                        } else {
                            assert(self@[i as int].0 != self@[w].0);
                        }
                    }
                }
                ComponentId(i)
            },
            None => {
                let n = self.entries.len();
                self.entries.push((kind, info));
                ComponentId(n)
            },
        }
    }

    /// Look up the information recorded for a component id; `None` if the
    /// id was never assigned.
    pub fn get_info(&self, id: ComponentId) -> (r: Option<&ComponentInfo>)
        ensures
            match r {
                Some(info) => self.spec_info_of(id) == Some(*info),
                None => self.spec_info_of(id) is None,
            },
    {
        if id.0 < self.entries.len() {
            Some(&self.entries[id.0].1)
        } else {
            None
        }
    }

    /// Whether `id` names a kind whose storage class is dense; an
    /// unregistered id is pessimistically treated as sparse.
    pub fn is_dense_id(&self, id: ComponentId) -> (r: bool)
        ensures
            r == spec_id_is_dense(self@, id),
    {
        match self.get_info(id) {
            Some(info) => info.storage == StorageType::Table,
            None => false,
        }
    }
}

/// Registering a fresh kind and then registering it again yields the same
/// id both times, and the second registration changes nothing: the entry —
/// its accessor included — stays exactly as the first registration wrote
/// it, whatever information the second registration offered.
pub proof fn lemma_reregistration_idempotent(
    entries: Seq<(u64, ComponentInfo)>,
    kind: u64,
    info1: ComponentInfo,
    info2: ComponentInfo,
)
    requires
        spec_registry_wf(entries),
        !spec_has_kind(entries, kind),
    ensures
        ({
            let (e1, id1) = spec_register(entries, kind, info1);
            let (e2, id2) = spec_register(e1, kind, info2);
            &&& id1 == entries.len()
            &&& id2 == id1
            &&& e2 == e1
            &&& e1[id1].1 == info1
            &&& e1[id1].1.accessor == info1.accessor
        }),
{
    let e1 = entries.push((kind, info1));
    assert(e1[entries.len() as int].0 == kind);
    assert(spec_has_kind(e1, kind));
    let w = spec_kind_id(e1, kind);
    assert(0 <= w < e1.len() && e1[w].0 == kind);
    if w < entries.len() {
        assert(entries[w].0 == kind);
        assert(spec_has_kind(entries, kind));
    }
    assert(w == entries.len());
}

} // verus!
