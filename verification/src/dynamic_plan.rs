//! A constraint-list form of dynamic plans: variables, with/without and
//! relation constraints collected flat, alongside the filtered access the
//! whole query will need.
//!
//! The variable list is kept in a small-vector so the common case of a
//! handful of variables stays inline; the vector is reached only through
//! the trusted wrappers below.

use vstd::prelude::*;
use smallvec::SmallVec;
use crate::access::FilteredAccess;
use crate::component::ComponentId;

verus! {

/// A query variable: its position in the variable list.
#[derive(Clone, Copy, PartialEq, Eq, Structural, Hash, Debug)]
pub struct VarId(pub u32);

/// One term variable: the iterated entity itself, or a named variable.
#[derive(Clone, Copy, PartialEq, Eq, Structural, Debug)]
pub enum TermVar {
    /// The entity the query is iterating.
    This,
    /// A further entity, named by its variable id.
    Var(VarId),
}

/// One constraint of a flat dynamic plan.
#[derive(Clone, Copy, PartialEq, Eq, Structural, Debug)]
pub enum Constraint {
    /// `var` holds `component`, read or written.
    With {
        /// The constrained variable.
        var: TermVar,
        /// The component required.
        component: ComponentId,
        /// Whether the component is written.
        write: bool,
    },
    /// `var` does not hold `component`.
    Without {
        /// The constrained variable.
        var: TermVar,
        /// The component forbidden.
        component: ComponentId,
    },
    /// `from` is related to `to` through the relationship `rel`.
    Relation {
        /// The relationship component.
        rel: ComponentId,
        /// The source variable.
        from: TermVar,
        /// The target variable.
        to: TermVar,
    },
}

/// The variable list of a dynamic plan, held in a small-vector so the
/// common case of a few variables stays inline.  The vector is reached
/// only through the trusted wrappers below, whose contracts name its
/// contents through [`spec_small_vec_elems`].
#[verifier::external_body]
pub struct VarList {
    inner: SmallVec<[TermVar; 3]>,
}

/// The elements a variable list holds, in order.
pub uninterp spec fn spec_small_vec_elems(v: VarList) -> Seq<TermVar>;

/// Relies on smallvec's `SmallVec::new`: a freshly created vector holds
/// no elements.
#[verifier::external_body]
fn small_vec_new() -> (r: VarList)
    ensures
        spec_small_vec_elems(r) == Seq::<TermVar>::empty(),
{
    VarList { inner: SmallVec::new() }
}

/// Relies on smallvec's `SmallVec::push`: the element is appended at the
/// end, spilling to the heap if the inline capacity is exceeded.
#[verifier::external_body]
fn small_vec_push(v: &mut VarList, t: TermVar)
    ensures
        spec_small_vec_elems(*final(v)) == spec_small_vec_elems(*old(v)).push(t),
{
    v.inner.push(t)
}

/// Relies on smallvec's `SmallVec::len`: the number of elements held.
#[verifier::external_body]
fn small_vec_len(v: &VarList) -> (r: usize)
    ensures
        r == spec_small_vec_elems(*v).len(),
{
    v.inner.len()
}

/// Relies on smallvec's `Index` implementation, which yields the element
/// at the given in-bounds position.
#[verifier::external_body]
fn small_vec_get(v: &VarList, i: usize) -> (r: TermVar)
    requires
        i < spec_small_vec_elems(*v).len(),
    ensures
        r == spec_small_vec_elems(*v)[i as int],
{
    v.inner[i]
}

/// A dynamic plan in flat form: the variables declared so far, the
/// constraints over them, and the filtered access the query accumulates.
pub struct DynamicPlan {
    /// All variables, the iterated entity first.
    pub vars: VarList,
    /// The constraints over the variables.
    pub constraints: Vec<Constraint>,
    /// The filtered access accumulated for the whole query.
    pub filtered_access: FilteredAccess,
}

impl DynamicPlan {
    /// A fresh plan: one variable — the iterated entity — and no
    /// constraints.
    pub fn new() -> (r: DynamicPlan)
        ensures
            spec_small_vec_elems(r.vars) == seq![TermVar::This],
            r.constraints@ == Seq::<Constraint>::empty(),
            r.filtered_access@ == crate::access::spec_everything(),
    {
        let mut vars = small_vec_new();
        small_vec_push(&mut vars, TermVar::This);
        proof {
            assert(spec_small_vec_elems(vars) =~= seq![TermVar::This]);
        }
        DynamicPlan {
            vars,
            constraints: Vec::new(),
            filtered_access: FilteredAccess::matches_everything(),
        }
    }

    /// Declare a fresh variable and return its id: its position in the
    /// variable list.
    pub fn var(&mut self) -> (r: VarId)
        requires
            spec_small_vec_elems(old(self).vars).len() < u32::MAX,
        ensures
            r == VarId(spec_small_vec_elems(old(self).vars).len() as u32),
            spec_small_vec_elems(final(self).vars)
                == spec_small_vec_elems(old(self).vars).push(TermVar::Var(r)),
            final(self).constraints@ == old(self).constraints@,
            final(self).filtered_access == old(self).filtered_access,
    {
        let id = VarId(small_vec_len(&self.vars) as u32);
        small_vec_push(&mut self.vars, TermVar::Var(id));
        id
    }

    /// The number of variables declared.
    pub fn var_count(&self) -> (r: usize)
        ensures
            r == spec_small_vec_elems(self.vars).len(),
    {
        small_vec_len(&self.vars)
    }

    /// The variable at a position of the list.
    pub fn var_at(&self, i: usize) -> (r: TermVar)
        requires
            i < spec_small_vec_elems(self.vars).len(),
        ensures
            r == spec_small_vec_elems(self.vars)[i as int],
    {
        small_vec_get(&self.vars, i)
    }
}

} // verus!
