//! A runtime builder for query accesses and flat dynamic plans.
//!
//! The builder accumulates one [`FilteredAccess`] from runtime component
//! ids.  In OR mode — entered while grouping alternative branches — the
//! first contribution AND-combines into the access and every later one
//! OR-combines, so the branches end up as alternative filter
//! conjunctions.  Alongside the access, the variable methods collect a
//! flat [`DynamicPlan`] of constraints over query variables.

use vstd::prelude::*;
use crate::access::{
    FilteredAccess, FilteredAccessSpec, spec_access_union, spec_append_or, spec_everything,
    spec_extend, spec_is_dense,
};
use crate::component::{ComponentId, ComponentRegistry};
use crate::dynamic_plan::{Constraint, DynamicPlan, TermVar, VarId, spec_small_vec_elems};

verus! {

/// Builder over one filtered access and one flat dynamic plan.
pub struct QueryBuilder {
    /// The access accumulated so far.
    pub access: FilteredAccess,
    /// Whether contributions are being OR-combined.
    pub or: bool,
    /// In OR mode, whether the next contribution is the first branch.
    pub first: bool,
    /// The flat plan accumulated by the variable methods.
    pub plan: DynamicPlan,
}

impl QueryBuilder {
    /// A fresh builder: an access that matches everything, not in OR
    /// mode, with an empty plan.
    pub fn new() -> (r: QueryBuilder)
        ensures
            r.access@ == spec_everything(),
            !r.or,
            !r.first,
            spec_small_vec_elems(r.plan.vars) == seq![TermVar::This],
            r.plan.constraints@ == Seq::<Constraint>::empty(),
    {
        QueryBuilder {
            access: FilteredAccess::matches_everything(),
            or: false,
            first: false,
            plan: DynamicPlan::new(),
        }
    }

    /// Enter OR mode: until [`Self::exit_or`], each contribution becomes
    /// one alternative branch of the accumulated filters.
    pub fn enter_or(&mut self)
        ensures
            final(self).access == old(self).access,
            final(self).plan == old(self).plan,
            final(self).or,
            final(self).first,
    {
        self.or = true;
        self.first = true;
    }

    /// Leave OR mode.
    pub fn exit_or(&mut self)
        ensures
            final(self).access == old(self).access,
            final(self).plan == old(self).plan,
            !final(self).or,
            !final(self).first,
    {
        self.or = false;
        self.first = false;
    }

    /// Fold `access` into the accumulated access, respecting OR mode: the
    /// first OR branch AND-combines, every later branch OR-combines, and
    /// outside OR mode everything AND-combines.
    pub fn extend_access(&mut self, access: &FilteredAccess)
        ensures
            final(self).or == old(self).or,
            final(self).plan == old(self).plan,
            final(self).access@ == (if old(self).or {
                if old(self).first {
                    spec_extend(old(self).access@, access@)
                } else {
                    spec_append_or(old(self).access@, access@)
                }
            } else {
                spec_extend(old(self).access@, access@)
            }),
            final(self).first == (if old(self).or {
                false
            } else {
                old(self).first
            }),
    {
        if self.or {
            if self.first {
                self.access.extend(access);
                self.first = false;
            } else {
                self.access.append_or(access);
            }
        } else {
            self.access.extend(access);
        }
    }

    /// Require `id` on the matched archetype, from a runtime component
    /// id.
    pub fn with_id(&mut self, id: ComponentId)
        ensures
            final(self).or == old(self).or,
            final(self).plan == old(self).plan,
            final(self).access@ == (if old(self).or && !old(self).first {
                spec_append_or(old(self).access@, spec_with_filter(id))
            } else {
                spec_extend(old(self).access@, spec_with_filter(id))
            }),
    {
        let mut access = FilteredAccess::matches_everything();
        access.and_with(id);
        proof {
            assert(access@ =~~= spec_with_filter(id));
        }
        self.extend_access(&access);
    }

    /// Forbid `id` on the matched archetype, from a runtime component id.
    pub fn without_id(&mut self, id: ComponentId)
        ensures
            final(self).or == old(self).or,
            final(self).plan == old(self).plan,
            final(self).access@ == (if old(self).or && !old(self).first {
                spec_append_or(old(self).access@, spec_without_filter(id))
            } else {
                spec_extend(old(self).access@, spec_without_filter(id))
            }),
    {
        let mut access = FilteredAccess::matches_everything();
        access.and_without(id);
        proof {
            assert(access@ =~~= spec_without_filter(id));
        }
        self.extend_access(&access);
    }

    /// Require and read `id`: a `&T` access from a runtime component id.
    pub fn ref_id(&mut self, id: ComponentId)
        ensures
            final(self).or == old(self).or,
            final(self).plan == old(self).plan,
            final(self).access@.access.reads == (if old(self).or && !old(self).first {
                spec_append_or(old(self).access@, spec_with_filter(id))
            } else {
                spec_extend(old(self).access@, spec_with_filter(id))
            }).access.reads.insert(id),
    {
        self.with_id(id);
        self.access.add_component_read(id);
    }

    /// Require and write `id`: a `&mut T` access from a runtime component
    /// id.
    pub fn mut_id(&mut self, id: ComponentId)
        ensures
            final(self).or == old(self).or,
            final(self).plan == old(self).plan,
            final(self).access@.access.writes == (if old(self).or && !old(self).first {
                spec_append_or(old(self).access@, spec_with_filter(id))
            } else {
                spec_extend(old(self).access@, spec_with_filter(id))
            }).access.writes.insert(id),
    {
        self.with_id(id);
        self.access.add_component_write(id);
    }

    /// The accumulated filtered access.
    pub fn access(&self) -> (r: &FilteredAccess)
        ensures
            r == &self.access,
    {
        &self.access
    }

    /// Whether the accumulated access can iterate densely: every id it
    /// names has table storage and the access is bounded.  An id the
    /// registry does not know is pessimistically treated as sparse.
    pub fn is_dense(&self, registry: &ComponentRegistry) -> (r: bool)
        ensures
            r == spec_is_dense(self.access@, registry@),
    {
        self.access.is_dense(registry)
    }

    /// Declare a fresh query variable.
    pub fn var(&mut self) -> (r: VarId)
        requires
            spec_small_vec_elems(old(self).plan.vars).len() < u32::MAX,
        ensures
            r == VarId(spec_small_vec_elems(old(self).plan.vars).len() as u32),
            spec_small_vec_elems(final(self).plan.vars)
                == spec_small_vec_elems(old(self).plan.vars).push(TermVar::Var(r)),
            final(self).plan.constraints@ == old(self).plan.constraints@,
            final(self).access == old(self).access,
    {
        self.plan.var()
    }

    /// Constrain `var` to hold `id` (read): the global access gains the
    /// requirement and the read, and the constraint is recorded.
    pub fn with_id_var(&mut self, id: ComponentId, var: TermVar)
        ensures
            final(self).plan.constraints@ == old(self).plan.constraints@.push(
                Constraint::With { var, component: id, write: false },
            ),
            spec_small_vec_elems(final(self).plan.vars)
                == spec_small_vec_elems(old(self).plan.vars),
            final(self).access@ == (if old(self).or && !old(self).first {
                spec_append_or(old(self).access@, spec_read_filter(id))
            } else {
                spec_extend(old(self).access@, spec_read_filter(id))
            }),
    {
        let mut access = FilteredAccess::matches_everything();
        access.and_with(id);
        access.add_component_read(id);
        proof {
            assert(access@ =~~= spec_read_filter(id));
        }
        self.extend_access(&access);
        self.plan.constraints.push(Constraint::With { var, component: id, write: false });
    }

    /// Constrain `var` to hold `id` (write).
    pub fn mut_id_var(&mut self, id: ComponentId, var: TermVar)
        ensures
            final(self).plan.constraints@ == old(self).plan.constraints@.push(
                Constraint::With { var, component: id, write: true },
            ),
            spec_small_vec_elems(final(self).plan.vars)
                == spec_small_vec_elems(old(self).plan.vars),
            final(self).access@ == (if old(self).or && !old(self).first {
                spec_append_or(old(self).access@, spec_write_filter(id))
            } else {
                spec_extend(old(self).access@, spec_write_filter(id))
            }),
    {
        let mut access = FilteredAccess::matches_everything();
        access.and_with(id);
        access.add_component_write(id);
        proof {
            assert(access@ =~~= spec_write_filter(id));
        }
        self.extend_access(&access);
        self.plan.constraints.push(Constraint::With { var, component: id, write: true });
    }

    /// Constrain `var` not to hold `id`.
    pub fn without_id_var(&mut self, id: ComponentId, var: TermVar)
        ensures
            final(self).plan.constraints@ == old(self).plan.constraints@.push(
                Constraint::Without { var, component: id },
            ),
            spec_small_vec_elems(final(self).plan.vars)
                == spec_small_vec_elems(old(self).plan.vars),
    {
        let mut access = FilteredAccess::matches_everything();
        access.and_without(id);
        self.extend_access(&access);
        self.plan.constraints.push(Constraint::Without { var, component: id });
    }

    /// Constrain `from` to be related to `to` through the relationship
    /// component `rel`: the source side is required on the archetype so
    /// pruning can work, and the constraint is recorded.
    pub fn relation_id(&mut self, rel: ComponentId, from: TermVar, to: TermVar)
        ensures
            final(self).plan.constraints@ == old(self).plan.constraints@.push(
                Constraint::Relation { rel, from, to },
            ),
            spec_small_vec_elems(final(self).plan.vars)
                == spec_small_vec_elems(old(self).plan.vars),
    {
        let mut access = FilteredAccess::matches_everything();
        access.and_with(rel);
        self.extend_access(&access);
        self.plan.constraints.push(Constraint::Relation { rel, from, to });
    }

    /// Freeze the accumulated flat plan, carrying the accumulated access
    /// with it.
    pub fn build_dynamic(self) -> (r: DynamicPlan)
        ensures
            spec_small_vec_elems(r.vars) == spec_small_vec_elems(self.plan.vars),
            r.constraints@ == self.plan.constraints@,
            r.filtered_access == self.access,
    {
        let mut plan = self.plan;
        plan.filtered_access = self.access;
        plan
    }
}

/// The filtered access of a `with` filter on `id` whose component is
/// also read.
pub open spec fn spec_read_filter(id: ComponentId) -> crate::access::FilteredAccessSpec {
    crate::access::FilteredAccessSpec {
        access: crate::access::AccessSpec {
            reads: Set::empty().insert(id),
            ..crate::access::spec_access_empty()
        },
        filter_sets: seq![
            crate::access::AccessFiltersSpec {
                with: Set::empty().insert(id),
                without: Set::empty(),
            },
        ],
    }
}

/// The filtered access of a `with` filter on `id` whose component is
/// also written.
pub open spec fn spec_write_filter(id: ComponentId) -> crate::access::FilteredAccessSpec {
    crate::access::FilteredAccessSpec {
        access: crate::access::AccessSpec {
            reads: Set::empty().insert(id),
            writes: Set::empty().insert(id),
            ..crate::access::spec_access_empty()
        },
        filter_sets: seq![
            crate::access::AccessFiltersSpec {
                with: Set::empty().insert(id),
                without: Set::empty(),
            },
        ],
    }
}

/// The filtered access of a lone `with` filter on `id`.
pub open spec fn spec_with_filter(id: ComponentId) -> crate::access::FilteredAccessSpec {
    crate::access::FilteredAccessSpec {
        access: crate::access::spec_access_empty(),
        filter_sets: seq![
            crate::access::AccessFiltersSpec {
                with: Set::empty().insert(id),
                without: Set::empty(),
            },
        ],
    }
}

/// The filtered access of a lone `without` filter on `id`.
pub open spec fn spec_without_filter(id: ComponentId) -> crate::access::FilteredAccessSpec {
    crate::access::FilteredAccessSpec {
        access: crate::access::spec_access_empty(),
        filter_sets: seq![
            crate::access::AccessFiltersSpec {
                with: Set::empty(),
                without: Set::empty().insert(id),
            },
        ],
    }
}


impl QueryBuilder {
    /// Group alternative filter branches: `f` runs over a fresh builder
    /// in OR mode — so every contribution it makes becomes one
    /// alternative conjunction — and the access `f` built up then
    /// AND-combines into this one.  The witness below is the builder `f`
    /// actually ran over: handed in fresh and in OR mode, and read back
    /// in the state `f` left it.
    pub fn or<F: FnOnce(&mut QueryBuilder)>(&mut self, f: F)
        requires
            forall|b: &mut QueryBuilder| call_requires(f, (b,)),
        ensures
            final(self).plan == old(self).plan,
            final(self).or == old(self).or,
            final(self).first == old(self).first,
            exists|b: &mut QueryBuilder|
                {
                    &&& #[trigger] call_ensures(f, (b,), ())
                    &&& mut_ref_current(b).access@ == spec_everything()
                    &&& mut_ref_current(b).or
                    &&& mut_ref_current(b).first
                    &&& spec_small_vec_elems(mut_ref_current(b).plan.vars) == seq![TermVar::This]
                    &&& mut_ref_current(b).plan.constraints@ == Seq::<Constraint>::empty()
                    &&& final(self).access@ == spec_extend(
                        old(self).access@,
                        mut_ref_future(b).access@,
                    )
                },
    {
        let mut builder = QueryBuilder::new();
        builder.enter_or();
        f(&mut builder);
        self.access.extend(&builder.access);
    }

    /// Group several terms into one contribution: `f` runs over a fresh
    /// builder and the access it built up folds into this one, respecting
    /// this builder's OR mode.  Primarily used inside [`Self::or`] to
    /// group conjunctions.
    pub fn and<F: FnOnce(&mut QueryBuilder)>(&mut self, f: F)
        requires
            forall|b: &mut QueryBuilder| call_requires(f, (b,)),
        ensures
            final(self).plan == old(self).plan,
            final(self).or == old(self).or,
            final(self).first == (if old(self).or {
                false
            } else {
                old(self).first
            }),
            exists|b: &mut QueryBuilder|
                {
                    &&& #[trigger] call_ensures(f, (b,), ())
                    &&& mut_ref_current(b).access@ == spec_everything()
                    &&& !mut_ref_current(b).or
                    &&& !mut_ref_current(b).first
                    &&& spec_small_vec_elems(mut_ref_current(b).plan.vars) == seq![TermVar::This]
                    &&& mut_ref_current(b).plan.constraints@ == Seq::<Constraint>::empty()
                    &&& final(self).access@ == (if old(self).or {
                        if old(self).first {
                            spec_extend(old(self).access@, mut_ref_future(b).access@)
                        } else {
                            spec_append_or(old(self).access@, mut_ref_future(b).access@)
                        }
                    } else {
                        spec_extend(old(self).access@, mut_ref_future(b).access@)
                    })
                },
    {
        let mut builder = QueryBuilder::new();
        f(&mut builder);
        let access = builder.access.duplicate();
        self.extend_access(&access);
    }

    /// Take over the accesses `f` accumulates as optional: only the
    /// access map merges, the filters stay behind.
    pub fn optional<F: FnOnce(&mut QueryBuilder)>(&mut self, f: F)
        requires
            forall|b: &mut QueryBuilder| call_requires(f, (b,)),
        ensures
            final(self).plan == old(self).plan,
            final(self).or == old(self).or,
            final(self).first == old(self).first,
            exists|b: &mut QueryBuilder|
                {
                    &&& #[trigger] call_ensures(f, (b,), ())
                    &&& mut_ref_current(b).access@ == spec_everything()
                    &&& !mut_ref_current(b).or
                    &&& !mut_ref_current(b).first
                    &&& spec_small_vec_elems(mut_ref_current(b).plan.vars) == seq![TermVar::This]
                    &&& mut_ref_current(b).plan.constraints@ == Seq::<Constraint>::empty()
                    &&& final(self).access@ == (FilteredAccessSpec {
                        access: spec_access_union(
                            old(self).access@.access,
                            mut_ref_future(b).access@.access,
                        ),
                        ..old(self).access@
                    })
                },
    {
        let mut builder = QueryBuilder::new();
        f(&mut builder);
        self.access.extend_access(&builder.access);
    }
}


} // verus!
