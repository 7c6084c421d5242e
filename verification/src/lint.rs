//! What a session result reports: one lint target per function it assigns, and the values
//! of the metavariables that a diagnostic shows.
use vstd::prelude::*;

use crate::bindings::{BindingsView, MetaBindings};
use crate::normalized::{NormalizedMatched, NormalizedView};
use crate::slot::{AssignView, CandView, MatchSlot, SessionResult, SlotCandidate};
use crate::types::{Const, LocalDefId, PlaceRef, Ty};

verus! {

/// The metavariable values of one reported match: the session's bindings where they are
/// fixed, the function's normalized match elsewhere.
pub struct MultiMatched<'a> {
    pub bindings: &'a MetaBindings,
    pub normalized: &'a NormalizedMatched,
}

/// The value of the metavariable at `idx`: the fixed binding if there is one, else the
/// matched value.
pub open spec fn fixed_or<T>(bound: Seq<Option<T>>, matched: Seq<T>, idx: int) -> T {
    if 0 <= idx < bound.len() && bound[idx] is Some {
        bound[idx]->Some_0
    } else {
        matched[idx]
    }
}

/// A value for the metavariable at `idx` exists.
pub open spec fn has_value<T>(bound: Seq<Option<T>>, matched: Seq<T>, idx: int) -> bool {
    (0 <= idx < bound.len() && bound[idx] is Some) || 0 <= idx < matched.len()
}

fn fixed_or_matched<T: Copy>(bound: &Vec<Option<T>>, matched: &Vec<T>, idx: usize) -> (r: T)
    requires
        has_value(bound@, matched@, idx as int),
    ensures
        r == fixed_or(bound@, matched@, idx as int),
{
    if idx < bound.len() {
        match bound[idx] {
            Some(v) => {
                return v;
            },
            None => {},
        }
    }
    matched[idx]
}

impl<'a> MultiMatched<'a> {
    pub fn new(bindings: &'a MetaBindings, normalized: &'a NormalizedMatched) -> (r: Self)
        ensures
            r.bindings == bindings,
            r.normalized == normalized,
    {
        MultiMatched { bindings, normalized }
    }

    /// The metavariables of a session result, with the normalized match of one of its
    /// functions.
    pub fn from_session(result: &'a SessionResult, normalized: &'a NormalizedMatched) -> (r: Self)
        ensures
            r.bindings == &result.bindings,
            r.normalized == normalized,
    {
        Self::new(&result.bindings, normalized)
    }

    /// The value of type metavariable `idx`.
    pub fn type_meta_var(&self, idx: usize) -> (r: Ty)
        requires
            has_value(self.bindings.ty_vars@, self.normalized.ty_vars@, idx as int),
        ensures
            r == fixed_or(self.bindings.ty_vars@, self.normalized.ty_vars@, idx as int),
    {
        fixed_or_matched(&self.bindings.ty_vars, &self.normalized.ty_vars, idx)
    }

    /// The value of constant metavariable `idx`.
    pub fn const_meta_var(&self, idx: usize) -> (r: Const)
        requires
            has_value(self.bindings.const_vars@, self.normalized.const_vars@, idx as int),
        ensures
            r == fixed_or(self.bindings.const_vars@, self.normalized.const_vars@, idx as int),
    {
        fixed_or_matched(&self.bindings.const_vars, &self.normalized.const_vars, idx)
    }

    /// The value of place metavariable `idx`.
    pub fn place_meta_var(&self, idx: usize) -> (r: PlaceRef)
        requires
            has_value(self.bindings.place_vars@, self.normalized.place_vars@, idx as int),
        ensures
            r == fixed_or(self.bindings.place_vars@, self.normalized.place_vars@, idx as int),
    {
        fixed_or_matched(&self.bindings.place_vars, &self.normalized.place_vars, idx)
    }
}

/// A match to report, owning what its diagnostic reads.
#[derive(Debug)]
pub struct OwnedLintMatch {
    pub def_id: LocalDefId,
    pub primary_slot: MatchSlot,
    pub normalized: NormalizedMatched,
    pub bindings: MetaBindings,
}

impl OwnedLintMatch {
    /// The metavariable values of this match.
    pub fn as_matched(&self) -> (r: MultiMatched<'_>)
        ensures
            r.bindings == &self.bindings,
            r.normalized == &self.normalized,
    {
        MultiMatched::new(&self.bindings, &self.normalized)
    }
}

/// A function to report a session result on.
#[derive(Debug)]
pub struct SessionLintTarget {
    pub def_id: LocalDefId,
    pub owned: OwnedLintMatch,
}

/// The view of a lint target.
pub struct LintTargetView {
    pub def_id: LocalDefId,
    pub primary_slot: MatchSlot,
    pub normalized: NormalizedView,
    pub bindings: BindingsView,
}

/// The assignment is of a function that matched a MIR body.
pub open spec fn is_body_fn(a: AssignView) -> bool {
    match a.candidate {
        CandView::Fn(c) => c.has_body_match,
        CandView::Adt(_) => false,
    }
}

/// Some function of the assignments matched a MIR body.
pub open spec fn has_body_fn(asg: Seq<AssignView>) -> bool {
    exists|i: int| 0 <= i < asg.len() && is_body_fn(#[trigger] asg[i])
}

/// The lint targets of the assignments `asg` of a result with bindings `b`: every function,
/// except the signature-only ones when some function matched a body.
pub open spec fn lint_targets_of(asg: Seq<AssignView>, body: bool, b: BindingsView) -> Seq<LintTargetView>
    decreases asg.len(),
{
    if asg.len() == 0 {
        Seq::empty()
    } else {
        let init = lint_targets_of(asg.drop_last(), body, b);
        let a = asg.last();
        match a.candidate {
            CandView::Fn(c) => if body && !c.has_body_match {
                init
            } else {
                init.push(
                    LintTargetView { def_id: c.def_id, primary_slot: a.slot, normalized: c.normalized, bindings: b },
                )
            },
            CandView::Adt(_) => init,
        }
    }
}

/// The view of lint targets.
pub open spec fn targets_view(t: Seq<SessionLintTarget>) -> Seq<LintTargetView> {
    t.map_values(
        |x: SessionLintTarget|
            LintTargetView {
                def_id: x.def_id,
                primary_slot: x.owned.primary_slot,
                normalized: x.owned.normalized@,
                bindings: x.owned.bindings@,
            },
    )
}

impl SessionResult {
    /// The functions to report this result on, each with the result's bindings and its
    /// own normalized match; a function that matched only a signature is left out when
    /// another one matched a body.
    pub fn lint_targets(&self) -> (r: Vec<SessionLintTarget>)
        ensures
            targets_view(r@) == lint_targets_of(self@.assignments, has_body_fn(self@.assignments), self@.bindings),
            forall|i: int| 0 <= i < r@.len() ==> (#[trigger] r@[i]).def_id == r@[i].owned.def_id,
    {
        let ghost asg = self@.assignments;
        let mut body = false;
        for i in 0..self.assignments.len()
            invariant
                asg == self@.assignments,
                body == exists|j: int| 0 <= j < i && is_body_fn(#[trigger] asg[j]),
        {
            assert(asg[i as int] == self.assignments@[i as int]@);
            match &self.assignments[i].candidate {
                SlotCandidate::Fn(c) => {
                    if c.has_body_match {
                        body = true;
                    }
                },
                SlotCandidate::Adt(_) => {},
            }
        }
        let mut out: Vec<SessionLintTarget> = Vec::new();
        for i in 0..self.assignments.len()
            invariant
                asg == self@.assignments,
                body == has_body_fn(asg),
                targets_view(out@) == lint_targets_of(asg.subrange(0, i as int), body, self@.bindings),
                forall|k: int| 0 <= k < out@.len() ==> (#[trigger] out@[k]).def_id == out@[k].owned.def_id,
        {
            proof {
                assert(asg.subrange(0, i + 1).drop_last() =~= asg.subrange(0, i as int));
                assert(asg[i as int] == self.assignments@[i as int]@);
            }
            let a = &self.assignments[i];
            match &a.candidate {
                SlotCandidate::Fn(c) => {
                    if !(body && !c.has_body_match) {
                        let ghost before = out@;
                        out.push(
                            SessionLintTarget {
                                def_id: c.def_id,
                                owned: OwnedLintMatch {
                                    def_id: c.def_id,
                                    primary_slot: a.slot,
                                    normalized: c.normalized.copy(),
                                    bindings: self.bindings.copy(),
                                },
                            },
                        );
                        assert(targets_view(out@) =~= targets_view(before).push(targets_view(out@).last()));
                    }
                },
                SlotCandidate::Adt(_) => {},
            }
        }
        assert(asg.subrange(0, asg.len() as int) =~= asg);
        out
    }
}

} // verus!
