//! Backtracking solver for full M:N consistent matching across the slots of a pattern item.
//!
//! ADT slots are filled first, in order; an ADT slot without any candidate is left
//! empty. Then function slots are filled in order; an optional slot (`fn _`) is first
//! left empty and then tried with each candidate. A function may fill at most one slot,
//! and every candidate must agree with the metavariable values fixed so far. Every
//! complete filling that assigns something (and a function, when some function slot is
//! mandatory) is a result, in depth-first order. With a positive result limit, the
//! search stops once that many results have been found.
use vstd::prelude::*;

use crate::bindings::{
    empty_bindings, snapshot_compatible, snapshot_fits, snapshot_merged, ty_merge_ok, ty_merged,
    BindingsView, MetaBindings, NonLocalMetaVars,
};
use crate::config::SessionConfig;
use crate::signature::fn_def_ids;
use crate::slot::{
    assignments_view, copy_assignments, first_assignment, is_adt_assignment, is_body_fn_assignment,
    is_fn_assignment, primary_of, results_view, AdtCandView, AdtSlotCandidate, AdtSlotDesc,
    AssignView, CandView, FnCandView, FnMatchContext, FnSlotCandidate, FnSlotDesc, MatchSlot,
    ResultView, SessionResult, SlotAssignment, SlotCandidate,
};
use crate::types::{vec_contains, Interned, LocalDefId, Symbol};

verus! {

/// The first position at or after `from` of an ADT slot named `name`.
pub open spec fn adt_slot_position(slots: Seq<AdtSlotDesc>, name: Symbol, from: int) -> Option<int>
    decreases slots.len() - from,
{
    if from < 0 || from >= slots.len() {
        None
    } else if slots[from].adt_pat_name == name {
        Some(from)
    } else {
        adt_slot_position(slots, name, from + 1)
    }
}

pub proof fn lemma_adt_slot_position_bounds(slots: Seq<AdtSlotDesc>, name: Symbol, from: int)
    ensures
        adt_slot_position(slots, name, from) matches Some(j) ==> from <= j < slots.len()
            && slots[j].adt_pat_name == name,
    decreases slots.len() - from,
{
    if 0 <= from < slots.len() && slots[from].adt_pat_name != name {
        lemma_adt_slot_position_bounds(slots, name, from + 1);
    }
}

/// The data of a session, as the solver sees it.
pub struct CspProblem {
    pub config: SessionConfig,
    pub ty_count: nat,
    pub const_count: nat,
    pub place_count: nat,
    pub fn_slots: Seq<FnSlotDesc>,
    pub adt_slots: Seq<AdtSlotDesc>,
    pub fn_candidates: Seq<Seq<FnCandView>>,
    pub adt_candidates: Seq<Seq<AdtCandView>>,
}

/// The views of a list of function candidate lists.
pub open spec fn fn_candidate_views(v: Seq<Vec<FnSlotCandidate>>) -> Seq<Seq<FnCandView>> {
    v.map_values(|l: Vec<FnSlotCandidate>| l@.map_values(|c: FnSlotCandidate| c@))
}

/// The views of a list of ADT candidate lists.
pub open spec fn adt_candidate_views(v: Seq<Vec<AdtSlotCandidate>>) -> Seq<Seq<AdtCandView>> {
    v.map_values(|l: Vec<AdtSlotCandidate>| l@.map_values(|c: AdtSlotCandidate| c@))
}

/// Backtracking CSP solver for full M:N consistent matching across slots.
pub struct CspSolver<'a> {
    pub config: SessionConfig,
    pub meta: &'a NonLocalMetaVars,
    pub fn_slots: &'a [FnSlotDesc],
    pub adt_slots: &'a [AdtSlotDesc],
    pub fn_candidates: &'a [Vec<FnSlotCandidate>],
    pub adt_candidates: &'a [Vec<AdtSlotCandidate>],
}

impl CspProblem {
    /// The environment of the pattern's metavariables with nothing fixed.
    pub open spec fn initial_bindings(self) -> BindingsView {
        empty_bindings(self.ty_count, self.const_count, self.place_count)
    }

    /// `b` has one row entry per metavariable of the pattern.
    pub open spec fn shaped(self, b: BindingsView) -> bool {
        &&& b.ty_vars.len() == self.ty_count
        &&& b.const_vars.len() == self.const_count
        &&& b.place_vars.len() == self.place_count
    }

    /// The candidate list of the ADT slot at `idx`.
    pub open spec fn adt_list_of(self, idx: int) -> int {
        adt_slot_position(self.adt_slots, self.adt_slots[idx].slot->Adt_0, 0)->Some_0
    }

    /// The candidate list of the function slot at `idx`.
    pub open spec fn fn_list_of(self, idx: int) -> int {
        self.fn_slots[idx].slot->Fn_0 as int
    }

    /// The slots name their candidate lists, and every candidate fits the pattern's
    /// metavariables.
    pub open spec fn well_formed(self) -> bool {
        &&& forall|idx: int|
            0 <= idx < self.adt_slots.len() ==> {
                &&& (#[trigger] self.adt_slots[idx]).slot is Adt
                &&& adt_slot_position(self.adt_slots, self.adt_slots[idx].slot->Adt_0, 0) is Some
                &&& self.adt_list_of(idx) < self.adt_candidates.len()
            }
        &&& forall|idx: int|
            0 <= idx < self.fn_slots.len() ==> {
                &&& (#[trigger] self.fn_slots[idx]).slot is Fn
                &&& self.fn_list_of(idx) < self.fn_candidates.len()
            }
        &&& forall|k: int, c: int|
            0 <= k < self.fn_candidates.len() && 0 <= c < self.fn_candidates[k].len() ==> snapshot_fits(
                self.initial_bindings(),
                (#[trigger] self.fn_candidates[k][c]).snapshot,
            )
        &&& forall|k: int, c: int|
            0 <= k < self.adt_candidates.len() && 0 <= c < self.adt_candidates[k].len() ==> (
            #[trigger] self.adt_candidates[k][c]).ty_bindings.len() <= self.ty_count
    }

    /// Some function slot must be filled.
    pub open spec fn requires_fn(self) -> bool {
        exists|i: int| 0 <= i < self.fn_slots.len() && !(#[trigger] self.fn_slots[i]).optional
    }

    /// The result reported for a complete filling, if any.
    pub open spec fn result_of(self, b: BindingsView, asg: Seq<AssignView>) -> Seq<ResultView> {
        let has_fn = first_assignment(asg, is_fn_assignment(), 0) is Some;
        let has_adt = first_assignment(asg, is_adt_assignment(), 0) is Some;
        if (!has_fn && !has_adt) || (self.requires_fn() && !has_fn) {
            Seq::empty()
        } else {
            seq![ResultView { assignments: asg, bindings: b, primary_fn: primary_of(asg) }]
        }
    }

    /// The result limit has been reached with `prior` results.
    pub open spec fn limit_reached(self, prior: nat) -> bool {
        self.config.max_results > 0 && prior >= self.config.max_results
    }

    /// The results found from function slot `idx` on, after `prior` results.
    pub open spec fn fn_level(
        self,
        idx: int,
        b: BindingsView,
        asg: Seq<AssignView>,
        used: Seq<LocalDefId>,
        prior: nat,
    ) -> Seq<ResultView>
        decreases 0int, self.fn_slots.len() - idx, 1int, 0int,
    {
        if self.limit_reached(prior) {
            Seq::empty()
        } else if idx < 0 || idx >= self.fn_slots.len() {
            self.result_of(b, asg)
        } else if self.fn_slots[idx].optional {
            let skipped = self.fn_level(idx + 1, b, asg, used, prior);
            skipped + self.fn_tries(idx, 0, b, asg, used, prior + skipped.len())
        } else {
            self.fn_tries(idx, 0, b, asg, used, prior)
        }
    }

    /// The results found by trying the candidates of function slot `idx` from the
    /// `c`-th on, after `prior` results.
    pub open spec fn fn_tries(
        self,
        idx: int,
        c: int,
        b: BindingsView,
        asg: Seq<AssignView>,
        used: Seq<LocalDefId>,
        prior: nat,
    ) -> Seq<ResultView>
        decreases 0int, self.fn_slots.len() - idx, 0int, self.fn_candidates[self.fn_list_of(idx)].len() - c,
    {
        let k = self.fn_list_of(idx);
        if idx < 0 || idx >= self.fn_slots.len() || k < 0 || k >= self.fn_candidates.len() || c < 0
            || c >= self.fn_candidates[k].len() {
            Seq::empty()
        } else {
            let cand = self.fn_candidates[k][c];
            if used.contains(cand.def_id) || !snapshot_compatible(b, cand.snapshot) {
                self.fn_tries(idx, c + 1, b, asg, used, prior)
            } else {
                let found = self.fn_level(
                    idx + 1,
                    snapshot_merged(b, cand.snapshot),
                    asg.push(AssignView { slot: self.fn_slots[idx].slot, candidate: CandView::Fn(cand) }),
                    used.push(cand.def_id),
                    prior,
                );
                found + self.fn_tries(idx, c + 1, b, asg, used, prior + found.len())
            }
        }
    }

    /// The results found from ADT slot `idx` on, after `prior` results.
    pub open spec fn adt_level(
        self,
        idx: int,
        b: BindingsView,
        asg: Seq<AssignView>,
        used: Seq<LocalDefId>,
        prior: nat,
    ) -> Seq<ResultView>
        decreases 1int, self.adt_slots.len() - idx, 1int, 0int,
    {
        if idx < 0 || idx >= self.adt_slots.len() {
            self.fn_level(0, b, asg, used, prior)
        } else {
            let j = self.adt_list_of(idx);
            if 0 <= j < self.adt_candidates.len() && self.adt_candidates[j].len() == 0 {
                self.adt_level(idx + 1, b, asg, used, prior)
            } else {
                self.adt_tries(idx, 0, b, asg, used, prior)
            }
        }
    }

    /// The results found by trying the candidates of ADT slot `idx` from the `c`-th on,
    /// after `prior` results.
    pub open spec fn adt_tries(
        self,
        idx: int,
        c: int,
        b: BindingsView,
        asg: Seq<AssignView>,
        used: Seq<LocalDefId>,
        prior: nat,
    ) -> Seq<ResultView>
        decreases 1int, self.adt_slots.len() - idx, 0int, self.adt_candidates[self.adt_list_of(idx)].len() - c,
    {
        let j = self.adt_list_of(idx);
        if idx < 0 || idx >= self.adt_slots.len() || j < 0 || j >= self.adt_candidates.len() || c < 0
            || c >= self.adt_candidates[j].len() || self.limit_reached(prior) {
            Seq::empty()
        } else {
            let cand = self.adt_candidates[j][c];
            if !ty_merge_ok(b, cand.ty_bindings) {
                self.adt_tries(idx, c + 1, b, asg, used, prior)
            } else {
                let found = self.adt_level(
                    idx + 1,
                    ty_merged(b, cand.ty_bindings),
                    asg.push(AssignView { slot: self.adt_slots[idx].slot, candidate: CandView::Adt(cand) }),
                    used,
                    prior,
                );
                found + self.adt_tries(idx, c + 1, b, asg, used, prior + found.len())
            }
        }
    }

    /// All results of the session, in depth-first order.
    pub open spec fn solutions(self) -> Seq<ResultView> {
        self.adt_level(0, self.initial_bindings(), Seq::empty(), Seq::empty(), 0)
    }

}

/// No function is assigned twice in `r`.
pub open spec fn distinct_fns(r: ResultView) -> bool {
    fn_def_ids(r.assignments).no_duplicates()
}

/// No result of `s` assigns a function twice.
pub open spec fn all_distinct_fns(s: Seq<ResultView>) -> bool {
    forall|i: int| 0 <= i < s.len() ==> distinct_fns(#[trigger] s[i])
}

proof fn lemma_all_distinct_concat(a: Seq<ResultView>, b: Seq<ResultView>)
    requires
        all_distinct_fns(a),
        all_distinct_fns(b),
    ensures
        all_distinct_fns(a + b),
{
    assert forall|i: int| 0 <= i < (a + b).len() implies distinct_fns(#[trigger] (a + b)[i]) by {
        if i < a.len() {
            assert((a + b)[i] == a[i]);
        } else {
            assert((a + b)[i] == b[i - a.len()]);
        }
    }
}

impl CspProblem {
    proof fn lemma_fn_level_distinct(
        self,
        idx: int,
        b: BindingsView,
        asg: Seq<AssignView>,
        used: Seq<LocalDefId>,
        prior: nat,
    )
        requires
            used == fn_def_ids(asg),
            used.no_duplicates(),
        ensures
            all_distinct_fns(self.fn_level(idx, b, asg, used, prior)),
        decreases 0int, self.fn_slots.len() - idx, 1int, 0int,
    {
        if self.limit_reached(prior) {
        } else if idx < 0 || idx >= self.fn_slots.len() {
        } else if self.fn_slots[idx].optional {
            let skipped = self.fn_level(idx + 1, b, asg, used, prior);
            self.lemma_fn_level_distinct(idx + 1, b, asg, used, prior);
            self.lemma_fn_tries_distinct(idx, 0, b, asg, used, prior + skipped.len());
            lemma_all_distinct_concat(skipped, self.fn_tries(idx, 0, b, asg, used, prior + skipped.len()));
        } else {
            self.lemma_fn_tries_distinct(idx, 0, b, asg, used, prior);
        }
    }

    proof fn lemma_fn_tries_distinct(
        self,
        idx: int,
        c: int,
        b: BindingsView,
        asg: Seq<AssignView>,
        used: Seq<LocalDefId>,
        prior: nat,
    )
        requires
            used == fn_def_ids(asg),
            used.no_duplicates(),
        ensures
            all_distinct_fns(self.fn_tries(idx, c, b, asg, used, prior)),
        decreases 0int, self.fn_slots.len() - idx, 0int, self.fn_candidates[self.fn_list_of(idx)].len() - c,
    {
        let k = self.fn_list_of(idx);
        if idx < 0 || idx >= self.fn_slots.len() || k < 0 || k >= self.fn_candidates.len() || c < 0
            || c >= self.fn_candidates[k].len() {
        } else {
            let cand = self.fn_candidates[k][c];
            if used.contains(cand.def_id) || !snapshot_compatible(b, cand.snapshot) {
                self.lemma_fn_tries_distinct(idx, c + 1, b, asg, used, prior);
            } else {
                let asg2 = asg.push(AssignView { slot: self.fn_slots[idx].slot, candidate: CandView::Fn(cand) });
                let used2 = used.push(cand.def_id);
                assert(asg2.drop_last() =~= asg);
                assert(fn_def_ids(asg2) == used2);
                assert(used2.no_duplicates()) by {
                    assert forall|i: int, j: int| 0 <= i < used2.len() && 0 <= j < used2.len() && i != j implies used2[i]
                        != used2[j] by {
                        if i == used.len() as int {
                            assert(!used.contains(cand.def_id));
                            assert(used2[j] == used[j]);
                        } else if j == used.len() as int {
                            assert(!used.contains(cand.def_id));
                            assert(used2[i] == used[i]);
                        }
                    }
                }
                let found = self.fn_level(idx + 1, snapshot_merged(b, cand.snapshot), asg2, used2, prior);
                self.lemma_fn_level_distinct(idx + 1, snapshot_merged(b, cand.snapshot), asg2, used2, prior);
                self.lemma_fn_tries_distinct(idx, c + 1, b, asg, used, prior + found.len());
                lemma_all_distinct_concat(found, self.fn_tries(idx, c + 1, b, asg, used, prior + found.len()));
            }
        }
    }

    proof fn lemma_adt_level_distinct(
        self,
        idx: int,
        b: BindingsView,
        asg: Seq<AssignView>,
        used: Seq<LocalDefId>,
        prior: nat,
    )
        requires
            used == fn_def_ids(asg),
            used.no_duplicates(),
        ensures
            all_distinct_fns(self.adt_level(idx, b, asg, used, prior)),
        decreases 1int, self.adt_slots.len() - idx, 1int, 0int,
    {
        if idx < 0 || idx >= self.adt_slots.len() {
            self.lemma_fn_level_distinct(0, b, asg, used, prior);
        } else {
            let j = self.adt_list_of(idx);
            if 0 <= j < self.adt_candidates.len() && self.adt_candidates[j].len() == 0 {
                self.lemma_adt_level_distinct(idx + 1, b, asg, used, prior);
            } else {
                self.lemma_adt_tries_distinct(idx, 0, b, asg, used, prior);
            }
        }
    }

    proof fn lemma_adt_tries_distinct(
        self,
        idx: int,
        c: int,
        b: BindingsView,
        asg: Seq<AssignView>,
        used: Seq<LocalDefId>,
        prior: nat,
    )
        requires
            used == fn_def_ids(asg),
            used.no_duplicates(),
        ensures
            all_distinct_fns(self.adt_tries(idx, c, b, asg, used, prior)),
        decreases 1int, self.adt_slots.len() - idx, 0int, self.adt_candidates[self.adt_list_of(idx)].len() - c,
    {
        let j = self.adt_list_of(idx);
        if idx < 0 || idx >= self.adt_slots.len() || j < 0 || j >= self.adt_candidates.len() || c < 0
            || c >= self.adt_candidates[j].len() || self.limit_reached(prior) {
        } else {
            let cand = self.adt_candidates[j][c];
            if !ty_merge_ok(b, cand.ty_bindings) {
                self.lemma_adt_tries_distinct(idx, c + 1, b, asg, used, prior);
            } else {
                let asg2 = asg.push(AssignView { slot: self.adt_slots[idx].slot, candidate: CandView::Adt(cand) });
                assert(asg2.drop_last() =~= asg);
                assert(fn_def_ids(asg2) == used);
                let found = self.adt_level(idx + 1, ty_merged(b, cand.ty_bindings), asg2, used, prior);
                self.lemma_adt_level_distinct(idx + 1, ty_merged(b, cand.ty_bindings), asg2, used, prior);
                self.lemma_adt_tries_distinct(idx, c + 1, b, asg, used, prior + found.len());
                lemma_all_distinct_concat(found, self.adt_tries(idx, c + 1, b, asg, used, prior + found.len()));
            }
        }
    }

    /// No result of a session assigns one function to two slots.
    pub proof fn lemma_solutions_distinct_fns(self)
        ensures
            all_distinct_fns(self.solutions()),
    {
        assert(fn_def_ids(Seq::<AssignView>::empty()) == Seq::<LocalDefId>::empty());
        self.lemma_adt_level_distinct(0, self.initial_bindings(), Seq::empty(), Seq::empty(), 0);
    }
}

/// With a positive limit, `s` found after `prior` results keeps the total within the
/// limit, and is empty once the limit is reached.
pub open spec fn within_limit(config: SessionConfig, prior: nat, s: Seq<ResultView>) -> bool {
    config.max_results > 0 ==> if prior >= config.max_results {
        s.len() == 0
    } else {
        prior + s.len() <= config.max_results
    }
}

proof fn lemma_within_limit_concat(config: SessionConfig, prior: nat, a: Seq<ResultView>, b: Seq<ResultView>)
    requires
        within_limit(config, prior, a),
        within_limit(config, prior + a.len(), b),
    ensures
        within_limit(config, prior, a + b),
{
}

impl CspProblem {
    proof fn lemma_fn_level_limit(self, idx: int, b: BindingsView, asg: Seq<AssignView>, used: Seq<LocalDefId>, prior: nat)
        ensures
            within_limit(self.config, prior, self.fn_level(idx, b, asg, used, prior)),
        decreases 0int, self.fn_slots.len() - idx, 1int, 0int,
    {
        if self.limit_reached(prior) {
        } else if idx < 0 || idx >= self.fn_slots.len() {
        } else if self.fn_slots[idx].optional {
            let skipped = self.fn_level(idx + 1, b, asg, used, prior);
            self.lemma_fn_level_limit(idx + 1, b, asg, used, prior);
            self.lemma_fn_tries_limit(idx, 0, b, asg, used, prior + skipped.len());
            lemma_within_limit_concat(self.config, prior, skipped, self.fn_tries(idx, 0, b, asg, used, prior + skipped.len()));
        } else {
            self.lemma_fn_tries_limit(idx, 0, b, asg, used, prior);
        }
    }

    proof fn lemma_fn_tries_limit(
        self,
        idx: int,
        c: int,
        b: BindingsView,
        asg: Seq<AssignView>,
        used: Seq<LocalDefId>,
        prior: nat,
    )
        ensures
            within_limit(self.config, prior, self.fn_tries(idx, c, b, asg, used, prior)),
        decreases 0int, self.fn_slots.len() - idx, 0int, self.fn_candidates[self.fn_list_of(idx)].len() - c,
    {
        let k = self.fn_list_of(idx);
        if idx < 0 || idx >= self.fn_slots.len() || k < 0 || k >= self.fn_candidates.len() || c < 0
            || c >= self.fn_candidates[k].len() {
        } else {
            let cand = self.fn_candidates[k][c];
            if used.contains(cand.def_id) || !snapshot_compatible(b, cand.snapshot) {
                self.lemma_fn_tries_limit(idx, c + 1, b, asg, used, prior);
            } else {
                let asg2 = asg.push(AssignView { slot: self.fn_slots[idx].slot, candidate: CandView::Fn(cand) });
                let used2 = used.push(cand.def_id);
                let b2 = snapshot_merged(b, cand.snapshot);
                let found = self.fn_level(idx + 1, b2, asg2, used2, prior);
                self.lemma_fn_level_limit(idx + 1, b2, asg2, used2, prior);
                self.lemma_fn_tries_limit(idx, c + 1, b, asg, used, prior + found.len());
                lemma_within_limit_concat(self.config, prior, found, self.fn_tries(idx, c + 1, b, asg, used, prior + found.len()));
            }
        }
    }

    proof fn lemma_adt_level_limit(self, idx: int, b: BindingsView, asg: Seq<AssignView>, used: Seq<LocalDefId>, prior: nat)
        ensures
            within_limit(self.config, prior, self.adt_level(idx, b, asg, used, prior)),
        decreases 1int, self.adt_slots.len() - idx, 1int, 0int,
    {
        if idx < 0 || idx >= self.adt_slots.len() {
            self.lemma_fn_level_limit(0, b, asg, used, prior);
        } else {
            let j = self.adt_list_of(idx);
            if 0 <= j < self.adt_candidates.len() && self.adt_candidates[j].len() == 0 {
                self.lemma_adt_level_limit(idx + 1, b, asg, used, prior);
            } else {
                self.lemma_adt_tries_limit(idx, 0, b, asg, used, prior);
            }
        }
    }

    proof fn lemma_adt_tries_limit(
        self,
        idx: int,
        c: int,
        b: BindingsView,
        asg: Seq<AssignView>,
        used: Seq<LocalDefId>,
        prior: nat,
    )
        ensures
            within_limit(self.config, prior, self.adt_tries(idx, c, b, asg, used, prior)),
        decreases 1int, self.adt_slots.len() - idx, 0int, self.adt_candidates[self.adt_list_of(idx)].len() - c,
    {
        let j = self.adt_list_of(idx);
        if idx < 0 || idx >= self.adt_slots.len() || j < 0 || j >= self.adt_candidates.len() || c < 0
            || c >= self.adt_candidates[j].len() || self.limit_reached(prior) {
        } else {
            let cand = self.adt_candidates[j][c];
            if !ty_merge_ok(b, cand.ty_bindings) {
                self.lemma_adt_tries_limit(idx, c + 1, b, asg, used, prior);
            } else {
                let asg2 = asg.push(AssignView { slot: self.adt_slots[idx].slot, candidate: CandView::Adt(cand) });
                let b2 = ty_merged(b, cand.ty_bindings);
                let found = self.adt_level(idx + 1, b2, asg2, used, prior);
                self.lemma_adt_level_limit(idx + 1, b2, asg2, used, prior);
                self.lemma_adt_tries_limit(idx, c + 1, b, asg, used, prior + found.len());
                lemma_within_limit_concat(self.config, prior, found, self.adt_tries(idx, c + 1, b, asg, used, prior + found.len()));
            }
        }
    }

    /// With a positive result limit, a session never yields more results than the limit.
    pub proof fn lemma_solutions_within_limit(self)
        ensures
            self.config.max_results > 0 ==> self.solutions().len() <= self.config.max_results,
    {
        self.lemma_adt_level_limit(0, self.initial_bindings(), Seq::empty(), Seq::empty(), 0);
    }
}

impl<'a> CspSolver<'a> {
    pub fn new(
        config: SessionConfig,
        meta: &'a NonLocalMetaVars,
        fn_slots: &'a [FnSlotDesc],
        adt_slots: &'a [AdtSlotDesc],
        fn_candidates: &'a [Vec<FnSlotCandidate>],
        adt_candidates: &'a [Vec<AdtSlotCandidate>],
    ) -> (r: Self)
        ensures
            r.config == config,
            r.meta == meta,
            r.fn_slots == fn_slots,
            r.adt_slots == adt_slots,
            r.fn_candidates == fn_candidates,
            r.adt_candidates == adt_candidates,
    {
        CspSolver { config, meta, fn_slots, adt_slots, fn_candidates, adt_candidates }
    }

    /// The session data this solver works on.
    pub open spec fn problem(&self) -> CspProblem {
        CspProblem {
            config: self.config,
            ty_count: self.meta.ty_vars@.len(),
            const_count: self.meta.const_vars@.len(),
            place_count: self.meta.place_vars@.len(),
            fn_slots: self.fn_slots@,
            adt_slots: self.adt_slots@,
            fn_candidates: fn_candidate_views(self.fn_candidates@),
            adt_candidates: adt_candidate_views(self.adt_candidates@),
        }
    }

    /// All results of the session, in depth-first order.
    pub open spec fn solutions(&self) -> Seq<ResultView> {
        self.problem().solutions()
    }

    /// Solve the session: every consistent filling of the slots, in depth-first order.
    pub fn solve(&self) -> (r: Vec<SessionResult>)
        requires
            self.problem().well_formed(),
        ensures
            results_view(r@) == self.solutions(),
            self.config.max_results > 0 ==> r@.len() <= self.config.max_results,
    {
        proof {
            self.problem().lemma_solutions_within_limit();
        }
        let mut results: Vec<SessionResult> = Vec::new();
        let mut bindings = MetaBindings::new(self.meta);
        let mut assignments: Vec<SlotAssignment> = Vec::new();
        let mut used_defs: Vec<LocalDefId> = Vec::new();
        proof {
            assert(assignments_view(assignments@) =~= Seq::<AssignView>::empty());
            assert(results_view(results@) =~= Seq::<ResultView>::empty());
        }
        self.solve_adt_slots(0, &mut bindings, &mut assignments, &mut used_defs, &mut results);
        proof {
            assert(results_view(results@) =~= self.solutions());
        }
        results
    }

    fn solve_adt_slots(
        &self,
        idx: usize,
        bindings: &mut MetaBindings,
        assignments: &mut Vec<SlotAssignment>,
        used_defs: &mut Vec<LocalDefId>,
        results: &mut Vec<SessionResult>,
    )
        requires
            self.problem().well_formed(),
            idx <= self.adt_slots@.len(),
            self.problem().shaped(old(bindings)@),
        ensures
            results_view(final(results)@) == results_view(old(results)@) + self.problem().adt_level(
                idx as int,
                old(bindings)@,
                assignments_view(old(assignments)@),
                old(used_defs)@,
                old(results)@.len(),
            ),
            final(assignments)@ == old(assignments)@,
            final(used_defs)@ == old(used_defs)@,
            final(bindings)@ == old(bindings)@,
        decreases self.adt_slots@.len() - idx,
    {
        if idx == self.adt_slots.len() {
            self.solve_fn_slots(0, bindings, assignments, used_defs, results);
            return;
        }
        let desc = &self.adt_slots[idx];
        let slot_idx = self.adt_slot_index(desc.slot);
        assert(slot_idx == self.problem().adt_list_of(idx as int));
        if self.adt_candidates[slot_idx].len() == 0 {
            self.solve_adt_slots(idx + 1, bindings, assignments, used_defs, results);
            return;
        }
        let cands = &self.adt_candidates[slot_idx];
        let next = idx + 1;
        let ghost b0 = bindings@;
        let ghost asg0 = assignments@;
        let ghost used0 = used_defs@;
        let ghost goal = results_view(results@) + self.problem().adt_tries(
            idx as int,
            0,
            b0,
            assignments_view(asg0),
            used0,
            results@.len(),
        );
        proof {
            assert(results_view(results@) + self.problem().adt_tries(idx as int, 0, b0, assignments_view(asg0), used0, results@.len()) == goal);
        }
        let mut c: usize = 0;
        while c < cands.len() && !(self.config.max_results > 0 && results.len() >= self.config.max_results)
            invariant
                self.problem().well_formed(),
                idx < self.adt_slots@.len(),
                slot_idx == self.problem().adt_list_of(idx as int),
                slot_idx < self.adt_candidates@.len(),
                cands@ == self.adt_candidates@[slot_idx as int]@,
                c <= cands@.len(),
                *desc == self.adt_slots@[idx as int],
                next == idx + 1,
                self.problem().shaped(b0),
                bindings@ == b0,
                assignments@ == asg0,
                used_defs@ == used0,
                goal == results_view(results@) + self.problem().adt_tries(
                    idx as int,
                    c as int,
                    b0,
                    assignments_view(asg0),
                    used0,
                    results@.len(),
                ),
            decreases cands@.len() - c,
        {
            let candidate = &cands[c];
            let ghost cv = candidate@;
            let ghost before = results@;
            assert(cands@[c as int]@ == self.adt_candidates@[slot_idx as int]@[c as int]@);
            let mut trial = bindings.copy();
            if trial.merge_adt_ty_bindings(&candidate.ty_bindings) {
                let assignment = SlotAssignment { slot: desc.slot, candidate: SlotCandidate::Adt(candidate.copy()) };
                assignments.push(assignment);
                proof {
                    assert(assignments_view(assignments@) =~= assignments_view(asg0).push(AssignView {
                        slot: self.adt_slots@[idx as int].slot,
                        candidate: CandView::Adt(cv),
                    }));
                }
                self.solve_adt_slots(next, &mut trial, assignments, used_defs, results);
                assignments.pop();
                proof {
                    assert(assignments@ =~= asg0);
                    let found = self.problem().adt_level(
                        idx + 1,
                        ty_merged(b0, cv.ty_bindings),
                        assignments_view(asg0).push(AssignView {
                            slot: self.adt_slots@[idx as int].slot,
                            candidate: CandView::Adt(cv),
                        }),
                        used0,
                        before.len(),
                    );
                    assert(results_view(results@).len() == results@.len());
                    assert(results_view(before).len() == before.len());
                    assert(results@.len() == before.len() + found.len());
                    assert(results_view(before) + found + self.problem().adt_tries(
                        idx as int,
                        c + 1,
                        b0,
                        assignments_view(asg0),
                        used0,
                        before.len() + found.len(),
                    ) =~= results_view(before) + (found + self.problem().adt_tries(
                        idx as int,
                        c + 1,
                        b0,
                        assignments_view(asg0),
                        used0,
                        before.len() + found.len(),
                    )));
                }
            }
            c = c + 1;
        }
    }

    fn solve_fn_slots(
        &self,
        idx: usize,
        bindings: &mut MetaBindings,
        assignments: &mut Vec<SlotAssignment>,
        used_defs: &mut Vec<LocalDefId>,
        results: &mut Vec<SessionResult>,
    )
        requires
            self.problem().well_formed(),
            idx <= self.fn_slots@.len(),
            self.problem().shaped(old(bindings)@),
        ensures
            results_view(final(results)@) == results_view(old(results)@) + self.problem().fn_level(
                idx as int,
                old(bindings)@,
                assignments_view(old(assignments)@),
                old(used_defs)@,
                old(results)@.len(),
            ),
            final(assignments)@ == old(assignments)@,
            final(used_defs)@ == old(used_defs)@,
            final(bindings)@ == old(bindings)@,
        decreases self.fn_slots@.len() - idx, 1int,
    {
        if self.config.max_results > 0 && results.len() >= self.config.max_results {
            proof {
                assert(results_view(results@) =~= results_view(results@) + Seq::<ResultView>::empty());
            }
            return;
        }
        if idx == self.fn_slots.len() {
            self.push_result(bindings, assignments, used_defs, results);
            return;
        }
        let desc = &self.fn_slots[idx];
        let slot_idx = desc.slot.fn_index().unwrap();
        assert(slot_idx == self.problem().fn_list_of(idx as int));
        if desc.optional {
            // `fn _`: skip this slot (zero matches) and continue.
            let ghost before = results@;
            self.solve_fn_slots(idx + 1, bindings, assignments, used_defs, results);
            proof {
                let skipped = self.problem().fn_level(
                    idx + 1,
                    bindings@,
                    assignments_view(assignments@),
                    used_defs@,
                    before.len(),
                );
                assert(results_view(results@).len() == results@.len());
                assert(results_view(before).len() == before.len());
                assert(results@.len() == before.len() + skipped.len());
            }
            let ghost mid = results@;
            self.try_fn_candidates(idx, slot_idx, bindings, assignments, used_defs, results);
            proof {
                let skipped = self.problem().fn_level(
                    idx + 1,
                    bindings@,
                    assignments_view(assignments@),
                    used_defs@,
                    before.len(),
                );
                assert(results_view(results@) =~= results_view(before) + (skipped + self.problem().fn_tries(
                    idx as int,
                    0,
                    bindings@,
                    assignments_view(assignments@),
                    used_defs@,
                    before.len() + skipped.len(),
                )));
            }
        } else {
            self.try_fn_candidates(idx, slot_idx, bindings, assignments, used_defs, results);
        }
    }

    /// Try every candidate of function slot `idx` (whose candidates are list `slot_idx`).
    fn try_fn_candidates(
        &self,
        idx: usize,
        slot_idx: usize,
        bindings: &mut MetaBindings,
        assignments: &mut Vec<SlotAssignment>,
        used_defs: &mut Vec<LocalDefId>,
        results: &mut Vec<SessionResult>,
    )
        requires
            self.problem().well_formed(),
            idx < self.fn_slots@.len(),
            slot_idx == self.problem().fn_list_of(idx as int),
            self.problem().shaped(old(bindings)@),
        ensures
            results_view(final(results)@) == results_view(old(results)@) + self.problem().fn_tries(
                idx as int,
                0,
                old(bindings)@,
                assignments_view(old(assignments)@),
                old(used_defs)@,
                old(results)@.len(),
            ),
            final(assignments)@ == old(assignments)@,
            final(used_defs)@ == old(used_defs)@,
            final(bindings)@ == old(bindings)@,
        decreases self.fn_slots@.len() - idx, 0int,
    {
        let cands = &self.fn_candidates[slot_idx];
        let desc = &self.fn_slots[idx];
        let nf = self.fn_slots.len();
        let next = idx + 1;
        let ghost b0 = bindings@;
        let ghost asg0 = assignments@;
        let ghost used0 = used_defs@;
        let ghost goal = results_view(results@) + self.problem().fn_tries(
            idx as int,
            0,
            b0,
            assignments_view(asg0),
            used0,
            results@.len(),
        );
        let mut c: usize = 0;
        while c < cands.len()
            invariant
                self.problem().well_formed(),
                idx < self.fn_slots@.len(),
                slot_idx == self.problem().fn_list_of(idx as int),
                slot_idx < self.fn_candidates@.len(),
                cands@ == self.fn_candidates@[slot_idx as int]@,
                *desc == self.fn_slots@[idx as int],
                next == idx + 1,
                c <= cands@.len(),
                self.problem().shaped(b0),
                bindings@ == b0,
                assignments@ == asg0,
                used_defs@ == used0,
                goal == results_view(results@) + self.problem().fn_tries(
                    idx as int,
                    c as int,
                    b0,
                    assignments_view(asg0),
                    used0,
                    results@.len(),
                ),
            decreases cands@.len() - c,
        {
            let candidate = &cands[c];
            let ghost cv = candidate@;
            let ghost before = results@;
            assert(cands@[c as int]@ == self.fn_candidates@[slot_idx as int]@[c as int]@);
            if !vec_contains(used_defs, &candidate.def_id) {
                let mut trial = bindings.copy();
                if trial.merge_snapshot(&candidate.snapshot) {
                    used_defs.push(candidate.def_id);
                    let assignment = SlotAssignment { slot: desc.slot, candidate: SlotCandidate::Fn(candidate.copy()) };
                    assignments.push(assignment);
                    proof {
                        assert(assignments_view(assignments@) =~= assignments_view(asg0).push(AssignView {
                            slot: self.fn_slots@[idx as int].slot,
                            candidate: CandView::Fn(cv),
                        }));
                    }
                    self.solve_fn_slots(next, &mut trial, assignments, used_defs, results);
                    assignments.pop();
                    used_defs.pop();
                    proof {
                        assert(assignments@ =~= asg0);
                        assert(used_defs@ =~= used0);
                        let found = self.problem().fn_level(
                            idx + 1,
                            snapshot_merged(b0, cv.snapshot),
                            assignments_view(asg0).push(AssignView {
                                slot: self.fn_slots@[idx as int].slot,
                                candidate: CandView::Fn(cv),
                            }),
                            used0.push(cv.def_id),
                            before.len(),
                        );
                        assert(results_view(results@).len() == results@.len());
                        assert(results_view(before).len() == before.len());
                        assert(results@.len() == before.len() + found.len());
                        assert(results_view(before) + found + self.problem().fn_tries(
                            idx as int,
                            c + 1,
                            b0,
                            assignments_view(asg0),
                            used0,
                            before.len() + found.len(),
                        ) =~= results_view(before) + (found + self.problem().fn_tries(
                            idx as int,
                            c + 1,
                            b0,
                            assignments_view(asg0),
                            used0,
                            before.len() + found.len(),
                        )));
                    }
                }
            }
            c = c + 1;
        }
    }

    fn push_result(
        &self,
        bindings: &MetaBindings,
        assignments: &Vec<SlotAssignment>,
        _used_defs: &Vec<LocalDefId>,
        results: &mut Vec<SessionResult>,
    )
        ensures
            results_view(final(results)@) == results_view(old(results)@) + self.problem().result_of(
                bindings@,
                assignments_view(assignments@),
            ),
    {
        let ghost asg = assignments_view(assignments@);
        let first_fn = first_fn_assignment(assignments, false);
        let first_adt = first_adt_assignment(assignments);
        let has_fn = first_fn.is_some();
        let has_adt = first_adt.is_some();
        if !has_fn && !has_adt {
            proof {
                assert(results_view(results@) =~= results_view(results@) + Seq::<ResultView>::empty());
            }
            return;
        }
        let mut requires_fn = false;
        for i in 0..self.fn_slots.len()
            invariant
                requires_fn == exists|j: int| 0 <= j < i && !(#[trigger] self.fn_slots@[j]).optional,
        {
            if !self.fn_slots[i].optional {
                requires_fn = true;
            }
        }
        if requires_fn && !has_fn {
            proof {
                assert(results_view(results@) =~= results_view(results@) + Seq::<ResultView>::empty());
            }
            return;
        }
        let primary = match first_fn_assignment(assignments, true) {
            Some(m) => Some(m),
            None => first_fn,
        };
        let primary_fn = match primary {
            Some(m) => {
                let def_id = match &assignments[m].candidate {
                    SlotCandidate::Fn(c) => c.def_id,
                    SlotCandidate::Adt(_) => {
                        proof {
                            assert(asg[m as int] == assignments@[m as int]@);
                        }
                        return;
                    },
                };
                proof {
                    assert(asg[m as int] == assignments@[m as int]@);
                }
                Some(FnMatchContext { def_id, fn_name: None, header: None, has_self: false, self_ty: None })
            },
            None => None,
        };
        let result = SessionResult {
            assignments: copy_assignments(assignments),
            bindings: bindings.copy(),
            primary_fn,
        };
        let ghost before = results@;
        results.push(result);
        proof {
            assert(results_view(results@) =~= results_view(before).push(result@));
            assert(result@ == (ResultView { assignments: asg, bindings: bindings@, primary_fn: primary_of(asg) }));
        }
    }

    /// The candidate list of an ADT slot: the first ADT slot with the slot's name.
    fn adt_slot_index(&self, slot: MatchSlot) -> (r: usize)
        requires
            slot is Adt,
            adt_slot_position(self.adt_slots@, slot->Adt_0, 0) is Some,
        ensures
            r as int == adt_slot_position(self.adt_slots@, slot->Adt_0, 0)->Some_0,
    {
        let name = match slot {
            MatchSlot::Adt(name) => name,
            MatchSlot::Fn(_) => {
                return 0;
            },
        };
        for i in 0..self.adt_slots.len()
            invariant
                slot is Adt,
                name == slot->Adt_0,
                adt_slot_position(self.adt_slots@, name, 0) is Some,
                adt_slot_position(self.adt_slots@, name, 0) == adt_slot_position(self.adt_slots@, name, i as int),
        {
            if self.adt_slots[i].adt_pat_name.same(&name) {
                return i;
            }
        }
        proof {
            assert(adt_slot_position(self.adt_slots@, name, self.adt_slots@.len() as int) is None);
        }
        0
    }
}

/// The position of the first function assignment (whose MIR body matched, if `with_body`).
fn first_fn_assignment(asg: &Vec<SlotAssignment>, with_body: bool) -> (r: Option<usize>)
    ensures
        r matches Some(m) ==> first_assignment(
            assignments_view(asg@),
            if with_body {
                is_body_fn_assignment()
            } else {
                is_fn_assignment()
            },
            0,
        ) == Some(m as int),
        r is None ==> first_assignment(
            assignments_view(asg@),
            if with_body {
                is_body_fn_assignment()
            } else {
                is_fn_assignment()
            },
            0,
        ) is None,
        r matches Some(m) ==> m < asg@.len() && assignments_view(asg@)[m as int].candidate is Fn,
{
    let ghost v = assignments_view(asg@);
    let ghost pred = if with_body {
        is_body_fn_assignment()
    } else {
        is_fn_assignment()
    };
    for i in 0..asg.len()
        invariant
            v == assignments_view(asg@),
            pred == (if with_body {
                is_body_fn_assignment()
            } else {
                is_fn_assignment()
            }),
            first_assignment(v, pred, 0) == first_assignment(v, pred, i as int),
    {
        assert(v[i as int] == asg@[i as int]@);
        let hit = match &asg[i].candidate {
            SlotCandidate::Fn(c) => !with_body || c.has_body_match,
            SlotCandidate::Adt(_) => false,
        };
        if hit {
            return Some(i);
        }
    }
    None
}

/// The position of the first ADT assignment.
fn first_adt_assignment(asg: &Vec<SlotAssignment>) -> (r: Option<usize>)
    ensures
        r matches Some(m) ==> first_assignment(assignments_view(asg@), is_adt_assignment(), 0) == Some(m as int),
        r is None ==> first_assignment(assignments_view(asg@), is_adt_assignment(), 0) is None,
{
    let ghost v = assignments_view(asg@);
    let ghost pred = is_adt_assignment();
    for i in 0..asg.len()
        invariant
            v == assignments_view(asg@),
            pred == is_adt_assignment(),
            first_assignment(v, pred, 0) == first_assignment(v, pred, i as int),
    {
        assert(v[i as int] == asg@[i as int]@);
        let hit = match &asg[i].candidate {
            SlotCandidate::Fn(_) => false,
            SlotCandidate::Adt(_) => true,
        };
        if hit {
            return Some(i);
        }
    }
    None
}

} // verus!
