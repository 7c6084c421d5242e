//! What every result of the slot solver satisfies: each assignment puts one of a
//! slot's own candidates into that slot, and the result's metavariable bindings hold
//! every value that an assigned candidate fixes.
use vstd::prelude::*;

use crate::bindings::{
    merge_ok, merge_result, skip_none, skip_unbound_tys, snapshot_compatible, snapshot_fits, snapshot_merged,
    ty_merge_ok, ty_merged, BindingsView,
};
use crate::csp::CspProblem;
use crate::slot::{AssignView, CandView, ResultView};
use crate::types::LocalDefId;

verus! {

/// Every value of `src` that `skip` does not ignore stands fixed at its position in `b`.
pub open spec fn seq_holds<T>(b: Seq<Option<T>>, src: Seq<T>, skip: spec_fn(T) -> bool) -> bool {
    forall|i: int| 0 <= i < src.len() && !skip(#[trigger] src[i]) ==> i < b.len() && b[i] == Some(src[i])
}

/// The bindings `b` hold every value that the assigned candidate fixes: all values of a
/// function candidate's snapshot (its field indices included), or the type values of an
/// ADT candidate other than generic parameters and the never type.
pub open spec fn holds_assignment(b: BindingsView, a: AssignView) -> bool {
    match a.candidate {
        CandView::Fn(c) => {
            &&& seq_holds(b.ty_vars, c.snapshot.ty_vars, skip_unbound_tys())
            &&& seq_holds(b.const_vars, c.snapshot.const_vars, skip_none())
            &&& seq_holds(b.place_vars, c.snapshot.place_vars, skip_none())
            &&& c.snapshot.adt_fields.submap_of(b.adt_fields)
        },
        CandView::Adt(c) => seq_holds(b.ty_vars, c.ty_bindings, skip_unbound_tys()),
    }
}

impl CspProblem {
    /// The assignment of the `k`-th candidate of function slot `idx` to that slot.
    pub open spec fn fn_assignment(self, idx: int, k: int) -> AssignView {
        AssignView {
            slot: self.fn_slots[idx].slot,
            candidate: CandView::Fn(self.fn_candidates[self.fn_list_of(idx)][k]),
        }
    }

    /// The assignment of the `k`-th candidate of ADT slot `idx` to that slot.
    pub open spec fn adt_assignment(self, idx: int, k: int) -> AssignView {
        AssignView {
            slot: self.adt_slots[idx].slot,
            candidate: CandView::Adt(self.adt_candidates[self.adt_list_of(idx)][k]),
        }
    }

    /// `a` puts one of a slot's own candidates into that slot.
    pub open spec fn own_candidate(self, a: AssignView) -> bool {
        ||| exists|idx: int, k: int|
            0 <= idx < self.fn_slots.len() && 0 <= k < self.fn_candidates[self.fn_list_of(idx)].len() && a
                == #[trigger] self.fn_assignment(idx, k)
        ||| exists|idx: int, k: int|
            0 <= idx < self.adt_slots.len() && 0 <= k < self.adt_candidates[self.adt_list_of(idx)].len() && a
                == #[trigger] self.adt_assignment(idx, k)
    }

    /// Every assignment of `asg` is a slot's own candidate, and `b` holds its values.
    pub open spec fn assignments_sound(self, b: BindingsView, asg: Seq<AssignView>) -> bool {
        forall|i: int|
            0 <= i < asg.len() ==> self.own_candidate(#[trigger] asg[i]) && holds_assignment(b, asg[i])
    }

    /// Every result in `s` satisfies the slot rules and holds its candidates' values.
    pub open spec fn results_sound(self, s: Seq<ResultView>) -> bool {
        forall|r: int| 0 <= r < s.len() ==> self.assignments_sound((#[trigger] s[r]).bindings, s[r].assignments)
    }
}

proof fn lemma_results_sound_concat(p: CspProblem, a: Seq<ResultView>, b: Seq<ResultView>)
    requires
        p.results_sound(a),
        p.results_sound(b),
    ensures
        p.results_sound(a + b),
{
    assert forall|r: int| 0 <= r < (a + b).len() implies p.assignments_sound(
        (#[trigger] (a + b)[r]).bindings,
        (a + b)[r].assignments,
    ) by {
        if r < a.len() {
            assert((a + b)[r] == a[r]);
        } else {
            assert((a + b)[r] == b[r - a.len()]);
        }
    }
}

/// A merge without contradiction keeps every value held before, and holds the merged
/// values afterwards.
proof fn lemma_merge_holds<T>(
    target: Seq<Option<T>>,
    source: Seq<T>,
    skip: spec_fn(T) -> bool,
    held: Seq<T>,
)
    requires
        merge_ok(target, source, skip),
        source.len() <= target.len(),
    ensures
        seq_holds(merge_result(target, source, skip), source, skip),
        seq_holds(target, held, skip) ==> seq_holds(merge_result(target, source, skip), held, skip),
{
    let m = merge_result(target, source, skip);
    if seq_holds(target, held, skip) {
        assert forall|i: int| 0 <= i < held.len() && !skip(#[trigger] held[i]) implies i < m.len() && m[i] == Some(
            held[i],
        ) by {
            if i < source.len() && !skip(source[i]) {
                assert(target[i] == Some(held[i]));
            }
        }
    }
}

/// Merging a compatible snapshot keeps what `b` held of an earlier assignment.
proof fn lemma_snapshot_merge_keeps(b: BindingsView, s: crate::bindings::SnapshotView, a: AssignView)
    requires
        snapshot_fits(b, s),
        snapshot_compatible(b, s),
        holds_assignment(b, a),
    ensures
        holds_assignment(snapshot_merged(b, s), a),
{
    let m = snapshot_merged(b, s);
    match a.candidate {
        CandView::Fn(c) => {
            lemma_merge_holds(b.ty_vars, s.ty_vars, skip_unbound_tys(), c.snapshot.ty_vars);
            lemma_merge_holds(b.const_vars, s.const_vars, skip_none(), c.snapshot.const_vars);
            lemma_merge_holds(b.place_vars, s.place_vars, skip_none(), c.snapshot.place_vars);
            assert(c.snapshot.adt_fields.submap_of(m.adt_fields)) by {
                assert forall|k| #[trigger] c.snapshot.adt_fields.contains_key(k) implies m.adt_fields.contains_key(k)
                    && m.adt_fields[k] == c.snapshot.adt_fields[k] by {
                    assert(b.adt_fields.contains_key(k));
                    if s.adt_fields.contains_key(k) {
                        assert(b.adt_fields[k] == s.adt_fields[k]);
                    }
                }
            }
        },
        CandView::Adt(c) => {
            lemma_merge_holds(b.ty_vars, s.ty_vars, skip_unbound_tys(), c.ty_bindings);
        },
    }
}

/// Merging compatible ADT type values keeps what `b` held of an earlier assignment.
proof fn lemma_ty_merge_keeps(b: BindingsView, tys: Seq<crate::types::Ty>, a: AssignView)
    requires
        tys.len() <= b.ty_vars.len(),
        ty_merge_ok(b, tys),
        holds_assignment(b, a),
    ensures
        holds_assignment(ty_merged(b, tys), a),
{
    match a.candidate {
        CandView::Fn(c) => {
            lemma_merge_holds(b.ty_vars, tys, skip_unbound_tys(), c.snapshot.ty_vars);
        },
        CandView::Adt(c) => {
            lemma_merge_holds(b.ty_vars, tys, skip_unbound_tys(), c.ty_bindings);
        },
    }
}

impl CspProblem {
    proof fn lemma_fn_level_sound(
        self,
        idx: int,
        b: BindingsView,
        asg: Seq<AssignView>,
        used: Seq<LocalDefId>,
        prior: nat,
    )
        requires
            self.well_formed(),
            self.shaped(b),
            self.assignments_sound(b, asg),
        ensures
            self.results_sound(self.fn_level(idx, b, asg, used, prior)),
        decreases 0int, self.fn_slots.len() - idx, 1int, 0int,
    {
        if self.limit_reached(prior) {
        } else if idx < 0 || idx >= self.fn_slots.len() {
        } else if self.fn_slots[idx].optional {
            let skipped = self.fn_level(idx + 1, b, asg, used, prior);
            self.lemma_fn_level_sound(idx + 1, b, asg, used, prior);
            self.lemma_fn_tries_sound(idx, 0, b, asg, used, prior + skipped.len());
            lemma_results_sound_concat(self, skipped, self.fn_tries(idx, 0, b, asg, used, prior + skipped.len()));
        } else {
            self.lemma_fn_tries_sound(idx, 0, b, asg, used, prior);
        }
    }

    proof fn lemma_fn_tries_sound(
        self,
        idx: int,
        c: int,
        b: BindingsView,
        asg: Seq<AssignView>,
        used: Seq<LocalDefId>,
        prior: nat,
    )
        requires
            self.well_formed(),
            self.shaped(b),
            self.assignments_sound(b, asg),
        ensures
            self.results_sound(self.fn_tries(idx, c, b, asg, used, prior)),
        decreases 0int, self.fn_slots.len() - idx, 0int, self.fn_candidates[self.fn_list_of(idx)].len() - c,
    {
        let k = self.fn_list_of(idx);
        if idx < 0 || idx >= self.fn_slots.len() || k < 0 || k >= self.fn_candidates.len() || c < 0
            || c >= self.fn_candidates[k].len() {
        } else {
            let cand = self.fn_candidates[k][c];
            if used.contains(cand.def_id) || !snapshot_compatible(b, cand.snapshot) {
                self.lemma_fn_tries_sound(idx, c + 1, b, asg, used, prior);
            } else {
                let a = self.fn_assignment(idx, c);
                let asg2 = asg.push(a);
                let b2 = snapshot_merged(b, cand.snapshot);
                assert(snapshot_fits(self.initial_bindings(), cand.snapshot));
                assert(self.assignments_sound(b2, asg2)) by {
                    assert forall|i: int| 0 <= i < asg2.len() implies self.own_candidate(#[trigger] asg2[i])
                        && holds_assignment(b2, asg2[i]) by {
                        if i < asg.len() {
                            assert(asg2[i] == asg[i]);
                            lemma_snapshot_merge_keeps(b, cand.snapshot, asg[i]);
                        } else {
                            assert(asg2[i] == a);
                            lemma_merge_holds(b.ty_vars, cand.snapshot.ty_vars, skip_unbound_tys(), Seq::empty());
                            lemma_merge_holds(b.const_vars, cand.snapshot.const_vars, skip_none(), Seq::empty());
                            lemma_merge_holds(b.place_vars, cand.snapshot.place_vars, skip_none(), Seq::empty());
                            assert(cand.snapshot.adt_fields.submap_of(b2.adt_fields));
                        }
                    }
                }
                let found = self.fn_level(idx + 1, b2, asg2, used.push(cand.def_id), prior);
                self.lemma_fn_level_sound(idx + 1, b2, asg2, used.push(cand.def_id), prior);
                self.lemma_fn_tries_sound(idx, c + 1, b, asg, used, prior + found.len());
                lemma_results_sound_concat(self, found, self.fn_tries(idx, c + 1, b, asg, used, prior + found.len()));
            }
        }
    }

    proof fn lemma_adt_level_sound(
        self,
        idx: int,
        b: BindingsView,
        asg: Seq<AssignView>,
        used: Seq<LocalDefId>,
        prior: nat,
    )
        requires
            self.well_formed(),
            self.shaped(b),
            self.assignments_sound(b, asg),
        ensures
            self.results_sound(self.adt_level(idx, b, asg, used, prior)),
        decreases 1int, self.adt_slots.len() - idx, 1int, 0int,
    {
        if idx < 0 || idx >= self.adt_slots.len() {
            self.lemma_fn_level_sound(0, b, asg, used, prior);
        } else {
            let j = self.adt_list_of(idx);
            if 0 <= j < self.adt_candidates.len() && self.adt_candidates[j].len() == 0 {
                self.lemma_adt_level_sound(idx + 1, b, asg, used, prior);
            } else {
                self.lemma_adt_tries_sound(idx, 0, b, asg, used, prior);
            }
        }
    }

    proof fn lemma_adt_tries_sound(
        self,
        idx: int,
        c: int,
        b: BindingsView,
        asg: Seq<AssignView>,
        used: Seq<LocalDefId>,
        prior: nat,
    )
        requires
            self.well_formed(),
            self.shaped(b),
            self.assignments_sound(b, asg),
        ensures
            self.results_sound(self.adt_tries(idx, c, b, asg, used, prior)),
        decreases 1int, self.adt_slots.len() - idx, 0int, self.adt_candidates[self.adt_list_of(idx)].len() - c,
    {
        let j = self.adt_list_of(idx);
        if idx < 0 || idx >= self.adt_slots.len() || j < 0 || j >= self.adt_candidates.len() || c < 0
            || c >= self.adt_candidates[j].len() || self.limit_reached(prior) {
        } else {
            let cand = self.adt_candidates[j][c];
            if !ty_merge_ok(b, cand.ty_bindings) {
                self.lemma_adt_tries_sound(idx, c + 1, b, asg, used, prior);
            } else {
                let a = self.adt_assignment(idx, c);
                let asg2 = asg.push(a);
                let b2 = ty_merged(b, cand.ty_bindings);
                assert(cand.ty_bindings.len() <= self.ty_count);
                assert(self.assignments_sound(b2, asg2)) by {
                    assert forall|i: int| 0 <= i < asg2.len() implies self.own_candidate(#[trigger] asg2[i])
                        && holds_assignment(b2, asg2[i]) by {
                        if i < asg.len() {
                            assert(asg2[i] == asg[i]);
                            lemma_ty_merge_keeps(b, cand.ty_bindings, asg[i]);
                        } else {
                            assert(asg2[i] == a);
                            lemma_merge_holds(b.ty_vars, cand.ty_bindings, skip_unbound_tys(), Seq::empty());
                        }
                    }
                }
                let found = self.adt_level(idx + 1, b2, asg2, used, prior);
                self.lemma_adt_level_sound(idx + 1, b2, asg2, used, prior);
                self.lemma_adt_tries_sound(idx, c + 1, b, asg, used, prior + found.len());
                lemma_results_sound_concat(self, found, self.adt_tries(idx, c + 1, b, asg, used, prior + found.len()));
            }
        }
    }

    /// Every result of a well-formed session puts into each slot it fills one of that
    /// slot's own candidates, and its bindings hold every value that an assigned
    /// candidate fixes: the results' bindings are the merge of their candidates.
    pub proof fn lemma_solutions_sound(self)
        requires
            self.well_formed(),
        ensures
            self.results_sound(self.solutions()),
    {
        self.lemma_adt_level_sound(0, self.initial_bindings(), Seq::empty(), Seq::empty(), 0);
    }
}

/// `x` is an element of `a + b` when it is one of `a` or of `b`.
proof fn lemma_contains_concat(a: Seq<ResultView>, b: Seq<ResultView>, x: ResultView)
    requires
        a.contains(x) || b.contains(x),
    ensures
        (a + b).contains(x),
{
    if a.contains(x) {
        let i = choose|i: int| 0 <= i < a.len() && a[i] == x;
        assert((a + b)[i] == x);
    } else {
        let i = choose|i: int| 0 <= i < b.len() && b[i] == x;
        assert((a + b)[a.len() + i] == x);
    }
}

impl CspProblem {
    /// The result of filling the function slots from `idx` on as `choice` says: the
    /// candidate at `choice[s]` for slot `s`, or nothing where `choice[s]` is negative. It
    /// is empty when the choice leaves a mandatory slot empty, names no candidate of the
    /// slot, assigns a function twice or contradicts the bindings so far, or when the
    /// filling gives no result.
    pub open spec fn fn_filling(
        self,
        idx: int,
        b: BindingsView,
        asg: Seq<AssignView>,
        used: Seq<LocalDefId>,
        choice: Seq<int>,
    ) -> Seq<ResultView>
        decreases self.fn_slots.len() - idx,
    {
        if idx < 0 || idx >= self.fn_slots.len() {
            self.result_of(b, asg)
        } else if idx >= choice.len() {
            Seq::empty()
        } else if choice[idx] < 0 {
            if self.fn_slots[idx].optional {
                self.fn_filling(idx + 1, b, asg, used, choice)
            } else {
                Seq::empty()
            }
        } else {
            let k = self.fn_list_of(idx);
            let c = choice[idx];
            if 0 <= k < self.fn_candidates.len() && c < self.fn_candidates[k].len() {
                let cand = self.fn_candidates[k][c];
                if !used.contains(cand.def_id) && snapshot_compatible(b, cand.snapshot) {
                    self.fn_filling(
                        idx + 1,
                        snapshot_merged(b, cand.snapshot),
                        asg.push(self.fn_assignment(idx, c)),
                        used.push(cand.def_id),
                        choice,
                    )
                } else {
                    Seq::empty()
                }
            } else {
                Seq::empty()
            }
        }
    }

    /// The result of filling the ADT slots from `idx` on as `adt_choice` says (nothing
    /// where it is negative, which only a slot without candidates allows), and then the
    /// function slots as `fn_choice` says.
    pub open spec fn adt_filling(
        self,
        idx: int,
        b: BindingsView,
        asg: Seq<AssignView>,
        used: Seq<LocalDefId>,
        adt_choice: Seq<int>,
        fn_choice: Seq<int>,
    ) -> Seq<ResultView>
        decreases self.adt_slots.len() - idx,
    {
        if idx < 0 || idx >= self.adt_slots.len() {
            self.fn_filling(0, b, asg, used, fn_choice)
        } else if idx >= adt_choice.len() {
            Seq::empty()
        } else {
            let j = self.adt_list_of(idx);
            let c = adt_choice[idx];
            if !(0 <= j < self.adt_candidates.len()) {
                Seq::empty()
            } else if c < 0 {
                if self.adt_candidates[j].len() == 0 {
                    self.adt_filling(idx + 1, b, asg, used, adt_choice, fn_choice)
                } else {
                    Seq::empty()
                }
            } else if c < self.adt_candidates[j].len() && ty_merge_ok(b, self.adt_candidates[j][c].ty_bindings) {
                self.adt_filling(
                    idx + 1,
                    ty_merged(b, self.adt_candidates[j][c].ty_bindings),
                    asg.push(self.adt_assignment(idx, c)),
                    used,
                    adt_choice,
                    fn_choice,
                )
            } else {
                Seq::empty()
            }
        }
    }

    proof fn lemma_fn_level_complete(
        self,
        idx: int,
        b: BindingsView,
        asg: Seq<AssignView>,
        used: Seq<LocalDefId>,
        prior: nat,
        choice: Seq<int>,
        x: ResultView,
    )
        requires
            self.config.max_results == 0,
            self.fn_filling(idx, b, asg, used, choice).contains(x),
        ensures
            self.fn_level(idx, b, asg, used, prior).contains(x),
        decreases 0int, self.fn_slots.len() - idx, 1int, 0int,
    {
        if idx < 0 || idx >= self.fn_slots.len() {
        } else if choice[idx] < 0 {
            let skipped = self.fn_level(idx + 1, b, asg, used, prior);
            self.lemma_fn_level_complete(idx + 1, b, asg, used, prior, choice, x);
            lemma_contains_concat(skipped, self.fn_tries(idx, 0, b, asg, used, prior + skipped.len()), x);
        } else if self.fn_slots[idx].optional {
            let skipped = self.fn_level(idx + 1, b, asg, used, prior);
            self.lemma_fn_tries_complete(idx, 0, b, asg, used, prior + skipped.len(), choice, x);
            lemma_contains_concat(skipped, self.fn_tries(idx, 0, b, asg, used, prior + skipped.len()), x);
        } else {
            self.lemma_fn_tries_complete(idx, 0, b, asg, used, prior, choice, x);
        }
    }

    proof fn lemma_fn_tries_complete(
        self,
        idx: int,
        c: int,
        b: BindingsView,
        asg: Seq<AssignView>,
        used: Seq<LocalDefId>,
        prior: nat,
        choice: Seq<int>,
        x: ResultView,
    )
        requires
            self.config.max_results == 0,
            0 <= idx < self.fn_slots.len(),
            idx < choice.len(),
            0 <= c <= choice[idx],
            self.fn_filling(idx, b, asg, used, choice).contains(x),
        ensures
            self.fn_tries(idx, c, b, asg, used, prior).contains(x),
        decreases 0int, self.fn_slots.len() - idx, 0int, self.fn_candidates[self.fn_list_of(idx)].len() - c,
    {
        let k = self.fn_list_of(idx);
        let cand = self.fn_candidates[k][c];
        if used.contains(cand.def_id) || !snapshot_compatible(b, cand.snapshot) {
            self.lemma_fn_tries_complete(idx, c + 1, b, asg, used, prior, choice, x);
        } else {
            let b2 = snapshot_merged(b, cand.snapshot);
            let asg2 = asg.push(AssignView { slot: self.fn_slots[idx].slot, candidate: CandView::Fn(cand) });
            let found = self.fn_level(idx + 1, b2, asg2, used.push(cand.def_id), prior);
            if c == choice[idx] {
                assert(asg2 == asg.push(self.fn_assignment(idx, c)));
                self.lemma_fn_level_complete(idx + 1, b2, asg2, used.push(cand.def_id), prior, choice, x);
                lemma_contains_concat(found, self.fn_tries(idx, c + 1, b, asg, used, prior + found.len()), x);
            } else {
                self.lemma_fn_tries_complete(idx, c + 1, b, asg, used, prior + found.len(), choice, x);
                lemma_contains_concat(found, self.fn_tries(idx, c + 1, b, asg, used, prior + found.len()), x);
            }
        }
    }

    proof fn lemma_adt_level_complete(
        self,
        idx: int,
        b: BindingsView,
        asg: Seq<AssignView>,
        used: Seq<LocalDefId>,
        prior: nat,
        adt_choice: Seq<int>,
        fn_choice: Seq<int>,
        x: ResultView,
    )
        requires
            self.config.max_results == 0,
            self.adt_filling(idx, b, asg, used, adt_choice, fn_choice).contains(x),
        ensures
            self.adt_level(idx, b, asg, used, prior).contains(x),
        decreases 1int, self.adt_slots.len() - idx, 1int, 0int,
    {
        if idx < 0 || idx >= self.adt_slots.len() {
            self.lemma_fn_level_complete(0, b, asg, used, prior, fn_choice, x);
        } else if adt_choice[idx] < 0 {
            self.lemma_adt_level_complete(idx + 1, b, asg, used, prior, adt_choice, fn_choice, x);
        } else {
            self.lemma_adt_tries_complete(idx, 0, b, asg, used, prior, adt_choice, fn_choice, x);
        }
    }

    proof fn lemma_adt_tries_complete(
        self,
        idx: int,
        c: int,
        b: BindingsView,
        asg: Seq<AssignView>,
        used: Seq<LocalDefId>,
        prior: nat,
        adt_choice: Seq<int>,
        fn_choice: Seq<int>,
        x: ResultView,
    )
        requires
            self.config.max_results == 0,
            0 <= idx < self.adt_slots.len(),
            idx < adt_choice.len(),
            0 <= c <= adt_choice[idx],
            self.adt_filling(idx, b, asg, used, adt_choice, fn_choice).contains(x),
        ensures
            self.adt_tries(idx, c, b, asg, used, prior).contains(x),
        decreases 1int, self.adt_slots.len() - idx, 0int, self.adt_candidates[self.adt_list_of(idx)].len() - c,
    {
        let j = self.adt_list_of(idx);
        let cand = self.adt_candidates[j][c];
        if !ty_merge_ok(b, cand.ty_bindings) {
            self.lemma_adt_tries_complete(idx, c + 1, b, asg, used, prior, adt_choice, fn_choice, x);
        } else {
            let b2 = ty_merged(b, cand.ty_bindings);
            let asg2 = asg.push(AssignView { slot: self.adt_slots[idx].slot, candidate: CandView::Adt(cand) });
            let found = self.adt_level(idx + 1, b2, asg2, used, prior);
            if c == adt_choice[idx] {
                assert(asg2 == asg.push(self.adt_assignment(idx, c)));
                self.lemma_adt_level_complete(idx + 1, b2, asg2, used, prior, adt_choice, fn_choice, x);
                lemma_contains_concat(found, self.adt_tries(idx, c + 1, b, asg, used, prior + found.len()), x);
            } else {
                self.lemma_adt_tries_complete(idx, c + 1, b, asg, used, prior + found.len(), adt_choice, fn_choice, x);
                lemma_contains_concat(found, self.adt_tries(idx, c + 1, b, asg, used, prior + found.len()), x);
            }
        }
    }

    /// Without a result limit the search misses nothing: every filling of the slots
    /// (a candidate of its own list for each ADT slot that has any, and for each
    /// function slot either a candidate of its own list or, if the slot is optional,
    /// nothing) that assigns no function twice, whose candidates never contradict the
    /// bindings fixed before them, and that gives a result, is among the solutions.
    pub proof fn lemma_solutions_complete(self, adt_choice: Seq<int>, fn_choice: Seq<int>, x: ResultView)
        requires
            self.config.max_results == 0,
            self.adt_filling(0, self.initial_bindings(), Seq::empty(), Seq::empty(), adt_choice, fn_choice).contains(
                x,
            ),
        ensures
            self.solutions().contains(x),
    {
        self.lemma_adt_level_complete(
            0,
            self.initial_bindings(),
            Seq::empty(),
            Seq::empty(),
            0,
            adt_choice,
            fn_choice,
            x,
        );
    }
}

} // verus!
