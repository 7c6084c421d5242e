//! Pattern operations: results of positive operands that no negative operand matched.
use vstd::prelude::*;

use crate::bindings::{BindingSnapshot, SnapshotView};
use crate::normalized::{
    indices_in_bounds, reindexed, renamed_labels, sort_labels, MatchedMap, NormalizedView,
};
use crate::session::MatchSession;
use crate::slot::{
    primary_candidate, results_view, AssignView, CandView, FnCandView, FnSlotCandidate, ResultView,
    SessionResult, SlotAssignment, SlotCandidate, assignments_view,
};
use crate::types::{Interned, LocalDefId};

verus! {

/// A normalized match mapped through `m`.
pub open spec fn normalized_mapped(n: NormalizedView, m: &MatchedMap) -> NormalizedView {
    NormalizedView {
        ty_vars: reindexed(n.ty_vars, m.ty_vars@),
        const_vars: reindexed(n.const_vars, m.const_vars@),
        place_vars: reindexed(n.place_vars, m.place_vars@),
        adt_fields: n.adt_fields,
        extra: sort_labels(renamed_labels(n.extra, m.labels@)),
    }
}

/// Every metavariable that `m` picks exists in `n`.
pub open spec fn map_applies(n: NormalizedView, m: &MatchedMap) -> bool {
    &&& indices_in_bounds(n.ty_vars, m.ty_vars@)
    &&& indices_in_bounds(n.const_vars, m.const_vars@)
    &&& indices_in_bounds(n.place_vars, m.place_vars@)
}

/// An assignment whose function candidate is mapped through `m` (an ADT one is kept).
pub open spec fn assignment_mapped(a: AssignView, m: &MatchedMap) -> AssignView {
    match a.candidate {
        CandView::Fn(c) => {
            let n = normalized_mapped(c.normalized, m);
            AssignView {
                slot: a.slot,
                candidate: CandView::Fn(
                    FnCandView {
                        normalized: n,
                        snapshot: SnapshotView {
                            ty_vars: n.ty_vars,
                            const_vars: n.const_vars,
                            place_vars: n.place_vars,
                            adt_fields: n.adt_fields,
                        },
                        ..c
                    },
                ),
            }
        },
        CandView::Adt(_) => a,
    }
}

/// A result whose function candidates are mapped through `m`.
pub open spec fn result_mapped(r: ResultView, m: &MatchedMap) -> ResultView {
    ResultView {
        assignments: Seq::new(r.assignments.len(), |i: int| assignment_mapped(r.assignments[i], m)),
        ..r
    }
}

/// `m` applies to every function candidate of `r`.
pub open spec fn result_map_applies(r: ResultView, m: &MatchedMap) -> bool {
    forall|i: int|
        0 <= i < r.assignments.len() ==> ((#[trigger] r.assignments[i]).candidate matches CandView::Fn(c)
            ==> map_applies(c.normalized, m))
}

/// The results of one operand of a pattern operation, with the operand's mapping.
#[derive(Debug)]
pub struct OperationOperand {
    pub results: Vec<SessionResult>,
    pub map: MatchedMap,
}

/// The results of an operand mapped into the operation's metavariables.
pub open spec fn operand_mapped(op: &OperationOperand) -> Seq<ResultView> {
    Seq::new(op.results@.len(), |i: int| result_mapped(op.results@[i]@, &op.map))
}

/// The mapped results of all operands, operand after operand.
pub open spec fn operands_mapped(ops: Seq<OperationOperand>) -> Seq<ResultView>
    decreases ops.len(),
{
    if ops.len() == 0 {
        Seq::empty()
    } else {
        operands_mapped(ops.drop_last()) + operand_mapped(&ops.last())
    }
}

/// The mapping of every operand applies to its results.
pub open spec fn operands_map_apply(ops: Seq<OperationOperand>) -> bool {
    forall|i: int, j: int|
        0 <= i < ops.len() && 0 <= j < ops[i].results@.len() ==> result_map_applies(
            (#[trigger] ops[i].results@[j])@,
            &ops[i].map,
        )
}

/// What identifies a result of an operation: its primary function and normalized match.
pub open spec fn operation_key(r: ResultView) -> Option<(LocalDefId, NormalizedView)> {
    match primary_candidate(r) {
        Some(c) => Some((c.def_id, c.normalized)),
        None => None,
    }
}

/// Some negative result has the same key as `p`.
pub open spec fn matched_by_negative(p: ResultView, negative: Seq<ResultView>) -> bool {
    operation_key(p) is Some && exists|j: int|
        0 <= j < negative.len() && operation_key(#[trigger] negative[j]) == operation_key(p)
}

/// The positive results that no negative result matches.
pub open spec fn without_negatives(positive: Seq<ResultView>, negative: Seq<ResultView>) -> Seq<ResultView>
    decreases positive.len(),
{
    if positive.len() == 0 {
        positive
    } else {
        let init = without_negatives(positive.drop_last(), negative);
        if matched_by_negative(positive.last(), negative) {
            init
        } else {
            init.push(positive.last())
        }
    }
}

fn map_assignment(a: SlotAssignment, map: &MatchedMap) -> (r: SlotAssignment)
    requires
        a@.candidate matches CandView::Fn(c) ==> map_applies(c.normalized, map),
    ensures
        r@ == assignment_mapped(a@, map),
{
    let SlotAssignment { slot, candidate } = a;
    match candidate {
        SlotCandidate::Fn(c) => {
            let FnSlotCandidate { def_id, snapshot: _, normalized, has_body_match } = c;
            let normalized = normalized.map(map);
            let snapshot = BindingSnapshot::from_normalized(&normalized);
            SlotAssignment {
                slot,
                candidate: SlotCandidate::Fn(FnSlotCandidate { def_id, snapshot, normalized, has_body_match }),
            }
        },
        SlotCandidate::Adt(c) => SlotAssignment { slot, candidate: SlotCandidate::Adt(c) },
    }
}

impl SessionResult {
    /// Map the function candidates of this result into another pattern's metavariables.
    pub fn map_bindings(self, map: &MatchedMap) -> (r: Self)
        requires
            result_map_applies(self@, map),
        ensures
            r@ == result_mapped(self@, map),
    {
        let ghost orig = self@;
        let SessionResult { assignments, bindings, primary_fn } = self;
        let mut rest = assignments;
        let mut out: Vec<SlotAssignment> = Vec::new();
        let n = rest.len();
        let mut i: usize = 0;
        let ghost target = Seq::new(orig.assignments.len(), |k: int| assignment_mapped(orig.assignments[k], map));
        assert(assignments_view(out@) =~= target.take(0));
        while rest.len() > 0
            invariant
                n == orig.assignments.len(),
                i + rest@.len() == n,
                result_map_applies(orig, map),
                target == Seq::new(orig.assignments.len(), |k: int| assignment_mapped(orig.assignments[k], map)),
                assignments_view(rest@) == orig.assignments.subrange(i as int, n as int),
                assignments_view(out@) == target.take(i as int),
            decreases rest@.len(),
        {
            let ghost old_rest = rest@;
            let a = rest.remove(0);
            proof {
                assert(assignments_view(old_rest)[0] == old_rest[0]@);
                assert(orig.assignments[i as int] == a@);
                assert(assignments_view(rest@) =~= assignments_view(old_rest).subrange(1, old_rest.len() as int));
                assert(assignments_view(rest@) =~= orig.assignments.subrange(i + 1, n as int));
            }
            let mapped = map_assignment(a, map);
            let ghost before = out@;
            out.push(mapped);
            proof {
                assert(assignments_view(out@) =~= assignments_view(before).push(mapped@));
                assert(target.take(i + 1) =~= target.take(i as int).push(target[i as int]));
            }
            i = i + 1;
        }
        assert(target.take(n as int) =~= target);
        SessionResult { assignments: out, bindings, primary_fn }
    }
}

fn map_operands(ops: Vec<OperationOperand>) -> (r: Vec<SessionResult>)
    requires
        operands_map_apply(ops@),
    ensures
        results_view(r@) == operands_mapped(ops@),
{
    let ghost all = ops@;
    let mut rest = ops;
    let mut out: Vec<SessionResult> = Vec::new();
    let n = rest.len();
    let mut i: usize = 0;
    assert(all.take(0) =~= Seq::<OperationOperand>::empty());
    while rest.len() > 0
        invariant
            n == all.len(),
            i + rest@.len() == n,
            operands_map_apply(all),
            rest@ == all.subrange(i as int, n as int),
            results_view(out@) == operands_mapped(all.take(i as int)),
        decreases rest@.len(),
    {
        let op = rest.remove(0);
        assert(all[i as int] == op);
        let OperationOperand { results, map } = op;
        let ghost base = results_view(out@);
        let ghost rs = results@;
        let mut items = results;
        let mut j: usize = 0;
        let m = items.len();
        assert(operand_mapped(&all[i as int]).take(0) =~= Seq::<ResultView>::empty());
        while items.len() > 0
            invariant
                m == rs.len(),
                j + items@.len() == m,
                items@ == rs.subrange(j as int, m as int),
                all[i as int].results@ == rs,
                all[i as int].map == map,
                forall|jj: int| 0 <= jj < rs.len() ==> result_map_applies((#[trigger] rs[jj])@, &map),
                results_view(out@) == base + operand_mapped(&all[i as int]).take(j as int),
            decreases items@.len(),
        {
            let r = items.remove(0);
            assert(rs[j as int] == r);
            let mapped = r.map_bindings(&map);
            let ghost before = out@;
            out.push(mapped);
            proof {
                assert(results_view(out@) =~= results_view(before).push(mapped@));
                assert(operand_mapped(&all[i as int]).take(j + 1) =~= operand_mapped(&all[i as int]).take(j as int).push(
                    operand_mapped(&all[i as int])[j as int],
                ));
            }
            j = j + 1;
        }
        proof {
            assert(operand_mapped(&all[i as int]).take(m as int) =~= operand_mapped(&all[i as int]));
            assert(all.take(i + 1).drop_last() =~= all.take(i as int));
            assert(all.take(i + 1).last() == all[i as int]);
            assert(rest@ =~= all.subrange(i + 1, n as int));
        }
        i = i + 1;
    }
    assert(all.take(n as int) =~= all);
    out
}

impl MatchSession {
    /// The results of a pattern operation: the mapped results of the positive operands
    /// that no mapped result of a negative operand matches on primary function and
    /// normalized match.
    pub fn match_pattern_operation(
        &self,
        positive: Vec<OperationOperand>,
        negative: Vec<OperationOperand>,
    ) -> (r: Vec<SessionResult>)
        requires
            operands_map_apply(positive@),
            operands_map_apply(negative@),
        ensures
            results_view(r@) == without_negatives(operands_mapped(positive@), operands_mapped(negative@)),
    {
        let positive = map_operands(positive);
        let negative = map_operands(negative);
        let ghost pv = results_view(positive@);
        let ghost nv = results_view(negative@);
        let mut rest = positive;
        let mut out: Vec<SessionResult> = Vec::new();
        let n = rest.len();
        let mut i: usize = 0;
        assert(pv.take(0) =~= Seq::<ResultView>::empty());
        while rest.len() > 0
            invariant
                n == pv.len(),
                i + rest@.len() == n,
                nv == results_view(negative@),
                results_view(rest@) == pv.subrange(i as int, n as int),
                results_view(out@) == without_negatives(pv.take(i as int), nv),
            decreases rest@.len(),
        {
            let ghost old_rest = rest@;
            let pos = rest.remove(0);
            proof {
                assert(results_view(old_rest)[0] == old_rest[0]@);
                assert(pv[i as int] == pos@);
                assert(results_view(rest@) =~= results_view(old_rest).subrange(1, old_rest.len() as int));
                assert(results_view(rest@) =~= pv.subrange(i + 1, n as int));
                assert(pv.take(i + 1).drop_last() == pv.take(i as int));
                assert(pv.take(i + 1).last() == pos@);
            }
            let keep = match pos.operation_match_key() {
                None => true,
                Some((pos_def, pos_norm)) => {
                    let mut hit = false;
                    for k in 0..negative.len()
                        invariant
                            nv == results_view(negative@),
                            operation_key(pos@) == Some((pos_def, pos_norm@)),
                            hit == exists|j: int|
                                0 <= j < k && operation_key(#[trigger] nv[j]) == operation_key(pos@),
                    {
                        assert(nv[k as int] == negative@[k as int]@);
                        match negative[k].operation_match_key() {
                            Some((neg_def, neg_norm)) => {
                                if pos_def.same(&neg_def) && pos_norm.same_as(neg_norm) {
                                    hit = true;
                                }
                            },
                            None => {},
                        }
                    }
                    !hit
                },
            };
            if keep {
                let ghost before = out@;
                out.push(pos);
                proof {
                    assert(results_view(out@) =~= results_view(before).push(pv[i as int]));
                }
            }
            i = i + 1;
        }
        assert(pv.take(n as int) =~= pv);
        out
    }
}

} // verus!
