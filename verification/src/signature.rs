//! The set of functions a session result assigns, as a sorted list of definitions.
use vstd::prelude::*;
use vstd::relations::{sorted_by, total_ordering};

use crate::slot::{AssignView, CandView, SessionResult, SlotCandidate, assignments_view};
use crate::types::LocalDefId;

verus! {

/// Definitions ordered by their index.
pub open spec fn def_leq() -> spec_fn(LocalDefId, LocalDefId) -> bool {
    |a: LocalDefId, b: LocalDefId| a.local_def_index <= b.local_def_index
}

/// The functions assigned, in assignment order.
pub open spec fn fn_def_ids(asg: Seq<AssignView>) -> Seq<LocalDefId>
    decreases asg.len(),
{
    if asg.len() == 0 {
        Seq::empty()
    } else {
        let init = fn_def_ids(asg.drop_last());
        match asg.last().candidate {
            CandView::Fn(c) => init.push(c.def_id),
            CandView::Adt(_) => init,
        }
    }
}

/// The functions assigned, sorted by definition index.
pub open spec fn fn_signature(asg: Seq<AssignView>) -> Seq<LocalDefId> {
    fn_def_ids(asg).sort_by(def_leq())
}

pub proof fn lemma_def_leq_total()
    ensures
        total_ordering(def_leq()),
{
}

/// The sorted list of the functions a result assigns.
pub fn fn_assignment_signature(result: &SessionResult) -> (r: Vec<LocalDefId>)
    ensures
        r@ == fn_signature(result@.assignments),
{
    let ghost asg = result@.assignments;
    let mut defs: Vec<LocalDefId> = Vec::new();
    assert(asg.take(0) =~= Seq::<AssignView>::empty());
    for i in 0..result.assignments.len()
        invariant
            asg == assignments_view(result.assignments@),
            defs@ == fn_def_ids(asg.take(i as int)),
    {
        assert(asg.take(i + 1).drop_last() == asg.take(i as int));
        assert(asg.take(i + 1).last() == result.assignments@[i as int]@);
        match &result.assignments[i].candidate {
            SlotCandidate::Fn(c) => defs.push(c.def_id),
            SlotCandidate::Adt(_) => {},
        }
    }
    assert(asg.take(result.assignments@.len() as int) == asg);
    let ghost ids = defs@;
    let mut sorted: Vec<LocalDefId> = Vec::new();
    assert(ids.take(0) =~= Seq::<LocalDefId>::empty());
    for i in 0..defs.len()
        invariant
            ids == defs@,
            sorted_by(sorted@, def_leq()),
            sorted@.to_multiset() == ids.take(i as int).to_multiset(),
    {
        let x = defs[i];
        let mut pos: usize = 0;
        while pos < sorted.len() && sorted[pos].local_def_index <= x.local_def_index
            invariant
                pos <= sorted@.len(),
                forall|j: int| 0 <= j < pos ==> (#[trigger] sorted@[j]).local_def_index <= x.local_def_index,
            decreases sorted@.len() - pos,
        {
            pos = pos + 1;
        }
        let ghost before = sorted@;
        sorted.insert(pos, x);
        proof {
            assert forall|a: int, b: int| 0 <= a < b < sorted@.len() implies #[trigger] def_leq()(
                sorted@[a],
                sorted@[b],
            ) by {
                if b < pos {
                    assert(def_leq()(before[a], before[b]));
                } else if a > pos {
                    assert(def_leq()(before[a - 1], before[b - 1]));
                } else if a == pos {
                    if b - 1 >= pos {
                        assert(before[pos as int].local_def_index > x.local_def_index);
                        if b - 1 > pos {
                            assert(def_leq()(before[pos as int], before[b - 1]));
                        }
                    }
                } else {
                    if b == pos {
                        assert(before[a].local_def_index <= x.local_def_index);
                    } else {
                        assert(def_leq()(before[a], before[b - 1]));
                    }
                }
            }
            vstd::seq_lib::to_multiset_insert(before, pos as int, x);
            assert(ids.take(i + 1) == ids.take(i as int).push(x));
            vstd::seq_lib::to_multiset_build(ids.take(i as int), x);
        }
    }
    proof {
        assert(ids.take(ids.len() as int) == ids);
        lemma_def_leq_total();
        ids.lemma_sort_by_ensures(def_leq());
        vstd::seq_lib::lemma_sorted_unique(sorted@, ids.sort_by(def_leq()), def_leq());
    }
    sorted
}

} // verus!
