//! Orchestration of one pattern item: how its slots relate, how the candidates found
//! for them are combined, and how the results are enriched and deduplicated.
use vstd::prelude::*;

use crate::bindings::{
    empty_bindings, snapshot_compatible, snapshot_fits, snapshot_merged, ty_merge_ok, ty_merged,
    BindingsView, MetaBindings, NonLocalMetaVars,
};
use crate::config::{SessionConfig, DEFAULT_MAX_SESSION_RESULTS};
use crate::csp::{adt_candidate_views, adt_slot_position, fn_candidate_views, CspProblem, CspSolver};
use crate::signature::{fn_assignment_signature, fn_signature};
use crate::normalized::vec_eq;
use crate::slot::{
    bare_context, primary_candidate, primary_slot, results_equivalent, results_view, AdtCandView, AdtSlotCandidate, AdtSlotDesc,
    AssignView, CandView, FnCandView, FnHeader, FnMatchContext, FnSlotCandidate, FnSlotDesc, MatchSlot,
    ResultView, SessionResult, SlotAssignment, SlotCandidate,
};
use crate::types::{Interned, LocalDefId, Symbol, Ty};

verus! {

/// How slots inside one block of Rust items relate to each other.
///
/// This is distinct from OR across separate `patt { ... }` entries, which are matched
/// independently and may all fire on the same MIR site.
#[derive(Debug, Clone, Copy, PartialEq, Eq, Structural)]
pub enum RustItemsMatchingMode {
    /// Single `fn _` slot: each function in the crate is tried independently.
    IndependentWildcardFn,
    /// One ADT slot plus one MIR-body fn: struct and fn bindings must agree, each fn tried
    /// independently.
    StructContextSingleFn,
    /// Multiple MIR-body fn slots with no ADT: OR alternatives that may overlap on the same site.
    AlternativeFns,
    /// Multiple ADT/fn slots or cross-slot metavar sharing: all slots via CSP.
    ConcurrentSlots,
}

/// A block of Rust items of a pattern: its metavariables and its slots.
#[derive(Debug)]
pub struct RustItems {
    pub meta: NonLocalMetaVars,
    pub fn_slots: Vec<FnSlotDesc>,
    pub adt_slots: Vec<AdtSlotDesc>,
    /// The block asks for duplicate results to be dropped.
    pub should_deduplicate: bool,
}

/// A function of the crate being checked.
#[derive(Debug, Clone, Copy)]
pub struct CrateFnItem {
    pub def_id: LocalDefId,
    pub fn_name: Option<Symbol>,
    pub header: Option<FnHeader>,
    pub has_self: bool,
    /// The `Self` type of the impl the function belongs to, if any.
    pub self_ty: Option<Ty>,
}

/// An ADT of the crate being checked.
#[derive(Debug, Clone, Copy)]
pub struct CrateAdtItem {
    pub def_id: LocalDefId,
}

/// The items of the crate that candidates are looked for in.
#[derive(Debug)]
pub struct CrateItemIndex {
    pub fns: Vec<CrateFnItem>,
    pub adts: Vec<CrateAdtItem>,
}

/// The function slots that have a MIR body to match, in order.
pub open spec fn body_slot_descs(s: Seq<FnSlotDesc>) -> Seq<FnSlotDesc>
    decreases s.len(),
{
    if s.len() == 0 {
        s
    } else {
        let init = body_slot_descs(s.drop_last());
        if !s.last().signature_only {
            init.push(s.last())
        } else {
            init
        }
    }
}

/// How the slots of a block relate.
pub open spec fn matching_mode(fn_slots: Seq<FnSlotDesc>, adt_slots: Seq<AdtSlotDesc>) -> RustItemsMatchingMode {
    let body = body_slot_descs(fn_slots);
    if adt_slots.len() == 0 {
        if body.len() == 1 && body[0].optional {
            RustItemsMatchingMode::IndependentWildcardFn
        } else if body.len() > 1 {
            RustItemsMatchingMode::AlternativeFns
        } else {
            RustItemsMatchingMode::ConcurrentSlots
        }
    } else if adt_slots.len() == 1 && body.len() == 1 && !body[0].optional {
        RustItemsMatchingMode::StructContextSingleFn
    } else {
        RustItemsMatchingMode::ConcurrentSlots
    }
}

/// The first position at or after `from` of a function slot equal to `slot`.
pub open spec fn fn_slot_position(fn_slots: Seq<FnSlotDesc>, slot: MatchSlot, from: int) -> Option<int>
    decreases fn_slots.len() - from,
{
    if from < 0 || from >= fn_slots.len() {
        None
    } else if fn_slots[from].slot == slot {
        Some(from)
    } else {
        fn_slot_position(fn_slots, slot, from + 1)
    }
}

/// The result of a single function candidate on its own.
pub open spec fn from_fn_result(b0: BindingsView, slot: MatchSlot, c: FnCandView) -> ResultView {
    ResultView {
        assignments: seq![AssignView { slot, candidate: CandView::Fn(c) }],
        bindings: snapshot_merged(b0, c.snapshot),
        primary_fn: Some(bare_context(c.def_id)),
    }
}

/// The results of the candidates of one function slot, each on its own.
pub open spec fn wildcard_results(b0: BindingsView, slot: MatchSlot, cands: Seq<FnCandView>) -> Seq<ResultView> {
    Seq::new(cands.len(), |i: int| from_fn_result(b0, slot, cands[i]))
}

/// The results pairing one ADT candidate with each agreeing function candidate.
pub open spec fn pair_results(
    b0: BindingsView,
    adt_slot: MatchSlot,
    fn_slot: MatchSlot,
    adt: AdtCandView,
    fns: Seq<FnCandView>,
) -> Seq<ResultView>
    decreases fns.len(),
{
    if fns.len() == 0 {
        Seq::empty()
    } else {
        let init = pair_results(b0, adt_slot, fn_slot, adt, fns.drop_last());
        let c = fns.last();
        let b1 = ty_merged(b0, adt.ty_bindings);
        if ty_merge_ok(b0, adt.ty_bindings) && snapshot_compatible(b1, c.snapshot) {
            init.push(
                ResultView {
                    assignments: seq![
                        AssignView { slot: adt_slot, candidate: CandView::Adt(adt) },
                        AssignView { slot: fn_slot, candidate: CandView::Fn(c) },
                    ],
                    bindings: snapshot_merged(b1, c.snapshot),
                    primary_fn: Some(bare_context(c.def_id)),
                },
            )
        } else {
            init
        }
    }
}

/// The results of every ADT candidate paired with every agreeing function candidate.
pub open spec fn struct_fn_results(
    b0: BindingsView,
    adt_slot: MatchSlot,
    fn_slot: MatchSlot,
    adts: Seq<AdtCandView>,
    fns: Seq<FnCandView>,
) -> Seq<ResultView>
    decreases adts.len(),
{
    if adts.len() == 0 {
        Seq::empty()
    } else {
        struct_fn_results(b0, adt_slot, fn_slot, adts.drop_last(), fns) + pair_results(
            b0,
            adt_slot,
            fn_slot,
            adts.last(),
            fns,
        )
    }
}

/// The results of every body slot's candidates, each on its own, slot after slot.
pub open spec fn alternative_results(
    b0: BindingsView,
    fn_slots: Seq<FnSlotDesc>,
    body: Seq<FnSlotDesc>,
    cands: Seq<Seq<FnCandView>>,
) -> Seq<ResultView>
    decreases body.len(),
{
    if body.len() == 0 {
        Seq::empty()
    } else {
        let d = body.last();
        alternative_results(b0, fn_slots, body.drop_last(), cands) + wildcard_results(
            b0,
            d.slot,
            cands[fn_slot_position(fn_slots, d.slot, 0)->Some_0],
        )
    }
}

/// The first position at or after `from` of the crate function `def_id`.
pub open spec fn fn_item_position(fns: Seq<CrateFnItem>, def_id: LocalDefId, from: int) -> Option<int>
    decreases fns.len() - from,
{
    if from < 0 || from >= fns.len() {
        None
    } else if fns[from].def_id == def_id {
        Some(from)
    } else {
        fn_item_position(fns, def_id, from + 1)
    }
}

/// The `Self` type of the crate function `def_id`, if it is known and has one.
pub open spec fn index_self_ty(fns: Seq<CrateFnItem>, def_id: LocalDefId) -> Option<Ty> {
    match fn_item_position(fns, def_id, 0) {
        Some(j) => fns[j].self_ty,
        None => None,
    }
}

/// A result whose primary function context is completed from the crate index.
pub open spec fn enriched(fns: Seq<CrateFnItem>, r: ResultView) -> ResultView {
    match r.primary_fn {
        None => r,
        Some(ctx) => {
            let named = match fn_item_position(fns, ctx.def_id, 0) {
                Some(j) => FnMatchContext {
                    fn_name: fns[j].fn_name,
                    header: fns[j].header,
                    has_self: fns[j].has_self,
                    ..ctx
                },
                None => ctx,
            };
            ResultView {
                primary_fn: Some(FnMatchContext { self_ty: index_self_ty(fns, ctx.def_id), ..named }),
                ..r
            }
        },
    }
}

/// Every result enriched.
pub open spec fn enrich_all(fns: Seq<CrateFnItem>, s: Seq<ResultView>) -> Seq<ResultView> {
    Seq::new(s.len(), |i: int| enriched(fns, s[i]))
}

/// The results kept when each is dropped if an equivalent one was kept before it.
pub open spec fn dedup_equivalent(s: Seq<ResultView>) -> Seq<ResultView>
    decreases s.len(),
{
    if s.len() == 0 {
        s
    } else {
        let kept = dedup_equivalent(s.drop_last());
        if exists|j: int| 0 <= j < kept.len() && results_equivalent(#[trigger] kept[j], s.last()) {
            kept
        } else {
            kept.push(s.last())
        }
    }
}

/// Deduplicate when asked to.
pub open spec fn dedup_if(deduplicate: bool, s: Seq<ResultView>) -> Seq<ResultView> {
    if deduplicate {
        dedup_equivalent(s)
    } else {
        s
    }
}

/// The results assigning at most one function.
pub open spec fn single_fn_results(s: Seq<ResultView>) -> Seq<ResultView>
    decreases s.len(),
{
    if s.len() == 0 {
        s
    } else if fn_signature(s.last().assignments).len() <= 1 {
        single_fn_results(s.drop_last()).push(s.last())
    } else {
        single_fn_results(s.drop_last())
    }
}

/// The results assigning more than one function.
pub open spec fn multi_fn_results(s: Seq<ResultView>) -> Seq<ResultView>
    decreases s.len(),
{
    if s.len() == 0 {
        s
    } else if fn_signature(s.last().assignments).len() > 1 {
        multi_fn_results(s.drop_last()).push(s.last())
    } else {
        multi_fn_results(s.drop_last())
    }
}

/// The results kept when each is dropped if one assigning the same set of functions
/// was kept before it.
pub open spec fn dedup_signature(s: Seq<ResultView>) -> Seq<ResultView>
    decreases s.len(),
{
    if s.len() == 0 {
        s
    } else {
        let kept = dedup_signature(s.drop_last());
        if exists|j: int|
            0 <= j < kept.len() && fn_signature((#[trigger] kept[j]).assignments) == fn_signature(
                s.last().assignments,
            ) {
            kept
        } else {
            kept.push(s.last())
        }
    }
}

/// The results that assign a single function come first, then the first of each group
/// of results assigning the same set of several functions.
pub open spec fn dedup_permutations(s: Seq<ResultView>) -> Seq<ResultView> {
    single_fn_results(s) + dedup_signature(multi_fn_results(s))
}

/// Slots as they are collected from a block: function slot `i` is `Fn(i)`, ADT slot `i`
/// is named after its pattern, and every candidate fits the block's metavariables.
pub open spec fn block_well_formed(
    items: &RustItems,
    fn_cands: Seq<Seq<FnCandView>>,
    adt_cands: Seq<Seq<AdtCandView>>,
) -> bool {
    let b0 = empty_bindings(items.meta.ty_vars@.len(), items.meta.const_vars@.len(), items.meta.place_vars@.len());
    &&& fn_cands.len() == items.fn_slots@.len()
    &&& adt_cands.len() == items.adt_slots@.len()
    &&& forall|i: int| 0 <= i < items.fn_slots@.len() ==> (#[trigger] items.fn_slots@[i]).slot == MatchSlot::Fn(i as usize)
    &&& forall|i: int|
        0 <= i < items.adt_slots@.len() ==> (#[trigger] items.adt_slots@[i]).slot == MatchSlot::Adt(
            items.adt_slots@[i].adt_pat_name,
        )
    &&& forall|k: int, c: int|
        0 <= k < fn_cands.len() && 0 <= c < fn_cands[k].len() ==> snapshot_fits(b0, (#[trigger] fn_cands[k][c]).snapshot)
    &&& forall|k: int, c: int|
        0 <= k < adt_cands.len() && 0 <= c < adt_cands[k].len() ==> (#[trigger] adt_cands[k][c]).ty_bindings.len()
            <= items.meta.ty_vars@.len()
}

/// The session data of a block.
pub open spec fn block_problem(
    config: SessionConfig,
    items: &RustItems,
    fn_cands: Seq<Seq<FnCandView>>,
    adt_cands: Seq<Seq<AdtCandView>>,
) -> CspProblem {
    CspProblem {
        config,
        ty_count: items.meta.ty_vars@.len(),
        const_count: items.meta.const_vars@.len(),
        place_count: items.meta.place_vars@.len(),
        fn_slots: items.fn_slots@,
        adt_slots: items.adt_slots@,
        fn_candidates: fn_cands,
        adt_candidates: adt_cands,
    }
}

proof fn lemma_dedup_equivalent_len(s: Seq<ResultView>)
    ensures
        dedup_equivalent(s).len() <= s.len(),
    decreases s.len(),
{
    if s.len() > 0 {
        lemma_dedup_equivalent_len(s.drop_last());
    }
}

/// With a positive result limit, a block never yields more results than the limit.
pub proof fn lemma_block_results_within_limit(
    config: SessionConfig,
    fns: Seq<CrateFnItem>,
    items: &RustItems,
    fn_cands: Seq<Seq<FnCandView>>,
    adt_cands: Seq<Seq<AdtCandView>>,
)
    ensures
        config.max_results > 0 ==> block_results(config, fns, items, fn_cands, adt_cands).len()
            <= config.max_results,
{
    let raw = block_raw_results(config, items, fn_cands, adt_cands);
    lemma_dedup_equivalent_len(enrich_all(fns, raw));
}

/// The first `config.max_results` results of `s` when that limit is positive, else all.
pub open spec fn capped_results(config: SessionConfig, s: Seq<ResultView>) -> Seq<ResultView> {
    if config.max_results > 0 && s.len() > config.max_results {
        s.take(config.max_results as int)
    } else {
        s
    }
}

/// The results of a block of Rust items, before enrichment and deduplication.
pub open spec fn block_raw_results(
    config: SessionConfig,
    items: &RustItems,
    fn_cands: Seq<Seq<FnCandView>>,
    adt_cands: Seq<Seq<AdtCandView>>,
) -> Seq<ResultView> {
    let b0 = empty_bindings(items.meta.ty_vars@.len(), items.meta.const_vars@.len(), items.meta.place_vars@.len());
    let fn_slots = items.fn_slots@;
    let body = body_slot_descs(fn_slots);
    capped_results(config, match matching_mode(fn_slots, items.adt_slots@) {
        RustItemsMatchingMode::IndependentWildcardFn => wildcard_results(
            b0,
            body[0].slot,
            fn_cands[fn_slot_position(fn_slots, body[0].slot, 0)->Some_0],
        ),
        RustItemsMatchingMode::StructContextSingleFn => struct_fn_results(
            b0,
            items.adt_slots@[0].slot,
            body[0].slot,
            adt_cands[0],
            fn_cands[fn_slot_position(fn_slots, body[0].slot, 0)->Some_0],
        ),
        RustItemsMatchingMode::AlternativeFns => alternative_results(b0, fn_slots, body, fn_cands),
        RustItemsMatchingMode::ConcurrentSlots => dedup_permutations(
            block_problem(config, items, fn_cands, adt_cands).solutions(),
        ),
    })
}

/// The results of a block of Rust items.
pub open spec fn block_results(
    config: SessionConfig,
    fns: Seq<CrateFnItem>,
    items: &RustItems,
    fn_cands: Seq<Seq<FnCandView>>,
    adt_cands: Seq<Seq<AdtCandView>>,
) -> Seq<ResultView> {
    if items.fn_slots@.len() == 0 && items.adt_slots@.len() == 0 {
        Seq::empty()
    } else {
        dedup_if(items.should_deduplicate, enrich_all(fns, block_raw_results(config, items, fn_cands, adt_cands)))
    }
}

/// Some result of `kept` is equivalent to `r`.
pub open spec fn has_equivalent(kept: Seq<ResultView>, r: ResultView) -> bool {
    exists|j: int| 0 <= j < kept.len() && results_equivalent(#[trigger] kept[j], r)
}

/// Some result of `kept` assigns the functions `sig`.
pub open spec fn has_signature(kept: Seq<ResultView>, sig: Seq<LocalDefId>) -> bool {
    exists|j: int| 0 <= j < kept.len() && fn_signature((#[trigger] kept[j]).assignments) == sig
}

/// Deduplication keeps no two equivalent results, keeps only results it was given, and
/// keeps for every result it was given one equivalent to it.
pub proof fn lemma_dedup_equivalent(s: Seq<ResultView>)
    ensures
        forall|i: int, j: int|
            0 <= i < j < dedup_equivalent(s).len() ==> !results_equivalent(
                #[trigger] dedup_equivalent(s)[i],
                #[trigger] dedup_equivalent(s)[j],
            ),
        forall|j: int| 0 <= j < dedup_equivalent(s).len() ==> s.contains(#[trigger] dedup_equivalent(s)[j]),
        forall|i: int| 0 <= i < s.len() ==> has_equivalent(dedup_equivalent(s), #[trigger] s[i]),
    decreases s.len(),
{
    if s.len() > 0 {
        let init = s.drop_last();
        lemma_dedup_equivalent(init);
        let kept = dedup_equivalent(init);
        let out = dedup_equivalent(s);
        assert forall|j: int| 0 <= j < out.len() implies s.contains(#[trigger] out[j]) by {
            if j < kept.len() {
                assert(init.contains(kept[j]));
                let x = choose|x: int| 0 <= x < init.len() && init[x] == kept[j];
                assert(s[x] == kept[j]);
            } else {
                assert(s[s.len() - 1] == out[j]);
            }
        }
        assert forall|i: int| 0 <= i < s.len() implies has_equivalent(out, #[trigger] s[i]) by {
            if i < s.len() - 1 {
                assert(s[i] == init[i]);
                assert(has_equivalent(kept, init[i]));
                let j = choose|j: int| 0 <= j < kept.len() && results_equivalent(#[trigger] kept[j], init[i]);
                assert(out[j] == kept[j]);
            } else if exists|j: int| 0 <= j < kept.len() && results_equivalent(#[trigger] kept[j], s.last()) {
                let j = choose|j: int| 0 <= j < kept.len() && results_equivalent(#[trigger] kept[j], s.last());
                assert(out[j] == kept[j]);
            } else {
                assert(out[kept.len() as int] == s[i]);
                assert(results_equivalent(out[kept.len() as int], s[i]));
            }
        }
    }
}

/// Results whose primary functions are different functions are never equivalent, and a
/// result with a primary function is never equivalent to one without.
pub proof fn lemma_equivalent_same_primary_fn(a: ResultView, b: ResultView)
    requires
        results_equivalent(a, b),
    ensures
        primary_candidate(a) is Some <==> primary_candidate(b) is Some,
        primary_candidate(a) matches Some(x) ==> primary_candidate(b)->Some_0.def_id == x.def_id,
        primary_candidate(a) matches Some(x) ==> primary_candidate(b)->Some_0.normalized == x.normalized,
        a.bindings == b.bindings,
        a.assignments.len() == b.assignments.len(),
        primary_slot(a) == primary_slot(b),
{
}

/// Results with the same bindings, as many assignments, the same slot for the primary
/// function, and the same primary function with the same normalized match (or neither
/// with a primary function) are equivalent.
pub proof fn lemma_equivalent_when_same_report(a: ResultView, b: ResultView)
    requires
        a.bindings == b.bindings,
        a.assignments.len() == b.assignments.len(),
        primary_slot(a) == primary_slot(b),
        primary_candidate(a) is Some <==> primary_candidate(b) is Some,
        primary_candidate(a) matches Some(x) ==> primary_candidate(b)->Some_0.def_id == x.def_id
            && primary_candidate(b)->Some_0.normalized == x.normalized,
    ensures
        results_equivalent(a, b),
{
}

/// Deduplication loses no primary function: for every result given whose primary function
/// is `f`, a kept result has primary function `f` too, so results of different primary
/// functions all survive.
pub proof fn lemma_dedup_keeps_primary_fns(s: Seq<ResultView>)
    ensures
        forall|i: int|
            0 <= i < s.len() && (#[trigger] primary_candidate(s[i])) is Some ==> exists|j: int|
                0 <= j < dedup_equivalent(s).len() && (#[trigger] primary_candidate(dedup_equivalent(s)[j])) is Some
                    && primary_candidate(dedup_equivalent(s)[j])->Some_0.def_id == primary_candidate(
                    s[i],
                )->Some_0.def_id,
{
    lemma_dedup_equivalent(s);
    let out = dedup_equivalent(s);
    assert forall|i: int| 0 <= i < s.len() && (#[trigger] primary_candidate(s[i])) is Some implies exists|j: int|
        0 <= j < out.len() && (#[trigger] primary_candidate(out[j])) is Some && primary_candidate(out[j])->Some_0.def_id
            == primary_candidate(s[i])->Some_0.def_id by {
        assert(has_equivalent(out, s[i]));
        let j = choose|j: int| 0 <= j < out.len() && results_equivalent(#[trigger] out[j], s[i]);
        lemma_equivalent_same_primary_fn(s[i], out[j]);
        assert(primary_candidate(out[j]) is Some);
    }
}

/// Deduplication by signature keeps no two results assigning the same set of functions,
/// keeps only results it was given, and keeps for every result it was given one
/// assigning the same functions.
pub proof fn lemma_dedup_signature(s: Seq<ResultView>)
    ensures
        forall|i: int, j: int|
            0 <= i < j < dedup_signature(s).len() ==> fn_signature((#[trigger] dedup_signature(s)[i]).assignments)
                != fn_signature((#[trigger] dedup_signature(s)[j]).assignments),
        forall|j: int| 0 <= j < dedup_signature(s).len() ==> s.contains(#[trigger] dedup_signature(s)[j]),
        forall|i: int| 0 <= i < s.len() ==> has_signature(dedup_signature(s), fn_signature((#[trigger] s[i]).assignments)),
    decreases s.len(),
{
    if s.len() > 0 {
        let init = s.drop_last();
        lemma_dedup_signature(init);
        let kept = dedup_signature(init);
        let out = dedup_signature(s);
        assert forall|j: int| 0 <= j < out.len() implies s.contains(#[trigger] out[j]) by {
            if j < kept.len() {
                assert(init.contains(kept[j]));
                let x = choose|x: int| 0 <= x < init.len() && init[x] == kept[j];
                assert(s[x] == kept[j]);
            } else {
                assert(s[s.len() - 1] == out[j]);
            }
        }
        assert forall|i: int| 0 <= i < s.len() implies has_signature(out, fn_signature((#[trigger] s[i]).assignments)) by {
            if i < s.len() - 1 {
                assert(s[i] == init[i]);
                assert(has_signature(kept, fn_signature(init[i].assignments)));
                let j = choose|j: int|
                    0 <= j < kept.len() && fn_signature((#[trigger] kept[j]).assignments) == fn_signature(
                        init[i].assignments,
                    );
                assert(out[j] == kept[j]);
            } else if exists|j: int|
                0 <= j < kept.len() && fn_signature((#[trigger] kept[j]).assignments) == fn_signature(
                    s.last().assignments,
                ) {
                let j = choose|j: int|
                    0 <= j < kept.len() && fn_signature((#[trigger] kept[j]).assignments) == fn_signature(
                        s.last().assignments,
                    );
                assert(out[j] == kept[j]);
            } else {
                assert(out[kept.len() as int] == s[i]);
            }
        }
    }
}

proof fn lemma_body_slots_from(s: Seq<FnSlotDesc>)
    ensures
        forall|i: int| 0 <= i < body_slot_descs(s).len() ==> exists|j: int| 0 <= j < s.len() && s[j] == #[trigger] body_slot_descs(s)[i],
    decreases s.len(),
{
    if s.len() > 0 {
        lemma_body_slots_from(s.drop_last());
        let init = body_slot_descs(s.drop_last());
        assert forall|i: int| 0 <= i < body_slot_descs(s).len() implies exists|j: int| 0 <= j < s.len() && s[j] == #[trigger] body_slot_descs(s)[i] by {
            if i < init.len() {
                let j = choose|j: int| 0 <= j < s.drop_last().len() && s.drop_last()[j] == init[i];
                assert(s[j] == body_slot_descs(s)[i]);
            } else {
                assert(s[s.len() - 1] == body_slot_descs(s)[i]);
            }
        }
    }
}

proof fn lemma_fn_slot_position(fn_slots: Seq<FnSlotDesc>, j: int, from: int)
    requires
        0 <= from <= j < fn_slots.len(),
        fn_slots.len() <= usize::MAX,
        forall|i: int| 0 <= i < fn_slots.len() ==> (#[trigger] fn_slots[i]).slot == MatchSlot::Fn(i as usize),
    ensures
        fn_slot_position(fn_slots, MatchSlot::Fn(j as usize), from) == Some(j),
    decreases j - from,
{
    assert(fn_slots[j].slot == MatchSlot::Fn(j as usize));
    if from < j {
        assert(fn_slots[from].slot == MatchSlot::Fn(from as usize));
        lemma_fn_slot_position(fn_slots, j, from + 1);
    }
}

proof fn lemma_adt_slot_position_exists(slots: Seq<AdtSlotDesc>, name: Symbol, j: int, from: int)
    requires
        0 <= from <= j < slots.len(),
        slots[j].adt_pat_name == name,
    ensures
        adt_slot_position(slots, name, from) matches Some(p) && p <= j,
    decreases j - from,
{
    if from < j && slots[from].adt_pat_name != name {
        lemma_adt_slot_position_exists(slots, name, j, from + 1);
    }
}

/// A block well formed for collection gives the solver a well formed problem.
proof fn lemma_block_problem_well_formed(
    config: SessionConfig,
    items: &RustItems,
    fn_cands: Seq<Seq<FnCandView>>,
    adt_cands: Seq<Seq<AdtCandView>>,
)
    requires
        block_well_formed(items, fn_cands, adt_cands),
    ensures
        block_problem(config, items, fn_cands, adt_cands).well_formed(),
{
    let p = block_problem(config, items, fn_cands, adt_cands);
    assert forall|idx: int| 0 <= idx < p.adt_slots.len() implies {
        &&& (#[trigger] p.adt_slots[idx]).slot is Adt
        &&& adt_slot_position(p.adt_slots, p.adt_slots[idx].slot->Adt_0, 0) is Some
        &&& p.adt_list_of(idx) < p.adt_candidates.len()
    } by {
        assert(items.adt_slots@[idx].slot == MatchSlot::Adt(items.adt_slots@[idx].adt_pat_name));
        lemma_adt_slot_position_exists(p.adt_slots, p.adt_slots[idx].adt_pat_name, idx, 0);
        crate::csp::lemma_adt_slot_position_bounds(p.adt_slots, p.adt_slots[idx].adt_pat_name, 0);
    }
    assert forall|idx: int| 0 <= idx < p.fn_slots.len() implies {
        &&& (#[trigger] p.fn_slots[idx]).slot is Fn
        &&& p.fn_list_of(idx) < p.fn_candidates.len()
    } by {
        assert(items.fn_slots@[idx].slot == MatchSlot::Fn(idx as usize));
    }
}

/// The functions whose pattern has a MIR body.
proof fn lemma_adt_list_fits(items: &RustItems, adt_candidates: Seq<Vec<AdtSlotCandidate>>, k: int)
    requires
        forall|kk: int, c: int|
            0 <= kk < adt_candidate_views(adt_candidates).len() && 0 <= c < adt_candidate_views(adt_candidates)[kk].len()
                ==> (#[trigger] adt_candidate_views(adt_candidates)[kk][c]).ty_bindings.len() <= items.meta.ty_vars@.len(),
        0 <= k < adt_candidates.len(),
    ensures
        forall|c: int| 0 <= c < adt_candidates[k]@.len() ==> (#[trigger] adt_candidates[k]@[c])@.ty_bindings.len() <= items.meta.ty_vars@.len(),
{
    let acv = adt_candidate_views(adt_candidates);
    assert forall|c: int| 0 <= c < adt_candidates[k]@.len() implies (#[trigger] adt_candidates[k]@[c])@.ty_bindings.len() <= items.meta.ty_vars@.len() by {
        assert(acv[k][c] == adt_candidates[k]@[c]@);
    }
}

fn mir_body_fn_slots(fn_slots: &Vec<FnSlotDesc>) -> (r: Vec<FnSlotDesc>)
    ensures
        r@ == body_slot_descs(fn_slots@),
{
    let mut r: Vec<FnSlotDesc> = Vec::new();
    assert(fn_slots@.take(0) =~= Seq::<FnSlotDesc>::empty());
    for i in 0..fn_slots.len()
        invariant
            r@ == body_slot_descs(fn_slots@.take(i as int)),
    {
        assert(fn_slots@.take(i + 1).drop_last() == fn_slots@.take(i as int));
        assert(fn_slots@.take(i + 1).last() == fn_slots@[i as int]);
        if !fn_slots[i].signature_only {
            r.push(fn_slots[i]);
        }
    }
    assert(fn_slots@.take(fn_slots@.len() as int) == fn_slots@);
    r
}

/// How the slots of a block relate.
fn classify_rust_items_matching_mode(fn_slots: &Vec<FnSlotDesc>, adt_slots: &Vec<AdtSlotDesc>) -> (r:
    RustItemsMatchingMode)
    ensures
        r == matching_mode(fn_slots@, adt_slots@),
{
    let body_slots = mir_body_fn_slots(fn_slots);
    if adt_slots.len() == 0 {
        if body_slots.len() == 1 && body_slots[0].optional {
            RustItemsMatchingMode::IndependentWildcardFn
        } else if body_slots.len() > 1 {
            RustItemsMatchingMode::AlternativeFns
        } else {
            RustItemsMatchingMode::ConcurrentSlots
        }
    } else if adt_slots.len() == 1 && body_slots.len() == 1 && !body_slots[0].optional {
        RustItemsMatchingMode::StructContextSingleFn
    } else {
        RustItemsMatchingMode::ConcurrentSlots
    }
}

/// The position of a function slot.
fn fn_slot_index(fn_slots: &Vec<FnSlotDesc>, slot: MatchSlot) -> (r: usize)
    requires
        fn_slot_position(fn_slots@, slot, 0) is Some,
    ensures
        fn_slot_position(fn_slots@, slot, 0) == Some(r as int),
{
    for i in 0..fn_slots.len()
        invariant
            fn_slot_position(fn_slots@, slot, 0) is Some,
            fn_slot_position(fn_slots@, slot, 0) == fn_slot_position(fn_slots@, slot, i as int),
    {
        if fn_slots[i].slot.same_slot(&slot) {
            return i;
        }
    }
    0
}

proof fn lemma_empty_compatible(b0: BindingsView, s: crate::bindings::SnapshotView)
    requires
        b0 == empty_bindings(b0.ty_vars.len(), b0.const_vars.len(), b0.place_vars.len()),
        snapshot_fits(b0, s),
    ensures
        snapshot_compatible(b0, s),
        ty_merge_ok(b0, s.ty_vars),
{
    assert forall|i: int| 0 <= i < s.ty_vars.len() implies #[trigger] b0.ty_vars[i] is None by {}
    assert forall|i: int| 0 <= i < s.const_vars.len() implies #[trigger] b0.const_vars[i] is None by {}
    assert forall|i: int| 0 <= i < s.place_vars.len() implies #[trigger] b0.place_vars[i] is None by {}
}

proof fn lemma_candidate_list_fits(items: &RustItems, fn_candidates: Seq<Vec<FnSlotCandidate>>, k: int)
    requires
        forall|kk: int, c: int|
            0 <= kk < fn_candidate_views(fn_candidates).len() && 0 <= c < fn_candidate_views(fn_candidates)[kk].len()
                ==> snapshot_fits(
                empty_bindings(items.meta.ty_vars@.len(), items.meta.const_vars@.len(), items.meta.place_vars@.len()),
                (#[trigger] fn_candidate_views(fn_candidates)[kk][c]).snapshot,
            ),
        0 <= k < fn_candidates.len(),
    ensures
        forall|c: int|
            0 <= c < fn_candidates[k]@.len() ==> snapshot_fits(
                empty_bindings(items.meta.ty_vars@.len(), items.meta.const_vars@.len(), items.meta.place_vars@.len()),
                (#[trigger] fn_candidates[k]@[c])@.snapshot,
            ),
{
    let fcv = fn_candidate_views(fn_candidates);
    assert forall|c: int| 0 <= c < fn_candidates[k]@.len() implies snapshot_fits(
        empty_bindings(items.meta.ty_vars@.len(), items.meta.const_vars@.len(), items.meta.place_vars@.len()),
        (#[trigger] fn_candidates[k]@[c])@.snapshot,
    ) by {
        assert(fcv[k][c] == fn_candidates[k]@[c]@);
    }
}

/// Orchestrates the combination of candidates for one pattern item.
pub struct MatchSession {
    config: SessionConfig,
}

impl MatchSession {
    /// The configuration of the session.
    pub closed spec fn config(&self) -> SessionConfig {
        self.config
    }

    pub fn new(config: SessionConfig) -> (r: Self)
        ensures
            r.config() == config,
    {
        MatchSession { config }
    }

    pub fn with_defaults() -> (r: Self)
        ensures
            r.config().max_results == DEFAULT_MAX_SESSION_RESULTS,
    {
        Self::new(SessionConfig::default())
    }

    /// The session results of a block of Rust items, given the candidates found for
    /// each of its function slots and ADT slots (in slot order).
    pub fn match_rust_items(
        &self,
        index: &CrateItemIndex,
        rust_items: &RustItems,
        fn_candidates: &Vec<Vec<FnSlotCandidate>>,
        adt_candidates: &Vec<Vec<AdtSlotCandidate>>,
    ) -> (r: Vec<SessionResult>)
        requires
            block_well_formed(
                rust_items,
                fn_candidate_views(fn_candidates@),
                adt_candidate_views(adt_candidates@),
            ),
        ensures
            results_view(r@) == block_results(
                self.config(),
                index.fns@,
                rust_items,
                fn_candidate_views(fn_candidates@),
                adt_candidate_views(adt_candidates@),
            ),
            self.config().max_results > 0 ==> r@.len() <= self.config().max_results,
    {
        proof {
            lemma_block_results_within_limit(
                self.config(),
                index.fns@,
                rust_items,
                fn_candidate_views(fn_candidates@),
                adt_candidate_views(adt_candidates@),
            );
        }
        let ghost fcv = fn_candidate_views(fn_candidates@);
        let ghost acv = adt_candidate_views(adt_candidates@);
        let ghost b0 = empty_bindings(
            rust_items.meta.ty_vars@.len(),
            rust_items.meta.const_vars@.len(),
            rust_items.meta.place_vars@.len(),
        );
        let fn_slots = &rust_items.fn_slots;
        let adt_slots = &rust_items.adt_slots;
        if fn_slots.len() == 0 && adt_slots.len() == 0 {
            proof {
                assert(results_view(Seq::<SessionResult>::empty()) =~= Seq::<ResultView>::empty());
            }
            return Vec::new();
        }
        let body_slots = mir_body_fn_slots(fn_slots);
        let mode = classify_rust_items_matching_mode(fn_slots, adt_slots);
        proof {
            lemma_body_slots_from(fn_slots@);
            assert(fn_slots@.len() == fn_slots.len());
            assert(fcv.len() == fn_candidates@.len());
            assert(acv.len() == adt_candidates@.len());
        }
        match mode {
            RustItemsMatchingMode::IndependentWildcardFn => {
                let desc = body_slots[0];
                proof {
                    let j = choose|j: int| 0 <= j < fn_slots@.len() && fn_slots@[j] == body_slots@[0];
                    assert(fn_slots@[j].slot == MatchSlot::Fn(j as usize));
                    lemma_fn_slot_position(fn_slots@, j, 0);
                }
                let slot_idx = fn_slot_index(fn_slots, desc.slot);
                proof {
                    lemma_candidate_list_fits(rust_items, fn_candidates@, slot_idx as int);
                }
                let pre = self.wildcard_fn_results(rust_items, desc.slot, &fn_candidates[slot_idx]);
                let pre = self.cap_results(pre);
                return self.enrich_and_postprocess(index, rust_items, pre);
            },
            RustItemsMatchingMode::StructContextSingleFn => {
                let fn_desc = body_slots[0];
                proof {
                    let j = choose|j: int| 0 <= j < fn_slots@.len() && fn_slots@[j] == body_slots@[0];
                    assert(fn_slots@[j].slot == MatchSlot::Fn(j as usize));
                    lemma_fn_slot_position(fn_slots@, j, 0);
                }
                let fn_slot_idx = fn_slot_index(fn_slots, fn_desc.slot);
                proof {
                    lemma_candidate_list_fits(rust_items, fn_candidates@, fn_slot_idx as int);
                    lemma_adt_list_fits(rust_items, adt_candidates@, 0);
                }
                let adt_desc = adt_slots[0];
                let pre = self.struct_fn_pairs(
                    rust_items,
                    adt_desc.slot,
                    fn_desc.slot,
                    &adt_candidates[0],
                    &fn_candidates[fn_slot_idx],
                );
                let pre = self.cap_results(pre);
                return self.enrich_and_postprocess(index, rust_items, pre);
            },
            RustItemsMatchingMode::AlternativeFns => {
                proof {
                    assert forall|k: int, c: int|
                        0 <= k < fn_candidates@.len() && 0 <= c < fn_candidates@[k]@.len() implies snapshot_fits(
                            b0,
                            (#[trigger] fn_candidates@[k]@[c])@.snapshot,
                        ) by {
                        assert(fcv[k][c] == fn_candidates@[k]@[c]@);
                    }
                }
                let pre = self.alternative_fn_results(rust_items, &body_slots, fn_candidates);
                let pre = self.cap_results(pre);
                return self.enrich_and_postprocess(index, rust_items, pre);
            },
            RustItemsMatchingMode::ConcurrentSlots => {},
        }
        proof {
            lemma_block_problem_well_formed(self.config, rust_items, fcv, acv);
        }
        let solver = CspSolver::new(
            self.config,
            &rust_items.meta,
            fn_slots.as_slice(),
            adt_slots.as_slice(),
            fn_candidates.as_slice(),
            adt_candidates.as_slice(),
        );
        assert(solver.problem() == block_problem(self.config, rust_items, fcv, acv));
        let results = solver.solve();
        let results = Self::deduplicate_fn_slot_permutations(results);
        let results = self.cap_results(results);
        self.enrich_and_postprocess(index, rust_items, results)
    }

    /// The first `max_results` results when that limit is positive, else all.
    fn cap_results(&self, results: Vec<SessionResult>) -> (r: Vec<SessionResult>)
        ensures
            results_view(r@) == capped_results(self.config(), results_view(results@)),
    {
        let mut results = results;
        let ghost before = results@;
        if self.config.max_results > 0 && results.len() > self.config.max_results {
            results.truncate(self.config.max_results);
            proof {
                assert(results_view(results@) =~= results_view(before).take(self.config.max_results as int));
            }
        }
        results
    }

    /// The result of one function candidate on its own.
    fn session_result_from_fn(&self, rust_items: &RustItems, slot: MatchSlot, candidate: &FnSlotCandidate) -> (r:
        SessionResult)
        requires
            snapshot_fits(
                empty_bindings(
                    rust_items.meta.ty_vars@.len(),
                    rust_items.meta.const_vars@.len(),
                    rust_items.meta.place_vars@.len(),
                ),
                candidate@.snapshot,
            ),
        ensures
            r@ == from_fn_result(
                empty_bindings(
                    rust_items.meta.ty_vars@.len(),
                    rust_items.meta.const_vars@.len(),
                    rust_items.meta.place_vars@.len(),
                ),
                slot,
                candidate@,
            ),
    {
        let mut bindings = MetaBindings::new(&rust_items.meta);
        proof {
            lemma_empty_compatible(bindings@, candidate@.snapshot);
        }
        bindings.merge_snapshot(&candidate.snapshot);
        let mut assignments: Vec<SlotAssignment> = Vec::new();
        assignments.push(SlotAssignment { slot, candidate: SlotCandidate::Fn(candidate.copy()) });
        let r = SessionResult {
            assignments,
            bindings,
            primary_fn: Some(FnMatchContext {
                def_id: candidate.def_id,
                fn_name: None,
                header: None,
                has_self: false,
                self_ty: None,
            }),
        };
        proof {
            assert(r@.assignments =~= seq![AssignView { slot, candidate: CandView::Fn(candidate@) }]);
        }
        r
    }

    /// Each candidate of one function slot on its own.
    fn wildcard_fn_results(&self, rust_items: &RustItems, slot: MatchSlot, cands: &Vec<FnSlotCandidate>) -> (r: Vec<
        SessionResult,
    >)
        requires
            forall|c: int|
                0 <= c < cands@.len() ==> snapshot_fits(
                    empty_bindings(
                        rust_items.meta.ty_vars@.len(),
                        rust_items.meta.const_vars@.len(),
                        rust_items.meta.place_vars@.len(),
                    ),
                    (#[trigger] cands@[c])@.snapshot,
                ),
        ensures
            results_view(r@) == wildcard_results(
                empty_bindings(
                    rust_items.meta.ty_vars@.len(),
                    rust_items.meta.const_vars@.len(),
                    rust_items.meta.place_vars@.len(),
                ),
                slot,
                cands@.map_values(|c: FnSlotCandidate| c@),
            ),
    {
        let ghost b0 = empty_bindings(
            rust_items.meta.ty_vars@.len(),
            rust_items.meta.const_vars@.len(),
            rust_items.meta.place_vars@.len(),
        );
        let ghost cv = cands@.map_values(|c: FnSlotCandidate| c@);
        let mut out: Vec<SessionResult> = Vec::new();
        for i in 0..cands.len()
            invariant
                cv == cands@.map_values(|c: FnSlotCandidate| c@),
                b0 == empty_bindings(
                    rust_items.meta.ty_vars@.len(),
                    rust_items.meta.const_vars@.len(),
                    rust_items.meta.place_vars@.len(),
                ),
                forall|c: int| 0 <= c < cands@.len() ==> snapshot_fits(b0, (#[trigger] cands@[c])@.snapshot),
                results_view(out@) == wildcard_results(b0, slot, cv).take(i as int),
        {
            let r = self.session_result_from_fn(rust_items, slot, &cands[i]);
            let ghost before = out@;
            out.push(r);
            proof {
                assert(cv[i as int] == cands@[i as int]@);
                assert(results_view(out@) =~= results_view(before).push(r@));
                assert(wildcard_results(b0, slot, cv).take(i + 1) =~= wildcard_results(b0, slot, cv).take(i as int).push(
                    from_fn_result(b0, slot, cv[i as int]),
                ));
            }
        }
        proof {
            assert(results_view(out@) =~= wildcard_results(b0, slot, cv));
        }
        out
    }

    /// Each ADT candidate paired with each agreeing function candidate.
    fn struct_fn_pairs(
        &self,
        rust_items: &RustItems,
        adt_slot: MatchSlot,
        fn_slot: MatchSlot,
        adts: &Vec<AdtSlotCandidate>,
        fns: &Vec<FnSlotCandidate>,
    ) -> (r: Vec<SessionResult>)
        requires
            forall|c: int|
                0 <= c < fns@.len() ==> snapshot_fits(
                    empty_bindings(
                        rust_items.meta.ty_vars@.len(),
                        rust_items.meta.const_vars@.len(),
                        rust_items.meta.place_vars@.len(),
                    ),
                    (#[trigger] fns@[c])@.snapshot,
                ),
            forall|c: int| 0 <= c < adts@.len() ==> (#[trigger] adts@[c])@.ty_bindings.len() <= rust_items.meta.ty_vars@.len(),
        ensures
            results_view(r@) == struct_fn_results(
                empty_bindings(
                    rust_items.meta.ty_vars@.len(),
                    rust_items.meta.const_vars@.len(),
                    rust_items.meta.place_vars@.len(),
                ),
                adt_slot,
                fn_slot,
                adts@.map_values(|c: AdtSlotCandidate| c@),
                fns@.map_values(|c: FnSlotCandidate| c@),
            ),
    {
        let ghost b0 = empty_bindings(
            rust_items.meta.ty_vars@.len(),
            rust_items.meta.const_vars@.len(),
            rust_items.meta.place_vars@.len(),
        );
        let ghost av = adts@.map_values(|c: AdtSlotCandidate| c@);
        let ghost fv = fns@.map_values(|c: FnSlotCandidate| c@);
        let mut out: Vec<SessionResult> = Vec::new();
        assert(av.take(0) =~= Seq::<AdtCandView>::empty());
        for a in 0..adts.len()
            invariant
                av == adts@.map_values(|c: AdtSlotCandidate| c@),
                fv == fns@.map_values(|c: FnSlotCandidate| c@),
                b0 == empty_bindings(
                    rust_items.meta.ty_vars@.len(),
                    rust_items.meta.const_vars@.len(),
                    rust_items.meta.place_vars@.len(),
                ),
                forall|c: int| 0 <= c < fns@.len() ==> snapshot_fits(b0, (#[trigger] fns@[c])@.snapshot),
                forall|c: int| 0 <= c < adts@.len() ==> (#[trigger] adts@[c])@.ty_bindings.len() <= rust_items.meta.ty_vars@.len(),
                results_view(out@) == struct_fn_results(b0, adt_slot, fn_slot, av.take(a as int), fv),
        {
            let adt = &adts[a];
            let ghost start = results_view(out@);
            assert(fv.take(0) =~= Seq::<FnCandView>::empty());
            for c in 0..fns.len()
                invariant
                    fv == fns@.map_values(|c: FnSlotCandidate| c@),
                    b0 == empty_bindings(
                        rust_items.meta.ty_vars@.len(),
                        rust_items.meta.const_vars@.len(),
                        rust_items.meta.place_vars@.len(),
                    ),
                    forall|c: int| 0 <= c < fns@.len() ==> snapshot_fits(b0, (#[trigger] fns@[c])@.snapshot),
                    adt@.ty_bindings.len() <= rust_items.meta.ty_vars@.len(),
                    results_view(out@) == start + pair_results(b0, adt_slot, fn_slot, adt@, fv.take(c as int)),
            {
                let cand = &fns[c];
                let mut bindings = MetaBindings::new(&rust_items.meta);
                let ok_adt = bindings.merge_adt_ty_bindings(&adt.ty_bindings);
                let ok = ok_adt && bindings.merge_snapshot(&cand.snapshot);
                proof {
                    assert(fv.take(c + 1).drop_last() == fv.take(c as int));
                    assert(fv.take(c + 1).last() == cand@);
                }
                if ok {
                    let mut assignments: Vec<SlotAssignment> = Vec::new();
                    assignments.push(SlotAssignment { slot: adt_slot, candidate: SlotCandidate::Adt(adt.copy()) });
                    assignments.push(SlotAssignment { slot: fn_slot, candidate: SlotCandidate::Fn(cand.copy()) });
                    let r = SessionResult {
                        assignments,
                        bindings,
                        primary_fn: Some(FnMatchContext {
                            def_id: cand.def_id,
                            fn_name: None,
                            header: None,
                            has_self: false,
                            self_ty: None,
                        }),
                    };
                    let ghost before = out@;
                    out.push(r);
                    proof {
                        assert(r@.assignments =~= seq![
                            AssignView { slot: adt_slot, candidate: CandView::Adt(adt@) },
                            AssignView { slot: fn_slot, candidate: CandView::Fn(cand@) },
                        ]);
                        assert(results_view(out@) =~= results_view(before).push(r@));
                    }
                }
            }
            proof {
                assert(fv.take(fns@.len() as int) =~= fv);
                assert(av.take(a + 1).drop_last() == av.take(a as int));
                assert(av.take(a + 1).last() == adt@);
            }
        }
        proof {
            assert(av.take(adts@.len() as int) =~= av);
        }
        out
    }

    /// Each body slot's candidates on their own, slot after slot.
    fn alternative_fn_results(
        &self,
        rust_items: &RustItems,
        body_slots: &Vec<FnSlotDesc>,
        fn_candidates: &Vec<Vec<FnSlotCandidate>>,
    ) -> (r: Vec<SessionResult>)
        requires
            body_slots@ == body_slot_descs(rust_items.fn_slots@),
            fn_candidates@.len() == rust_items.fn_slots@.len(),
            forall|i: int|
                0 <= i < rust_items.fn_slots@.len() ==> (#[trigger] rust_items.fn_slots@[i]).slot == MatchSlot::Fn(
                    i as usize,
                ),
            forall|k: int, c: int|
                0 <= k < fn_candidates@.len() && 0 <= c < fn_candidates@[k]@.len() ==> snapshot_fits(
                    empty_bindings(
                        rust_items.meta.ty_vars@.len(),
                        rust_items.meta.const_vars@.len(),
                        rust_items.meta.place_vars@.len(),
                    ),
                    (#[trigger] fn_candidates@[k]@[c])@.snapshot,
                ),
        ensures
            results_view(r@) == alternative_results(
                empty_bindings(
                    rust_items.meta.ty_vars@.len(),
                    rust_items.meta.const_vars@.len(),
                    rust_items.meta.place_vars@.len(),
                ),
                rust_items.fn_slots@,
                body_slots@,
                fn_candidate_views(fn_candidates@),
            ),
    {
        let ghost b0 = empty_bindings(
            rust_items.meta.ty_vars@.len(),
            rust_items.meta.const_vars@.len(),
            rust_items.meta.place_vars@.len(),
        );
        let ghost fcv = fn_candidate_views(fn_candidates@);
        let ghost body = body_slots@;
        proof {
            lemma_body_slots_from(rust_items.fn_slots@);
        }
        let mut out: Vec<SessionResult> = Vec::new();
        assert(body.take(0) =~= Seq::<FnSlotDesc>::empty());
        for b in 0..body_slots.len()
            invariant
                body == body_slots@,
                body == body_slot_descs(rust_items.fn_slots@),
                forall|i: int|
                    0 <= i < body.len() ==> exists|j: int|
                        0 <= j < rust_items.fn_slots@.len() && rust_items.fn_slots@[j] == #[trigger] body[i],
                fcv == fn_candidate_views(fn_candidates@),
                fn_candidates@.len() == rust_items.fn_slots@.len(),
                forall|i: int|
                    0 <= i < rust_items.fn_slots@.len() ==> (#[trigger] rust_items.fn_slots@[i]).slot
                        == MatchSlot::Fn(i as usize),
                b0 == empty_bindings(
                    rust_items.meta.ty_vars@.len(),
                    rust_items.meta.const_vars@.len(),
                    rust_items.meta.place_vars@.len(),
                ),
                forall|k: int, c: int|
                    0 <= k < fn_candidates@.len() && 0 <= c < fn_candidates@[k]@.len() ==> snapshot_fits(
                        b0,
                        (#[trigger] fn_candidates@[k]@[c])@.snapshot,
                    ),
                results_view(out@) == alternative_results(b0, rust_items.fn_slots@, body.take(b as int), fcv),
        {
            let desc = body_slots[b];
            proof {
                let j = choose|j: int| 0 <= j < rust_items.fn_slots@.len() && rust_items.fn_slots@[j] == body[b as int];
                assert(rust_items.fn_slots@[j].slot == MatchSlot::Fn(j as usize));
                assert(rust_items.fn_slots@.len() == rust_items.fn_slots.len());
                lemma_fn_slot_position(rust_items.fn_slots@, j, 0);
            }
            let slot_idx = fn_slot_index(&rust_items.fn_slots, desc.slot);
            proof {
                assert forall|kk: int, c: int|
                    0 <= kk < fn_candidate_views(fn_candidates@).len() && 0 <= c < fn_candidate_views(fn_candidates@)[kk].len()
                        implies snapshot_fits(b0, (#[trigger] fn_candidate_views(fn_candidates@)[kk][c]).snapshot) by {
                    assert(fn_candidate_views(fn_candidates@)[kk][c] == fn_candidates@[kk]@[c]@);
                }
                lemma_candidate_list_fits(rust_items, fn_candidates@, slot_idx as int);
            }
            let part = self.wildcard_fn_results(rust_items, desc.slot, &fn_candidates[slot_idx]);
            let ghost before = out@;
            let mut part = part;
            out.append(&mut part);
            proof {
                assert(body.take(b + 1).drop_last() == body.take(b as int));
                assert(body.take(b + 1).last() == desc);
                assert(fcv[slot_idx as int] == fn_candidates@[slot_idx as int]@.map_values(|c: FnSlotCandidate| c@));
                assert(results_view(out@) =~= results_view(before) + wildcard_results(
                    b0,
                    desc.slot,
                    fcv[slot_idx as int],
                ));
            }
        }
        proof {
            assert(body.take(body.len() as int) =~= body);
        }
        out
    }

    /// Keep results assigning at most one function, then the first of each group of
    /// results assigning the same set of several functions.
    fn deduplicate_fn_slot_permutations(results: Vec<SessionResult>) -> (r: Vec<SessionResult>)
        ensures
            results_view(r@) == dedup_permutations(results_view(results@)),
    {
        let ghost all = results_view(results@);
        let mut rest = results;
        let mut single_fn: Vec<SessionResult> = Vec::new();
        let mut kept_multi: Vec<SessionResult> = Vec::new();
        let mut i: usize = 0;
        let n = rest.len();
        assert(all.take(0) =~= Seq::<ResultView>::empty());
        while rest.len() > 0
            invariant
                n == all.len(),
                i + rest@.len() == n,
                results_view(rest@) == all.subrange(i as int, n as int),
                results_view(single_fn@) == single_fn_results(all.take(i as int)),
                results_view(kept_multi@) == dedup_signature(multi_fn_results(all.take(i as int))),
            decreases rest@.len(),
        {
            let ghost old_rest = rest@;
            let result = rest.remove(0);
            proof {
                assert(results_view(old_rest)[0] == old_rest[0]@);
                assert(all[i as int] == result@);
                assert(results_view(rest@) =~= results_view(old_rest).subrange(1, old_rest.len() as int));
                assert(results_view(rest@) =~= all.subrange(i + 1, n as int));
                assert(all.take(i + 1).drop_last() == all.take(i as int));
                assert(all.take(i + 1).last() == result@);
            }
            let signature = fn_assignment_signature(&result);
            proof {
                assert(all.take(i + 1).last() == result@);
            }
            if signature.len() <= 1 {
                let ghost before = single_fn@;
                single_fn.push(result);
                proof {
                    assert(results_view(single_fn@) =~= results_view(before).push(all[i as int]));
                    assert(single_fn_results(all.take(i + 1)) == single_fn_results(all.take(i as int)).push(all[i as int]));
                    assert(multi_fn_results(all.take(i + 1)) == multi_fn_results(all.take(i as int)));
                }
            } else {
                proof {
                    assert(single_fn_results(all.take(i + 1)) == single_fn_results(all.take(i as int)));
                    assert(multi_fn_results(all.take(i + 1)) == multi_fn_results(all.take(i as int)).push(all[i as int]));
                    let m = multi_fn_results(all.take(i as int));
                    assert(m.push(all[i as int]).drop_last() == m);
                }
                let mut fresh = true;
                let mut k: usize = 0;
                while k < kept_multi.len()
                    invariant
                        k <= kept_multi@.len(),
                        signature@ == fn_signature(result@.assignments),
                        fresh == forall|j: int|
                            0 <= j < k ==> fn_signature((#[trigger] results_view(kept_multi@)[j]).assignments)
                                != signature@,
                    decreases kept_multi@.len() - k,
                {
                    let existing = fn_assignment_signature(&kept_multi[k]);
                    assert(results_view(kept_multi@)[k as int] == kept_multi@[k as int]@);
                    if vec_eq(&existing, &signature) {
                        fresh = false;
                    }
                    k = k + 1;
                }
                if fresh {
                    let ghost before = kept_multi@;
                    kept_multi.push(result);
                    proof {
                        assert(results_view(kept_multi@) =~= results_view(before).push(all[i as int]));
                    }
                } else {
                    proof {
                        let j = choose|j: int|
                            0 <= j < k && fn_signature((#[trigger] results_view(kept_multi@)[j]).assignments)
                                == signature@;
                        assert(fn_signature(results_view(kept_multi@)[j].assignments) == fn_signature(all[i as int].assignments));
                    }
                }
            }
            i = i + 1;
        }
        proof {
            assert(all.take(n as int) =~= all);
        }
        let mut kept = single_fn;
        let ghost s = kept@;
        kept.append(&mut kept_multi);
        proof {
            assert(results_view(kept@) =~= results_view(s) + dedup_signature(multi_fn_results(all)));
        }
        kept
    }

    /// Drop each result equivalent to one kept before it, when asked to.
    fn deduplicate_results(deduplicate: bool, results: Vec<SessionResult>) -> (r: Vec<SessionResult>)
        ensures
            results_view(r@) == dedup_if(deduplicate, results_view(results@)),
    {
        if !deduplicate {
            return results;
        }
        let ghost all = results_view(results@);
        let mut rest = results;
        let mut kept: Vec<SessionResult> = Vec::new();
        let mut i: usize = 0;
        let n = rest.len();
        assert(all.take(0) =~= Seq::<ResultView>::empty());
        while rest.len() > 0
            invariant
                n == all.len(),
                i + rest@.len() == n,
                results_view(rest@) == all.subrange(i as int, n as int),
                results_view(kept@) == dedup_equivalent(all.take(i as int)),
            decreases rest@.len(),
        {
            let ghost old_rest = rest@;
            let result = rest.remove(0);
            proof {
                assert(results_view(old_rest)[0] == old_rest[0]@);
                assert(all[i as int] == result@);
                assert(results_view(rest@) =~= results_view(old_rest).subrange(1, old_rest.len() as int));
                assert(results_view(rest@) =~= all.subrange(i + 1, n as int));
                assert(all.take(i + 1).drop_last() == all.take(i as int));
                assert(all.take(i + 1).last() == result@);
            }
            let mut fresh = true;
            let mut k: usize = 0;
            while k < kept.len()
                invariant
                    k <= kept@.len(),
                    fresh == forall|j: int|
                        0 <= j < k ==> !results_equivalent(#[trigger] results_view(kept@)[j], result@),
                decreases kept@.len() - k,
            {
                assert(results_view(kept@)[k as int] == kept@[k as int]@);
                if kept[k].equivalent(&result) {
                    fresh = false;
                }
                k = k + 1;
            }
            if fresh {
                let ghost before = kept@;
                kept.push(result);
                proof {
                    assert(results_view(kept@) =~= results_view(before).push(all[i as int]));
                }
            }
            i = i + 1;
        }
        proof {
            assert(all.take(n as int) =~= all);
        }
        kept
    }

    /// Complete the primary function context of every result from the crate index.
    fn enrich_results(&self, index: &CrateItemIndex, results: &mut Vec<SessionResult>)
        ensures
            results_view(final(results)@) == enrich_all(index.fns@, results_view(old(results)@)),
    {
        let ghost all = results_view(results@);
        let mut rest: Vec<SessionResult> = Vec::new();
        std::mem::swap(&mut rest, results);
        let n = rest.len();
        let mut i: usize = 0;
        assert(results_view(results@) =~= enrich_all(index.fns@, all).take(0));
        while rest.len() > 0
            invariant
                n == all.len(),
                i + rest@.len() == n,
                results_view(rest@) == all.subrange(i as int, n as int),
                results_view(results@) == enrich_all(index.fns@, all).take(i as int),
            decreases rest@.len(),
        {
            let ghost old_rest = rest@;
            let result = rest.remove(0);
            proof {
                assert(results_view(old_rest)[0] == old_rest[0]@);
                assert(all[i as int] == result@);
                assert(results_view(rest@) =~= results_view(old_rest).subrange(1, old_rest.len() as int));
                assert(results_view(rest@) =~= all.subrange(i + 1, n as int));
            }
            let enriched_result = enrich_result(index, result);
            let ghost before = results@;
            results.push(enriched_result);
            proof {
                assert(results_view(results@) =~= results_view(before).push(enriched_result@));
                assert(enrich_all(index.fns@, all).take(i + 1) =~= enrich_all(index.fns@, all).take(i as int).push(
                    enriched(index.fns@, all[i as int]),
                ));
            }
            i = i + 1;
        }
        proof {
            assert(enrich_all(index.fns@, all).take(n as int) =~= enrich_all(index.fns@, all));
        }
    }

    /// Enrich, then deduplicate as the block asks.
    fn enrich_and_postprocess(
        &self,
        index: &CrateItemIndex,
        rust_items: &RustItems,
        results: Vec<SessionResult>,
    ) -> (r: Vec<SessionResult>)
        ensures
            results_view(r@) == dedup_if(
                rust_items.should_deduplicate,
                enrich_all(index.fns@, results_view(results@)),
            ),
    {
        let mut results = results;
        self.enrich_results(index, &mut results);
        Self::deduplicate_results(rust_items.should_deduplicate, results)
    }
}

impl CrateItemIndex {
    /// The `Self` type of the crate function `def_id`.
    pub fn self_ty(&self, def_id: LocalDefId) -> (r: Option<Ty>)
        ensures
            r == index_self_ty(self.fns@, def_id),
    {
        match find_fn_item(&self.fns, def_id) {
            Some(j) => self.fns[j].self_ty,
            None => None,
        }
    }
}

fn find_fn_item(fns: &Vec<CrateFnItem>, def_id: LocalDefId) -> (r: Option<usize>)
    ensures
        r matches Some(j) ==> fn_item_position(fns@, def_id, 0) == Some(j as int) && j < fns@.len(),
        r is None ==> fn_item_position(fns@, def_id, 0) is None,
{
    for i in 0..fns.len()
        invariant
            fn_item_position(fns@, def_id, 0) == fn_item_position(fns@, def_id, i as int),
    {
        if fns[i].def_id.same(&def_id) {
            return Some(i);
        }
    }
    None
}

fn enrich_result(index: &CrateItemIndex, result: SessionResult) -> (r: SessionResult)
    ensures
        r@ == enriched(index.fns@, result@),
{
    match result.primary_fn {
        None => result,
        Some(ctx) => {
            let mut ctx = ctx;
            match find_fn_item(&index.fns, ctx.def_id) {
                Some(j) => {
                    let item = index.fns[j];
                    ctx.fn_name = item.fn_name;
                    ctx.header = item.header;
                    ctx.has_self = item.has_self;
                },
                None => {},
            }
            ctx.self_ty = index.self_ty(ctx.def_id);
            SessionResult { assignments: result.assignments, bindings: result.bindings, primary_fn: Some(ctx) }
        },
    }
}

} // verus!
