//! Slots of a pattern item, the candidates found for them, and session results.
use vstd::prelude::*;

use crate::bindings::{BindingSnapshot, BindingsView, MetaBindings, SnapshotView};
use crate::normalized::{NormalizedMatched, NormalizedView};
use crate::types::{copy_vec, Interned, LocalDefId, Symbol, Ty};

verus! {

/// A slot of a pattern item: a function pattern (by position) or an ADT pattern (by name).
#[derive(Debug, Clone, Copy, PartialEq, Eq, Structural, Hash)]
pub enum MatchSlot {
    Fn(usize),
    Adt(Symbol),
}

impl MatchSlot {
    /// The position of a function slot.
    pub fn fn_index(self) -> (r: Option<usize>)
        ensures
            r == (match self {
                MatchSlot::Fn(idx) => Some(idx),
                _ => None,
            }),
    {
        match self {
            MatchSlot::Fn(idx) => Some(idx),
            _ => None,
        }
    }

    /// Whether two slots are the same.
    pub fn same_slot(&self, other: &MatchSlot) -> (r: bool)
        ensures
            r == (*self == *other),
    {
        match (self, other) {
            (MatchSlot::Fn(a), MatchSlot::Fn(b)) => *a == *b,
            (MatchSlot::Adt(a), MatchSlot::Adt(b)) => a.same(b),
            _ => false,
        }
    }
}

/// A function slot of a pattern item.
#[derive(Debug, Clone, Copy)]
pub struct FnSlotDesc {
    pub slot: MatchSlot,
    /// `fn _`: the slot may stay unmatched.
    pub optional: bool,
    /// The function pattern has a signature but no MIR body to match.
    pub signature_only: bool,
}

/// An ADT slot of a pattern item.
#[derive(Debug, Clone, Copy)]
pub struct AdtSlotDesc {
    pub slot: MatchSlot,
    pub adt_pat_name: Symbol,
}

/// The signature of a function, as far as it is reported.
#[derive(Debug, Clone, Copy, PartialEq, Eq, Structural)]
pub struct FnHeader {
    pub is_unsafe: bool,
    pub is_const: bool,
    pub is_async: bool,
}

/// The function a session result is reported on.
#[derive(Debug, Clone, Copy, PartialEq, Eq, Structural)]
pub struct FnMatchContext {
    pub def_id: LocalDefId,
    pub fn_name: Option<Symbol>,
    pub header: Option<FnHeader>,
    pub has_self: bool,
    pub self_ty: Option<Ty>,
}

/// The context of a primary function before it is enriched from the crate index.
pub open spec fn bare_context(def_id: LocalDefId) -> FnMatchContext {
    FnMatchContext { def_id, fn_name: None, header: None, has_self: false, self_ty: None }
}

/// A function of the crate that matched a function slot.
#[derive(Debug)]
pub struct FnSlotCandidate {
    pub def_id: LocalDefId,
    pub snapshot: BindingSnapshot,
    pub normalized: NormalizedMatched,
    /// Some basic block of the pattern's MIR body was matched.
    pub has_body_match: bool,
}

/// An ADT of the crate that matched an ADT slot.
#[derive(Debug)]
pub struct AdtSlotCandidate {
    pub def_id: LocalDefId,
    pub ty_bindings: Vec<Ty>,
}

/// A candidate of either kind.
#[derive(Debug)]
pub enum SlotCandidate {
    Fn(FnSlotCandidate),
    Adt(AdtSlotCandidate),
}

/// One slot filled with one candidate.
#[derive(Debug)]
pub struct SlotAssignment {
    pub slot: MatchSlot,
    pub candidate: SlotCandidate,
}

/// One consistent way to fill the slots of a pattern item.
#[derive(Debug)]
pub struct SessionResult {
    pub assignments: Vec<SlotAssignment>,
    pub bindings: MetaBindings,
    pub primary_fn: Option<FnMatchContext>,
}

pub struct FnCandView {
    pub def_id: LocalDefId,
    pub snapshot: SnapshotView,
    pub normalized: NormalizedView,
    pub has_body_match: bool,
}

pub struct AdtCandView {
    pub def_id: LocalDefId,
    pub ty_bindings: Seq<Ty>,
}

pub enum CandView {
    Fn(FnCandView),
    Adt(AdtCandView),
}

pub struct AssignView {
    pub slot: MatchSlot,
    pub candidate: CandView,
}

pub struct ResultView {
    pub assignments: Seq<AssignView>,
    pub bindings: BindingsView,
    pub primary_fn: Option<FnMatchContext>,
}

impl View for FnSlotCandidate {
    type V = FnCandView;

    open spec fn view(&self) -> FnCandView {
        FnCandView {
            def_id: self.def_id,
            snapshot: self.snapshot@,
            normalized: self.normalized@,
            has_body_match: self.has_body_match,
        }
    }
}

impl View for AdtSlotCandidate {
    type V = AdtCandView;

    open spec fn view(&self) -> AdtCandView {
        AdtCandView { def_id: self.def_id, ty_bindings: self.ty_bindings@ }
    }
}

impl View for SlotCandidate {
    type V = CandView;

    open spec fn view(&self) -> CandView {
        match self {
            SlotCandidate::Fn(c) => CandView::Fn(c@),
            SlotCandidate::Adt(c) => CandView::Adt(c@),
        }
    }
}

impl View for SlotAssignment {
    type V = AssignView;

    open spec fn view(&self) -> AssignView {
        AssignView { slot: self.slot, candidate: self.candidate@ }
    }
}

/// The views of a list of assignments.
pub open spec fn assignments_view(v: Seq<SlotAssignment>) -> Seq<AssignView> {
    v.map_values(|a: SlotAssignment| a@)
}

/// The views of a list of results.
pub open spec fn results_view(v: Seq<SessionResult>) -> Seq<ResultView> {
    v.map_values(|r: SessionResult| r@)
}

impl View for SessionResult {
    type V = ResultView;

    open spec fn view(&self) -> ResultView {
        ResultView {
            assignments: assignments_view(self.assignments@),
            bindings: self.bindings@,
            primary_fn: self.primary_fn,
        }
    }
}

/// The first position at or after `from` whose assignment satisfies `pred`.
pub open spec fn first_assignment(asg: Seq<AssignView>, pred: spec_fn(AssignView) -> bool, from: int) -> Option<int>
    decreases asg.len() - from,
{
    if from < 0 || from >= asg.len() {
        None
    } else if pred(asg[from]) {
        Some(from)
    } else {
        first_assignment(asg, pred, from + 1)
    }
}

/// The assignment fills a slot with a function.
pub open spec fn is_fn_assignment() -> spec_fn(AssignView) -> bool {
    |a: AssignView| a.candidate is Fn
}

/// The assignment fills a slot with an ADT.
pub open spec fn is_adt_assignment() -> spec_fn(AssignView) -> bool {
    |a: AssignView| a.candidate is Adt
}

/// The assignment fills a slot with a function whose MIR body matched.
pub open spec fn is_body_fn_assignment() -> spec_fn(AssignView) -> bool {
    |a: AssignView| a.candidate matches CandView::Fn(c) && c.has_body_match
}

/// The assignment fills a slot with the function `def_id`.
pub open spec fn is_fn_assignment_of(def_id: LocalDefId) -> spec_fn(AssignView) -> bool {
    |a: AssignView| a.candidate matches CandView::Fn(c) && c.def_id == def_id
}

/// The definition of the function filling the assignment at `m`.
pub open spec fn fn_def_at(asg: Seq<AssignView>, m: int) -> LocalDefId {
    asg[m].candidate->Fn_0.def_id
}

/// The primary function chosen for the assignments: the first function whose body
/// matched, else the first function at all.
pub open spec fn primary_of(asg: Seq<AssignView>) -> Option<FnMatchContext> {
    match first_assignment(asg, is_body_fn_assignment(), 0) {
        Some(m) => Some(bare_context(fn_def_at(asg, m))),
        None => match first_assignment(asg, is_fn_assignment(), 0) {
            Some(m) => Some(bare_context(fn_def_at(asg, m))),
            None => None,
        },
    }
}

/// The position of the assignment that carries the primary function.
pub open spec fn primary_position(r: ResultView) -> Option<int> {
    match r.primary_fn {
        Some(ctx) => first_assignment(r.assignments, is_fn_assignment_of(ctx.def_id), 0),
        None => None,
    }
}

/// The slot filled by the primary function.
pub open spec fn primary_slot(r: ResultView) -> Option<MatchSlot> {
    match primary_position(r) {
        Some(m) => Some(r.assignments[m].slot),
        None => None,
    }
}

/// The candidate filling the slot of the primary function.
pub open spec fn primary_candidate(r: ResultView) -> Option<FnCandView> {
    match primary_position(r) {
        Some(m) => Some(r.assignments[m].candidate->Fn_0),
        None => None,
    }
}

/// Two results report the same thing: same bindings, same number of assignments,
/// and the same primary function with the same normalized match.
pub open spec fn results_equivalent(a: ResultView, b: ResultView) -> bool {
    &&& a.bindings == b.bindings
    &&& a.assignments.len() == b.assignments.len()
    &&& primary_slot(a) == primary_slot(b)
    &&& match (primary_candidate(a), primary_candidate(b)) {
        (Some(x), Some(y)) => x.def_id == y.def_id && x.normalized == y.normalized,
        (None, None) => true,
        _ => false,
    }
}

impl FnSlotCandidate {
    pub fn copy(&self) -> (r: FnSlotCandidate)
        ensures
            r@ == self@,
    {
        FnSlotCandidate {
            def_id: self.def_id,
            snapshot: self.snapshot.copy(),
            normalized: self.normalized.copy(),
            has_body_match: self.has_body_match,
        }
    }
}

impl AdtSlotCandidate {
    pub fn copy(&self) -> (r: AdtSlotCandidate)
        ensures
            r@ == self@,
    {
        AdtSlotCandidate { def_id: self.def_id, ty_bindings: copy_vec(&self.ty_bindings) }
    }
}

impl SlotAssignment {
    pub fn copy(&self) -> (r: SlotAssignment)
        ensures
            r@ == self@,
    {
        let candidate = match &self.candidate {
            SlotCandidate::Fn(c) => SlotCandidate::Fn(c.copy()),
            SlotCandidate::Adt(c) => SlotCandidate::Adt(c.copy()),
        };
        SlotAssignment { slot: self.slot, candidate }
    }
}

/// A copy of a list of assignments.
pub fn copy_assignments(v: &Vec<SlotAssignment>) -> (r: Vec<SlotAssignment>)
    ensures
        assignments_view(r@) == assignments_view(v@),
{
    let mut r: Vec<SlotAssignment> = Vec::new();
    for i in 0..v.len()
        invariant
            assignments_view(r@) == assignments_view(v@).subrange(0, i as int),
    {
        let a = v[i].copy();
        let ghost before = r@;
        r.push(a);
        proof {
            assert(assignments_view(r@) =~= assignments_view(before).push(a@));
        }
    }
    assert(assignments_view(r@) =~= assignments_view(v@));
    r
}

/// The first position at or after `from` holding a function assignment of `def_id`.
fn find_fn_assignment(asg: &Vec<SlotAssignment>, def_id: LocalDefId) -> (r: Option<usize>)
    ensures
        r matches Some(m) ==> first_assignment(assignments_view(asg@), is_fn_assignment_of(def_id), 0) == Some(
            m as int,
        ),
        r is None ==> first_assignment(assignments_view(asg@), is_fn_assignment_of(def_id), 0) is None,
{
    let ghost v = assignments_view(asg@);
    let ghost pred = is_fn_assignment_of(def_id);
    for i in 0..asg.len()
        invariant
            v == assignments_view(asg@),
            pred == is_fn_assignment_of(def_id),
            first_assignment(v, pred, 0) == first_assignment(v, pred, i as int),
    {
        assert(v[i as int] == asg@[i as int]@);
        let hit = match &asg[i].candidate {
            SlotCandidate::Fn(c) => c.def_id.same(&def_id),
            SlotCandidate::Adt(_) => false,
        };
        if hit {
            return Some(i);
        }
    }
    None
}

impl SessionResult {
    /// The position of the assignment carrying the primary function.
    pub fn primary_fn_assignment(&self) -> (r: Option<usize>)
        ensures
            r matches Some(m) ==> primary_position(self@) == Some(m as int) && m < self.assignments@.len(),
            r is None ==> primary_position(self@) is None,
    {
        match self.primary_fn {
            Some(ctx) => {
                let r = find_fn_assignment(&self.assignments, ctx.def_id);
                proof {
                    if r is Some {
                        lemma_first_assignment_bounds(self@.assignments, is_fn_assignment_of(ctx.def_id), 0);
                    }
                }
                r
            },
            None => None,
        }
    }

    /// The slot filled by the primary function.
    pub fn primary_fn_slot(&self) -> (r: Option<MatchSlot>)
        ensures
            r == primary_slot(self@),
    {
        match self.primary_fn_assignment() {
            Some(m) => Some(self.assignments[m].slot),
            None => None,
        }
    }

    /// The candidate filling the slot of the primary function.
    pub fn primary_fn_candidate(&self) -> (r: Option<&FnSlotCandidate>)
        ensures
            r matches Some(c) ==> primary_candidate(self@) == Some(c@),
            r is None ==> primary_candidate(self@) is None,
    {
        match self.primary_fn_assignment() {
            Some(m) => {
                proof {
                    lemma_first_assignment_bounds(
                        self@.assignments,
                        is_fn_assignment_of(self.primary_fn.unwrap().def_id),
                        0,
                    );
                    assert(self@.assignments[m as int] == self.assignments@[m as int]@);
                }
                match &self.assignments[m].candidate {
                    SlotCandidate::Fn(c) => Some(c),
                    SlotCandidate::Adt(_) => None,
                }
            },
            None => None,
        }
    }

    /// The definition and normalized match of the primary function, which identify
    /// a result of a pattern operation.
    pub fn operation_match_key(&self) -> (r: Option<(LocalDefId, &NormalizedMatched)>)
        ensures
            r matches Some(k) ==> primary_candidate(self@) matches Some(c) && c.def_id == k.0 && c.normalized
                == k.1@,
            r is None ==> primary_candidate(self@) is None,
    {
        match self.primary_fn_candidate() {
            Some(c) => Some((c.def_id, &c.normalized)),
            None => None,
        }
    }

    /// Whether two results report the same thing.
    pub fn equivalent(&self, other: &Self) -> (r: bool)
        ensures
            r == results_equivalent(self@, other@),
    {
        if !self.bindings.equivalent_to(&other.bindings) {
            return false;
        }
        if self.assignments.len() != other.assignments.len() {
            return false;
        }
        let a = self.primary_fn_slot();
        let b = other.primary_fn_slot();
        let same_slot = match (a, b) {
            (Some(x), Some(y)) => x.same_slot(&y),
            (None, None) => true,
            _ => false,
        };
        if !same_slot {
            return false;
        }
        match (self.primary_fn_candidate(), other.primary_fn_candidate()) {
            (Some(x), Some(y)) => x.def_id.same(&y.def_id) && x.normalized.same_as(&y.normalized),
            (None, None) => true,
            _ => false,
        }
    }
}

/// A position found by [`first_assignment`] is in range and satisfies the predicate.
pub proof fn lemma_first_assignment_bounds(asg: Seq<AssignView>, pred: spec_fn(AssignView) -> bool, from: int)
    ensures
        first_assignment(asg, pred, from) matches Some(m) ==> from <= m < asg.len() && pred(asg[m]),
    decreases asg.len() - from,
{
    if 0 <= from < asg.len() && !pred(asg[from]) {
        lemma_first_assignment_bounds(asg, pred, from + 1);
    }
}

} // verus!
