//! Candidates of the field metavariables of an ADT pattern, and their reference-counted
//! one-to-one matching with the fields of an ADT.
use vstd::prelude::*;

use crate::adt_fields::AdtFieldMap;
use crate::types::{FieldIdx, Interned, Symbol};

verus! {

/// The view of a counted match: the matched value and how many times it is matched.
pub struct CountView<T> {
    pub value: Option<T>,
    pub count: nat,
}

/// A value matched a number of times; it is released when the count drops to zero.
#[derive(Debug, Copy)]
pub struct CountedMatch<T> {
    value: Option<T>,
    count: usize,
}

impl<T> View for CountedMatch<T> {
    type V = CountView<T>;

    closed spec fn view(&self) -> CountView<T> {
        CountView { value: self.value, count: self.count as nat }
    }
}

impl<T: Copy> Clone for CountedMatch<T> {
    fn clone(&self) -> (r: Self)
        ensures
            r == *self,
    {
        *self
    }
}

impl<T> CountedMatch<T> {
    #[verifier::type_invariant]
    closed spec fn inv(self) -> bool {
        self.value is None <==> self.count == 0
    }

}

impl<T: Interned> CountedMatch<T> {
    /// Nothing matched.
    pub fn new() -> (r: Self)
        ensures
            r@.value is None,
            r@.count == 0,
    {
        CountedMatch { value: None, count: 0 }
    }

    /// The matched value, if any.
    pub fn get(&self) -> (r: Option<T>)
        ensures
            r == self@.value,
            r is None <==> self@.count == 0,
    {
        proof {
            use_type_invariant(self);
        }
        self.value
    }

    /// Match `x`: succeeds when nothing or `x` itself is matched, and counts one more match.
    pub fn try_match(&mut self, x: T) -> (r: bool)
        requires
            old(self)@.value is None || old(self)@.value == Some(x) ==> old(self)@.count < usize::MAX,
        ensures
            r == (old(self)@.value is None || old(self)@.value == Some(x)),
            r ==> final(self)@ == (CountView { value: Some(x), count: old(self)@.count + 1 }),
            !r ==> final(self)@ == old(self)@,
    {
        proof {
            use_type_invariant(&*self);
        }
        match self.value {
            None => {
                *self = CountedMatch { value: Some(x), count: 1 };
                true
            },
            Some(v) => {
                if v.same(&x) {
                    self.count = self.count + 1;
                    true
                } else {
                    false
                }
            },
        }
    }

    /// Release one match; the value is released with the last one.
    pub fn unmatch(&mut self)
        ensures
            final(self)@ == released(old(self)@),
    {
        proof {
            use_type_invariant(&*self);
        }
        if self.count > 0 {
            if self.count == 1 {
                *self = CountedMatch { value: None, count: 0 };
            } else {
                self.count = self.count - 1;
            }
        }
    }
}

/// One count released from `c`.
pub open spec fn released<T>(c: CountView<T>) -> CountView<T> {
    if c.count == 0 {
        c
    } else if c.count == 1 {
        CountView { value: None, count: 0 }
    } else {
        CountView { value: c.value, count: (c.count - 1) as nat }
    }
}

impl Interned for u32 {
    fn same(&self, other: &Self) -> (r: bool) {
        *self == *other
    }
}

/// The view of the candidates of an ADT pattern.
pub struct CandidatesView {
    /// The field metavariables, in declaration order.
    pub names: Seq<Symbol>,
    /// For each metavariable, which fields are candidates.
    pub candidates: Seq<Seq<bool>>,
    /// For each metavariable, the field it is matched to.
    pub matches: Seq<CountView<FieldIdx>>,
    /// For each field, the metavariable it is matched to.
    pub lookup: Seq<CountView<Symbol>>,
}

/// The shape of a candidates view: distinct names, one candidate row and one match per
/// name, one lookup entry per field, and field indices that fit in a `FieldIdx`.
pub open spec fn shaped(v: CandidatesView) -> bool {
    &&& forall|i: int, j: int|
        0 <= i < v.names.len() && 0 <= j < v.names.len() && #[trigger] v.names[i] == #[trigger] v.names[j]
            ==> i == j
    &&& v.candidates.len() == v.names.len()
    &&& v.matches.len() == v.names.len()
    &&& forall|i: int| 0 <= i < v.names.len() ==> (#[trigger] v.candidates[i]).len() == v.lookup.len()
    &&& v.lookup.len() <= u32::MAX
}

/// Nothing is matched exactly where the count is zero.
pub open spec fn counts_ok(v: CandidatesView) -> bool {
    &&& forall|i: int| 0 <= i < v.matches.len() ==> ((#[trigger] v.matches[i]).value is None <==> v.matches[i].count == 0)
    &&& forall|e: int| 0 <= e < v.lookup.len() ==> ((#[trigger] v.lookup[e]).value is None <==> v.lookup[e].count == 0)
}

/// The two sides of the matching agree: metavariable `i` is matched to field `e` exactly
/// when field `e` is matched to metavariable `i`, and as many times.
pub open spec fn consistent(v: CandidatesView) -> bool {
    &&& forall|i: int|
        0 <= i < v.names.len() && (#[trigger] v.matches[i]).value is Some ==> {
            let e = v.matches[i].value->Some_0 as int;
            &&& e < v.lookup.len()
            &&& v.lookup[e].value == Some(v.names[i])
            &&& v.lookup[e].count == v.matches[i].count
        }
    &&& forall|e: FieldIdx|
        0 <= e < v.lookup.len() && (#[trigger] v.lookup[e as int]).value is Some ==> {
            let n = v.lookup[e as int].value->Some_0;
            &&& has_name(v, n)
            &&& v.matches[name_position(v, n)].value == Some(e)
        }
}

/// A well-formed candidates view.
pub open spec fn candidates_wf(v: CandidatesView) -> bool {
    &&& shaped(v)
    &&& counts_ok(v)
    &&& consistent(v)
}

/// The position of metavariable `name`.
pub open spec fn name_position(v: CandidatesView, name: Symbol) -> int {
    choose|i: int| 0 <= i < v.names.len() && v.names[i] == name
}

/// Metavariable `name` is one of the pattern's.
pub open spec fn has_name(v: CandidatesView, name: Symbol) -> bool {
    exists|i: int| 0 <= i < v.names.len() && v.names[i] == name
}

/// The number of fields.
pub open spec fn num_fields(v: CandidatesView) -> int {
    v.lookup.len() as int
}

/// Matching metavariable `i` with field `e` meets no conflict.
pub open spec fn can_match(v: CandidatesView, i: int, e: FieldIdx) -> bool {
    &&& (v.matches[i].value is None || v.matches[i].value == Some(e))
    &&& (v.lookup[e as int].value is None || v.lookup[e as int].value == Some(v.names[i]))
}

/// The view after matching metavariable `i` with field `e` once more.
pub open spec fn matched_view(v: CandidatesView, i: int, e: FieldIdx) -> CandidatesView {
    CandidatesView {
        matches: v.matches.update(i, CountView { value: Some(e), count: v.matches[i].count + 1 }),
        lookup: v.lookup.update(e as int, CountView { value: Some(v.names[i]), count: v.lookup[e as int].count + 1 }),
        ..v
    }
}

/// The view after releasing one match of metavariable `i` with field `e`, on each side
/// where it holds.
pub open spec fn unmatched_view(v: CandidatesView, i: int, e: FieldIdx) -> CandidatesView {
    CandidatesView {
        matches: if v.matches[i].value == Some(e) {
            v.matches.update(i, released(v.matches[i]))
        } else {
            v.matches
        },
        lookup: if v.lookup[e as int].value == Some(v.names[i]) {
            v.lookup.update(e as int, released(v.lookup[e as int]))
        } else {
            v.lookup
        },
        ..v
    }
}

/// The first field at or after `from` that is a candidate in `bits`.
pub open spec fn first_candidate(bits: Seq<bool>, from: int) -> Option<int>
    decreases bits.len() - from,
{
    if from < 0 || from >= bits.len() {
        None
    } else if bits[from] {
        Some(from)
    } else {
        first_candidate(bits, from + 1)
    }
}

/// The candidate of `bits`, when it holds exactly one.
pub open spec fn single_candidate(bits: Seq<bool>) -> Option<int> {
    match first_candidate(bits, 0) {
        Some(e) => if first_candidate(bits, e + 1) is None {
            Some(e)
        } else {
            None
        },
        None => None,
    }
}

/// One step of committing unique candidates: metavariable `i`, when unmatched and with
/// exactly one candidate, is matched with it (if that meets no conflict).
pub open spec fn commit_step(v: CandidatesView, i: int) -> CandidatesView {
    if v.matches[i].value is None && single_candidate(v.candidates[i]) is Some {
        let e = single_candidate(v.candidates[i])->Some_0 as FieldIdx;
        if can_match(v, i, e) {
            matched_view(v, i, e)
        } else {
            v
        }
    } else {
        v
    }
}

/// The view after committing the unique candidates of the first `k` metavariables.
pub open spec fn committed(v: CandidatesView, k: int) -> CandidatesView
    decreases k,
{
    if k <= 0 {
        v
    } else {
        commit_step(committed(v, k - 1), k - 1)
    }
}

/// The view with no metavariable matched and no candidate recorded.
pub open spec fn fresh_view(names: Seq<Symbol>, n_fields: nat) -> CandidatesView {
    CandidatesView {
        names,
        candidates: Seq::new(names.len(), |i: int| Seq::new(n_fields, |e: int| false)),
        matches: Seq::new(names.len(), |i: int| CountView { value: None, count: 0 }),
        lookup: Seq::new(n_fields, |e: int| CountView { value: None, count: 0 }),
    }
}

/// Names occur at most once in `names`.
pub open spec fn distinct_names(names: Seq<Symbol>) -> bool {
    forall|i: int, j: int|
        0 <= i < names.len() && 0 <= j < names.len() && #[trigger] names[i] == #[trigger] names[j] ==> i == j
}

/// The fields named `name` that `compat` marks compatible.
pub open spec fn named_compatible(name: Symbol, field_names: Seq<Symbol>, compat: Seq<bool>) -> Seq<bool> {
    Seq::new(compat.len(), |e: int| field_names[e] == name && compat[e])
}

/// The candidates of a metavariable named `name`: the first compatible field of the same
/// name alone, when there is one, else every compatible field.
pub open spec fn built_row(name: Symbol, field_names: Seq<Symbol>, compat: Seq<bool>) -> Seq<bool> {
    match first_candidate(named_compatible(name, field_names, compat), 0) {
        Some(e0) => Seq::new(compat.len(), |e: int| e == e0),
        None => compat,
    }
}

/// The candidates view built for the metavariables `names` from the fields named
/// `field_names` and the compatibility rows `compatible`.
pub open spec fn built_view(names: Seq<Symbol>, field_names: Seq<Symbol>, compatible: Seq<Seq<bool>>) -> CandidatesView {
    CandidatesView {
        candidates: Seq::new(names.len(), |i: int| built_row(names[i], field_names, compatible[i])),
        ..fresh_view(names, field_names.len())
    }
}

/// `bits` marks at least one field.
pub open spec fn has_candidate(bits: Seq<bool>) -> bool {
    exists|e: int| 0 <= e < bits.len() && bits[e]
}

/// Every metavariable has at least one candidate.
pub open spec fn all_have_candidates(v: CandidatesView) -> bool {
    forall|i: int| 0 <= i < v.names.len() ==> has_candidate(#[trigger] v.candidates[i])
}

/// Every metavariable is matched.
pub open spec fn all_matched(v: CandidatesView) -> bool {
    forall|i: int| 0 <= i < v.names.len() ==> (#[trigger] v.matches[i]).value is Some
}

/// The bindings `(adt, name) -> field` of the matched metavariables whose position is
/// below `k`.
pub open spec fn bindings_upto(v: CandidatesView, adt: Symbol, k: int) -> Map<(Symbol, Symbol), FieldIdx> {
    Map::new(
        |key: (Symbol, Symbol)|
            key.0 == adt && has_name(v, key.1) && name_position(v, key.1) < k
                && v.matches[name_position(v, key.1)].value is Some,
        |key: (Symbol, Symbol)| v.matches[name_position(v, key.1)].value->Some_0,
    )
}

/// The bindings `(adt, name) -> field` of all matched metavariables.
pub open spec fn field_bindings_of(v: CandidatesView, adt: Symbol) -> Map<(Symbol, Symbol), FieldIdx> {
    bindings_upto(v, adt, v.names.len() as int)
}

/// The metavariables from `k` on can be matched one more time each.
pub open spec fn room_from(v: CandidatesView, k: int) -> bool {
    forall|j: int| k <= j < v.names.len() ==> #[trigger] v.matches[j].count < usize::MAX
}

/// The outcome of matching the metavariables from `k` on, each with one of its
/// candidates, trying the candidates in increasing order and going back on a choice that
/// leaves a later metavariable without a match: the view once all of them are matched,
/// or `None` when no choice matches them all.
pub open spec fn search(v: CandidatesView, k: int) -> Option<CandidatesView>
    decreases v.names.len() - k, v.lookup.len() + 1,
{
    if k < 0 || k >= v.names.len() {
        Some(v)
    } else {
        search_from(v, k, 0)
    }
}

/// The outcome of the search that tries metavariable `k` with the fields from `e` on.
pub open spec fn search_from(v: CandidatesView, k: int, e: int) -> Option<CandidatesView>
    decreases v.names.len() - k, v.lookup.len() - e,
{
    if k < 0 || k >= v.names.len() || e < 0 || e >= v.lookup.len() {
        None
    } else if v.candidates[k][e] && can_match(v, k, e as FieldIdx) && search(
        matched_view(v, k, e as FieldIdx),
        k + 1,
    ) is Some {
        search(matched_view(v, k, e as FieldIdx), k + 1)
    } else {
        search_from(v, k, e + 1)
    }
}

proof fn lemma_first_candidate(bits: Seq<bool>, from: int)
    requires
        0 <= from,
    ensures
        match first_candidate(bits, from) {
            Some(e) => from <= e < bits.len() && bits[e] && forall|x: int| from <= x < e ==> !#[trigger] bits[x],
            None => forall|x: int| from <= x < bits.len() ==> !#[trigger] bits[x],
        },
    decreases bits.len() - from,
{
    if from < bits.len() && !bits[from] {
        lemma_first_candidate(bits, from + 1);
    }
}

/// What the search finds matches every metavariable from `k` on with one of its
/// candidates, keeps every match it started from, and keeps the two sides of the matching
/// consistent, so that distinct metavariables get distinct fields.
pub proof fn lemma_search_sound(v: CandidatesView, k: int)
    requires
        candidates_wf(v),
        0 <= k,
    ensures
        search(v, k) matches Some(w) ==> {
            &&& candidates_wf(w)
            &&& w.names == v.names
            &&& w.candidates == v.candidates
            &&& w.lookup.len() == v.lookup.len()
            &&& forall|j: int|
                k <= j < v.names.len() ==> (#[trigger] w.matches[j]).value is Some
                    && v.candidates[j][w.matches[j].value->Some_0 as int]
            &&& forall|j: int|
                0 <= j < v.names.len() && (#[trigger] v.matches[j]).value is Some ==> w.matches[j].value
                    == v.matches[j].value
        },
    decreases v.names.len() - k, v.lookup.len() + 1,
{
    if k < v.names.len() {
        lemma_search_from_sound(v, k, 0);
    }
}

/// `f` picks for every metavariable from `k` on one of its candidates, with no conflict
/// with the matches of `v` and no field picked twice.
pub open spec fn admits(v: CandidatesView, k: int, f: spec_fn(int) -> int) -> bool {
    &&& forall|j: int|
        k <= j < v.names.len() ==> 0 <= #[trigger] f(j) < v.lookup.len() && v.candidates[j][f(j)] && can_match(
            v,
            j,
            f(j) as FieldIdx,
        )
    &&& forall|j1: int, j2: int| k <= j1 < j2 < v.names.len() ==> #[trigger] f(j1) != #[trigger] f(j2)
}

/// The search finds a matching whenever one exists.
pub proof fn lemma_search_complete(v: CandidatesView, k: int, f: spec_fn(int) -> int)
    requires
        candidates_wf(v),
        0 <= k,
        admits(v, k, f),
    ensures
        search(v, k) is Some,
    decreases v.names.len() - k, v.lookup.len() + 1,
{
    if k < v.names.len() {
        lemma_search_from_complete(v, k, 0, f);
    }
}

proof fn lemma_search_from_complete(v: CandidatesView, k: int, e: int, f: spec_fn(int) -> int)
    requires
        candidates_wf(v),
        0 <= k < v.names.len(),
        0 <= e <= f(k),
        admits(v, k, f),
    ensures
        search_from(v, k, e) is Some,
    decreases v.names.len() - k, v.lookup.len() - e,
{
    assert(0 <= f(k) < v.lookup.len());
    let x = e as FieldIdx;
    if v.candidates[k][e] && can_match(v, k, x) && search(matched_view(v, k, x), k + 1) is Some {
    } else if e < f(k) {
        lemma_search_from_complete(v, k, e + 1, f);
    } else {
        lemma_matched_wf(v, k, x);
        let mv = matched_view(v, k, x);
        assert forall|j: int| k + 1 <= j < mv.names.len() implies 0 <= #[trigger] f(j) < mv.lookup.len()
            && mv.candidates[j][f(j)] && can_match(mv, j, f(j) as FieldIdx) by {
            assert(f(k) != f(j));
            assert(mv.matches[j] == v.matches[j]);
            assert(mv.lookup[f(j)] == v.lookup[f(j)]);
        }
        assert(admits(mv, k + 1, f));
        lemma_search_complete(mv, k + 1, f);
    }
}

/// What the search finds gives a matching that the view admits.
pub proof fn lemma_search_admits(v: CandidatesView, k: int)
    requires
        candidates_wf(v),
        0 <= k,
        search(v, k) is Some,
    ensures
        admits(v, k, |j: int| search(v, k)->Some_0.matches[j].value->Some_0 as int),
{
    lemma_search_sound(v, k);
    let w = search(v, k)->Some_0;
    let f = |j: int| w.matches[j].value->Some_0 as int;
    assert forall|j: int| k <= j < v.names.len() implies 0 <= #[trigger] f(j) < v.lookup.len()
        && v.candidates[j][f(j)] && can_match(v, j, f(j) as FieldIdx) by {
        assert(w.matches[j].value is Some);
        let e = w.matches[j].value->Some_0;
        assert(w.lookup[e as int].value == Some(w.names[j]));
        if v.lookup[e as int].value is Some {
            let n = v.lookup[e as int].value->Some_0;
            let p = name_position(v, n);
            assert(v.matches[p].value == Some(e));
            assert(w.matches[p].value == Some(e));
            lemma_position(w, j);
            assert(w.lookup[e as int].value == Some(w.names[p]));
        }
    }
    assert forall|j1: int, j2: int| k <= j1 < j2 < v.names.len() implies #[trigger] f(j1) != #[trigger] f(j2) by {
        assert(w.matches[j1].value is Some);
        assert(w.matches[j2].value is Some);
        let e1 = w.matches[j1].value->Some_0;
        let e2 = w.matches[j2].value->Some_0;
        if e1 == e2 {
            assert(w.lookup[e1 as int].value == Some(w.names[j1]));
            assert(w.lookup[e2 as int].value == Some(w.names[j2]));
            assert(w.names[j1] == w.names[j2]);
        }
    }
}

/// The search succeeds exactly when some choice of candidates matches every
/// metavariable from `k` on.
pub proof fn lemma_search_succeeds_iff_admitted(v: CandidatesView, k: int)
    requires
        candidates_wf(v),
        0 <= k,
    ensures
        search(v, k) is Some <==> exists|f: spec_fn(int) -> int| admits(v, k, f),
{
    if search(v, k) is Some {
        lemma_search_admits(v, k);
        let w = search(v, k)->Some_0;
        let f = |j: int| w.matches[j].value->Some_0 as int;
        assert(admits(v, k, f));
    }
    if exists|f: spec_fn(int) -> int| admits(v, k, f) {
        let f = choose|f: spec_fn(int) -> int| admits(v, k, f);
        lemma_search_complete(v, k, f);
    }
}

proof fn lemma_search_from_sound(v: CandidatesView, k: int, e: int)
    requires
        candidates_wf(v),
        0 <= k < v.names.len(),
        0 <= e,
    ensures
        search_from(v, k, e) matches Some(w) ==> {
            &&& candidates_wf(w)
            &&& w.names == v.names
            &&& w.candidates == v.candidates
            &&& w.lookup.len() == v.lookup.len()
            &&& forall|j: int|
                k <= j < v.names.len() ==> (#[trigger] w.matches[j]).value is Some
                    && v.candidates[j][w.matches[j].value->Some_0 as int]
            &&& forall|j: int|
                0 <= j < v.names.len() && (#[trigger] v.matches[j]).value is Some ==> w.matches[j].value
                    == v.matches[j].value
        },
    decreases v.names.len() - k, v.lookup.len() - e,
{
    if e < v.lookup.len() {
        let f = e as FieldIdx;
        if v.candidates[k][e] && can_match(v, k, f) {
            lemma_matched_wf(v, k, f);
            let mv = matched_view(v, k, f);
            lemma_search_sound(mv, k + 1);
            if search(mv, k + 1) is Some {
                let w = search(mv, k + 1)->Some_0;
                assert forall|j: int| k <= j < v.names.len() implies (#[trigger] w.matches[j]).value is Some
                    && v.candidates[j][w.matches[j].value->Some_0 as int] by {
                    if j == k {
                        assert(mv.matches[k].value == Some(f));
                    }
                }
                assert forall|j: int| 0 <= j < v.names.len() && (#[trigger] v.matches[j]).value is Some implies w.matches[j].value
                    == v.matches[j].value by {
                    assert(mv.matches[j].value == v.matches[j].value);
                }
            } else {
                lemma_search_from_sound(v, k, e + 1);
            }
        } else {
            lemma_search_from_sound(v, k, e + 1);
        }
    }
}

proof fn lemma_position(v: CandidatesView, i: int)
    requires
        shaped(v),
        0 <= i < v.names.len(),
    ensures
        has_name(v, v.names[i]),
        name_position(v, v.names[i]) == i,
{
    let p = name_position(v, v.names[i]);
    assert(v.names[i] == v.names[i]);
    assert(0 <= p < v.names.len() && v.names[p] == v.names[i]);
}

/// Matching a metavariable with a field where that meets no conflict keeps the view
/// well-formed: the two sides of the matching stay consistent.
pub proof fn lemma_matched_wf(v: CandidatesView, i: int, e: FieldIdx)
    requires
        candidates_wf(v),
        0 <= i < v.names.len(),
        e < num_fields(v),
        can_match(v, i, e),
    ensures
        candidates_wf(matched_view(v, i, e)),
{
    let w = matched_view(v, i, e);
    lemma_position(v, i);
    assert(w.matches[i].count == w.lookup[e as int].count) by {
        if v.matches[i].value is None {
            if v.lookup[e as int].value is Some {
                let n = v.lookup[e as int].value->Some_0;
                assert(n == v.names[i]);
            }
        }
    }
    assert forall|j: int| 0 <= j < w.names.len() && (#[trigger] w.matches[j]).value is Some implies {
        let f = w.matches[j].value->Some_0 as int;
        &&& f < w.lookup.len()
        &&& w.lookup[f].value == Some(w.names[j])
        &&& w.lookup[f].count == w.matches[j].count
    } by {
        if j != i {
            let f = v.matches[j].value->Some_0;
            assert(v.matches[j] == w.matches[j]);
            if f == e {
                assert(v.lookup[e as int].value == Some(v.names[j]));
                assert(v.names[j] != v.names[i]);
            }
        }
    }
    assert forall|f: FieldIdx| 0 <= f < w.lookup.len() && (#[trigger] w.lookup[f as int]).value is Some implies {
        let n = w.lookup[f as int].value->Some_0;
        &&& has_name(w, n)
        &&& w.matches[name_position(w, n)].value == Some(f)
    } by {
        if f != e {
            assert(w.lookup[f as int] == v.lookup[f as int]);
            let n = v.lookup[f as int].value->Some_0;
            let p = name_position(v, n);
            assert(v.matches[p].value == Some(f));
            assert(p != i);
        }
    }
}

/// Releasing a match keeps the view well-formed; a metavariable is matched to a field
/// exactly when that field is matched to it.
pub proof fn lemma_unmatched_wf(v: CandidatesView, i: int, e: FieldIdx)
    requires
        candidates_wf(v),
        0 <= i < v.names.len(),
        e < num_fields(v),
    ensures
        candidates_wf(unmatched_view(v, i, e)),
        v.matches[i].value == Some(e) <==> v.lookup[e as int].value == Some(v.names[i]),
{
    let w = unmatched_view(v, i, e);
    lemma_position(v, i);
    if v.lookup[e as int].value == Some(v.names[i]) {
        assert(v.matches[i].value == Some(e));
    }
    assert forall|j: int| 0 <= j < w.names.len() && (#[trigger] w.matches[j]).value is Some implies {
        let f = w.matches[j].value->Some_0 as int;
        &&& f < w.lookup.len()
        &&& w.lookup[f].value == Some(w.names[j])
        &&& w.lookup[f].count == w.matches[j].count
    } by {
        if j != i {
            let f = v.matches[j].value->Some_0;
            assert(v.matches[j] == w.matches[j]);
            if f == e {
                assert(v.lookup[e as int].value == Some(v.names[j]));
                assert(v.names[j] != v.names[i]);
            }
        }
    }
    assert forall|f: FieldIdx| 0 <= f < w.lookup.len() && (#[trigger] w.lookup[f as int]).value is Some implies {
        let n = w.lookup[f as int].value->Some_0;
        &&& has_name(w, n)
        &&& w.matches[name_position(w, n)].value == Some(f)
    } by {
        let n = v.lookup[f as int].value->Some_0;
        let p = name_position(v, n);
        if f != e {
            assert(w.lookup[f as int] == v.lookup[f as int]);
            assert(v.matches[p].value == Some(f));
            if p == i {
                assert(v.matches[i].value != Some(e));
            }
        } else if v.lookup[e as int].value == Some(v.names[i]) {
            assert(v.matches[i].value == Some(e));
        } else {
            assert(v.matches[p].value == Some(e));
            if p == i {
                assert(v.lookup[e as int].value == Some(v.names[i]));
            }
        }
    }
}

/// Releasing a match just made gives back the view before it.
pub proof fn lemma_unmatch_undoes(v: CandidatesView, i: int, e: FieldIdx)
    requires
        candidates_wf(v),
        0 <= i < v.names.len(),
        e < num_fields(v),
        can_match(v, i, e),
    ensures
        unmatched_view(matched_view(v, i, e), i, e) == v,
{
    let w = unmatched_view(matched_view(v, i, e), i, e);
    assert(w.matches =~= v.matches);
    assert(w.lookup =~= v.lookup);
}

/// Releasing a match that does not hold changes nothing.
proof fn lemma_unmatch_noop(v: CandidatesView, i: int, e: FieldIdx)
    requires
        candidates_wf(v),
        0 <= i < v.names.len(),
        e < num_fields(v),
        !can_match(v, i, e),
    ensures
        unmatched_view(v, i, e) == v,
{
    lemma_unmatched_wf(v, i, e);
}

/// The first field at or after `from` that `bits` marks.
fn first_marked(bits: &Vec<bool>, from: usize) -> (r: Option<usize>)
    ensures
        match r {
            Some(e) => first_candidate(bits@, from as int) == Some(e as int),
            None => first_candidate(bits@, from as int) is None,
        },
{
    let mut e = from;
    while e < bits.len()
        invariant
            from <= e,
            e <= bits@.len() || e == from,
            first_candidate(bits@, from as int) == first_candidate(bits@, e as int),
        decreases bits@.len() - e,
    {
        if bits[e] {
            return Some(e);
        }
        e = e + 1;
    }
    None
}

/// The field that `bits` marks, when it marks exactly one.
fn single_marked(bits: &Vec<bool>) -> (r: Option<usize>)
    ensures
        match r {
            Some(e) => single_candidate(bits@) == Some(e as int),
            None => single_candidate(bits@) is None,
        },
{
    match first_marked(bits, 0) {
        Some(e) => {
            proof {
                lemma_first_candidate(bits@, 0);
            }
            let n = bits.len();
            assert(e < n);
            match first_marked(bits, e + 1) {
                Some(_) => None,
                None => Some(e),
            }
        },
        None => None,
    }
}

/// Whether `bits` marks a field.
fn any_marked(bits: &Vec<bool>) -> (r: bool)
    ensures
        r == has_candidate(bits@),
{
    proof {
        lemma_first_candidate(bits@, 0);
    }
    first_marked(bits, 0).is_some()
}

/// Candidates of the field metavariables of an ADT pattern.
#[derive(Debug)]
pub struct Candidates {
    names: Vec<Symbol>,
    candidates: Vec<Vec<bool>>,
    matches: Vec<CountedMatch<FieldIdx>>,
    lookup: Vec<CountedMatch<Symbol>>,
}

impl View for Candidates {
    type V = CandidatesView;

    closed spec fn view(&self) -> CandidatesView {
        CandidatesView {
            names: self.names@,
            candidates: self.candidates@.map_values(|b: Vec<bool>| b@),
            matches: self.matches@.map_values(|c: CountedMatch<FieldIdx>| c@),
            lookup: self.lookup@.map_values(|c: CountedMatch<Symbol>| c@),
        }
    }
}

impl Candidates {
    #[verifier::type_invariant]
    closed spec fn inv(self) -> bool {
        candidates_wf(self@)
    }


    /// No metavariable and no field.
    fn empty() -> (r: Self)
        ensures
            r@ == (CandidatesView {
                names: Seq::empty(),
                candidates: Seq::empty(),
                matches: Seq::empty(),
                lookup: Seq::empty(),
            }),
    {
        let r = Candidates { names: Vec::new(), candidates: Vec::new(), matches: Vec::new(), lookup: Vec::new() };
        assert(r@.names =~= Seq::empty());
        assert(r@.candidates =~= Seq::empty());
        assert(r@.matches =~= Seq::empty());
        assert(r@.lookup =~= Seq::empty());
        r
    }

    /// No metavariable matched, no candidate recorded, for the metavariables `names`
    /// and `num_fields` fields.
    pub fn new(names: &Vec<Symbol>, num_fields: FieldIdx) -> (r: Self)
        requires
            distinct_names(names@),
        ensures
            r@ == fresh_view(names@, num_fields as nat),
    {
        let mut candidates: Vec<Vec<bool>> = Vec::new();
        let mut matches: Vec<CountedMatch<FieldIdx>> = Vec::new();
        for i in 0..names.len()
            invariant
                candidates@.len() == i,
                matches@.len() == i,
                forall|k: int| 0 <= k < i ==> (#[trigger] candidates@[k])@ == Seq::new(num_fields as nat, |e: int| false),
                forall|k: int| 0 <= k < i ==> (#[trigger] matches@[k])@ == (CountView::<FieldIdx> { value: None, count: 0 }),
        {
            let mut row: Vec<bool> = Vec::new();
            for e in 0..num_fields
                invariant
                    row@ == Seq::new(e as nat, |x: int| false),
            {
                row.push(false);
                assert(row@ =~= Seq::new((e + 1) as nat, |x: int| false));
            }
            candidates.push(row);
            matches.push(CountedMatch::new());
        }
        let mut lookup: Vec<CountedMatch<Symbol>> = Vec::new();
        for e in 0..num_fields
            invariant
                lookup@.len() == e,
                forall|k: int| 0 <= k < e ==> (#[trigger] lookup@[k])@ == (CountView::<Symbol> { value: None, count: 0 }),
        {
            lookup.push(CountedMatch::new());
        }
        let r = Candidates { names: crate::types::copy_vec(names), candidates, matches, lookup };
        assert(r@.candidates =~= fresh_view(names@, num_fields as nat).candidates);
        assert(r@.matches =~= fresh_view(names@, num_fields as nat).matches);
        assert(r@.lookup =~= fresh_view(names@, num_fields as nat).lookup);
        r
    }

    fn position(&self, name: Symbol) -> (r: usize)
        requires
            has_name(self@, name),
        ensures
            r < self@.names.len(),
            self@.names[r as int] == name,
            r == name_position(self@, name),
    {
        proof {
            use_type_invariant(self);
        }
        let mut i: usize = 0;
        while i < self.names.len()
            invariant
                has_name(self@, name),
                shaped(self@),
                self.names@ == self@.names,
                i <= self.names@.len(),
                forall|j: int| 0 <= j < i ==> self.names@[j] != name,
            decreases self.names@.len() - i,
        {
            if self.names[i].same(&name) {
                proof {
                    lemma_position(self@, i as int);
                }
                return i;
            }
            i = i + 1;
        }
        proof {
            let j = choose|j: int| 0 <= j < self@.names.len() && self@.names[j] == name;
            assert(self.names@[j] == name);
        }
        0
    }

    /// Take the value out of `self`, leaving an empty one.
    fn take(&mut self) -> (r: Self)
        ensures
            r@ == old(self)@,
    {
        let mut r = Candidates::empty();
        std::mem::swap(self, &mut r);
        r
    }

    /// Record field `e` as a candidate of metavariable `name`.
    pub fn add_candidate(&mut self, name: Symbol, e: FieldIdx)
        requires
            has_name(old(self)@, name),
            e < num_fields(old(self)@),
        ensures
            final(self)@ == (CandidatesView {
                candidates: old(self)@.candidates.update(
                    name_position(old(self)@, name),
                    old(self)@.candidates[name_position(old(self)@, name)].update(e as int, true),
                ),
                ..old(self)@
            }),
    {
        let i = self.position(name);
        let ghost v = self@;
        let this = self.take();
        proof {
            use_type_invariant(&this);
        }
        let Candidates { names, mut candidates, matches, lookup } = this;
        let mut row = crate::types::copy_vec(&candidates[i]);
        row.set(e as usize, true);
        candidates.set(i, row);
        let ghost nv = CandidatesView {
            candidates: v.candidates.update(i as int, v.candidates[i as int].update(e as int, true)),
            ..v
        };
        assert(candidates@.map_values(|b: Vec<bool>| b@) =~= nv.candidates);
        *self = Candidates { names, candidates, matches, lookup };
    }

    /// The field metavariable `name` is matched to, if any.
    pub fn matched(&self, name: Symbol) -> (r: Option<FieldIdx>)
        requires
            has_name(self@, name),
        ensures
            r == self@.matches[name_position(self@, name)].value,
    {
        proof {
            use_type_invariant(self);
        }
        let i = self.position(name);
        self.matches[i].get()
    }

    /// Match metavariable `name` with field `e`: succeeds when neither side is matched to
    /// something else, and then counts one more match on both sides; otherwise nothing
    /// changes.
    pub fn try_match(&mut self, name: Symbol, e: FieldIdx) -> (r: bool)
        requires
            has_name(old(self)@, name),
            e < num_fields(old(self)@),
            old(self)@.matches[name_position(old(self)@, name)].count < usize::MAX,
        ensures
            r == can_match(old(self)@, name_position(old(self)@, name), e),
            r ==> final(self)@ == matched_view(old(self)@, name_position(old(self)@, name), e),
            !r ==> final(self)@ == old(self)@,
    {
        let i = self.position(name);
        let ghost v = self@;
        let this = self.take();
        proof {
            use_type_invariant(&this);
            lemma_position(v, i as int);
        }
        let Candidates { names, candidates, mut matches, mut lookup } = this;
        let ghost mv = matches@;
        let ghost lv = lookup@;
        assert(v.matches[i as int] == mv[i as int]@);
        assert(v.lookup[e as int] == lv[e as int]@);
        let mut m = matches[i];
        let mut l = lookup[e as usize];
        proof {
            use_type_invariant(&m);
            use_type_invariant(&l);
            if l@.value == Some(name) {
                assert(v.lookup[e as int].value is Some);
                assert(v.matches[i as int].value == Some(e));
            }
        }
        let r1 = m.try_match(e);
        let r2 = l.try_match(name);
        let r = if r1 && r2 {
            true
        } else {
            if r1 {
                m.unmatch();
            }
            if r2 {
                l.unmatch();
            }
            false
        };
        matches.set(i, m);
        lookup.set(e as usize, l);
        proof {
            if r {
                lemma_matched_wf(v, i as int, e);
                assert(matches@.map_values(|c: CountedMatch<FieldIdx>| c@) =~= matched_view(v, i as int, e).matches);
                assert(lookup@.map_values(|c: CountedMatch<Symbol>| c@) =~= matched_view(v, i as int, e).lookup);
            } else {
                if v.matches[i as int].value is None && r1 {
                    assert(m@ == v.matches[i as int]);
                }
                assert(matches@.map_values(|c: CountedMatch<FieldIdx>| c@) =~= v.matches);
                assert(lookup@.map_values(|c: CountedMatch<Symbol>| c@) =~= v.lookup);
            }
        }
        *self = Candidates { names, candidates, matches, lookup };
        r
    }

    /// Release one match of metavariable `name` with field `e`, where it holds.
    pub fn unmatch(&mut self, name: Symbol, e: FieldIdx)
        requires
            has_name(old(self)@, name),
            e < num_fields(old(self)@),
        ensures
            final(self)@ == unmatched_view(old(self)@, name_position(old(self)@, name), e),
    {
        let i = self.position(name);
        let ghost v = self@;
        let this = self.take();
        proof {
            use_type_invariant(&this);
            lemma_unmatched_wf(v, i as int, e);
        }
        let Candidates { names, candidates, mut matches, mut lookup } = this;
        assert(v.matches[i as int] == matches@[i as int]@);
        assert(v.lookup[e as int] == lookup@[e as int]@);
        let mut m = matches[i];
        let same_field = match m.get() {
            Some(f) => f == e,
            None => false,
        };
        if same_field {
            m.unmatch();
            matches.set(i, m);
        }
        let mut l = lookup[e as usize];
        let same_name = match l.get() {
            Some(n) => n.same(&name),
            None => false,
        };
        if same_name {
            l.unmatch();
            lookup.set(e as usize, l);
        }
        assert(matches@.map_values(|c: CountedMatch<FieldIdx>| c@) =~= unmatched_view(v, i as int, e).matches);
        assert(lookup@.map_values(|c: CountedMatch<Symbol>| c@) =~= unmatched_view(v, i as int, e).lookup);
        *self = Candidates { names, candidates, matches, lookup };
    }
    /// Match every metavariable whose candidates hold exactly one field with that field,
    /// in declaration order, where that meets no conflict; the others stay as they are.
    pub fn commit_unique_field_candidates(&mut self)
        ensures
            final(self)@ == committed(old(self)@, old(self)@.names.len() as int),
    {
        proof {
            use_type_invariant(&*self);
        }
        let ghost v0 = self@;
        let n = self.names.len();
        for i in 0..n
            invariant
                n == v0.names.len(),
                shaped(v0),
                self@ == committed(v0, i as int),
                self@.names == v0.names,
                self@.candidates == v0.candidates,
                self@.lookup.len() == v0.lookup.len(),
        {
            proof {
                use_type_invariant(&*self);
                lemma_position(self@, i as int);
            }
            let ghost vi = self@;
            let name = self.names[i];
            if self.matches[i].get().is_none() {
                match single_marked(&self.candidates[i]) {
                    Some(e) => {
                        proof {
                            lemma_first_candidate(vi.candidates[i as int], 0);
                        }
                        let ok = self.try_match(name, e as FieldIdx);
                    },
                    None => {},
                }
            }
        }
    }

    /// Whether every metavariable has a candidate.
    pub fn candidates_not_empty(&self) -> (r: bool)
        ensures
            r == all_have_candidates(self@),
    {
        proof {
            use_type_invariant(self);
        }
        for i in 0..self.candidates.len()
            invariant
                shaped(self@),
                forall|j: int| 0 <= j < i ==> has_candidate(#[trigger] self@.candidates[j]),
        {
            if !any_marked(&self.candidates[i]) {
                assert(self@.candidates[i as int] == self.candidates@[i as int]@);
                assert(!has_candidate(self@.candidates[i as int]));
                return false;
            }
        }
        true
    }

    /// Whether every metavariable is matched.
    pub fn all_fields_resolved(&self) -> (r: bool)
        ensures
            r == all_matched(self@),
    {
        proof {
            use_type_invariant(self);
        }
        for i in 0..self.matches.len()
            invariant
                shaped(self@),
                forall|j: int| 0 <= j < i ==> (#[trigger] self@.matches[j]).value is Some,
        {
            if self.matches[i].get().is_none() {
                assert(self@.matches[i as int] == self.matches@[i as int]@);
                assert(self@.matches[i as int].value is None);
                return false;
            }
        }
        true
    }

    /// The bindings `(adt_pat, name) -> field` of the matched metavariables.
    pub fn field_bindings(&self, adt_pat: Symbol) -> (r: AdtFieldMap)
        ensures
            r@ == field_bindings_of(self@, adt_pat),
    {
        proof {
            use_type_invariant(self);
        }
        let ghost v = self@;
        let mut map = AdtFieldMap::new();
        proof {
            assert(map@ =~= bindings_upto(v, adt_pat, 0));
        }
        for i in 0..self.names.len()
            invariant
                v == self@,
                shaped(v),
                map@ == bindings_upto(v, adt_pat, i as int),
        {
            proof {
                lemma_position(v, i as int);
            }
            let name = self.names[i];
            match self.matches[i].get() {
                Some(idx) => {
                    map.insert(adt_pat, name, idx);
                },
                None => {},
            }
            proof {
                assert forall|key: (Symbol, Symbol)| #[trigger] map@.contains_key(key) == bindings_upto(
                    v,
                    adt_pat,
                    i + 1,
                ).contains_key(key) by {
                    if key.0 == adt_pat && has_name(v, key.1) {
                        let p = name_position(v, key.1);
                        assert(0 <= p < v.names.len() && v.names[p] == key.1);
                        if p == i {
                            assert(key.1 == name);
                        } else if key.1 == name {
                            assert(v.names[p] == v.names[i as int]);
                        }
                    }
                }
                assert(map@ =~= bindings_upto(v, adt_pat, i + 1));
            }
        }
        map
    }

    /// Match the metavariables from `k` on, each with one of its candidates, trying the
    /// candidates in increasing order and going back on a choice that leaves a later
    /// metavariable without a match. On success the matches stay; on failure nothing
    /// changes.
    pub fn match_field_candidates(&mut self, k: usize) -> (r: bool)
        requires
            k <= old(self)@.names.len(),
            room_from(old(self)@, k as int),
        ensures
            r == search(old(self)@, k as int) is Some,
            r ==> final(self)@ == search(old(self)@, k as int)->Some_0,
            !r ==> final(self)@ == old(self)@,
        decreases old(self)@.names.len() - k,
    {
        proof {
            use_type_invariant(&*self);
        }
        if k == self.names.len() {
            return true;
        }
        let ghost v = self@;
        proof {
            lemma_position(v, k as int);
        }
        let name = self.names[k];
        let m = self.lookup.len();
        let mut e: usize = 0;
        while e < m
            invariant
                self@ == v,
                old(self)@ == v,
                candidates_wf(v),
                k < v.names.len(),
                name == v.names[k as int],
                name_position(v, name) == k,
                has_name(v, name),
                m == v.lookup.len(),
                e <= m,
                room_from(v, k as int),
                search_from(v, k as int, e as int) == search(v, k as int),
            decreases m - e,
        {
            proof {
                use_type_invariant(&*self);
            }
            if self.candidates[k][e] {
                let f = e as FieldIdx;
                let ok = self.try_match(name, f);
                if ok {
                    proof {
                        assert forall|j: int| k + 1 <= j < self@.names.len() implies #[trigger] self@.matches[j].count
                            < usize::MAX by {
                            assert(self@.matches[j] == v.matches[j]);
                        }
                        assert(self@.names.len() == v.names.len());
                    }
                    assert(k < self.names.len());
                    if self.match_field_candidates(k + 1) {
                        return true;
                    }
                }
                proof {
                    if ok {
                        lemma_unmatch_undoes(v, k as int, f);
                    } else {
                        lemma_unmatch_noop(v, k as int, f);
                    }
                }
                self.unmatch(name, f);
            }
            e = e + 1;
        }
        false
    }

    /// The candidates of the metavariables `names` among the fields named `field_names`,
    /// where `compatible[i][e]` tells whether field `e` can hold metavariable `i`: a
    /// compatible field of the same name is the only candidate, else every compatible
    /// field is. `None` when a metavariable is left without a candidate.
    pub fn build(names: &Vec<Symbol>, field_names: &Vec<Symbol>, compatible: &Vec<Vec<bool>>) -> (r: Option<Self>)
        requires
            distinct_names(names@),
            compatible@.len() == names@.len(),
            forall|i: int| 0 <= i < names@.len() ==> (#[trigger] compatible@[i])@.len() == field_names@.len(),
            field_names@.len() <= u32::MAX,
        ensures
            r is Some <==> all_have_candidates(built_view(names@, field_names@, compatible@.map_values(|c: Vec<bool>| c@))),
            r matches Some(c) ==> c@ == built_view(names@, field_names@, compatible@.map_values(|c: Vec<bool>| c@)),
    {
        let ghost rows = compatible@.map_values(|c: Vec<bool>| c@);
        let ghost target = built_view(names@, field_names@, rows);
        let n_fields = field_names.len() as FieldIdx;
        let mut c = Candidates::new(names, n_fields);
        for i in 0..names.len()
            invariant
                distinct_names(names@),
                compatible@.len() == names@.len(),
                forall|j: int| 0 <= j < names@.len() ==> (#[trigger] compatible@[j])@.len() == field_names@.len(),
                field_names@.len() <= u32::MAX,
                n_fields == field_names@.len(),
                rows == compatible@.map_values(|c: Vec<bool>| c@),
                target == built_view(names@, field_names@, rows),
                c@.names == names@,
                c@.matches == target.matches,
                c@.lookup == target.lookup,
                c@.candidates.len() == names@.len(),
                forall|j: int| 0 <= j < i ==> (#[trigger] c@.candidates[j]) == target.candidates[j],
                forall|j: int| i <= j < names@.len() ==> (#[trigger] c@.candidates[j]) == Seq::new(
                    n_fields as nat,
                    |e: int| false,
                ),
        {
            let name = names[i];
            let row = &compatible[i];
            let ghost named = named_compatible(name, field_names@, rows[i as int]);
            let mut same_name: Option<usize> = None;
            let mut e: usize = 0;
            while e < field_names.len()
                invariant
                    e <= field_names@.len(),
                    row@.len() == field_names@.len(),
                    named == named_compatible(name, field_names@, row@),
                    same_name is None ==> first_candidate(named, 0) == first_candidate(named, e as int),
                    same_name matches Some(x) ==> first_candidate(named, 0) == Some(x as int),
                decreases field_names@.len() - e,
            {
                if same_name.is_none() && field_names[e].same(&name) && row[e] {
                    same_name = Some(e);
                }
                e = e + 1;
            }
            proof {
                use_type_invariant(&c);
                lemma_position(c@, i as int);
                lemma_first_candidate(named, 0);
                assert(rows[i as int] == row@);
            }
            let ghost before = c@;
            match same_name {
                Some(x) => {
                    c.add_candidate(name, x as FieldIdx);
                    assert(c@.candidates[i as int] =~= Seq::new(field_names@.len(), |e: int| e == x));
                },
                None => {
                    for e in 0..field_names.len()
                        invariant
                            c@.names == names@,
                            c@.matches == before.matches,
                            c@.lookup == before.lookup,
                            before.lookup.len() == n_fields,
                            c@.candidates.len() == names@.len(),
                            has_name(c@, name),
                            name_position(c@, name) == i,
                            row@.len() == field_names@.len(),
                            n_fields == field_names@.len(),
                            forall|j: int| 0 <= j < names@.len() && j != i ==> (#[trigger] c@.candidates[j]) == before.candidates[j],
                            c@.candidates[i as int] == Seq::new(n_fields as nat, |x: int| x < e && row@[x]),
                    {
                        if row[e] {
                            c.add_candidate(name, e as FieldIdx);
                        }
                        assert(c@.candidates[i as int] =~= Seq::new(n_fields as nat, |x: int| x < e + 1 && row@[x]));
                        assert(c@.names[i as int] == name);
                    }
                    assert(c@.candidates[i as int] =~= row@);
                },
            }
            proof {
                assert(c@.candidates[i as int] =~= target.candidates[i as int]);
            }
        }
        proof {
            assert(c@.candidates =~= target.candidates);
            assert(c@ == target);
        }
        if c.candidates_not_empty() {
            Some(c)
        } else {
            None
        }
    }
}

} // verus!
