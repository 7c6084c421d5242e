//! Partial matches of a function pattern, as the component-joining matcher builds them.
//!
//! A matching records, for every statement of the pattern, the MIR statement (or
//! argument) it matched, and for every local and metavariable its value, each where
//! known; the MIR side records which pattern statements each of its statements matched.
//! Matches of separate components of a pattern are joined when they share no pattern
//! statement, agree on every shared value, and keep the control-flow order of the pattern.
use vstd::prelude::*;

use crate::reachability::{
    lemma_location_relation_converse, location_relation, Location, Reachability, Reachable,
};
use crate::types::{Const, Interned, LocalDefId, PlaceRef, Ty};

verus! {

/// What a statement of a pattern matched: an argument of the function or a statement of
/// its body.
#[derive(Debug, Clone, Copy, PartialEq, Eq, Structural)]
pub enum StatementMatch {
    Arg(u32),
    Location(Location),
}

/// A call site: the calling function and the location of the call.
#[derive(Debug, Clone, Copy, PartialEq, Eq, Structural)]
pub struct CallSite {
    pub def_id: LocalDefId,
    pub loc: Location,
}

/// The view of a value with the call stack through which it was reached.
pub struct WithCallStackView<T> {
    pub stack: Seq<CallSite>,
    pub def_id: LocalDefId,
    pub value: T,
}

/// A value matched in function `def_id`, reached through the call sites in `stack`, from
/// the innermost (in the caller of `def_id`) to the outermost.
#[derive(Debug)]
pub struct WithCallStack<T> {
    pub stack: Vec<CallSite>,
    pub def_id: LocalDefId,
    pub value: T,
}

impl<T> View for WithCallStack<T> {
    type V = WithCallStackView<T>;

    open spec fn view(&self) -> WithCallStackView<T> {
        WithCallStackView { stack: self.stack@, def_id: self.def_id, value: self.value }
    }
}

impl<T: Copy> WithCallStack<T> {
    /// A value matched in `def_id` itself.
    pub fn new_one(def_id: LocalDefId, value: T) -> (r: Self)
        ensures
            r@ == (WithCallStackView { stack: Seq::<CallSite>::empty(), def_id, value }),
    {
        let r = WithCallStack { stack: Vec::new(), def_id, value };
        assert(r@.stack =~= Seq::<CallSite>::empty());
        r
    }

    /// Record that the value was reached through a call at `loc` in `def_id`.
    pub fn push_call(&mut self, def_id: LocalDefId, loc: Location)
        ensures
            final(self)@ == (WithCallStackView { stack: old(self)@.stack.push(CallSite { def_id, loc }), ..old(self)@ }),
    {
        self.stack.push(CallSite { def_id, loc });
    }

    /// The function the value was matched in, and the value.
    pub fn def(&self) -> (r: (LocalDefId, T))
        ensures
            r == (self.def_id, self.value),
    {
        (self.def_id, self.value)
    }

    /// The matched value.
    pub fn value(&self) -> (r: T)
        ensures
            r == self.value,
    {
        self.value
    }

    /// The outermost call site if the value was reached through calls, else the function
    /// it was matched in.
    pub fn bottom(&self) -> (r: (LocalDefId, Option<Location>))
        ensures
            r == (if self@.stack.len() > 0 {
                (self@.stack.last().def_id, Some(self@.stack.last().loc))
            } else {
                (self.def_id, None)
            }),
    {
        let n = self.stack.len();
        if n > 0 {
            (self.stack[n - 1].def_id, Some(self.stack[n - 1].loc))
        } else {
            (self.def_id, None)
        }
    }

    /// A copy of this value.
    pub fn copy(&self) -> (r: Self)
        ensures
            r@ == self@,
    {
        WithCallStack { stack: crate::types::copy_vec(&self.stack), def_id: self.def_id, value: self.value }
    }
}

/// Where a matched statement lies, as far as control flow reads it: the outermost call
/// site, or the statement itself; an argument lies nowhere.
pub open spec fn bottom_location_of(w: WithCallStackView<StatementMatch>) -> (LocalDefId, Option<Location>) {
    if w.stack.len() > 0 {
        (w.stack.last().def_id, Some(w.stack.last().loc))
    } else {
        match w.value {
            StatementMatch::Location(l) => (w.def_id, Some(l)),
            StatementMatch::Arg(_) => (w.def_id, None),
        }
    }
}

impl WithCallStack<StatementMatch> {
    /// Where the matched statement lies.
    pub fn bottom_location(&self) -> (r: (LocalDefId, Option<Location>))
        ensures
            r == bottom_location_of(self@),
    {
        let n = self.stack.len();
        if n > 0 {
            (self.stack[n - 1].def_id, Some(self.stack[n - 1].loc))
        } else {
            match self.value {
                StatementMatch::Location(l) => (self.def_id, Some(l)),
                StatementMatch::Arg(_) => (self.def_id, None),
            }
        }
    }
}

/// Values a matching records: compared and copied through their views.
pub trait MatchValue: View + Sized {
    fn same_value(&self, other: &Self) -> (r: bool)
        ensures
            r == (self@ == other@),
    ;

    fn copy_value(&self) -> (r: Self)
        ensures
            r@ == self@,
    ;
}

impl Interned for StatementMatch {
    fn same(&self, other: &Self) -> (r: bool) {
        match (self, other) {
            (StatementMatch::Arg(a), StatementMatch::Arg(b)) => *a == *b,
            (StatementMatch::Location(a), StatementMatch::Location(b)) => a.block == b.block
                && a.statement_index == b.statement_index,
            _ => false,
        }
    }
}

impl Interned for CallSite {
    fn same(&self, other: &Self) -> (r: bool) {
        self.def_id.same(&other.def_id) && self.loc.block == other.loc.block && self.loc.statement_index
            == other.loc.statement_index
    }
}

impl Interned for Location {
    fn same(&self, other: &Self) -> (r: bool) {
        self.block == other.block && self.statement_index == other.statement_index
    }
}

fn same_seq<T: Interned>(a: &Vec<T>, b: &Vec<T>) -> (r: bool)
    ensures
        r == (a@ == b@),
{
    if a.len() != b.len() {
        return false;
    }
    for i in 0..a.len()
        invariant
            a@.len() == b@.len(),
            forall|j: int| 0 <= j < i ==> a@[j] == b@[j],
    {
        if !a[i].same(&b[i]) {
            return false;
        }
    }
    assert(a@ =~= b@);
    true
}

impl<T: Interned> MatchValue for WithCallStack<T> {
    fn same_value(&self, other: &Self) -> (r: bool) {
        let r = same_seq(&self.stack, &other.stack) && self.def_id.same(&other.def_id) && self.value.same(&other.value);
        r
    }

    fn copy_value(&self) -> (r: Self) {
        self.copy()
    }
}

/// The match of an ADT pattern against an ADT of the crate, by identity.
#[derive(Debug, Clone, Copy, PartialEq, Eq, Structural)]
pub struct AdtMatchRef {
    pub id: u64,
}

impl View for AdtMatchRef {
    type V = AdtMatchRef;

    open spec fn view(&self) -> AdtMatchRef {
        *self
    }
}

impl MatchValue for AdtMatchRef {
    fn same_value(&self, other: &Self) -> (r: bool) {
        self.id == other.id
    }

    fn copy_value(&self) -> (r: Self) {
        *self
    }
}

impl View for Ty {
    type V = Ty;

    open spec fn view(&self) -> Ty {
        *self
    }
}

impl View for Const {
    type V = Const;

    open spec fn view(&self) -> Const {
        *self
    }
}

impl MatchValue for Ty {
    fn same_value(&self, other: &Self) -> (r: bool) {
        self.same(other)
    }

    fn copy_value(&self) -> (r: Self) {
        *self
    }
}

impl MatchValue for Const {
    fn same_value(&self, other: &Self) -> (r: bool) {
        self.same(other)
    }

    fn copy_value(&self) -> (r: Self) {
        *self
    }
}

impl MatchValue for Vec<Location> {
    fn same_value(&self, other: &Self) -> (r: bool) {
        same_seq(self, other)
    }

    fn copy_value(&self) -> (r: Self) {
        crate::types::copy_vec(self)
    }
}

/// The views of optional values.
pub open spec fn opt_views<T: View>(s: Seq<Option<T>>) -> Seq<Option<T::V>> {
    s.map_values(
        |o: Option<T>|
            match o {
                Some(x) => Some(x@),
                None => None,
            },
    )
}

/// The views of rows of optional values.
pub open spec fn row_views<T: View>(s: Seq<Vec<Option<T>>>) -> Seq<Seq<Option<T::V>>> {
    s.map_values(|r: Vec<Option<T>>| opt_views(r@))
}

/// Joining `b` into `a` meets no contradiction.
pub open spec fn cell_ok<V>(a: Option<V>, b: Option<V>) -> bool {
    a is None || b is None || a == b
}

/// `a` after joining `b`: a value of `b` fills a missing one.
pub open spec fn cell_joined<V>(a: Option<V>, b: Option<V>) -> Option<V> {
    if b is Some {
        b
    } else {
        a
    }
}

/// Joining `b` into `a` element-wise meets no contradiction.
pub open spec fn cells_ok<V>(a: Seq<Option<V>>, b: Seq<Option<V>>) -> bool {
    forall|i: int| 0 <= i < a.len() ==> cell_ok(#[trigger] a[i], b[i])
}

/// `a` after joining `b` element-wise.
pub open spec fn cells_joined<V>(a: Seq<Option<V>>, b: Seq<Option<V>>) -> Seq<Option<V>> {
    Seq::new(a.len(), |i: int| cell_joined(a[i], b[i]))
}

/// Joining `b` into `a` row by row meets no contradiction.
pub open spec fn rows_ok<V>(a: Seq<Seq<Option<V>>>, b: Seq<Seq<Option<V>>>) -> bool {
    forall|i: int| 0 <= i < a.len() ==> cells_ok(#[trigger] a[i], b[i])
}

/// `a` after joining `b` row by row.
pub open spec fn rows_joined<V>(a: Seq<Seq<Option<V>>>, b: Seq<Seq<Option<V>>>) -> Seq<Seq<Option<V>>> {
    Seq::new(a.len(), |i: int| cells_joined(a[i], b[i]))
}

/// `a` and `b` have the same shape.
pub open spec fn same_rows_shape<V>(a: Seq<Seq<V>>, b: Seq<Seq<V>>) -> bool {
    &&& a.len() == b.len()
    &&& forall|i: int| 0 <= i < a.len() ==> (#[trigger] a[i]).len() == b[i].len()
}

fn copy_opt<T: MatchValue>(o: &Option<T>) -> (r: Option<T>)
    ensures
        match (r, *o) {
            (Some(x), Some(y)) => x@ == y@,
            (None, None) => true,
            _ => false,
        },
{
    match o {
        Some(x) => Some(x.copy_value()),
        None => None,
    }
}

/// Join `b` into `a` element-wise, giving the joined cells or `None` on a contradiction.
fn join_cells<T: MatchValue>(a: &Vec<Option<T>>, b: &Vec<Option<T>>) -> (r: Option<Vec<Option<T>>>)
    requires
        a@.len() == b@.len(),
    ensures
        r is Some <==> cells_ok(opt_views(a@), opt_views(b@)),
        r matches Some(v) ==> opt_views(v@) == cells_joined(opt_views(a@), opt_views(b@)),
{
    let ghost av = opt_views(a@);
    let ghost bv = opt_views(b@);
    let mut out: Vec<Option<T>> = Vec::new();
    for i in 0..a.len()
        invariant
            a@.len() == b@.len(),
            av == opt_views(a@),
            bv == opt_views(b@),
            out@.len() == i,
            forall|j: int| 0 <= j < i ==> cell_ok(#[trigger] av[j], bv[j]),
            forall|j: int| 0 <= j < i ==> #[trigger] opt_views(out@)[j] == cell_joined(av[j], bv[j]),
    {
        let c = match (&a[i], &b[i]) {
            (Some(x), Some(y)) => {
                if !x.same_value(y) {
                    assert(!cell_ok(av[i as int], bv[i as int]));
                    return None;
                }
                Some(y.copy_value())
            },
            (None, Some(y)) => Some(y.copy_value()),
            (x, None) => copy_opt(x),
        };
        let ghost before = out@;
        out.push(c);
        assert forall|j: int| 0 <= j < i + 1 implies #[trigger] opt_views(out@)[j] == cell_joined(av[j], bv[j]) by {
            if j < i {
                assert(out@[j] == before[j]);
                assert(opt_views(before)[j] == cell_joined(av[j], bv[j]));
            }
        }
    }
    assert(opt_views(out@) =~= cells_joined(av, bv));
    Some(out)
}

/// Join `b` into `a` row by row.
fn join_rows<T: MatchValue>(a: &Vec<Vec<Option<T>>>, b: &Vec<Vec<Option<T>>>) -> (r: Option<Vec<Vec<Option<T>>>>)
    requires
        same_rows_shape(row_views(a@), row_views(b@)),
    ensures
        r is Some <==> rows_ok(row_views(a@), row_views(b@)),
        r matches Some(v) ==> row_views(v@) == rows_joined(row_views(a@), row_views(b@)),
{
    let ghost av = row_views(a@);
    let ghost bv = row_views(b@);
    let mut out: Vec<Vec<Option<T>>> = Vec::new();
    for i in 0..a.len()
        invariant
            same_rows_shape(av, bv),
            av == row_views(a@),
            bv == row_views(b@),
            out@.len() == i,
            forall|j: int| 0 <= j < i ==> cells_ok(#[trigger] av[j], bv[j]),
            forall|j: int| 0 <= j < i ==> #[trigger] row_views(out@)[j] == cells_joined(av[j], bv[j]),
    {
        assert(av[i as int] == opt_views(a@[i as int]@));
        assert(bv[i as int] == opt_views(b@[i as int]@));
        match join_cells(&a[i], &b[i]) {
            Some(row) => {
                let ghost before = out@;
                out.push(row);
                assert forall|j: int| 0 <= j < i + 1 implies #[trigger] row_views(out@)[j] == cells_joined(av[j], bv[j]) by {
                    if j < i {
                        assert(out@[j] == before[j]);
                        assert(row_views(before)[j] == cells_joined(av[j], bv[j]));
                    }
                }
            },
            None => {
                return None;
            },
        }
    }
    assert(row_views(out@) =~= rows_joined(av, bv));
    Some(out)
}

/// The view of a matching.
pub struct MatchingView {
    pub basic_blocks: Seq<Seq<Option<WithCallStackView<StatementMatch>>>>,
    pub locals: Seq<Option<WithCallStackView<u32>>>,
    pub ty_vars: Seq<Option<Ty>>,
    pub const_vars: Seq<Option<Const>>,
    pub place_vars: Seq<Option<WithCallStackView<PlaceRef>>>,
    pub mir_statements: Seq<Seq<Option<Seq<Location>>>>,
    pub adt_matches: Seq<Option<AdtMatchRef>>,
}

/// A partial match of a function pattern against one function body.
#[derive(Debug)]
pub struct Matching {
    /// For each statement of each block of the pattern, what it matched.
    pub basic_blocks: Vec<Vec<Option<WithCallStack<StatementMatch>>>>,
    /// For each local of the pattern, the local it matched.
    pub locals: Vec<Option<WithCallStack<u32>>>,
    pub ty_vars: Vec<Option<Ty>>,
    pub const_vars: Vec<Option<Const>>,
    pub place_vars: Vec<Option<WithCallStack<PlaceRef>>>,
    /// For each statement of each block of the body, the pattern statements it matched.
    pub mir_statements: Vec<Vec<Option<Vec<Location>>>>,
    /// For each ADT pattern of the item, the ADT match it was given.
    pub adt_matches: Vec<Option<AdtMatchRef>>,
}

impl View for Matching {
    type V = MatchingView;

    open spec fn view(&self) -> MatchingView {
        MatchingView {
            basic_blocks: row_views(self.basic_blocks@),
            locals: opt_views(self.locals@),
            ty_vars: opt_views(self.ty_vars@),
            const_vars: opt_views(self.const_vars@),
            place_vars: opt_views(self.place_vars@),
            mir_statements: row_views(self.mir_statements@),
            adt_matches: opt_views(self.adt_matches@),
        }
    }
}

/// Every cell holds a value.
pub open spec fn cells_full<V>(s: Seq<Option<V>>) -> bool {
    forall|i: int| 0 <= i < s.len() ==> (#[trigger] s[i]) is Some
}

/// Every cell of every row holds a value.
pub open spec fn rows_full<V>(s: Seq<Seq<Option<V>>>) -> bool {
    forall|i: int| 0 <= i < s.len() ==> cells_full(#[trigger] s[i])
}

/// Everything of the pattern is matched, and every statement of the body is matched.
pub open spec fn complete(m: MatchingView) -> bool {
    &&& rows_full(m.basic_blocks)
    &&& cells_full(m.locals)
    &&& cells_full(m.ty_vars)
    &&& cells_full(m.const_vars)
    &&& cells_full(m.place_vars)
    &&& rows_full(m.mir_statements)
}

/// Some pattern statement is matched in both, comparing the statements position by
/// position as far as both reach.
pub open spec fn statements_intersect(a: MatchingView, b: MatchingView) -> bool {
    exists|i: int, j: int|
        0 <= i < a.basic_blocks.len() && i < b.basic_blocks.len() && 0 <= j < a.basic_blocks[i].len() && j
            < b.basic_blocks[i].len() && (#[trigger] a.basic_blocks[i][j]) is Some && (#[trigger] b.basic_blocks[i][j])
            is Some
}

/// The rows with every cell filled, if every cell is.
pub open spec fn unwrap_cells<V>(s: Seq<Option<V>>) -> Seq<V> {
    Seq::new(s.len(), |i: int| s[i]->Some_0)
}

/// The view of a complete match.
pub struct MatchedView {
    pub basic_blocks: Seq<Seq<WithCallStackView<StatementMatch>>>,
    pub locals: Seq<WithCallStackView<u32>>,
    pub ty_vars: Seq<Ty>,
    pub const_vars: Seq<Const>,
    pub place_vars: Seq<WithCallStackView<PlaceRef>>,
}

/// A complete match of a function pattern.
#[derive(Debug)]
pub struct Matched {
    pub basic_blocks: Vec<Vec<WithCallStack<StatementMatch>>>,
    pub locals: Vec<WithCallStack<u32>>,
    pub ty_vars: Vec<Ty>,
    pub const_vars: Vec<Const>,
    pub place_vars: Vec<WithCallStack<PlaceRef>>,
}

impl View for Matched {
    type V = MatchedView;

    open spec fn view(&self) -> MatchedView {
        MatchedView {
            basic_blocks: self.basic_blocks@.map_values(
                |r: Vec<WithCallStack<StatementMatch>>| r@.map_values(|w: WithCallStack<StatementMatch>| w@),
            ),
            locals: self.locals@.map_values(|w: WithCallStack<u32>| w@),
            ty_vars: self.ty_vars@,
            const_vars: self.const_vars@,
            place_vars: self.place_vars@.map_values(|w: WithCallStack<PlaceRef>| w@),
        }
    }
}

/// The complete match a matching stands for, when its pattern side is complete.
pub open spec fn matched_of(m: MatchingView) -> Option<MatchedView> {
    if rows_full(m.basic_blocks) && cells_full(m.locals) && cells_full(m.ty_vars) && cells_full(m.const_vars)
        && cells_full(m.place_vars) {
        Some(
            MatchedView {
                basic_blocks: Seq::new(m.basic_blocks.len(), |i: int| unwrap_cells(m.basic_blocks[i])),
                locals: unwrap_cells(m.locals),
                ty_vars: unwrap_cells(m.ty_vars),
                const_vars: unwrap_cells(m.const_vars),
                place_vars: unwrap_cells(m.place_vars),
            },
        )
    } else {
        None
    }
}

fn all_some<T: View>(s: &Vec<Option<T>>) -> (r: bool)
    ensures
        r == cells_full(opt_views(s@)),
{
    for i in 0..s.len()
        invariant
            forall|j: int| 0 <= j < i ==> (#[trigger] opt_views(s@)[j]) is Some,
    {
        if s[i].is_none() {
            assert(opt_views(s@)[i as int] is None);
            return false;
        }
    }
    true
}

fn all_rows_some<T: View>(s: &Vec<Vec<Option<T>>>) -> (r: bool)
    ensures
        r == rows_full(row_views(s@)),
{
    for i in 0..s.len()
        invariant
            forall|j: int| 0 <= j < i ==> cells_full(#[trigger] row_views(s@)[j]),
    {
        assert(row_views(s@)[i as int] == opt_views(s@[i as int]@));
        if !all_some(&s[i]) {
            return false;
        }
    }
    true
}

fn unwrap_all<T: MatchValue>(s: &Vec<Option<T>>) -> (r: Vec<T>)
    requires
        cells_full(opt_views(s@)),
    ensures
        r@.map_values(|x: T| x@) == unwrap_cells(opt_views(s@)),
{
    let mut out: Vec<T> = Vec::new();
    for i in 0..s.len()
        invariant
            cells_full(opt_views(s@)),
            out@.len() == i,
            forall|j: int| 0 <= j < i ==> Some((#[trigger] out@[j])@) == opt_views(s@)[j],
    {
        assert(opt_views(s@)[i as int] is Some);
        let v = match &s[i] {
            Some(x) => x.copy_value(),
            None => {
                return out;
            },
        };
        out.push(v);
    }
    assert(out@.map_values(|x: T| x@) =~= unwrap_cells(opt_views(s@)));
    out
}

impl Matching {
    /// A matching with nothing matched, for a pattern whose blocks hold `pattern_blocks`
    /// statements each and whose item has `num_adt_pats` ADT patterns, and a body whose
    /// blocks hold `body_blocks` statements each.
    pub fn new(
        pattern_blocks: &Vec<usize>,
        num_locals: usize,
        num_ty_vars: usize,
        num_const_vars: usize,
        num_place_vars: usize,
        body_blocks: &Vec<usize>,
        num_adt_pats: usize,
    ) -> (r: Self)
        ensures
            r@.basic_blocks == Seq::new(
                pattern_blocks@.len(),
                |i: int| Seq::new(pattern_blocks@[i] as nat, |j: int| None::<WithCallStackView<StatementMatch>>),
            ),
            r@.locals == Seq::new(num_locals as nat, |i: int| None::<WithCallStackView<u32>>),
            r@.ty_vars == Seq::new(num_ty_vars as nat, |i: int| None::<Ty>),
            r@.const_vars == Seq::new(num_const_vars as nat, |i: int| None::<Const>),
            r@.place_vars == Seq::new(num_place_vars as nat, |i: int| None::<WithCallStackView<PlaceRef>>),
            r@.mir_statements == Seq::new(
                body_blocks@.len(),
                |i: int| Seq::new(body_blocks@[i] as nat, |j: int| None::<Seq<Location>>),
            ),
            r@.adt_matches == Seq::new(num_adt_pats as nat, |i: int| None::<AdtMatchRef>),
    {
        Matching {
            basic_blocks: empty_rows(pattern_blocks),
            locals: empty_cells(num_locals),
            ty_vars: empty_cells(num_ty_vars),
            const_vars: empty_cells(num_const_vars),
            place_vars: empty_cells(num_place_vars),
            mir_statements: empty_rows(body_blocks),
            adt_matches: empty_cells(num_adt_pats),
        }
    }

    /// Whether everything is matched.
    pub fn is_complete(&self) -> (r: bool)
        ensures
            r == complete(self@),
    {
        all_rows_some(&self.basic_blocks) && all_some(&self.locals) && all_some(&self.ty_vars) && all_some(
            &self.const_vars,
        ) && all_some(&self.place_vars) && all_rows_some(&self.mir_statements)
    }

    /// Whether some pattern statement is matched in both.
    pub fn has_statement_intersection(&self, other: &Self) -> (r: bool)
        ensures
            r == statements_intersect(self@, other@),
    {
        let ghost a = self@;
        let ghost b = other@;
        let mut i: usize = 0;
        while i < self.basic_blocks.len() && i < other.basic_blocks.len()
            invariant
                a == self@,
                b == other@,
                forall|x: int, y: int|
                    0 <= x < i && x < a.basic_blocks.len() && x < b.basic_blocks.len() && 0 <= y < a.basic_blocks[x].len()
                        && y < b.basic_blocks[x].len() ==> !((#[trigger] a.basic_blocks[x][y]) is Some && (
                    #[trigger] b.basic_blocks[x][y]) is Some),
            decreases self.basic_blocks@.len() - i,
        {
            let ra = &self.basic_blocks[i];
            let rb = &other.basic_blocks[i];
            assert(a.basic_blocks[i as int] == opt_views(ra@));
            assert(b.basic_blocks[i as int] == opt_views(rb@));
            let mut j: usize = 0;
            while j < ra.len() && j < rb.len()
                invariant
                    a == self@,
                    b == other@,
                    i < a.basic_blocks.len(),
                    i < b.basic_blocks.len(),
                    a.basic_blocks[i as int] == opt_views(ra@),
                    b.basic_blocks[i as int] == opt_views(rb@),
                    forall|y: int|
                        0 <= y < j && y < ra@.len() && y < rb@.len() ==> !((#[trigger] opt_views(ra@)[y]) is Some
                            && opt_views(rb@)[y] is Some),
                decreases ra@.len() - j,
            {
                if ra[j].is_some() && rb[j].is_some() {
                    assert(a.basic_blocks[i as int][j as int] is Some);
                    assert(b.basic_blocks[i as int][j as int] is Some);
                    assert(statements_intersect(a, b));
                    return true;
                }
                j = j + 1;
            }
            assert forall|x: int, y: int|
                0 <= x < i + 1 && x < a.basic_blocks.len() && x < b.basic_blocks.len() && 0 <= y < a.basic_blocks[x].len()
                    && y < b.basic_blocks[x].len() implies !((#[trigger] a.basic_blocks[x][y]) is Some && (
            #[trigger] b.basic_blocks[x][y]) is Some) by {
                if x == i {
                    assert(a.basic_blocks[x][y] == opt_views(ra@)[y]);
                    assert(b.basic_blocks[x][y] == opt_views(rb@)[y]);
                }
            }
            i = i + 1;
        }
        false
    }

    /// The complete match this matching stands for, if every pattern statement, local and
    /// metavariable is matched.
    pub fn to_matched(&self) -> (r: Option<Matched>)
        ensures
            match (r, matched_of(self@)) {
                (Some(x), Some(y)) => x@ == y,
                (None, None) => true,
                _ => false,
            },
    {
        let ghost m = self@;
        if !(all_rows_some(&self.basic_blocks) && all_some(&self.locals) && all_some(&self.ty_vars) && all_some(
            &self.const_vars,
        ) && all_some(&self.place_vars)) {
            return None;
        }
        let mut blocks: Vec<Vec<WithCallStack<StatementMatch>>> = Vec::new();
        for i in 0..self.basic_blocks.len()
            invariant
                m == self@,
                rows_full(m.basic_blocks),
                blocks@.len() == i,
                forall|k: int|
                    0 <= k < i ==> (#[trigger] blocks@[k])@.map_values(|w: WithCallStack<StatementMatch>| w@)
                        == unwrap_cells(m.basic_blocks[k]),
        {
            assert(m.basic_blocks[i as int] == opt_views(self.basic_blocks@[i as int]@));
            let row = unwrap_all(&self.basic_blocks[i]);
            blocks.push(row);
        }
        let r = Matched {
            basic_blocks: blocks,
            locals: unwrap_all(&self.locals),
            ty_vars: unwrap_all(&self.ty_vars),
            const_vars: unwrap_all(&self.const_vars),
            place_vars: unwrap_all(&self.place_vars),
        };
        proof {
            let y = matched_of(m)->Some_0;
            assert(r@.basic_blocks =~= y.basic_blocks);
            assert(r.ty_vars@ =~= r.ty_vars@.map_values(|x: Ty| x@));
            assert(r.const_vars@ =~= r.const_vars@.map_values(|x: Const| x@));
        }
        Some(r)
    }
}

fn empty_cells<T>(n: usize) -> (r: Vec<Option<T>>)
    ensures
        r@.len() == n,
        forall|i: int| 0 <= i < n ==> (#[trigger] r@[i]) is None,
{
    let mut v: Vec<Option<T>> = Vec::new();
    for i in 0..n
        invariant
            v@.len() == i,
            forall|k: int| 0 <= k < i ==> (#[trigger] v@[k]) is None,
    {
        v.push(None);
    }
    v
}

fn empty_rows<T: View>(sizes: &Vec<usize>) -> (r: Vec<Vec<Option<T>>>)
    ensures
        row_views(r@) == Seq::new(sizes@.len(), |i: int| Seq::new(sizes@[i] as nat, |j: int| None::<T::V>)),
{
    let mut v: Vec<Vec<Option<T>>> = Vec::new();
    for i in 0..sizes.len()
        invariant
            v@.len() == i,
            forall|k: int|
                0 <= k < i ==> #[trigger] opt_views(v@[k]@) == Seq::new(sizes@[k] as nat, |j: int| None::<T::V>),
    {
        let row: Vec<Option<T>> = empty_cells(sizes[i]);
        assert(opt_views(row@) =~= Seq::new(sizes@[i as int] as nat, |j: int| None::<T::V>));
        v.push(row);
    }
    assert(row_views(v@) =~= Seq::new(sizes@.len(), |i: int| Seq::new(sizes@[i] as nat, |j: int| None::<T::V>)));
    v
}

/// The pattern location of statement `s` of block `b`.
pub open spec fn pat_loc(b: int, s: int) -> Location {
    Location { block: b as usize, statement_index: s as usize }
}

/// Pattern statement `(b2, s2)`, where `m` matched it with a statement lying at `l2`, relates
/// to the pattern location `p1` no more than `l2` relates to `l1` in the body.
pub open spec fn covers_at(
    p1: Location,
    l1: Location,
    m: MatchingView,
    mir: Seq<Seq<usize>>,
    pat: Seq<Seq<usize>>,
    b2: int,
    s2: int,
) -> bool {
    (0 <= b2 < m.basic_blocks.len() && 0 <= s2 < m.basic_blocks[b2].len() && m.basic_blocks[b2][s2] is Some
        && bottom_location_of(m.basic_blocks[b2][s2]->Some_0).1 is Some) ==> location_relation(
        pat,
        p1,
        pat_loc(b2, s2),
    ).is_covered_by(location_relation(mir, l1, bottom_location_of(m.basic_blocks[b2][s2]->Some_0).1->Some_0))
}

/// Every statement matched in `m` relates to `p1` no more than its match relates to `l1`.
pub open spec fn covers_all(p1: Location, l1: Location, m: MatchingView, mir: Seq<Seq<usize>>, pat: Seq<Seq<usize>>) -> bool {
    forall|b2: int, s2: int| #[trigger] covers_at(p1, l1, m, mir, pat, b2, s2)
}

/// Joining `b` into `a` keeps control flow: how any two matched pattern statements relate
/// (one reaches the other, or both ways) holds of the statements they matched too.
pub open spec fn order_preserved(a: MatchingView, b: MatchingView, mir: Seq<Seq<usize>>, pat: Seq<Seq<usize>>) -> bool {
    forall|b1: int, s1: int|
        0 <= b1 < a.basic_blocks.len() && 0 <= s1 < a.basic_blocks[b1].len() && (#[trigger] a.basic_blocks[b1][s1])
            is Some && bottom_location_of(a.basic_blocks[b1][s1]->Some_0).1 is Some ==> covers_all(
            pat_loc(b1, s1),
            bottom_location_of(a.basic_blocks[b1][s1]->Some_0).1->Some_0,
            b,
            mir,
            pat,
        )
}

/// Every matched statement of `m` lies in a block below `n`.
pub open spec fn locations_below(m: MatchingView, n: nat) -> bool {
    forall|b1: int, s1: int|
        0 <= b1 < m.basic_blocks.len() && 0 <= s1 < m.basic_blocks[b1].len() && (#[trigger] m.basic_blocks[b1][s1])
            is Some ==> (bottom_location_of(m.basic_blocks[b1][s1]->Some_0).1 matches Some(l) ==> l.block < n)
}

/// `a` and `b` match the same pattern against the same body.
pub open spec fn same_shape(a: MatchingView, b: MatchingView) -> bool {
    &&& same_rows_shape(a.basic_blocks, b.basic_blocks)
    &&& a.locals.len() == b.locals.len()
    &&& a.ty_vars.len() == b.ty_vars.len()
    &&& a.const_vars.len() == b.const_vars.len()
    &&& a.place_vars.len() == b.place_vars.len()
    &&& same_rows_shape(a.mir_statements, b.mir_statements)
    &&& a.adt_matches.len() == b.adt_matches.len()
}

/// `a` and `b` can be joined.
pub open spec fn joinable(a: MatchingView, b: MatchingView, mir: Seq<Seq<usize>>, pat: Seq<Seq<usize>>) -> bool {
    &&& !statements_intersect(a, b)
    &&& order_preserved(a, b, mir, pat)
    &&& rows_ok(a.basic_blocks, b.basic_blocks)
    &&& cells_ok(a.locals, b.locals)
    &&& cells_ok(a.ty_vars, b.ty_vars)
    &&& cells_ok(a.const_vars, b.const_vars)
    &&& cells_ok(a.place_vars, b.place_vars)
    &&& rows_ok(a.mir_statements, b.mir_statements)
    &&& cells_ok(a.adt_matches, b.adt_matches)
}

/// `a` joined with `b`.
pub open spec fn joined(a: MatchingView, b: MatchingView) -> MatchingView {
    MatchingView {
        basic_blocks: rows_joined(a.basic_blocks, b.basic_blocks),
        locals: cells_joined(a.locals, b.locals),
        ty_vars: cells_joined(a.ty_vars, b.ty_vars),
        const_vars: cells_joined(a.const_vars, b.const_vars),
        place_vars: cells_joined(a.place_vars, b.place_vars),
        mir_statements: rows_joined(a.mir_statements, b.mir_statements),
        adt_matches: cells_joined(a.adt_matches, b.adt_matches),
    }
}

impl Matching {
    fn covers_all_of(&self, p1: Location, l1: Location, mir: &Reachability, pat: &Reachability) -> (r: bool)
        requires
            p1.block < pat.num_blocks(),
            l1.block < mir.num_blocks(),
            self@.basic_blocks.len() <= pat.num_blocks(),
            locations_below(self@, mir.num_blocks()),
        ensures
            r == covers_all(p1, l1, self@, mir.graph(), pat.graph()),
    {
        let ghost m = self@;
        let ghost mg = mir.graph();
        let ghost pg = pat.graph();
        for b2 in 0..self.basic_blocks.len()
            invariant
                m == self@,
                mg == mir.graph(),
                pg == pat.graph(),
                p1.block < pat.num_blocks(),
                l1.block < mir.num_blocks(),
                m.basic_blocks.len() <= pat.num_blocks(),
                locations_below(m, mir.num_blocks()),
                forall|x: int, y: int| 0 <= x < b2 ==> #[trigger] covers_at(p1, l1, m, mg, pg, x, y),
        {
            let row = &self.basic_blocks[b2];
            assert(m.basic_blocks[b2 as int] == opt_views(row@));
            for s2 in 0..row.len()
                invariant
                    m == self@,
                    mg == mir.graph(),
                    pg == pat.graph(),
                    p1.block < pat.num_blocks(),
                    l1.block < mir.num_blocks(),
                    b2 < m.basic_blocks.len(),
                    m.basic_blocks.len() <= pat.num_blocks(),
                    locations_below(m, mir.num_blocks()),
                    m.basic_blocks[b2 as int] == opt_views(row@),
                    forall|x: int, y: int| 0 <= x < b2 ==> #[trigger] covers_at(p1, l1, m, mg, pg, x, y),
                    forall|y: int| 0 <= y < s2 ==> #[trigger] covers_at(p1, l1, m, mg, pg, b2 as int, y),
            {
                match &row[s2] {
                    Some(w) => {
                        assert(m.basic_blocks[b2 as int][s2 as int] == Some(w@));
                        match w.bottom_location().1 {
                            Some(l2) => {
                                let p2 = Location { block: b2, statement_index: s2 };
                                assert(p2 == pat_loc(b2 as int, s2 as int));
                                let pr = pat.is_reachable(p1, p2);
                                let mr = mir.is_reachable(l1, l2);
                                if !pr.covered_by(&mr) {
                                    assert(!covers_at(p1, l1, m, mg, pg, b2 as int, s2 as int));
                                    return false;
                                }
                            },
                            None => {},
                        }
                    },
                    None => {},
                }
                assert(covers_at(p1, l1, m, mg, pg, b2 as int, s2 as int));
            }
            assert forall|y: int| #[trigger] covers_at(p1, l1, m, mg, pg, b2 as int, y) by {
                if !(0 <= y < row@.len()) {
                }
            }
        }
        assert forall|x: int, y: int| #[trigger] covers_at(p1, l1, m, mg, pg, x, y) by {
            if !(0 <= x < m.basic_blocks.len()) {
            }
        }
        true
    }

    /// Whether joining `other` into this matching keeps control flow: how any two matched
    /// pattern statements relate holds of the statements they matched too.
    pub fn preserve_reachability(&self, other: &Self, mir: &Reachability, pat: &Reachability) -> (r: bool)
        requires
            self@.basic_blocks.len() <= pat.num_blocks(),
            other@.basic_blocks.len() <= pat.num_blocks(),
            locations_below(self@, mir.num_blocks()),
            locations_below(other@, mir.num_blocks()),
        ensures
            r == order_preserved(self@, other@, mir.graph(), pat.graph()),
    {
        let ghost a = self@;
        let ghost b = other@;
        let ghost mg = mir.graph();
        let ghost pg = pat.graph();
        for b1 in 0..self.basic_blocks.len()
            invariant
                a == self@,
                b == other@,
                mg == mir.graph(),
                pg == pat.graph(),
                a.basic_blocks.len() <= pat.num_blocks(),
                b.basic_blocks.len() <= pat.num_blocks(),
                locations_below(a, mir.num_blocks()),
                locations_below(b, mir.num_blocks()),
                forall|x: int, y: int|
                    0 <= x < b1 && 0 <= y < a.basic_blocks[x].len() && (#[trigger] a.basic_blocks[x][y]) is Some
                        && bottom_location_of(a.basic_blocks[x][y]->Some_0).1 is Some ==> covers_all(
                        pat_loc(x, y),
                        bottom_location_of(a.basic_blocks[x][y]->Some_0).1->Some_0,
                        b,
                        mg,
                        pg,
                    ),
        {
            let row = &self.basic_blocks[b1];
            assert(a.basic_blocks[b1 as int] == opt_views(row@));
            for s1 in 0..row.len()
                invariant
                    a == self@,
                    b == other@,
                    mg == mir.graph(),
                    pg == pat.graph(),
                    b1 < a.basic_blocks.len(),
                    a.basic_blocks.len() <= pat.num_blocks(),
                    b.basic_blocks.len() <= pat.num_blocks(),
                    locations_below(a, mir.num_blocks()),
                    locations_below(b, mir.num_blocks()),
                    a.basic_blocks[b1 as int] == opt_views(row@),
                    forall|x: int, y: int|
                        0 <= x < b1 && 0 <= y < a.basic_blocks[x].len() && (#[trigger] a.basic_blocks[x][y]) is Some
                            && bottom_location_of(a.basic_blocks[x][y]->Some_0).1 is Some ==> covers_all(
                            pat_loc(x, y),
                            bottom_location_of(a.basic_blocks[x][y]->Some_0).1->Some_0,
                            b,
                            mg,
                            pg,
                        ),
                    forall|y: int|
                        0 <= y < s1 && (#[trigger] a.basic_blocks[b1 as int][y]) is Some && bottom_location_of(
                            a.basic_blocks[b1 as int][y]->Some_0,
                        ).1 is Some ==> covers_all(
                            pat_loc(b1 as int, y),
                            bottom_location_of(a.basic_blocks[b1 as int][y]->Some_0).1->Some_0,
                            b,
                            mg,
                            pg,
                        ),
            {
                match &row[s1] {
                    Some(w) => {
                        assert(a.basic_blocks[b1 as int][s1 as int] == Some(w@));
                        match w.bottom_location().1 {
                            Some(l1) => {
                                let p1 = Location { block: b1, statement_index: s1 };
                                assert(p1 == pat_loc(b1 as int, s1 as int));
                                if !other.covers_all_of(p1, l1, mir, pat) {
                                    return false;
                                }
                            },
                            None => {},
                        }
                    },
                    None => {},
                }
            }
        }
        true
    }

    /// This matching joined with `other`, unless they share a pattern statement, the join
    /// would break control flow, or they disagree on some value.
    pub fn join(&self, other: &Self, mir: &Reachability, pat: &Reachability) -> (r: Option<Matching>)
        requires
            same_shape(self@, other@),
            self@.basic_blocks.len() <= pat.num_blocks(),
            locations_below(self@, mir.num_blocks()),
            locations_below(other@, mir.num_blocks()),
        ensures
            r is Some <==> joinable(self@, other@, mir.graph(), pat.graph()),
            r matches Some(m) ==> m@ == joined(self@, other@),
    {
        if self.has_statement_intersection(other) {
            return None;
        }
        if !self.preserve_reachability(other, mir, pat) {
            return None;
        }
        let basic_blocks = match join_rows(&self.basic_blocks, &other.basic_blocks) {
            Some(v) => v,
            None => {
                return None;
            },
        };
        let locals = match join_cells(&self.locals, &other.locals) {
            Some(v) => v,
            None => {
                return None;
            },
        };
        let ty_vars = match join_cells(&self.ty_vars, &other.ty_vars) {
            Some(v) => v,
            None => {
                return None;
            },
        };
        let const_vars = match join_cells(&self.const_vars, &other.const_vars) {
            Some(v) => v,
            None => {
                return None;
            },
        };
        let place_vars = match join_cells(&self.place_vars, &other.place_vars) {
            Some(v) => v,
            None => {
                return None;
            },
        };
        let mir_statements = match join_rows(&self.mir_statements, &other.mir_statements) {
            Some(v) => v,
            None => {
                return None;
            },
        };
        let adt_matches = match join_cells(&self.adt_matches, &other.adt_matches) {
            Some(v) => v,
            None => {
                return None;
            },
        };
        Some(Matching { basic_blocks, locals, ty_vars, const_vars, place_vars, mir_statements, adt_matches })
    }
}

/// A matched statement reached through one more call, at `loc` in `def_id`.
pub open spec fn called_from(w: WithCallStackView<StatementMatch>, def_id: LocalDefId, loc: Location) -> WithCallStackView<
    StatementMatch,
> {
    WithCallStackView { stack: w.stack.push(CallSite { def_id, loc }), ..w }
}

/// A matching of a callee carried over to its caller `def_id`, called at `loc`: every
/// matched statement is reached through that call, and nothing of the caller's body is
/// matched yet (its blocks hold `body_blocks` statements each).
pub open spec fn propagated(m: MatchingView, loc: Location, body_blocks: Seq<usize>, def_id: LocalDefId) -> MatchingView {
    MatchingView {
        basic_blocks: Seq::new(
            m.basic_blocks.len(),
            |i: int|
                Seq::new(
                    m.basic_blocks[i].len(),
                    |j: int|
                        match m.basic_blocks[i][j] {
                            Some(w) => Some(called_from(w, def_id, loc)),
                            None => None,
                        },
                ),
        ),
        mir_statements: Seq::new(body_blocks.len(), |i: int| Seq::new(body_blocks[i] as nat, |j: int| None::<Seq<Location>>)),
        ..m
    }
}

fn copy_cells<T: MatchValue>(a: &Vec<Option<T>>) -> (r: Vec<Option<T>>)
    ensures
        opt_views(r@) == opt_views(a@),
{
    let mut out: Vec<Option<T>> = Vec::new();
    for i in 0..a.len()
        invariant
            out@.len() == i,
            forall|j: int| 0 <= j < i ==> #[trigger] opt_views(out@)[j] == opt_views(a@)[j],
    {
        let c = copy_opt(&a[i]);
        let ghost before = out@;
        out.push(c);
        assert forall|j: int| 0 <= j < i + 1 implies #[trigger] opt_views(out@)[j] == opt_views(a@)[j] by {
            if j < i {
                assert(out@[j] == before[j]);
                assert(opt_views(before)[j] == opt_views(a@)[j]);
            }
        }
    }
    assert(opt_views(out@) =~= opt_views(a@));
    out
}

fn copy_rows<T: MatchValue>(a: &Vec<Vec<Option<T>>>) -> (r: Vec<Vec<Option<T>>>)
    ensures
        row_views(r@) == row_views(a@),
{
    let mut out: Vec<Vec<Option<T>>> = Vec::new();
    for i in 0..a.len()
        invariant
            out@.len() == i,
            forall|j: int| 0 <= j < i ==> #[trigger] row_views(out@)[j] == row_views(a@)[j],
    {
        let row = copy_cells(&a[i]);
        let ghost before = out@;
        out.push(row);
        assert forall|j: int| 0 <= j < i + 1 implies #[trigger] row_views(out@)[j] == row_views(a@)[j] by {
            if j < i {
                assert(out@[j] == before[j]);
                assert(row_views(before)[j] == row_views(a@)[j]);
            }
        }
    }
    assert(row_views(out@) =~= row_views(a@));
    out
}

fn same_cells<T: MatchValue>(a: &Vec<Option<T>>, b: &Vec<Option<T>>) -> (r: bool)
    ensures
        r == (opt_views(a@) == opt_views(b@)),
{
    if a.len() != b.len() {
        assert(opt_views(a@).len() != opt_views(b@).len());
        return false;
    }
    for i in 0..a.len()
        invariant
            a@.len() == b@.len(),
            forall|j: int| 0 <= j < i ==> #[trigger] opt_views(a@)[j] == opt_views(b@)[j],
    {
        let same = match (&a[i], &b[i]) {
            (Some(x), Some(y)) => x.same_value(y),
            (None, None) => true,
            _ => false,
        };
        if !same {
            assert(opt_views(a@)[i as int] != opt_views(b@)[i as int]);
            return false;
        }
    }
    assert(opt_views(a@) =~= opt_views(b@));
    true
}

fn same_rows<T: MatchValue>(a: &Vec<Vec<Option<T>>>, b: &Vec<Vec<Option<T>>>) -> (r: bool)
    ensures
        r == (row_views(a@) == row_views(b@)),
{
    if a.len() != b.len() {
        assert(row_views(a@).len() != row_views(b@).len());
        return false;
    }
    for i in 0..a.len()
        invariant
            a@.len() == b@.len(),
            forall|j: int| 0 <= j < i ==> #[trigger] row_views(a@)[j] == row_views(b@)[j],
    {
        if !same_cells(&a[i], &b[i]) {
            assert(row_views(a@)[i as int] != row_views(b@)[i as int]);
            return false;
        }
    }
    assert(row_views(a@) =~= row_views(b@));
    true
}

impl Matching {
    /// A copy of this matching.
    pub fn copy(&self) -> (r: Matching)
        ensures
            r@ == self@,
    {
        Matching {
            basic_blocks: copy_rows(&self.basic_blocks),
            locals: copy_cells(&self.locals),
            ty_vars: copy_cells(&self.ty_vars),
            const_vars: copy_cells(&self.const_vars),
            place_vars: copy_cells(&self.place_vars),
            mir_statements: copy_rows(&self.mir_statements),
            adt_matches: copy_cells(&self.adt_matches),
        }
    }

    /// Whether two matchings record the same things.
    pub fn same(&self, other: &Self) -> (r: bool)
        ensures
            r == (self@ == other@),
    {
        same_rows(&self.basic_blocks, &other.basic_blocks) && same_cells(&self.locals, &other.locals) && same_cells(
            &self.ty_vars,
            &other.ty_vars,
        ) && same_cells(&self.const_vars, &other.const_vars) && same_cells(&self.place_vars, &other.place_vars)
            && same_rows(&self.mir_statements, &other.mir_statements) && same_cells(
            &self.adt_matches,
            &other.adt_matches,
        )
    }

    /// This matching carried over to the caller `def_id` of its function, called at
    /// `caller_loc`; the caller's blocks hold `body_blocks` statements each.
    pub fn propagate(&self, caller_loc: Location, body_blocks: &Vec<usize>, def_id: LocalDefId) -> (r: Matching)
        ensures
            r@ == propagated(self@, caller_loc, body_blocks@, def_id),
    {
        let ghost m = self@;
        let mut blocks: Vec<Vec<Option<WithCallStack<StatementMatch>>>> = Vec::new();
        for i in 0..self.basic_blocks.len()
            invariant
                m == self@,
                blocks@.len() == i,
                forall|k: int|
                    0 <= k < i ==> #[trigger] row_views(blocks@)[k] == propagated(m, caller_loc, body_blocks@, def_id).basic_blocks[k],
        {
            let row = &self.basic_blocks[i];
            assert(m.basic_blocks[i as int] == opt_views(row@));
            let mut out: Vec<Option<WithCallStack<StatementMatch>>> = Vec::new();
            for j in 0..row.len()
                invariant
                    m.basic_blocks[i as int] == opt_views(row@),
                    out@.len() == j,
                    forall|x: int|
                        0 <= x < j ==> #[trigger] opt_views(out@)[x] == (match m.basic_blocks[i as int][x] {
                            Some(w) => Some(called_from(w, def_id, caller_loc)),
                            None => None,
                        }),
            {
                let c = match &row[j] {
                    Some(w) => {
                        let mut w2 = w.copy();
                        w2.push_call(def_id, caller_loc);
                        Some(w2)
                    },
                    None => None,
                };
                let ghost before = out@;
                out.push(c);
                assert forall|x: int| 0 <= x < j + 1 implies #[trigger] opt_views(out@)[x] == (match m.basic_blocks[i as int][x] {
                    Some(w) => Some(called_from(w, def_id, caller_loc)),
                    None => None,
                }) by {
                    if x < j {
                        assert(out@[x] == before[x]);
                        assert(opt_views(before)[x] == opt_views(out@)[x]);
                    }
                }
            }
            let ghost before = blocks@;
            blocks.push(out);
            assert forall|k: int| 0 <= k < i + 1 implies #[trigger] row_views(blocks@)[k] == propagated(
                m,
                caller_loc,
                body_blocks@,
                def_id,
            ).basic_blocks[k] by {
                if k < i {
                    assert(blocks@[k] == before[k]);
                    assert(row_views(before)[k] == row_views(blocks@)[k]);
                } else {
                    assert(row_views(blocks@)[k] =~= propagated(m, caller_loc, body_blocks@, def_id).basic_blocks[k]);
                }
            }
        }
        let r = Matching {
            basic_blocks: blocks,
            locals: copy_cells(&self.locals),
            ty_vars: copy_cells(&self.ty_vars),
            const_vars: copy_cells(&self.const_vars),
            place_vars: copy_cells(&self.place_vars),
            mir_statements: empty_rows(body_blocks),
            adt_matches: copy_cells(&self.adt_matches),
        };
        assert(r@.basic_blocks =~= propagated(m, caller_loc, body_blocks@, def_id).basic_blocks);
        r
    }
}

/// The views of matchings.
pub open spec fn matchings_view(s: Seq<Matching>) -> Seq<MatchingView> {
    s.map_values(|m: Matching| m@)
}

/// The matchings kept when each is dropped if an equal one was kept before it.
pub open spec fn dedup_views(s: Seq<MatchingView>) -> Seq<MatchingView>
    decreases s.len(),
{
    if s.len() == 0 {
        s
    } else {
        let kept = dedup_views(s.drop_last());
        if kept.contains(s.last()) {
            kept
        } else {
            kept.push(s.last())
        }
    }
}

/// Keep the first of equal matchings.
pub fn dedup_matchings(ms: &Vec<Matching>) -> (r: Vec<Matching>)
    ensures
        matchings_view(r@) == dedup_views(matchings_view(ms@)),
{
    let ghost all = matchings_view(ms@);
    let mut unique: Vec<Matching> = Vec::new();
    for i in 0..ms.len()
        invariant
            all == matchings_view(ms@),
            matchings_view(unique@) == dedup_views(all.subrange(0, i as int)),
    {
        proof {
            assert(all.subrange(0, i + 1).drop_last() =~= all.subrange(0, i as int));
            assert(all[i as int] == ms@[i as int]@);
        }
        let m = &ms[i];
        let mut found = false;
        for j in 0..unique.len()
            invariant
                found == exists|k: int| 0 <= k < j && (#[trigger] unique@[k])@ == m@,
        {
            if unique[j].same(m) {
                found = true;
            }
        }
        let ghost kept = matchings_view(unique@);
        proof {
            if found {
                let k = choose|k: int| 0 <= k < unique@.len() && (#[trigger] unique@[k])@ == m@;
                assert(kept[k] == m@);
            } else {
                assert forall|k: int| 0 <= k < kept.len() implies kept[k] != m@ by {
                    assert(kept[k] == unique@[k]@);
                }
            }
        }
        if !found {
            unique.push(m.copy());
            assert(matchings_view(unique@) =~= kept.push(m@));
        }
    }
    assert(all.subrange(0, all.len() as int) =~= all);
    unique
}

/// The joins of `k` with each matching of `ones` that it can be joined with, in order.
pub open spec fn join_one(k: MatchingView, ones: Seq<MatchingView>, mir: Seq<Seq<usize>>, pat: Seq<Seq<usize>>) -> Seq<
    MatchingView,
>
    decreases ones.len(),
{
    if ones.len() == 0 {
        Seq::empty()
    } else {
        let init = join_one(k, ones.drop_last(), mir, pat);
        if joinable(k, ones.last(), mir, pat) {
            init.push(joined(k, ones.last()))
        } else {
            init
        }
    }
}

/// Every matching of `ks` joined with every matching of `ones` it can be joined with; a
/// complete one is kept as it is.
pub open spec fn join_all(ks: Seq<MatchingView>, ones: Seq<MatchingView>, mir: Seq<Seq<usize>>, pat: Seq<Seq<usize>>) -> Seq<
    MatchingView,
>
    decreases ks.len(),
{
    if ks.len() == 0 {
        Seq::empty()
    } else {
        join_all(ks.drop_last(), ones, mir, pat) + if complete(ks.last()) {
            seq![ks.last()]
        } else {
            join_one(ks.last(), ones, mir, pat)
        }
    }
}

/// The matchings of one function can be joined with each other.
pub open spec fn joins_fit(ks: Seq<MatchingView>, ones: Seq<MatchingView>, mir_n: nat, pat_n: nat) -> bool {
    &&& forall|i: int, j: int| 0 <= i < ks.len() && 0 <= j < ones.len() ==> same_shape(#[trigger] ks[i], #[trigger] ones[j])
    &&& forall|i: int|
        0 <= i < ks.len() ==> (#[trigger] ks[i]).basic_blocks.len() <= pat_n && locations_below(ks[i], mir_n)
    &&& forall|j: int| 0 <= j < ones.len() ==> locations_below(#[trigger] ones[j], mir_n)
}

/// The matchings of `k + 1` components of a function: every matching of `k` components
/// joined with every matching of one component it can be joined with (a complete one
/// kept as it is), keeping the first of equal ones.
pub fn join_fn_matchings(ks: &Vec<Matching>, ones: &Vec<Matching>, mir: &Reachability, pat: &Reachability) -> (r: Vec<
    Matching,
>)
    requires
        joins_fit(matchings_view(ks@), matchings_view(ones@), mir.num_blocks(), pat.num_blocks()),
    ensures
        matchings_view(r@) == dedup_views(join_all(matchings_view(ks@), matchings_view(ones@), mir.graph(), pat.graph())),
{
    let ghost kv = matchings_view(ks@);
    let ghost ov = matchings_view(ones@);
    let ghost mg = mir.graph();
    let ghost pg = pat.graph();
    let mut out: Vec<Matching> = Vec::new();
    for i in 0..ks.len()
        invariant
            kv == matchings_view(ks@),
            ov == matchings_view(ones@),
            mg == mir.graph(),
            pg == pat.graph(),
            joins_fit(kv, ov, mir.num_blocks(), pat.num_blocks()),
            matchings_view(out@) == join_all(kv.subrange(0, i as int), ov, mg, pg),
    {
        proof {
            assert(kv.subrange(0, i + 1).drop_last() =~= kv.subrange(0, i as int));
            assert(kv[i as int] == ks@[i as int]@);
        }
        let k = &ks[i];
        let ghost start = matchings_view(out@);
        if k.is_complete() {
            out.push(k.copy());
            assert(matchings_view(out@) =~= start + seq![k@]);
        } else {
            for j in 0..ones.len()
                invariant
                    kv == matchings_view(ks@),
                    ov == matchings_view(ones@),
                    mg == mir.graph(),
                    pg == pat.graph(),
                    joins_fit(kv, ov, mir.num_blocks(), pat.num_blocks()),
                    i < kv.len(),
                    k@ == kv[i as int],
                    matchings_view(out@) == start + join_one(k@, ov.subrange(0, j as int), mg, pg),
            {
                proof {
                    assert(ov.subrange(0, j + 1).drop_last() =~= ov.subrange(0, j as int));
                    assert(ov[j as int] == ones@[j as int]@);
                    assert(same_shape(kv[i as int], ov[j as int]));
                    assert(locations_below(ov[j as int], mir.num_blocks()));
                }
                let ghost before = matchings_view(out@);
                match k.join(&ones[j], mir, pat) {
                    Some(m) => {
                        out.push(m);
                        assert(matchings_view(out@) =~= before.push(joined(k@, ov[j as int])));
                    },
                    None => {},
                }
            }
            assert(ov.subrange(0, ov.len() as int) =~= ov);
        }
    }
    assert(kv.subrange(0, kv.len() as int) =~= kv);
    dedup_matchings(&out)
}

proof fn lemma_covered_by_converse(x: Reachable, y: Reachable)
    ensures
        x.converse().is_covered_by(y.converse()) == x.is_covered_by(y),
{
}

proof fn lemma_order_preserved_symmetric(a: MatchingView, b: MatchingView, mir: Seq<Seq<usize>>, pat: Seq<Seq<usize>>)
    requires
        order_preserved(a, b, mir, pat),
    ensures
        order_preserved(b, a, mir, pat),
{
    assert forall|b2: int, s2: int|
        0 <= b2 < b.basic_blocks.len() && 0 <= s2 < b.basic_blocks[b2].len() && (#[trigger] b.basic_blocks[b2][s2])
            is Some && bottom_location_of(b.basic_blocks[b2][s2]->Some_0).1 is Some implies covers_all(
        pat_loc(b2, s2),
        bottom_location_of(b.basic_blocks[b2][s2]->Some_0).1->Some_0,
        a,
        mir,
        pat,
    ) by {
        let p2 = pat_loc(b2, s2);
        let l2 = bottom_location_of(b.basic_blocks[b2][s2]->Some_0).1->Some_0;
        assert forall|b1: int, s1: int| #[trigger] covers_at(p2, l2, a, mir, pat, b1, s1) by {
            if 0 <= b1 < a.basic_blocks.len() && 0 <= s1 < a.basic_blocks[b1].len() && a.basic_blocks[b1][s1] is Some
                && bottom_location_of(a.basic_blocks[b1][s1]->Some_0).1 is Some {
                let p1 = pat_loc(b1, s1);
                let l1 = bottom_location_of(a.basic_blocks[b1][s1]->Some_0).1->Some_0;
                assert(covers_all(p1, l1, b, mir, pat));
                assert(covers_at(p1, l1, b, mir, pat, b2, s2));
                lemma_location_relation_converse(pat, p1, p2);
                lemma_location_relation_converse(mir, l1, l2);
                lemma_covered_by_converse(location_relation(pat, p1, p2), location_relation(mir, l1, l2));
            }
        }
    }
}

/// A join keeps control flow between every pair of matched statements, in any two blocks
/// of the pattern: when `a` and `b` can be joined, a statement matched in `a` relates to a
/// statement matched in `b` in the pattern (one reaches the other, or both ways) no more
/// than the body statements they matched relate in the body.
pub proof fn lemma_join_keeps_order(
    a: MatchingView,
    b: MatchingView,
    mir: Seq<Seq<usize>>,
    pat: Seq<Seq<usize>>,
    b1: int,
    s1: int,
    b2: int,
    s2: int,
)
    requires
        joinable(a, b, mir, pat),
        0 <= b1 < a.basic_blocks.len(),
        0 <= s1 < a.basic_blocks[b1].len(),
        a.basic_blocks[b1][s1] is Some,
        bottom_location_of(a.basic_blocks[b1][s1]->Some_0).1 is Some,
        0 <= b2 < b.basic_blocks.len(),
        0 <= s2 < b.basic_blocks[b2].len(),
        b.basic_blocks[b2][s2] is Some,
        bottom_location_of(b.basic_blocks[b2][s2]->Some_0).1 is Some,
    ensures
        location_relation(pat, pat_loc(b1, s1), pat_loc(b2, s2)).is_covered_by(
            location_relation(
                mir,
                bottom_location_of(a.basic_blocks[b1][s1]->Some_0).1->Some_0,
                bottom_location_of(b.basic_blocks[b2][s2]->Some_0).1->Some_0,
            ),
        ),
{
    let l1 = bottom_location_of(a.basic_blocks[b1][s1]->Some_0).1->Some_0;
    assert(a.basic_blocks[b1][s1] is Some);
    assert(covers_all(pat_loc(b1, s1), l1, b, mir, pat));
    assert(covers_at(pat_loc(b1, s1), l1, b, mir, pat, b2, s2));
}

/// A join is refused when some statement matched in `a` and some statement matched in
/// `b`, in any two blocks of the pattern, relate in the pattern in a way their matches do
/// not relate in the body.
pub proof fn lemma_join_refuses_disorder(
    a: MatchingView,
    b: MatchingView,
    mir: Seq<Seq<usize>>,
    pat: Seq<Seq<usize>>,
    b1: int,
    s1: int,
    b2: int,
    s2: int,
)
    requires
        0 <= b1 < a.basic_blocks.len(),
        0 <= s1 < a.basic_blocks[b1].len(),
        a.basic_blocks[b1][s1] is Some,
        bottom_location_of(a.basic_blocks[b1][s1]->Some_0).1 is Some,
        0 <= b2 < b.basic_blocks.len(),
        0 <= s2 < b.basic_blocks[b2].len(),
        b.basic_blocks[b2][s2] is Some,
        bottom_location_of(b.basic_blocks[b2][s2]->Some_0).1 is Some,
        !location_relation(pat, pat_loc(b1, s1), pat_loc(b2, s2)).is_covered_by(
            location_relation(
                mir,
                bottom_location_of(a.basic_blocks[b1][s1]->Some_0).1->Some_0,
                bottom_location_of(b.basic_blocks[b2][s2]->Some_0).1->Some_0,
            ),
        ),
    ensures
        !joinable(a, b, mir, pat),
{
    if joinable(a, b, mir, pat) {
        lemma_join_keeps_order(a, b, mir, pat, b1, s1, b2, s2);
    }
}

/// Cell by cell, a join without contradiction holds every value of both sides: where both
/// hold a value it is the same, and the joined cell holds whichever value there is.
pub open spec fn union_of<V>(a: Seq<Option<V>>, b: Seq<Option<V>>, j: Seq<Option<V>>) -> bool {
    &&& j.len() == a.len()
    &&& forall|i: int|
        0 <= i < a.len() ==> {
            &&& (#[trigger] a[i] is Some && b[i] is Some ==> a[i] == b[i])
            &&& (a[i] is Some ==> j[i] == a[i])
            &&& (b[i] is Some ==> j[i] == b[i])
            &&& (a[i] is None && b[i] is None ==> j[i] is None)
        }
}

proof fn lemma_cells_union<V>(a: Seq<Option<V>>, b: Seq<Option<V>>)
    requires
        a.len() == b.len(),
        cells_ok(a, b),
    ensures
        union_of(a, b, cells_joined(a, b)),
{
    assert forall|i: int| 0 <= i < a.len() implies {
        &&& (#[trigger] a[i] is Some && b[i] is Some ==> a[i] == b[i])
        &&& (a[i] is Some ==> cells_joined(a, b)[i] == a[i])
        &&& (b[i] is Some ==> cells_joined(a, b)[i] == b[i])
        &&& (a[i] is None && b[i] is None ==> cells_joined(a, b)[i] is None)
    } by {
        assert(cell_ok(a[i], b[i]));
    }
}

/// Two matchings of the same pattern and body that can be joined match no pattern
/// statement both, agree on every local, metavariable, body statement and ADT match they
/// both fix, and their join holds every value of either.
pub proof fn lemma_join_is_union(a: MatchingView, b: MatchingView, mir: Seq<Seq<usize>>, pat: Seq<Seq<usize>>)
    requires
        same_shape(a, b),
        joinable(a, b, mir, pat),
    ensures
        forall|i: int, k: int|
            0 <= i < a.basic_blocks.len() && 0 <= k < a.basic_blocks[i].len() ==> !((#[trigger] a.basic_blocks[i][k])
                is Some && b.basic_blocks[i][k] is Some),
        joined(a, b).basic_blocks.len() == a.basic_blocks.len(),
        forall|i: int|
            0 <= i < a.basic_blocks.len() ==> union_of(
                #[trigger] a.basic_blocks[i],
                b.basic_blocks[i],
                joined(a, b).basic_blocks[i],
            ),
        union_of(a.locals, b.locals, joined(a, b).locals),
        union_of(a.ty_vars, b.ty_vars, joined(a, b).ty_vars),
        union_of(a.const_vars, b.const_vars, joined(a, b).const_vars),
        union_of(a.place_vars, b.place_vars, joined(a, b).place_vars),
        union_of(a.adt_matches, b.adt_matches, joined(a, b).adt_matches),
        joined(a, b).mir_statements.len() == a.mir_statements.len(),
        forall|i: int|
            0 <= i < a.mir_statements.len() ==> union_of(
                #[trigger] a.mir_statements[i],
                b.mir_statements[i],
                joined(a, b).mir_statements[i],
            ),
{
    let j = joined(a, b);
    assert forall|i: int, k: int|
        0 <= i < a.basic_blocks.len() && 0 <= k < a.basic_blocks[i].len() implies !((#[trigger] a.basic_blocks[i][k])
        is Some && b.basic_blocks[i][k] is Some) by {
        if a.basic_blocks[i][k] is Some && b.basic_blocks[i][k] is Some {
            assert(statements_intersect(a, b));
        }
    }
    assert forall|i: int| 0 <= i < a.basic_blocks.len() implies union_of(
        #[trigger] a.basic_blocks[i],
        b.basic_blocks[i],
        j.basic_blocks[i],
    ) by {
        assert(cells_ok(a.basic_blocks[i], b.basic_blocks[i]));
        lemma_cells_union(a.basic_blocks[i], b.basic_blocks[i]);
    }
    assert forall|i: int| 0 <= i < a.mir_statements.len() implies union_of(
        #[trigger] a.mir_statements[i],
        b.mir_statements[i],
        j.mir_statements[i],
    ) by {
        assert(cells_ok(a.mir_statements[i], b.mir_statements[i]));
        lemma_cells_union(a.mir_statements[i], b.mir_statements[i]);
    }
    lemma_cells_union(a.locals, b.locals);
    lemma_cells_union(a.ty_vars, b.ty_vars);
    lemma_cells_union(a.const_vars, b.const_vars);
    lemma_cells_union(a.place_vars, b.place_vars);
    lemma_cells_union(a.adt_matches, b.adt_matches);
}

/// Where both sides hold a value, it is the same.
pub open spec fn agree_where_both<V>(a: Seq<Option<V>>, b: Seq<Option<V>>) -> bool {
    forall|i: int| 0 <= i < a.len() && (#[trigger] a[i]) is Some && b[i] is Some ==> a[i] == b[i]
}

/// Two matchings of the same pattern and body are joined whenever they match no pattern
/// statement both, agree on every value they both fix, and every pair of statements
/// matched one in each, in any pattern blocks, relates in the pattern no more than their
/// matches relate in the body.
pub proof fn lemma_join_accepts(a: MatchingView, b: MatchingView, mir: Seq<Seq<usize>>, pat: Seq<Seq<usize>>)
    requires
        same_shape(a, b),
        forall|i: int, k: int|
            0 <= i < a.basic_blocks.len() && 0 <= k < a.basic_blocks[i].len() ==> !((#[trigger] a.basic_blocks[i][k])
                is Some && b.basic_blocks[i][k] is Some),
        forall|i: int| 0 <= i < a.mir_statements.len() ==> agree_where_both(#[trigger] a.mir_statements[i], b.mir_statements[i]),
        agree_where_both(a.locals, b.locals),
        agree_where_both(a.ty_vars, b.ty_vars),
        agree_where_both(a.const_vars, b.const_vars),
        agree_where_both(a.place_vars, b.place_vars),
        agree_where_both(a.adt_matches, b.adt_matches),
        forall|b1: int, s1: int, b2: int, s2: int|
            0 <= b1 < a.basic_blocks.len() && 0 <= s1 < a.basic_blocks[b1].len() && (#[trigger] a.basic_blocks[b1][s1])
                is Some && bottom_location_of(a.basic_blocks[b1][s1]->Some_0).1 is Some && 0 <= b2
                < b.basic_blocks.len() && 0 <= s2 < b.basic_blocks[b2].len() && (#[trigger] b.basic_blocks[b2][s2])
                is Some && bottom_location_of(b.basic_blocks[b2][s2]->Some_0).1 is Some ==> location_relation(
                pat,
                pat_loc(b1, s1),
                pat_loc(b2, s2),
            ).is_covered_by(
                location_relation(
                    mir,
                    bottom_location_of(a.basic_blocks[b1][s1]->Some_0).1->Some_0,
                    bottom_location_of(b.basic_blocks[b2][s2]->Some_0).1->Some_0,
                ),
            ),
    ensures
        joinable(a, b, mir, pat),
{
    assert(!statements_intersect(a, b)) by {
        if statements_intersect(a, b) {
            let (i, k) = choose|i: int, k: int|
                0 <= i < a.basic_blocks.len() && i < b.basic_blocks.len() && 0 <= k < a.basic_blocks[i].len() && k
                    < b.basic_blocks[i].len() && (#[trigger] a.basic_blocks[i][k]) is Some && (#[trigger] b.basic_blocks[i][k])
                    is Some;
            assert(!(a.basic_blocks[i][k] is Some && b.basic_blocks[i][k] is Some));
        }
    }
    assert forall|i: int| 0 <= i < a.basic_blocks.len() implies cells_ok(#[trigger] a.basic_blocks[i], b.basic_blocks[i]) by {
        assert forall|k: int| 0 <= k < a.basic_blocks[i].len() implies cell_ok(#[trigger] a.basic_blocks[i][k], b.basic_blocks[i][k]) by {
        }
    }
    assert forall|i: int| 0 <= i < a.mir_statements.len() implies cells_ok(#[trigger] a.mir_statements[i], b.mir_statements[i]) by {
        assert(agree_where_both(a.mir_statements[i], b.mir_statements[i]));
        assert forall|k: int| 0 <= k < a.mir_statements[i].len() implies cell_ok(#[trigger] a.mir_statements[i][k], b.mir_statements[i][k]) by {
            if a.mir_statements[i][k] is Some && b.mir_statements[i][k] is Some {
            }
        }
    }
    assert(cells_ok(a.locals, b.locals)) by {
        assert forall|i: int| 0 <= i < a.locals.len() implies cell_ok(#[trigger] a.locals[i], b.locals[i]) by {
            if a.locals[i] is Some && b.locals[i] is Some {
            }
        }
    }
    assert(cells_ok(a.ty_vars, b.ty_vars)) by {
        assert forall|i: int| 0 <= i < a.ty_vars.len() implies cell_ok(#[trigger] a.ty_vars[i], b.ty_vars[i]) by {
            if a.ty_vars[i] is Some && b.ty_vars[i] is Some {
            }
        }
    }
    assert(cells_ok(a.const_vars, b.const_vars)) by {
        assert forall|i: int| 0 <= i < a.const_vars.len() implies cell_ok(#[trigger] a.const_vars[i], b.const_vars[i]) by {
            if a.const_vars[i] is Some && b.const_vars[i] is Some {
            }
        }
    }
    assert(cells_ok(a.place_vars, b.place_vars)) by {
        assert forall|i: int| 0 <= i < a.place_vars.len() implies cell_ok(#[trigger] a.place_vars[i], b.place_vars[i]) by {
            if a.place_vars[i] is Some && b.place_vars[i] is Some {
            }
        }
    }
    assert(cells_ok(a.adt_matches, b.adt_matches)) by {
        assert forall|i: int| 0 <= i < a.adt_matches.len() implies cell_ok(#[trigger] a.adt_matches[i], b.adt_matches[i]) by {
            if a.adt_matches[i] is Some && b.adt_matches[i] is Some {
            }
        }
    }
    assert forall|b1: int, s1: int|
        0 <= b1 < a.basic_blocks.len() && 0 <= s1 < a.basic_blocks[b1].len() && (#[trigger] a.basic_blocks[b1][s1])
            is Some && bottom_location_of(a.basic_blocks[b1][s1]->Some_0).1 is Some implies covers_all(
        pat_loc(b1, s1),
        bottom_location_of(a.basic_blocks[b1][s1]->Some_0).1->Some_0,
        b,
        mir,
        pat,
    ) by {
        let l1 = bottom_location_of(a.basic_blocks[b1][s1]->Some_0).1->Some_0;
        assert forall|b2: int, s2: int| #[trigger] covers_at(pat_loc(b1, s1), l1, b, mir, pat, b2, s2) by {
            if 0 <= b2 < b.basic_blocks.len() && 0 <= s2 < b.basic_blocks[b2].len() && b.basic_blocks[b2][s2] is Some
                && bottom_location_of(b.basic_blocks[b2][s2]->Some_0).1 is Some {
                assert(a.basic_blocks[b1][s1] is Some);
                assert(b.basic_blocks[b2][s2] is Some);
            }
        }
    }
}

/// Joining is symmetric: two matchings can be joined in one order exactly when they can
/// in the other, and then both joins are the same.
pub proof fn lemma_join_symmetric(a: MatchingView, b: MatchingView, mir: Seq<Seq<usize>>, pat: Seq<Seq<usize>>)
    requires
        same_shape(a, b),
    ensures
        joinable(a, b, mir, pat) == joinable(b, a, mir, pat),
        joinable(a, b, mir, pat) ==> joined(a, b) == joined(b, a),
{
    if statements_intersect(a, b) {
        let (i, j) = choose|i: int, j: int|
            0 <= i < a.basic_blocks.len() && i < b.basic_blocks.len() && 0 <= j < a.basic_blocks[i].len() && j
                < b.basic_blocks[i].len() && (#[trigger] a.basic_blocks[i][j]) is Some && (#[trigger] b.basic_blocks[i][j])
                is Some;
        assert(b.basic_blocks[i][j] is Some && a.basic_blocks[i][j] is Some);
        assert(statements_intersect(b, a));
    }
    if statements_intersect(b, a) {
        let (i, j) = choose|i: int, j: int|
            0 <= i < b.basic_blocks.len() && i < a.basic_blocks.len() && 0 <= j < b.basic_blocks[i].len() && j
                < a.basic_blocks[i].len() && (#[trigger] b.basic_blocks[i][j]) is Some && (#[trigger] a.basic_blocks[i][j])
                is Some;
        assert(a.basic_blocks[i][j] is Some && b.basic_blocks[i][j] is Some);
        assert(statements_intersect(a, b));
    }
    if order_preserved(a, b, mir, pat) {
        lemma_order_preserved_symmetric(a, b, mir, pat);
    }
    if order_preserved(b, a, mir, pat) {
        lemma_order_preserved_symmetric(b, a, mir, pat);
    }
    assert(rows_ok(a.basic_blocks, b.basic_blocks) == rows_ok(b.basic_blocks, a.basic_blocks)) by {
        if rows_ok(a.basic_blocks, b.basic_blocks) {
            assert forall|i: int| 0 <= i < b.basic_blocks.len() implies cells_ok(#[trigger] b.basic_blocks[i], a.basic_blocks[i]) by {
                assert(cells_ok(a.basic_blocks[i], b.basic_blocks[i]));
                assert forall|j: int| 0 <= j < b.basic_blocks[i].len() implies cell_ok(#[trigger] b.basic_blocks[i][j], a.basic_blocks[i][j]) by {
                    assert(cell_ok(a.basic_blocks[i][j], b.basic_blocks[i][j]));
                }
            }
        }
        if rows_ok(b.basic_blocks, a.basic_blocks) {
            assert forall|i: int| 0 <= i < a.basic_blocks.len() implies cells_ok(#[trigger] a.basic_blocks[i], b.basic_blocks[i]) by {
                assert(cells_ok(b.basic_blocks[i], a.basic_blocks[i]));
                assert forall|j: int| 0 <= j < a.basic_blocks[i].len() implies cell_ok(#[trigger] a.basic_blocks[i][j], b.basic_blocks[i][j]) by {
                    assert(cell_ok(b.basic_blocks[i][j], a.basic_blocks[i][j]));
                }
            }
        }
    }
    assert(rows_ok(a.mir_statements, b.mir_statements) == rows_ok(b.mir_statements, a.mir_statements)) by {
        if rows_ok(a.mir_statements, b.mir_statements) {
            assert forall|i: int| 0 <= i < b.mir_statements.len() implies cells_ok(#[trigger] b.mir_statements[i], a.mir_statements[i]) by {
                assert(cells_ok(a.mir_statements[i], b.mir_statements[i]));
                assert forall|j: int| 0 <= j < b.mir_statements[i].len() implies cell_ok(#[trigger] b.mir_statements[i][j], a.mir_statements[i][j]) by {
                    assert(cell_ok(a.mir_statements[i][j], b.mir_statements[i][j]));
                }
            }
        }
        if rows_ok(b.mir_statements, a.mir_statements) {
            assert forall|i: int| 0 <= i < a.mir_statements.len() implies cells_ok(#[trigger] a.mir_statements[i], b.mir_statements[i]) by {
                assert(cells_ok(b.mir_statements[i], a.mir_statements[i]));
                assert forall|j: int| 0 <= j < a.mir_statements[i].len() implies cell_ok(#[trigger] a.mir_statements[i][j], b.mir_statements[i][j]) by {
                    assert(cell_ok(b.mir_statements[i][j], a.mir_statements[i][j]));
                }
            }
        }
    }
    if joinable(a, b, mir, pat) {
        let x = joined(a, b);
        let y = joined(b, a);
        assert forall|i: int| 0 <= i < x.basic_blocks.len() implies #[trigger] x.basic_blocks[i] == y.basic_blocks[i] by {
            assert(cells_ok(a.basic_blocks[i], b.basic_blocks[i]));
            assert(x.basic_blocks[i] =~= y.basic_blocks[i]);
        }
        assert(x.basic_blocks =~= y.basic_blocks);
        assert forall|i: int| 0 <= i < x.mir_statements.len() implies #[trigger] x.mir_statements[i] == y.mir_statements[i] by {
            assert(cells_ok(a.mir_statements[i], b.mir_statements[i]));
            assert(x.mir_statements[i] =~= y.mir_statements[i]);
        }
        assert(x.mir_statements =~= y.mir_statements);
        assert(x.locals =~= y.locals);
        assert(x.ty_vars =~= y.ty_vars);
        assert(x.const_vars =~= y.const_vars);
        assert(x.place_vars =~= y.place_vars);
        assert(x.adt_matches =~= y.adt_matches);
    }
}

/// Record `new` in a cell: succeeds when the cell is empty or already holds an equal
/// value, and then the cell holds `new`; otherwise the cell is unchanged.
pub fn try_set<T: MatchValue>(cell: &mut Option<T>, new: T) -> (r: bool)
    ensures
        r == (match *old(cell) {
            Some(x) => x@ == new@,
            None => true,
        }),
        r ==> (match *final(cell) {
            Some(x) => x@ == new@,
            None => false,
        }),
        !r ==> *final(cell) == *old(cell),
{
    let ok = match cell {
        Some(x) => x.same_value(&new),
        None => true,
    };
    if ok {
        *cell = Some(new);
    }
    ok
}

/// `m` has the shape of every matching of `ones`, and stays inside both graphs.
pub open spec fn fits_with(m: MatchingView, ones: Seq<MatchingView>, mir_n: nat, pat_n: nat) -> bool {
    &&& forall|j: int| 0 <= j < ones.len() ==> same_shape(m, #[trigger] ones[j])
    &&& m.basic_blocks.len() <= pat_n
    &&& locations_below(m, mir_n)
}

proof fn lemma_joins_fit_from_each(ks: Seq<MatchingView>, ones: Seq<MatchingView>, mir_n: nat, pat_n: nat)
    requires
        forall|i: int| 0 <= i < ks.len() ==> fits_with(#[trigger] ks[i], ones, mir_n, pat_n),
        forall|j: int| 0 <= j < ones.len() ==> locations_below(#[trigger] ones[j], mir_n),
    ensures
        joins_fit(ks, ones, mir_n, pat_n),
{
    assert forall|i: int, j: int| 0 <= i < ks.len() && 0 <= j < ones.len() implies same_shape(#[trigger] ks[i], #[trigger] ones[j]) by {
        assert(fits_with(ks[i], ones, mir_n, pat_n));
    }
    assert forall|i: int| 0 <= i < ks.len() implies (#[trigger] ks[i]).basic_blocks.len() <= pat_n && locations_below(ks[i], mir_n) by {
        assert(fits_with(ks[i], ones, mir_n, pat_n));
    }
}

/// A join keeps the shape of its first matching and the places of both.
proof fn lemma_joined_fits(k: MatchingView, o: MatchingView, ones: Seq<MatchingView>, mir_n: nat, pat_n: nat)
    requires
        fits_with(k, ones, mir_n, pat_n),
        same_shape(k, o),
        locations_below(o, mir_n),
    ensures
        fits_with(joined(k, o), ones, mir_n, pat_n),
{
    let x = joined(k, o);
    assert forall|j: int| 0 <= j < ones.len() implies same_shape(x, #[trigger] ones[j]) by {
        assert(same_shape(k, ones[j]));
        assert forall|i: int| 0 <= i < x.basic_blocks.len() implies (#[trigger] x.basic_blocks[i]).len() == ones[j].basic_blocks[i].len() by {
            assert(k.basic_blocks[i].len() == ones[j].basic_blocks[i].len());
        }
        assert forall|i: int| 0 <= i < x.mir_statements.len() implies (#[trigger] x.mir_statements[i]).len() == ones[j].mir_statements[i].len() by {
            assert(k.mir_statements[i].len() == ones[j].mir_statements[i].len());
        }
    }
    assert forall|b1: int, s1: int|
        0 <= b1 < x.basic_blocks.len() && 0 <= s1 < x.basic_blocks[b1].len() && (#[trigger] x.basic_blocks[b1][s1])
            is Some implies (bottom_location_of(x.basic_blocks[b1][s1]->Some_0).1 matches Some(l) ==> l.block < mir_n) by {
        assert(k.basic_blocks[b1].len() == o.basic_blocks[b1].len());
        if o.basic_blocks[b1][s1] is Some {
            assert(x.basic_blocks[b1][s1] == o.basic_blocks[b1][s1]);
        } else {
            assert(x.basic_blocks[b1][s1] == k.basic_blocks[b1][s1]);
        }
    }
}

proof fn lemma_join_one_fits(k: MatchingView, ones: Seq<MatchingView>, mir: Seq<Seq<usize>>, pat: Seq<Seq<usize>>, mir_n: nat, pat_n: nat)
    requires
        fits_with(k, ones, mir_n, pat_n),
        forall|j: int| 0 <= j < ones.len() ==> locations_below(#[trigger] ones[j], mir_n),
    ensures
        forall|i: int| 0 <= i < join_one(k, ones, mir, pat).len() ==> fits_with(#[trigger] join_one(k, ones, mir, pat)[i], ones, mir_n, pat_n),
    decreases ones.len(),
{
    if ones.len() > 0 {
        let init = ones.drop_last();
        assert forall|j: int| 0 <= j < init.len() implies locations_below(#[trigger] init[j], mir_n) by {
            assert(init[j] == ones[j]);
        }
        lemma_join_one_fits_prefix(k, ones, init, mir, pat, mir_n, pat_n);
        let r = join_one(k, ones, mir, pat);
        let before = join_one(k, init, mir, pat);
        if joinable(k, ones.last(), mir, pat) {
            assert(same_shape(k, ones[ones.len() - 1]));
            assert(locations_below(ones[ones.len() - 1], mir_n));
            lemma_joined_fits(k, ones.last(), ones, mir_n, pat_n);
            assert forall|i: int| 0 <= i < r.len() implies fits_with(#[trigger] r[i], ones, mir_n, pat_n) by {
                if i < before.len() {
                    assert(r[i] == before[i]);
                }
            }
        }
    }
}

proof fn lemma_join_one_fits_prefix(
    k: MatchingView,
    ones: Seq<MatchingView>,
    pre: Seq<MatchingView>,
    mir: Seq<Seq<usize>>,
    pat: Seq<Seq<usize>>,
    mir_n: nat,
    pat_n: nat,
)
    requires
        fits_with(k, ones, mir_n, pat_n),
        pre.len() <= ones.len(),
        forall|j: int| 0 <= j < pre.len() ==> pre[j] == ones[j],
        forall|j: int| 0 <= j < ones.len() ==> locations_below(#[trigger] ones[j], mir_n),
    ensures
        forall|i: int| 0 <= i < join_one(k, pre, mir, pat).len() ==> fits_with(#[trigger] join_one(k, pre, mir, pat)[i], ones, mir_n, pat_n),
    decreases pre.len(),
{
    if pre.len() > 0 {
        let init = pre.drop_last();
        lemma_join_one_fits_prefix(k, ones, init, mir, pat, mir_n, pat_n);
        let r = join_one(k, pre, mir, pat);
        let before = join_one(k, init, mir, pat);
        let last = pre.len() - 1;
        if joinable(k, pre.last(), mir, pat) {
            assert(pre.last() == ones[last]);
            assert(same_shape(k, ones[last]));
            assert(locations_below(ones[last], mir_n));
            lemma_joined_fits(k, pre.last(), ones, mir_n, pat_n);
            assert forall|i: int| 0 <= i < r.len() implies fits_with(#[trigger] r[i], ones, mir_n, pat_n) by {
                if i < before.len() {
                    assert(r[i] == before[i]);
                }
            }
        }
    }
}

proof fn lemma_join_all_fits(ks: Seq<MatchingView>, ones: Seq<MatchingView>, mir: Seq<Seq<usize>>, pat: Seq<Seq<usize>>, mir_n: nat, pat_n: nat)
    requires
        forall|i: int| 0 <= i < ks.len() ==> fits_with(#[trigger] ks[i], ones, mir_n, pat_n),
        forall|j: int| 0 <= j < ones.len() ==> locations_below(#[trigger] ones[j], mir_n),
    ensures
        forall|i: int| 0 <= i < join_all(ks, ones, mir, pat).len() ==> fits_with(#[trigger] join_all(ks, ones, mir, pat)[i], ones, mir_n, pat_n),
    decreases ks.len(),
{
    if ks.len() > 0 {
        let init = ks.drop_last();
        assert forall|i: int| 0 <= i < init.len() implies fits_with(#[trigger] init[i], ones, mir_n, pat_n) by {
            assert(init[i] == ks[i]);
        }
        lemma_join_all_fits(init, ones, mir, pat, mir_n, pat_n);
        let a = join_all(init, ones, mir, pat);
        let last = ks.last();
        assert(fits_with(ks[ks.len() - 1], ones, mir_n, pat_n));
        let b = if complete(last) { seq![last] } else { join_one(last, ones, mir, pat) };
        if !complete(last) {
            lemma_join_one_fits(last, ones, mir, pat, mir_n, pat_n);
        }
        assert forall|i: int| 0 <= i < (a + b).len() implies fits_with(#[trigger] (a + b)[i], ones, mir_n, pat_n) by {
            if i < a.len() {
                assert((a + b)[i] == a[i]);
            } else {
                assert((a + b)[i] == b[i - a.len()]);
            }
        }
    }
}

/// Every matching kept by `dedup_views` is one of its input.
proof fn lemma_dedup_views_from(s: Seq<MatchingView>)
    ensures
        forall|i: int| 0 <= i < dedup_views(s).len() ==> s.contains(#[trigger] dedup_views(s)[i]),
    decreases s.len(),
{
    if s.len() > 0 {
        let init = s.drop_last();
        lemma_dedup_views_from(init);
        let kept = dedup_views(init);
        assert forall|i: int| 0 <= i < dedup_views(s).len() implies s.contains(#[trigger] dedup_views(s)[i]) by {
            if i < kept.len() {
                assert(dedup_views(s)[i] == kept[i]);
                let j = choose|j: int| 0 <= j < init.len() && init[j] == kept[i];
                assert(s[j] == init[j]);
            } else {
                assert(dedup_views(s)[i] == s.last());
                assert(s[s.len() - 1] == s.last());
            }
        }
    }
}

/// The matchings after joining `all` with `ones` up to `steps` times, stopping early
/// once none is left.
pub open spec fn iterated_joins(
    all: Seq<MatchingView>,
    ones: Seq<MatchingView>,
    mir: Seq<Seq<usize>>,
    pat: Seq<Seq<usize>>,
    steps: nat,
) -> Seq<MatchingView>
    decreases steps,
{
    if steps == 0 || all.len() == 0 {
        all
    } else {
        iterated_joins(dedup_views(join_all(all, ones, mir, pat)), ones, mir, pat, (steps - 1) as nat)
    }
}

/// The complete matches among `s`, in order.
pub open spec fn complete_matches(s: Seq<MatchingView>) -> Seq<MatchedView>
    decreases s.len(),
{
    if s.len() == 0 {
        Seq::empty()
    } else {
        complete_matches(s.drop_last()) + match matched_of(s.last()) {
            Some(m) => seq![m],
            None => Seq::empty(),
        }
    }
}

/// The views of complete matches.
pub open spec fn matched_views(s: Seq<Matched>) -> Seq<MatchedView> {
    s.map_values(|m: Matched| m@)
}

/// The complete matches of a function pattern against one function: its matchings of
/// one component are joined with each other until they cover the `num_nodes` components
/// of the pattern (or none is left), and every complete one is turned into a match.
pub fn match_fn_pattern(matches_1: &Vec<Matching>, num_nodes: usize, mir: &Reachability, pat: &Reachability) -> (r: Vec<
    Matched,
>)
    requires
        joins_fit(matchings_view(matches_1@), matchings_view(matches_1@), mir.num_blocks(), pat.num_blocks()),
    ensures
        matched_views(r@) == complete_matches(
            iterated_joins(
                matchings_view(matches_1@),
                matchings_view(matches_1@),
                mir.graph(),
                pat.graph(),
                if num_nodes == 0 { 0 } else { (num_nodes - 1) as nat },
            ),
        ),
{
    let ghost ov = matchings_view(matches_1@);
    let ghost mg = mir.graph();
    let ghost pg = pat.graph();
    let ghost mn = mir.num_blocks();
    let ghost pn = pat.num_blocks();
    let ghost total: nat = if num_nodes == 0 { 0 } else { (num_nodes - 1) as nat };
    proof {
        assert forall|i: int| 0 <= i < ov.len() implies fits_with(#[trigger] ov[i], ov, mn, pn) by {
            assert forall|j: int| 0 <= j < ov.len() implies same_shape(ov[i], #[trigger] ov[j]) by {}
        }
    }
    let mut all: Vec<Matching> = Vec::new();
    for i in 0..matches_1.len()
        invariant
            ov == matchings_view(matches_1@),
            all@.len() == i,
            forall|j: int| 0 <= j < i ==> (#[trigger] all@[j])@ == ov[j],
    {
        let c = matches_1[i].copy();
        all.push(c);
    }
    assert(matchings_view(all@) =~= ov);
    let mut k: usize = 1;
    while k < num_nodes && all.len() > 0
        invariant
            ov == matchings_view(matches_1@),
            mg == mir.graph(),
            pg == pat.graph(),
            mn == mir.num_blocks(),
            pn == pat.num_blocks(),
            total == (if num_nodes == 0 { 0 } else { (num_nodes - 1) as nat }),
            joins_fit(ov, ov, mn, pn),
            1 <= k,
            num_nodes > 0 ==> k <= num_nodes,
            forall|i: int| 0 <= i < all@.len() ==> fits_with(#[trigger] matchings_view(all@)[i], ov, mn, pn),
            iterated_joins(ov, ov, mg, pg, total) == iterated_joins(
                matchings_view(all@),
                ov,
                mg,
                pg,
                if num_nodes == 0 { 0 } else { (num_nodes - k) as nat },
            ),
        decreases num_nodes - k,
    {
        let ghost av = matchings_view(all@);
        proof {
            assert forall|j: int| 0 <= j < ov.len() implies locations_below(#[trigger] ov[j], mn) by {}
            assert forall|i: int| 0 <= i < av.len() implies fits_with(#[trigger] av[i], ov, mn, pn) by {
                assert(av[i] == matchings_view(all@)[i]);
            }
            lemma_joins_fit_from_each(av, ov, mn, pn);
        }
        let next = join_fn_matchings(&all, matches_1, mir, pat);
        proof {
            let j = join_all(av, ov, mg, pg);
            lemma_join_all_fits(av, ov, mg, pg, mn, pn);
            lemma_dedup_views_from(j);
            let nv = matchings_view(next@);
            assert forall|i: int| 0 <= i < next@.len() implies fits_with(#[trigger] matchings_view(next@)[i], ov, mn, pn) by {
                assert(j.contains(nv[i]));
                let x = choose|x: int| 0 <= x < j.len() && j[x] == nv[i];
                assert(fits_with(j[x], ov, mn, pn));
            }
        }
        all = next;
        k = k + 1;
    }
    let ghost fin = matchings_view(all@);
    assert(iterated_joins(fin, ov, mg, pg, if num_nodes == 0 { 0 } else { (num_nodes - k) as nat }) == fin);
    let mut out: Vec<Matched> = Vec::new();
    for i in 0..all.len()
        invariant
            fin == matchings_view(all@),
            matched_views(out@) == complete_matches(fin.take(i as int)),
    {
        let ghost t = fin.take(i + 1);
        assert(t.drop_last() =~= fin.take(i as int));
        assert(t.last() == all@[i as int]@);
        match all[i].to_matched() {
            Some(m) => {
                out.push(m);
                assert(matched_views(out@) =~= complete_matches(fin.take(i as int)) + seq![m@]);
            },
            None => {},
        }
        assert(matched_views(out@) =~= complete_matches(t));
    }
    assert(fin.take(all@.len() as int) =~= fin);
    out
}

} // verus!
