//! The one-statement matches of a function pattern: for every statement of the pattern
//! and every function body, each place of the body that the statement matcher accepts
//! gives a matching with that one pattern statement matched.
//!
//! The statement matcher itself reads the compiler's MIR; what it gave for each
//! candidate place is an input here. A statement of the pattern is tried against the
//! arguments of the function when it is an argument declaration (`let x = _;`), then
//! against every statement and terminator of the body; a terminator of the pattern is
//! tried against the terminators of the body.
use vstd::prelude::*;

use crate::matching::{CallSite, matchings_view, opt_views, pat_loc, Matching, MatchingView, StatementMatch, WithCallStack, WithCallStackView};
use crate::reachability::Location;
use crate::types::LocalDefId;

verus! {

/// What the search needs of a statement of a pattern block.
#[derive(Debug, Clone, Copy, PartialEq, Eq, Structural)]
pub enum PatStmtShape {
    /// An argument declaration of the pattern's `self` local.
    SelfArg,
    /// An argument declaration of another local.
    Arg,
    /// Any other statement.
    Other,
}

/// A block of a function pattern: its statements, and whether it ends in a terminator.
#[derive(Debug)]
pub struct PatBlockShape {
    pub statements: Vec<PatStmtShape>,
    pub has_terminator: bool,
}

/// The blocks of a function pattern.
#[derive(Debug)]
pub struct PatBodyShape {
    pub blocks: Vec<PatBlockShape>,
}

/// A function body as the search sees it: its id, whether it takes `self`, its argument
/// locals, for each block the number of statements and whether it ends in a terminator,
/// for each block the function of the crate its terminator calls directly, if any, and
/// what the statement matcher gave: `outcomes[b][s][k]` is the matching for pattern
/// statement `s` of block `b` against its `k`-th candidate place, if the matcher accepted.
#[derive(Debug)]
pub struct FnBodyModel {
    pub def_id: LocalDefId,
    pub has_self: bool,
    pub args: Vec<u32>,
    pub blocks: Vec<(usize, bool)>,
    pub calls: Vec<Option<LocalDefId>>,
    pub outcomes: Vec<Vec<Vec<Option<Matching>>>>,
}

/// The one-statement matchings found in a function body, and the call sites of the
/// function in the bodies searched.
#[derive(Debug)]
pub struct FnMatchings {
    pub matches: Vec<Matching>,
    pub callers: Vec<CallSite>,
}

/// A pattern block by its statements and terminator flag.
pub type PatBlockView = (Seq<PatStmtShape>, bool);

impl PatBodyShape {
    pub open spec fn view_blocks(&self) -> Seq<PatBlockView> {
        self.blocks@.map_values(|b: PatBlockShape| (b.statements@, b.has_terminator))
    }
}

/// The number of matchable places of a block: its statements and its terminator.
pub open spec fn row_len(statements: nat, has_terminator: bool) -> nat {
    statements + if has_terminator { 1nat } else { 0nat }
}

/// Every statement and terminator of body block `bb`.
pub open spec fn block_locations(bb: int, blk: (usize, bool)) -> Seq<StatementMatch> {
    Seq::new(
        row_len(blk.0 as nat, blk.1),
        |i: int| StatementMatch::Location(Location { block: bb as usize, statement_index: i as usize }),
    )
}

/// Every statement and terminator of the body, block by block.
pub open spec fn body_locations(blocks: Seq<(usize, bool)>) -> Seq<StatementMatch>
    decreases blocks.len(),
{
    if blocks.len() == 0 {
        Seq::empty()
    } else {
        body_locations(blocks.drop_last()) + block_locations(blocks.len() - 1, blocks.last())
    }
}

/// The terminator of every block of the body that has one.
pub open spec fn terminator_locations(blocks: Seq<(usize, bool)>) -> Seq<StatementMatch>
    decreases blocks.len(),
{
    if blocks.len() == 0 {
        Seq::empty()
    } else {
        let last = blocks.last();
        let t = if last.1 {
            seq![StatementMatch::Location(Location { block: (blocks.len() - 1) as usize, statement_index: last.0 })]
        } else {
            Seq::empty()
        };
        terminator_locations(blocks.drop_last()) + t
    }
}

/// The arguments an argument declaration is tried against: `self` alone where the
/// pattern declares `self` and the function takes it, else every argument.
pub open spec fn arg_candidates(shape: PatStmtShape, has_self: bool, args: Seq<u32>) -> Seq<StatementMatch> {
    match shape {
        PatStmtShape::Other => Seq::empty(),
        PatStmtShape::SelfArg => if has_self {
            seq![StatementMatch::Arg(1)]
        } else {
            args.map_values(|a: u32| StatementMatch::Arg(a))
        },
        PatStmtShape::Arg => args.map_values(|a: u32| StatementMatch::Arg(a)),
    }
}

/// The places pattern statement `s` of block `blk` is tried against, in order.
pub open spec fn candidates_of(blk: PatBlockView, s: int, f: &FnBodyModel) -> Seq<StatementMatch> {
    if s < blk.0.len() {
        arg_candidates(blk.0[s], f.has_self, f.args@) + body_locations(f.blocks@)
    } else {
        terminator_locations(f.blocks@)
    }
}

/// `m` with pattern statement `s` of block `b` recorded as matching `cand` in `def_id`,
/// and, for a place of the body, that place recorded as matching the pattern statement.
pub open spec fn marked(m: MatchingView, b: int, s: int, def_id: LocalDefId, cand: StatementMatch) -> MatchingView {
    let cell = Some(WithCallStackView { stack: Seq::empty(), def_id, value: cand });
    let m1 = MatchingView { basic_blocks: m.basic_blocks.update(b, m.basic_blocks[b].update(s, cell)), ..m };
    match cand {
        StatementMatch::Location(l) => MatchingView {
            mir_statements: m1.mir_statements.update(
                l.block as int,
                m1.mir_statements[l.block as int].update(l.statement_index as int, Some(seq![pat_loc(b, s)])),
            ),
            ..m1
        },
        StatementMatch::Arg(_) => m1,
    }
}

/// The accepted outcomes among `outs`, each marked with its candidate.
pub open spec fn accepted(
    outs: Seq<Option<MatchingView>>,
    cands: Seq<StatementMatch>,
    b: int,
    s: int,
    def_id: LocalDefId,
) -> Seq<MatchingView>
    decreases outs.len(),
{
    if outs.len() == 0 {
        Seq::empty()
    } else {
        let k = outs.len() - 1;
        let rest = accepted(outs.drop_last(), cands, b, s, def_id);
        match outs[k] {
            Some(m) => rest.push(marked(m, b, s, def_id, cands[k])),
            None => rest,
        }
    }
}

/// The one-statement matchings of pattern statement `s` of block `b`.
pub open spec fn loc_matchings(pat: Seq<PatBlockView>, f: &FnBodyModel, b: int, s: int) -> Seq<MatchingView> {
    accepted(opt_views(f.outcomes@[b]@[s]@), candidates_of(pat[b], s, f), b, s, f.def_id)
}

/// The one-statement matchings of the first `n` statements of block `b`.
pub open spec fn block_matchings(pat: Seq<PatBlockView>, f: &FnBodyModel, b: int, n: int) -> Seq<MatchingView>
    decreases n,
{
    if n <= 0 {
        Seq::empty()
    } else {
        block_matchings(pat, f, b, n - 1) + loc_matchings(pat, f, b, n - 1)
    }
}

/// The one-statement matchings of the first `n` blocks of the pattern.
pub open spec fn blocks_matchings(pat: Seq<PatBlockView>, f: &FnBodyModel, n: int) -> Seq<MatchingView>
    decreases n,
{
    if n <= 0 {
        Seq::empty()
    } else {
        blocks_matchings(pat, f, n - 1) + block_matchings(
            pat,
            f,
            n - 1,
            row_len(pat[n - 1].0.len(), pat[n - 1].1) as int,
        )
    }
}

/// Every one-statement matching of the pattern in the body, pattern statement by
/// pattern statement, and for each in the order of its candidate places.
pub open spec fn one_statement_matchings(pat: Seq<PatBlockView>, f: &FnBodyModel) -> Seq<MatchingView> {
    blocks_matchings(pat, f, pat.len() as int)
}

/// `m` has a cell for every place of the pattern and of the body.
pub open spec fn shaped_for(m: MatchingView, pat: Seq<PatBlockView>, f: &FnBodyModel) -> bool {
    &&& m.basic_blocks.len() == pat.len()
    &&& forall|b: int| 0 <= b < pat.len() ==> (#[trigger] m.basic_blocks[b]).len() == row_len(pat[b].0.len(), pat[b].1)
    &&& m.mir_statements.len() == f.blocks@.len()
    &&& forall|bb: int|
        0 <= bb < f.blocks@.len() ==> (#[trigger] m.mir_statements[bb]).len() == row_len(
            f.blocks@[bb].0 as nat,
            f.blocks@[bb].1,
        )
}

/// The matcher's outcomes cover every candidate of every pattern statement, and every
/// accepted matching has the shape of the pattern and the body.
pub open spec fn fits(pat: Seq<PatBlockView>, f: &FnBodyModel) -> bool {
    &&& f.outcomes@.len() == pat.len()
    &&& forall|b: int|
        0 <= b < pat.len() ==> (#[trigger] f.outcomes@[b])@.len() == row_len(pat[b].0.len(), pat[b].1)
    &&& forall|b: int, s: int|
        0 <= b < pat.len() && 0 <= s < row_len(pat[b].0.len(), pat[b].1) ==> (#[trigger] f.outcomes@[b]@[s])@.len()
            == candidates_of(pat[b], s, f).len()
    &&& forall|b: int, s: int, k: int|
        0 <= b < pat.len() && 0 <= s < row_len(pat[b].0.len(), pat[b].1) && 0 <= k < f.outcomes@[b]@[s]@.len()
            && (#[trigger] f.outcomes@[b]@[s]@[k]) is Some ==> shaped_for(f.outcomes@[b]@[s]@[k]->Some_0@, pat, f)
}

/// Set cell `j` of row `i`.
fn set_row_cell<T: View>(rows: &mut Vec<Vec<Option<T>>>, i: usize, j: usize, v: Option<T>)
    requires
        i < old(rows)@.len(),
        j < old(rows)@[i as int]@.len(),
    ensures
        crate::matching::row_views(final(rows)@) == crate::matching::row_views(old(rows)@).update(
            i as int,
            crate::matching::row_views(old(rows)@)[i as int].update(
                j as int,
                match v {
                    Some(x) => Some(x@),
                    None => None,
                },
            ),
        ),
{
    let ghost old_rows = rows@;
    let mut row = rows.remove(i);
    let ghost old_row = row@;
    row.set(j, v);
    rows.insert(i, row);
    assert(rows@ =~= old_rows.update(i as int, row));
    assert(opt_views(row@) =~= opt_views(old_row).update(
        j as int,
        match v {
            Some(x) => Some(x@),
            None => None,
        },
    ));
    assert(crate::matching::row_views(rows@) =~= crate::matching::row_views(old_rows).update(
        i as int,
        crate::matching::row_views(old_rows)[i as int].update(
            j as int,
            match v {
                Some(x) => Some(x@),
                None => None,
            },
        ),
    ));
}

/// Record in `m` that pattern statement `s` of block `b` matched `cand` in `def_id`.
fn mark(m: &mut Matching, b: usize, s: usize, def_id: LocalDefId, cand: StatementMatch)
    requires
        b < old(m)@.basic_blocks.len(),
        s < old(m)@.basic_blocks[b as int].len(),
        cand matches StatementMatch::Location(l) ==> l.block < old(m)@.mir_statements.len()
            && l.statement_index < old(m)@.mir_statements[l.block as int].len(),
    ensures
        final(m)@ == marked(old(m)@, b as int, s as int, def_id, cand),
{
    assert(old(m)@.basic_blocks[b as int].len() == old(m).basic_blocks@[b as int]@.len());
    set_row_cell(&mut m.basic_blocks, b, s, Some(WithCallStack::new_one(def_id, cand)));
    match cand {
        StatementMatch::Location(l) => {
            assert(old(m)@.mir_statements[l.block as int].len() == old(m).mir_statements@[l.block as int]@.len());
            let mut at: Vec<Location> = Vec::new();
            at.push(Location { block: b, statement_index: s });
            assert(at@ =~= seq![pat_loc(b as int, s as int)]);
            set_row_cell(&mut m.mir_statements, l.block, l.statement_index, Some(at));
        },
        StatementMatch::Arg(_) => {},
    }
}

/// No block of the body is too long to count its terminator.
pub open spec fn blocks_countable(blocks: Seq<(usize, bool)>) -> bool {
    &&& blocks.len() <= usize::MAX
    &&& forall|bb: int| 0 <= bb < blocks.len() ==> (#[trigger] blocks[bb]).0 < usize::MAX
}

pub(crate) fn body_location_list(blocks: &Vec<(usize, bool)>) -> (r: Vec<StatementMatch>)
    requires
        blocks_countable(blocks@),
    ensures
        r@ == body_locations(blocks@),
{
    let mut out: Vec<StatementMatch> = Vec::new();
    for bb in 0..blocks.len()
        invariant
            blocks_countable(blocks@),
            out@ == body_locations(blocks@.subrange(0, bb as int)),
    {
        let (n, t) = blocks[bb];
        assert(blocks@[bb as int].0 < usize::MAX);
        let len = if t { n + 1 } else { n };
        let ghost before = out@;
        let ghost locs = block_locations(bb as int, blocks@[bb as int]);
        assert(locs.len() == len);
        for i in 0..len
            invariant
                locs == block_locations(bb as int, blocks@[bb as int]),
                locs.len() == len,
                out@ == before + locs.subrange(0, i as int),
        {
            out.push(StatementMatch::Location(Location { block: bb, statement_index: i }));
            assert(locs.subrange(0, i + 1) =~= locs.subrange(0, i as int).push(locs[i as int]));
        }
        assert(locs.subrange(0, len as int) =~= locs);
        assert(blocks@.subrange(0, bb + 1).drop_last() =~= blocks@.subrange(0, bb as int));
    }
    assert(blocks@.subrange(0, blocks@.len() as int) =~= blocks@);
    out
}

fn terminator_location_list(blocks: &Vec<(usize, bool)>) -> (r: Vec<StatementMatch>)
    ensures
        r@ == terminator_locations(blocks@),
{
    let mut out: Vec<StatementMatch> = Vec::new();
    for bb in 0..blocks.len()
        invariant
            out@ == terminator_locations(blocks@.subrange(0, bb as int)),
    {
        let (n, t) = blocks[bb];
        let ghost before = out@;
        if t {
            out.push(StatementMatch::Location(Location { block: bb, statement_index: n }));
        }
        assert(blocks@.subrange(0, bb + 1).drop_last() =~= blocks@.subrange(0, bb as int));
        assert(blocks@.subrange(0, bb + 1).last() == blocks@[bb as int]);
        assert(out@ =~= terminator_locations(blocks@.subrange(0, bb + 1)));
    }
    assert(blocks@.subrange(0, blocks@.len() as int) =~= blocks@);
    out
}

pub(crate) fn arg_candidate_list(shape: PatStmtShape, has_self: bool, args: &Vec<u32>) -> (r: Vec<StatementMatch>)
    ensures
        r@ == arg_candidates(shape, has_self, args@),
{
    let mut out: Vec<StatementMatch> = Vec::new();
    if shape == PatStmtShape::Other {
        assert(out@ =~= arg_candidates(shape, has_self, args@));
        return out;
    }
    if shape == PatStmtShape::SelfArg && has_self {
        out.push(StatementMatch::Arg(1));
        assert(out@ =~= arg_candidates(shape, has_self, args@));
        return out;
    }
    for i in 0..args.len()
        invariant
            out@ == args@.subrange(0, i as int).map_values(|a: u32| StatementMatch::Arg(a)),
    {
        out.push(StatementMatch::Arg(args[i]));
        assert(args@.subrange(0, i + 1).map_values(|a: u32| StatementMatch::Arg(a)) =~= args@.subrange(
            0,
            i as int,
        ).map_values(|a: u32| StatementMatch::Arg(a)).push(StatementMatch::Arg(args@[i as int])));
    }
    assert(args@.subrange(0, args@.len() as int) =~= args@);
    assert(out@ =~= arg_candidates(shape, has_self, args@));
    out
}

/// Every place of the body among `c` lies within the body's blocks.
pub open spec fn locations_in(c: Seq<StatementMatch>, blocks: Seq<(usize, bool)>) -> bool {
    forall|i: int|
        0 <= i < c.len() ==> (#[trigger] c[i] matches StatementMatch::Location(l) ==> l.block < blocks.len()
            && l.statement_index < row_len(blocks[l.block as int].0 as nat, blocks[l.block as int].1))
}

proof fn lemma_body_locations_in(blocks: Seq<(usize, bool)>, all: Seq<(usize, bool)>)
    requires
        blocks.len() <= all.len(),
        blocks =~= all.subrange(0, blocks.len() as int),
        blocks_countable(all),
    ensures
        locations_in(body_locations(blocks), all),
        locations_in(terminator_locations(blocks), all),
    decreases blocks.len(),
{
    if blocks.len() > 0 {
        let init = blocks.drop_last();
        assert(init =~= all.subrange(0, init.len() as int));
        lemma_body_locations_in(init, all);
        let c = body_locations(blocks);
        let a = body_locations(init);
        let bl = block_locations(blocks.len() - 1, blocks.last());
        assert(blocks.last() == all[blocks.len() - 1]);
        assert forall|i: int| 0 <= i < c.len() implies (#[trigger] c[i] matches StatementMatch::Location(l) ==> l.block
            < all.len() && l.statement_index < row_len(all[l.block as int].0 as nat, all[l.block as int].1)) by {
            if i < a.len() {
                assert(c[i] == a[i]);
            } else {
                let j = i - a.len();
                assert(c[i] == bl[j]);
                assert(all[blocks.len() - 1].0 < usize::MAX);
                assert(bl[j] == StatementMatch::Location(
                    Location { block: (blocks.len() - 1) as usize, statement_index: j as usize },
                ));
            }
        }
        let t = terminator_locations(blocks);
        let ta = terminator_locations(init);
        assert forall|i: int| 0 <= i < t.len() implies (#[trigger] t[i] matches StatementMatch::Location(l) ==> l.block
            < all.len() && l.statement_index < row_len(all[l.block as int].0 as nat, all[l.block as int].1)) by {
            if i < ta.len() {
                assert(t[i] == ta[i]);
            }
        }
    }
}

proof fn lemma_candidates_in(blk: PatBlockView, s: int, f: &FnBodyModel)
    requires
        blocks_countable(f.blocks@),
    ensures
        locations_in(candidates_of(blk, s, f), f.blocks@),
{
    assert(f.blocks@ =~= f.blocks@.subrange(0, f.blocks@.len() as int));
    lemma_body_locations_in(f.blocks@, f.blocks@);
    if s < blk.0.len() {
        let a = arg_candidates(blk.0[s], f.has_self, f.args@);
        let bl = body_locations(f.blocks@);
        let c = a + bl;
        assert forall|i: int| 0 <= i < c.len() implies (#[trigger] c[i] matches StatementMatch::Location(l) ==> l.block
            < f.blocks@.len() && l.statement_index < row_len(
            f.blocks@[l.block as int].0 as nat,
            f.blocks@[l.block as int].1,
        )) by {
            if i < a.len() {
                assert(c[i] == a[i]);
                assert(a[i] is Arg);
            } else {
                assert(c[i] == bl[i - a.len()]);
            }
        }
    }
}

fn candidates_at(blk: &PatBlockShape, s: usize, f: &FnBodyModel) -> (r: Vec<StatementMatch>)
    requires
        blocks_countable(f.blocks@),
    ensures
        r@ == candidates_of((blk.statements@, blk.has_terminator), s as int, f),
{
    if s < blk.statements.len() {
        let mut a = arg_candidate_list(blk.statements[s], f.has_self, &f.args);
        let mut l = body_location_list(&f.blocks);
        a.append(&mut l);
        a
    } else {
        terminator_location_list(&f.blocks)
    }
}

/// Append the one-statement matchings of pattern statement `s` of block `b` to `out`.
fn push_loc_matches(pat: &PatBodyShape, b: usize, s: usize, f: &FnBodyModel, out: &mut Vec<Matching>)
    requires
        b < pat.blocks@.len(),
        s < row_len(pat.view_blocks()[b as int].0.len(), pat.view_blocks()[b as int].1),
        fits(pat.view_blocks(), f),
        blocks_countable(f.blocks@),
    ensures
        matchings_view(final(out)@) == matchings_view(old(out)@) + loc_matchings(pat.view_blocks(), f, b as int, s as int),
{
    let ghost pv = pat.view_blocks();
    let blk = &pat.blocks[b];
    assert(pv[b as int] == (blk.statements@, blk.has_terminator));
    let cands = candidates_at(blk, s, f);
    proof {
        lemma_candidates_in(pv[b as int], s as int, f);
    }
    let outs = &f.outcomes[b][s];
    assert(outs@ == f.outcomes@[b as int]@[s as int]@);
    assert(outs@.len() == cands@.len());
    let ghost start = matchings_view(out@);
    assert(opt_views(outs@.subrange(0, 0)) =~= Seq::<Option<MatchingView>>::empty());
    for k in 0..outs.len()
        invariant
            pv == pat.view_blocks(),
            b < pv.len(),
            s < row_len(pv[b as int].0.len(), pv[b as int].1),
            fits(pv, f),
            outs@ == f.outcomes@[b as int]@[s as int]@,
            outs@.len() == cands@.len(),
            cands@ == candidates_of(pv[b as int], s as int, f),
            locations_in(cands@, f.blocks@),
            matchings_view(out@) == start + accepted(
                opt_views(outs@.subrange(0, k as int)),
                cands@,
                b as int,
                s as int,
                f.def_id,
            ),
    {
        let ghost before = out@;
        let ghost pre = opt_views(outs@.subrange(0, k + 1));
        assert(pre.drop_last() =~= opt_views(outs@.subrange(0, k as int)));
        match &outs[k] {
            Some(m) => {
                assert(shaped_for(m@, pv, f));
                assert(m@.basic_blocks[b as int].len() == row_len(pv[b as int].0.len(), pv[b as int].1));
                let c = cands[k];
                assert(c == cands@[k as int]);
                if let StatementMatch::Location(l) = c {
                    assert(l.block < f.blocks@.len());
                    assert(m@.mir_statements[l.block as int].len() == row_len(
                        f.blocks@[l.block as int].0 as nat,
                        f.blocks@[l.block as int].1,
                    ));
                }
                let mut m2 = m.copy();
                mark(&mut m2, b, s, f.def_id, c);
                out.push(m2);
                assert(matchings_view(out@) =~= matchings_view(before).push(m2@));
                assert(pre[k as int] == Some(m@));
            },
            None => {
                assert(pre[k as int] is None);
            },
        }
    }
    assert(outs@.subrange(0, outs@.len() as int) =~= outs@);
}

/// The one-statement matchings of a function pattern, whose blocks are `pat`, in the
/// function body `f`: for each statement of the pattern in order, each place of the body
/// it is tried against where the statement matcher accepted, in order, with that
/// statement and that place recorded as matching each other.
pub fn one_statement_matches(pat: &PatBodyShape, f: &FnBodyModel) -> (r: Vec<Matching>)
    requires
        fits(pat.view_blocks(), f),
        blocks_countable(f.blocks@),
    ensures
        matchings_view(r@) == one_statement_matchings(pat.view_blocks(), f),
{
    let ghost pv = pat.view_blocks();
    let mut out: Vec<Matching> = Vec::new();
    assert(matchings_view(out@) =~= Seq::<MatchingView>::empty());
    for b in 0..pat.blocks.len()
        invariant
            pv == pat.view_blocks(),
            pv.len() == pat.blocks@.len(),
            fits(pv, f),
            blocks_countable(f.blocks@),
            matchings_view(out@) == blocks_matchings(pv, f, b as int),
    {
        let blk = &pat.blocks[b];
        assert(pv[b as int] == (blk.statements@, blk.has_terminator));
        let ghost done = blocks_matchings(pv, f, b as int);
        let ns = blk.statements.len();
        for s in 0..ns
            invariant
                pv == pat.view_blocks(),
                pv.len() == pat.blocks@.len(),
                b < pv.len(),
                pv[b as int] == (blk.statements@, blk.has_terminator),
                ns == blk.statements@.len(),
                fits(pv, f),
                blocks_countable(f.blocks@),
                matchings_view(out@) == done + block_matchings(pv, f, b as int, s as int),
        {
            push_loc_matches(pat, b, s, f, &mut out);
            assert(done + block_matchings(pv, f, b as int, s + 1) =~= done + block_matchings(pv, f, b as int, s as int)
                + loc_matchings(pv, f, b as int, s as int));
        }
        if blk.has_terminator {
            push_loc_matches(pat, b, ns, f, &mut out);
            assert(done + block_matchings(pv, f, b as int, ns + 1) =~= done + block_matchings(pv, f, b as int, ns as int)
                + loc_matchings(pv, f, b as int, ns as int));
        }
        assert(row_len(pv[b as int].0.len(), pv[b as int].1) == if blk.has_terminator { ns + 1 } else { ns as int });
    }
    out
}

/// The call sites in the first `n` blocks of `f` whose terminator calls `callee`.
pub open spec fn block_calls_into(f: &FnBodyModel, callee: LocalDefId, n: int) -> Seq<CallSite>
    decreases n,
{
    if n <= 0 {
        Seq::empty()
    } else {
        let rest = block_calls_into(f, callee, n - 1);
        if f.calls@[n - 1] == Some(callee) {
            rest.push(
                CallSite {
                    def_id: f.def_id,
                    loc: Location { block: (n - 1) as usize, statement_index: f.blocks@[n - 1].0 },
                },
            )
        } else {
            rest
        }
    }
}

/// The call sites of `callee` in the first `n` bodies of `fns`, body by body.
pub open spec fn calls_into(fns: Seq<FnBodyModel>, callee: LocalDefId, n: int) -> Seq<CallSite>
    decreases n,
{
    if n <= 0 {
        Seq::empty()
    } else {
        calls_into(fns, callee, n - 1) + block_calls_into(&fns[n - 1], callee, fns[n - 1].blocks@.len() as int)
    }
}

/// The call table of `f` has one entry per block.
pub open spec fn calls_fit(f: &FnBodyModel) -> bool {
    &&& f.calls@.len() == f.blocks@.len()
    &&& f.blocks@.len() <= usize::MAX
}

fn push_calls_into(f: &FnBodyModel, callee: LocalDefId, out: &mut Vec<CallSite>)
    requires
        calls_fit(f),
    ensures
        final(out)@ == old(out)@ + block_calls_into(f, callee, f.blocks@.len() as int),
{
    let ghost start = out@;
    for bb in 0..f.blocks.len()
        invariant
            calls_fit(f),
            out@ == start + block_calls_into(f, callee, bb as int),
    {
        let hit = match f.calls[bb] {
            Some(c) => c == callee,
            None => false,
        };
        if hit {
            out.push(CallSite { def_id: f.def_id, loc: Location { block: bb, statement_index: f.blocks[bb].0 } });
        }
        assert(out@ =~= start + block_calls_into(f, callee, bb + 1));
    }
}

/// The one-statement matchings of a function pattern in each of the function bodies
/// `fns`, in order, each with the call sites of its function in all the bodies.
pub fn find_matches_1(pat: &PatBodyShape, fns: &Vec<FnBodyModel>) -> (r: Vec<FnMatchings>)
    requires
        forall|i: int| 0 <= i < fns@.len() ==> fits(pat.view_blocks(), #[trigger] &fns@[i]),
        forall|i: int| 0 <= i < fns@.len() ==> blocks_countable((#[trigger] fns@[i]).blocks@),
        forall|i: int| 0 <= i < fns@.len() ==> calls_fit(#[trigger] &fns@[i]),
    ensures
        r@.len() == fns@.len(),
        forall|i: int|
            0 <= i < fns@.len() ==> matchings_view((#[trigger] r@[i]).matches@) == one_statement_matchings(
                pat.view_blocks(),
                &fns@[i],
            ),
        forall|i: int|
            0 <= i < fns@.len() ==> (#[trigger] r@[i]).callers@ == calls_into(fns@, fns@[i].def_id, fns@.len() as int),
{
    let mut out: Vec<FnMatchings> = Vec::new();
    for i in 0..fns.len()
        invariant
            forall|j: int| 0 <= j < fns@.len() ==> fits(pat.view_blocks(), #[trigger] &fns@[j]),
            forall|j: int| 0 <= j < fns@.len() ==> blocks_countable((#[trigger] fns@[j]).blocks@),
            forall|j: int| 0 <= j < fns@.len() ==> calls_fit(#[trigger] &fns@[j]),
            out@.len() == i,
            forall|j: int|
                0 <= j < i ==> matchings_view((#[trigger] out@[j]).matches@) == one_statement_matchings(
                    pat.view_blocks(),
                    &fns@[j],
                ),
            forall|j: int|
                0 <= j < i ==> (#[trigger] out@[j]).callers@ == calls_into(fns@, fns@[j].def_id, fns@.len() as int),
    {
        assert(fits(pat.view_blocks(), &fns@[i as int]));
        assert(blocks_countable(fns@[i as int].blocks@));
        let matches = one_statement_matches(pat, &fns[i]);
        let callee = fns[i].def_id;
        let mut callers: Vec<CallSite> = Vec::new();
        for g in 0..fns.len()
            invariant
                forall|j: int| 0 <= j < fns@.len() ==> calls_fit(#[trigger] &fns@[j]),
                callers@ == calls_into(fns@, callee, g as int),
        {
            assert(calls_fit(&fns@[g as int]));
            push_calls_into(&fns[g], callee, &mut callers);
        }
        out.push(FnMatchings { matches, callers });
    }
    out
}

} // verus!
