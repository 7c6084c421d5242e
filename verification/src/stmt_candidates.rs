//! The candidates of a function pattern in one body, before the search for a consistent
//! choice: for each statement of the pattern, the places of the body the statement
//! matcher accepts, and for each local of the pattern, the locals of the body it may
//! stand for.
//!
//! A statement of the pattern that declares an argument is tried against the function's
//! arguments (only `self` where the pattern declares `self` and the function takes it);
//! every statement and terminator of the pattern is tried against every place of the
//! body. The pattern's `self` local may only stand for the body's `self`, and its return
//! local only for the body's return place. Nothing is a candidate when the return type
//! does not match.
use vstd::prelude::*;

use crate::matching::StatementMatch;
use crate::one_statement::{
    arg_candidate_list, arg_candidates, blocks_countable, body_location_list, body_locations, row_len, FnBodyModel,
    PatBlockShape, PatBlockView, PatBodyShape,
};

verus! {

/// What the matchers reported while building the candidates: whether the return type
/// matched, for each pattern statement and each place it is tried against whether the
/// statement matcher accepted it, and for each pattern local the body locals the local
/// matcher accepted.
#[derive(Debug)]
pub struct CandidateInputs {
    pub ret_ty_matched: bool,
    pub accepted: Vec<Vec<Vec<bool>>>,
    pub local_hits: Vec<Vec<bool>>,
    pub self_idx: Option<usize>,
    pub return_idx: Option<usize>,
}

/// The candidates of a function pattern in one body.
#[derive(Debug)]
pub struct CandidateTable {
    /// For each statement of each block of the pattern, the places it may match.
    pub statements: Vec<Vec<Vec<StatementMatch>>>,
    /// For each local of the pattern, which locals of the body it may stand for.
    pub locals: Vec<Vec<bool>>,
}

/// A candidate table by its contents.
pub struct CandidateTableView {
    pub statements: Seq<Seq<Seq<StatementMatch>>>,
    pub locals: Seq<Seq<bool>>,
}

impl View for CandidateTable {
    type V = CandidateTableView;

    open spec fn view(&self) -> CandidateTableView {
        CandidateTableView {
            statements: self.statements@.map_values(|r: Vec<Vec<StatementMatch>>| r@.map_values(|c: Vec<StatementMatch>| c@)),
            locals: self.locals@.map_values(|r: Vec<bool>| r@),
        }
    }
}

/// The places pattern statement `s` of block `blk` is tried against: the arguments, for
/// an argument declaration, then every place of the body.
pub open spec fn tried_places(blk: PatBlockView, s: int, f: &FnBodyModel) -> Seq<StatementMatch> {
    let args = if s < blk.0.len() {
        arg_candidates(blk.0[s], f.has_self, f.args@)
    } else {
        Seq::empty()
    };
    args + body_locations(f.blocks@)
}

/// The places among `places` whose flag in `ok` is set, in order.
pub open spec fn kept(places: Seq<StatementMatch>, ok: Seq<bool>) -> Seq<StatementMatch>
    decreases ok.len(),
{
    if ok.len() == 0 {
        Seq::empty()
    } else {
        let rest = kept(places, ok.drop_last());
        if ok.last() {
            rest.push(places[ok.len() - 1])
        } else {
            rest
        }
    }
}

/// Some local is a candidate.
pub open spec fn has_hit(h: Seq<bool>) -> bool {
    exists|i: int| 0 <= i < h.len() && #[trigger] h[i]
}

/// Only local `i` stays a candidate, if it was one.
pub open spec fn keep_only(h: Seq<bool>, i: int) -> Seq<bool> {
    Seq::new(h.len(), |j: int| j == i && h[i])
}

/// The candidates of pattern local `l`: the `self` local keeps only local 1 and the
/// return local only local 0; the others keep what the matcher found.
pub open spec fn restricted(h: Seq<bool>, l: int, self_idx: Option<usize>, return_idx: Option<usize>) -> Seq<bool> {
    if !has_hit(h) {
        h
    } else if self_idx == Some(l as usize) {
        keep_only(h, 1)
    } else if return_idx == Some(l as usize) {
        keep_only(h, 0)
    } else {
        h
    }
}

/// The pattern's rows: how many statements (and terminator) each block holds.
pub open spec fn pattern_rows(pat: Seq<PatBlockView>) -> Seq<nat> {
    pat.map_values(|b: PatBlockView| row_len(b.0.len(), b.1))
}

/// The inputs cover every place each pattern statement is tried against, and the
/// `self` and return locals of the pattern have their body locals to keep.
pub open spec fn inputs_fit(inp: &CandidateInputs, pat: Seq<PatBlockView>, f: &FnBodyModel) -> bool {
    &&& inp.accepted@.len() == pat.len()
    &&& forall|b: int| 0 <= b < pat.len() ==> (#[trigger] inp.accepted@[b])@.len() == pattern_rows(pat)[b]
    &&& forall|b: int, s: int|
        0 <= b < pat.len() && 0 <= s < pattern_rows(pat)[b] ==> (#[trigger] inp.accepted@[b]@[s])@.len()
            == tried_places(pat[b], s, f).len()
    &&& forall|l: int|
        0 <= l < inp.local_hits@.len() && inp.self_idx == Some(l as usize) && has_hit(
            #[trigger] inp.local_hits@[l]@,
        ) ==> 1 < inp.local_hits@[l]@.len()
    &&& forall|l: int|
        0 <= l < inp.local_hits@.len() && inp.return_idx == Some(l as usize) && has_hit(
            #[trigger] inp.local_hits@[l]@,
        ) ==> 0 < inp.local_hits@[l]@.len()
}

/// The candidate table the inputs give.
pub open spec fn candidate_table_of(inp: &CandidateInputs, pat: Seq<PatBlockView>, f: &FnBodyModel) -> CandidateTableView {
    CandidateTableView {
        statements: Seq::new(
            pat.len(),
            |b: int| Seq::new(pattern_rows(pat)[b], |s: int| kept(tried_places(pat[b], s, f), inp.accepted@[b]@[s]@)),
        ),
        locals: Seq::new(
            inp.local_hits@.len(),
            |l: int| restricted(inp.local_hits@[l]@, l, inp.self_idx, inp.return_idx),
        ),
    }
}

fn tried_place_list(blk: &PatBlockShape, s: usize, f: &FnBodyModel) -> (r: Vec<StatementMatch>)
    requires
        blocks_countable(f.blocks@),
    ensures
        r@ == tried_places((blk.statements@, blk.has_terminator), s as int, f),
{
    let mut a = if s < blk.statements.len() {
        arg_candidate_list(blk.statements[s], f.has_self, &f.args)
    } else {
        let v: Vec<StatementMatch> = Vec::new();
        assert(v@ =~= Seq::<StatementMatch>::empty());
        v
    };
    let mut l = body_location_list(&f.blocks);
    a.append(&mut l);
    a
}

fn kept_list(places: &Vec<StatementMatch>, ok: &Vec<bool>) -> (r: Vec<StatementMatch>)
    requires
        ok@.len() == places@.len(),
    ensures
        r@ == kept(places@, ok@),
{
    let mut out: Vec<StatementMatch> = Vec::new();
    for k in 0..ok.len()
        invariant
            ok@.len() == places@.len(),
            out@ == kept(places@, ok@.subrange(0, k as int)),
    {
        assert(ok@.subrange(0, k + 1).drop_last() =~= ok@.subrange(0, k as int));
        if ok[k] {
            out.push(places[k]);
        }
    }
    assert(ok@.subrange(0, ok@.len() as int) =~= ok@);
    out
}

fn restricted_row(h: &Vec<bool>, l: usize, self_idx: Option<usize>, return_idx: Option<usize>) -> (r: Vec<bool>)
    requires
        self_idx == Some(l) && has_hit(h@) ==> 1 < h@.len(),
        return_idx == Some(l) && has_hit(h@) ==> 0 < h@.len(),
    ensures
        r@ == restricted(h@, l as int, self_idx, return_idx),
{
    let mut any = false;
    for i in 0..h.len()
        invariant
            any == exists|j: int| 0 <= j < i && #[trigger] h@[j],
    {
        if h[i] {
            any = true;
        }
    }
    let is_self = match self_idx {
        Some(i) => i == l,
        None => false,
    };
    let is_ret = match return_idx {
        Some(i) => i == l,
        None => false,
    };
    let only: Option<usize> = if !any {
        None
    } else if is_self {
        Some(1)
    } else if is_ret {
        Some(0)
    } else {
        None
    };
    let mut out: Vec<bool> = Vec::new();
    match only {
        None => {
            for j in 0..h.len()
                invariant
                    out@ == h@.subrange(0, j as int),
            {
                out.push(h[j]);
                assert(out@ =~= h@.subrange(0, j + 1));
            }
            assert(out@ =~= h@);
        },
        Some(o) => {
            let keep = h[o];
            for j in 0..h.len()
                invariant
                    o < h@.len(),
                    keep == h@[o as int],
                    out@ == keep_only(h@, o as int).subrange(0, j as int),
            {
                out.push(j == o && keep);
                assert(out@ =~= keep_only(h@, o as int).subrange(0, j + 1));
            }
            assert(out@ =~= keep_only(h@, o as int));
        },
    }
    out
}

/// Fill `c` with the candidates of a function pattern with blocks `pat` in the body `f`,
/// from what the matchers reported in `inp`; when the return type did not match, `c`
/// stays as it was.
pub fn build_candidates(c: &mut CandidateTable, inp: &CandidateInputs, pat: &PatBodyShape, f: &FnBodyModel)
    requires
        inputs_fit(inp, pat.view_blocks(), f),
        blocks_countable(f.blocks@),
    ensures
        final(c)@ == if inp.ret_ty_matched {
            candidate_table_of(inp, pat.view_blocks(), f)
        } else {
            old(c)@
        },
{
    if !inp.ret_ty_matched {
        return;
    }
    let ghost pv = pat.view_blocks();
    let ghost want = candidate_table_of(inp, pv, f);
    let mut stmts: Vec<Vec<Vec<StatementMatch>>> = Vec::new();
    for b in 0..pat.blocks.len()
        invariant
            pv == pat.view_blocks(),
            pv.len() == pat.blocks@.len(),
            want == candidate_table_of(inp, pv, f),
            inputs_fit(inp, pv, f),
            blocks_countable(f.blocks@),
            stmts@.len() == b,
            forall|i: int| 0 <= i < b ==> (#[trigger] stmts@[i])@.map_values(|x: Vec<StatementMatch>| x@) == want.statements[i],
    {
        let blk = &pat.blocks[b];
        assert(pv[b as int] == (blk.statements@, blk.has_terminator));
        let ghost row_want = want.statements[b as int];
        let ns = blk.statements.len();
        let mut row: Vec<Vec<StatementMatch>> = Vec::new();
        for s in 0..ns
            invariant
                pv == pat.view_blocks(),
                b < pv.len(),
                pv[b as int] == (blk.statements@, blk.has_terminator),
                ns == blk.statements@.len(),
                want == candidate_table_of(inp, pv, f),
                row_want == want.statements[b as int],
                inputs_fit(inp, pv, f),
                blocks_countable(f.blocks@),
                row@.len() == s,
                forall|i: int| 0 <= i < s ==> (#[trigger] row@[i])@ == row_want[i],
        {
            let places = tried_place_list(blk, s, f);
            assert(inp.accepted@[b as int]@[s as int]@.len() == places@.len());
            let cands = kept_list(&places, &inp.accepted[b][s]);
            row.push(cands);
        }
        if blk.has_terminator {
            let places = tried_place_list(blk, ns, f);
            assert(inp.accepted@[b as int]@[ns as int]@.len() == places@.len());
            let cands = kept_list(&places, &inp.accepted[b][ns]);
            row.push(cands);
        }
        assert(row@.map_values(|x: Vec<StatementMatch>| x@) =~= row_want);
        stmts.push(row);
    }
    let mut locals: Vec<Vec<bool>> = Vec::new();
    for l in 0..inp.local_hits.len()
        invariant
            inputs_fit(inp, pv, f),
            want == candidate_table_of(inp, pv, f),
            locals@.len() == l,
            forall|i: int| 0 <= i < l ==> (#[trigger] locals@[i])@ == want.locals[i],
    {
        assert(inp.self_idx == Some(l) && has_hit(inp.local_hits@[l as int]@) ==> 1 < inp.local_hits@[l as int]@.len());
        assert(inp.return_idx == Some(l) && has_hit(inp.local_hits@[l as int]@) ==> 0 < inp.local_hits@[l as int]@.len());
        let r = restricted_row(&inp.local_hits[l], l, inp.self_idx, inp.return_idx);
        locals.push(r);
    }
    c.statements = stmts;
    c.locals = locals;
    assert(c@.statements =~= want.statements);
    assert(c@.locals =~= want.locals);
}

} // verus!
