use rpl_core::matching::{match_fn_pattern, AdtMatchRef, dedup_matchings, join_fn_matchings, try_set, Matching, StatementMatch, WithCallStack};
use rpl_core::reachability::{Location, Reachability};
use rpl_core::types::{LocalDefId, Ty, TyKind};

fn loc(block: usize, statement_index: usize) -> Location {
    Location { block, statement_index }
}

fn def(i: u32) -> LocalDefId {
    LocalDefId { local_def_index: i }
}

// a pattern of one block with two statements and one type metavariable; a body of three blocks
fn empty() -> Matching {
    Matching::new(&vec![2], 0, 1, 0, 0, &vec![1, 1, 1], 1)
}

fn with_stmt(m: &mut Matching, s: usize, at: Location) {
    m.basic_blocks[0][s] = Some(WithCallStack::new_one(def(1), StatementMatch::Location(at)));
    m.mir_statements[at.block][at.statement_index] = Some(vec![loc(0, s)]);
}

fn ty(id: u64) -> Ty {
    Ty { id, kind: TyKind::Other }
}

// pattern: one block; body: 0 -> 1 -> 2
fn graphs() -> (Reachability, Reachability) {
    (Reachability::new_mir(&vec![vec![1], vec![2], vec![]]), Reachability::new_pat(&vec![vec![]]))
}

#[test]
fn join_keeps_statement_order() {
    let (mir, pat) = graphs();
    let mut first = empty();
    with_stmt(&mut first, 0, loc(0, 0));
    first.ty_vars[0] = Some(ty(7));
    let mut second = empty();
    with_stmt(&mut second, 1, loc(2, 0));
    second.ty_vars[0] = Some(ty(7));
    assert!(!first.has_statement_intersection(&second));
    assert!(first.preserve_reachability(&second, &mir, &pat));
    let j = first.join(&second, &mir, &pat).unwrap();
    assert!(j.basic_blocks[0][0].is_some() && j.basic_blocks[0][1].is_some());
    assert!(j.mir_statements[0][0].is_some() && j.mir_statements[2][0].is_some());
    assert!(j.mir_statements[1][0].is_none());
    assert!(!j.is_complete());
    let matched = j.to_matched().unwrap();
    assert_eq!(matched.ty_vars, vec![ty(7)]);
    assert_eq!(matched.basic_blocks[0].len(), 2);
    // joining the other way round gives the same
    assert!(second.join(&first, &mir, &pat).unwrap().same(&j));
}

#[test]
fn join_refuses_reversed_order() {
    let (mir, pat) = graphs();
    let mut first = empty();
    with_stmt(&mut first, 0, loc(2, 0));
    let mut second = empty();
    with_stmt(&mut second, 1, loc(0, 0));
    assert!(!first.preserve_reachability(&second, &mir, &pat));
    assert!(first.join(&second, &mir, &pat).is_none());
}

#[test]
fn join_refuses_conflicts_and_overlaps() {
    let (mir, pat) = graphs();
    let mut first = empty();
    with_stmt(&mut first, 0, loc(0, 0));
    first.ty_vars[0] = Some(ty(7));
    let mut second = empty();
    with_stmt(&mut second, 1, loc(1, 0));
    second.ty_vars[0] = Some(ty(8));
    assert!(first.join(&second, &mir, &pat).is_none());
    let mut third = empty();
    with_stmt(&mut third, 0, loc(1, 0));
    assert!(first.has_statement_intersection(&third));
    assert!(first.join(&third, &mir, &pat).is_none());
}

#[test]
fn incomplete_matching_has_no_match() {
    let m = empty();
    assert!(m.to_matched().is_none());
    assert!(!m.is_complete());
    let full = Matching::new(&vec![], 0, 0, 0, 0, &vec![], 0);
    assert!(full.is_complete());
    assert!(full.to_matched().is_some());
}

#[test]
fn propagation_records_the_call() {
    let mut m = empty();
    with_stmt(&mut m, 0, loc(1, 0));
    let p = m.propagate(loc(4, 2), &vec![3, 5], def(9));
    let w = p.basic_blocks[0][0].as_ref().unwrap();
    assert_eq!(w.stack.len(), 1);
    assert_eq!(w.bottom(), (def(9), Some(loc(4, 2))));
    assert_eq!(w.bottom_location(), (def(9), Some(loc(4, 2))));
    assert_eq!(w.def(), (def(1), StatementMatch::Location(loc(1, 0))));
    assert_eq!(p.mir_statements.len(), 2);
    assert_eq!(p.mir_statements[1].len(), 5);
    assert!(p.mir_statements[0].iter().all(|c| c.is_none()));
}

#[test]
fn argument_matches_lie_nowhere() {
    let w = WithCallStack::new_one(def(1), StatementMatch::Arg(1));
    assert_eq!(w.bottom_location(), (def(1), None));
    assert_eq!(w.value(), StatementMatch::Arg(1));
}

#[test]
fn component_joining_and_dedup() {
    let (mir, pat) = graphs();
    let mut a = empty();
    with_stmt(&mut a, 0, loc(0, 0));
    let mut b1 = empty();
    with_stmt(&mut b1, 1, loc(1, 0));
    let mut b2 = empty();
    with_stmt(&mut b2, 1, loc(2, 0));
    let out = join_fn_matchings(&vec![a.copy()], &vec![b1.copy(), b2.copy(), b1.copy()], &mir, &pat);
    // the repeated join is kept once
    assert_eq!(out.len(), 2);
    let d = dedup_matchings(&vec![a.copy(), b1.copy(), a.copy()]);
    assert_eq!(d.len(), 2);
    assert!(d[0].same(&a));
}

#[test]
fn cells_take_one_value() {
    let mut cell: Option<Ty> = None;
    assert!(try_set(&mut cell, ty(1)));
    assert!(try_set(&mut cell, ty(1)));
    assert!(!try_set(&mut cell, ty(2)));
    assert_eq!(cell, Some(ty(1)));
}

#[test]
fn bottom_is_the_outermost_call_site() {
    let mut w = WithCallStack::new_one(def(1), StatementMatch::Location(loc(0, 0)));
    w.push_call(def(2), loc(3, 1));
    w.push_call(def(5), loc(7, 0));
    assert_eq!(w.bottom(), (def(5), Some(loc(7, 0))));
    assert_eq!(w.bottom_location(), (def(5), Some(loc(7, 0))));
    assert_eq!(w.stack[0].def_id, def(2));
}

#[test]
fn join_rejects_conflicting_adt_matches() {
    let (mir, pat) = graphs();
    let mut first = empty();
    with_stmt(&mut first, 0, loc(0, 0));
    assert!(try_set(&mut first.adt_matches[0], AdtMatchRef { id: 4 }));
    let mut second = empty();
    with_stmt(&mut second, 1, loc(2, 0));
    second.adt_matches[0] = Some(AdtMatchRef { id: 5 });
    assert!(first.join(&second, &mir, &pat).is_none());
    second.adt_matches[0] = Some(AdtMatchRef { id: 4 });
    let joined = first.join(&second, &mir, &pat).unwrap();
    assert_eq!(joined.adt_matches, vec![Some(AdtMatchRef { id: 4 })]);
    second.adt_matches[0] = None;
    assert_eq!(first.join(&second, &mir, &pat).unwrap().adt_matches, vec![Some(AdtMatchRef { id: 4 })]);
}

#[test]
fn components_are_joined_into_complete_matches() {
    let (mir, pat) = graphs();
    let mut first = empty();
    with_stmt(&mut first, 0, loc(0, 0));
    first.ty_vars[0] = Some(ty(7));
    let mut second = empty();
    with_stmt(&mut second, 1, loc(2, 0));
    second.ty_vars[0] = Some(ty(7));
    let ones = vec![first, second];
    let r = match_fn_pattern(&ones, 2, &mir, &pat);
    assert_eq!(r.len(), 1);
    assert_eq!(r[0].ty_vars, vec![ty(7)]);
    assert_eq!(r[0].basic_blocks[0].len(), 2);
    // without a join step nothing is complete
    assert!(match_fn_pattern(&ones, 1, &mir, &pat).is_empty());
    assert!(match_fn_pattern(&vec![], 3, &mir, &pat).is_empty());
}
