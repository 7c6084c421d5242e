use rpl_core::matching::{Matching, StatementMatch};
use rpl_core::one_statement::{find_matches_1, one_statement_matches, FnBodyModel, PatBlockShape, PatBodyShape, PatStmtShape};
use rpl_core::reachability::Location;
use rpl_core::types::LocalDefId;

fn empty() -> Matching {
    Matching::new(&vec![3], 0, 0, 0, 0, &vec![2], 0)
}

fn loc(block: usize, statement_index: usize) -> Location {
    Location { block, statement_index }
}

fn pattern(first: PatStmtShape) -> PatBodyShape {
    PatBodyShape { blocks: vec![PatBlockShape { statements: vec![first, PatStmtShape::Other], has_terminator: true }] }
}

fn body(has_self: bool, outcomes: Vec<Vec<Vec<Option<Matching>>>>) -> FnBodyModel {
    FnBodyModel {
        def_id: LocalDefId { local_def_index: 5 },
        has_self,
        args: vec![1, 2],
        blocks: vec![(1, true)],
        calls: vec![None],
        outcomes,
    }
}

fn nones(n: usize) -> Vec<Option<Matching>> {
    (0..n).map(|_| None).collect()
}

fn matched_at(m: &Matching, s: usize) -> Option<(u32, StatementMatch)> {
    m.basic_blocks[0][s].as_ref().map(|w| (w.def_id.local_def_index, w.value))
}

#[test]
fn accepted_places_become_one_statement_matchings() {
    // statement 0 declares an argument: tried against both arguments, then every place
    // of the body; statement 1 against every place; the terminator against terminators
    let f = body(
        false,
        vec![vec![
            vec![Some(empty()), None, None, Some(empty())],
            vec![None, Some(empty())],
            vec![Some(empty())],
        ]],
    );
    let r = one_statement_matches(&pattern(PatStmtShape::Arg), &f);
    assert_eq!(r.len(), 4);
    assert_eq!(matched_at(&r[0], 0), Some((5, StatementMatch::Arg(1))));
    assert!(r[0].mir_statements[0].iter().all(|c| c.is_none()));
    assert_eq!(matched_at(&r[1], 0), Some((5, StatementMatch::Location(loc(0, 1)))));
    assert_eq!(r[1].mir_statements[0][1], Some(vec![loc(0, 0)]));
    assert_eq!(matched_at(&r[2], 1), Some((5, StatementMatch::Location(loc(0, 1)))));
    assert_eq!(r[2].mir_statements[0][1], Some(vec![loc(0, 1)]));
    assert_eq!(matched_at(&r[2], 0), None);
    assert_eq!(matched_at(&r[3], 2), Some((5, StatementMatch::Location(loc(0, 1)))));
    assert_eq!(r[3].mir_statements[0][1], Some(vec![loc(0, 2)]));
}

#[test]
fn self_declaration_tries_only_self() {
    let f = body(true, vec![vec![vec![Some(empty()), None, None], vec![None, None], vec![None]]]);
    let r = find_matches_1(&pattern(PatStmtShape::SelfArg), &vec![f]);
    assert_eq!(r.len(), 1);
    assert_eq!(r[0].matches.len(), 1);
    assert_eq!(matched_at(&r[0].matches[0], 0), Some((5, StatementMatch::Arg(1))));
    assert!(r[0].callers.is_empty());
}

#[test]
fn callers_are_collected_for_each_function() {
    let none = || vec![vec![vec![None, None, None, None], vec![None, None], vec![None]]];
    let mut caller = body(false, none());
    caller.def_id = LocalDefId { local_def_index: 7 };
    caller.blocks = vec![(1, true), (3, true)];
    caller.calls = vec![None, Some(LocalDefId { local_def_index: 5 })];
    caller.outcomes = vec![vec![nones(8), nones(6), nones(2)]];
    let callee = body(false, none());
    let r = find_matches_1(&pattern(PatStmtShape::Arg), &vec![caller, callee]);
    assert_eq!(r.len(), 2);
    assert!(r[0].callers.is_empty());
    assert_eq!(r[1].callers.len(), 1);
    assert_eq!(r[1].callers[0].def_id, LocalDefId { local_def_index: 7 });
    assert_eq!(r[1].callers[0].loc, loc(1, 3));
    assert!(r[0].matches.is_empty() && r[1].matches.is_empty());
}
