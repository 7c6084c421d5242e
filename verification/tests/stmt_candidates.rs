use rpl_core::matching::StatementMatch;
use rpl_core::one_statement::{FnBodyModel, PatBlockShape, PatBodyShape, PatStmtShape};
use rpl_core::reachability::Location;
use rpl_core::stmt_candidates::{build_candidates, CandidateInputs, CandidateTable};
use rpl_core::types::LocalDefId;

fn at(block: usize, statement_index: usize) -> StatementMatch {
    StatementMatch::Location(Location { block, statement_index })
}

fn pattern() -> PatBodyShape {
    PatBodyShape {
        blocks: vec![PatBlockShape { statements: vec![PatStmtShape::Arg, PatStmtShape::Other], has_terminator: true }],
    }
}

fn body() -> FnBodyModel {
    FnBodyModel {
        def_id: LocalDefId { local_def_index: 3 },
        has_self: false,
        args: vec![1, 2],
        blocks: vec![(1, true)],
        calls: vec![None],
        outcomes: vec![],
    }
}

fn inputs(ret_ty_matched: bool) -> CandidateInputs {
    CandidateInputs {
        ret_ty_matched,
        accepted: vec![vec![vec![true, false, false, true], vec![false, true], vec![true, false]]],
        local_hits: vec![
            vec![true, true, false],
            vec![false, true, true],
            vec![false, false, false],
            vec![true, false, true],
        ],
        self_idx: Some(1),
        return_idx: Some(3),
    }
}

#[test]
fn candidates_are_the_accepted_places_and_restricted_locals() {
    let mut c = CandidateTable { statements: vec![], locals: vec![] };
    build_candidates(&mut c, &inputs(true), &pattern(), &body());
    assert_eq!(
        c.statements,
        vec![vec![vec![StatementMatch::Arg(1), at(0, 1)], vec![at(0, 1)], vec![at(0, 0)]]]
    );
    assert_eq!(
        c.locals,
        vec![
            vec![true, true, false],
            vec![false, true, false],
            vec![false, false, false],
            vec![true, false, false],
        ]
    );
}

#[test]
fn no_candidates_when_the_return_type_differs() {
    let mut c = CandidateTable { statements: vec![], locals: vec![vec![true]] };
    build_candidates(&mut c, &inputs(false), &pattern(), &body());
    assert!(c.statements.is_empty());
    assert_eq!(c.locals, vec![vec![true]]);
}
