use rpl_core::candidates::{Candidates, CountedMatch};
use rpl_core::types::Symbol;

fn sym(id: u64) -> Symbol {
    Symbol { id }
}

const LEN: u64 = 1;
const MEM: u64 = 2;

#[test]
fn commit_unique_field_candidates_leaves_ambiguous_unbound() {
    let names = vec![sym(LEN), sym(MEM)];
    let mut candidates = Candidates::new(&names, 3);
    let len = 1;
    let capacity = 0;
    let mem = 2;

    candidates.add_candidate(sym(LEN), len);
    candidates.add_candidate(sym(LEN), capacity);
    candidates.add_candidate(sym(MEM), mem);

    candidates.commit_unique_field_candidates();
    assert!(candidates.matched(sym(LEN)).is_none());
    assert_eq!(candidates.matched(sym(MEM)), Some(mem));
}

#[test]
fn candidates_match_and_unmatch_field_metavar() {
    let names = vec![sym(LEN), sym(MEM)];
    let mut candidates = Candidates::new(&names, 3);
    let len = 1;
    let capacity = 0;

    assert!(candidates.try_match(sym(LEN), len));
    assert_eq!(candidates.matched(sym(LEN)), Some(len));
    // conflicting binding for the same field metavar fails
    assert!(!candidates.try_match(sym(LEN), capacity));
    // same binding is idempotent (refcounted)
    assert!(candidates.try_match(sym(LEN), len));

    candidates.unmatch(sym(LEN), len);
    // one unmatch decrements refcount; binding remains until count hits zero
    assert_eq!(candidates.matched(sym(LEN)), Some(len));
    candidates.unmatch(sym(LEN), len);
    assert!(candidates.matched(sym(LEN)).is_none());
    // after unmatch, a different field index can bind
    assert!(candidates.try_match(sym(LEN), capacity));
}

#[test]
fn counted_match_counts_and_releases() {
    let mut m: CountedMatch<u32> = CountedMatch::new();
    assert_eq!(m.get(), None);
    assert!(m.try_match(4));
    assert!(m.try_match(4));
    assert!(!m.try_match(5));
    m.unmatch();
    assert_eq!(m.get(), Some(4));
    m.unmatch();
    assert_eq!(m.get(), None);
    // releasing an empty match changes nothing
    m.unmatch();
    assert_eq!(m.get(), None);
    assert!(m.try_match(5));
}

#[test]
fn field_taken_by_another_metavar_cannot_match() {
    let names = vec![sym(LEN), sym(MEM)];
    let mut candidates = Candidates::new(&names, 2);
    assert!(candidates.try_match(sym(LEN), 0));
    assert!(!candidates.try_match(sym(MEM), 0));
    assert_eq!(candidates.matched(sym(MEM)), None);
    // releasing a match that does not hold changes nothing
    candidates.unmatch(sym(MEM), 0);
    assert_eq!(candidates.matched(sym(LEN)), Some(0));
    assert!(candidates.try_match(sym(MEM), 1));
}

#[test]
fn commit_skips_conflicting_unique_candidate() {
    let names = vec![sym(LEN), sym(MEM)];
    let mut candidates = Candidates::new(&names, 2);
    candidates.add_candidate(sym(LEN), 1);
    candidates.add_candidate(sym(MEM), 1);
    candidates.commit_unique_field_candidates();
    assert_eq!(candidates.matched(sym(LEN)), Some(1));
    assert_eq!(candidates.matched(sym(MEM)), None);
    assert!(!candidates.all_fields_resolved());
}

#[test]
fn match_field_candidates_backtracks() {
    let names = vec![sym(LEN), sym(MEM)];
    let mut candidates = Candidates::new(&names, 2);
    candidates.add_candidate(sym(LEN), 0);
    candidates.add_candidate(sym(LEN), 1);
    candidates.add_candidate(sym(MEM), 0);
    assert!(candidates.candidates_not_empty());
    assert!(candidates.match_field_candidates(0));
    assert_eq!(candidates.matched(sym(LEN)), Some(1));
    assert_eq!(candidates.matched(sym(MEM)), Some(0));
    assert!(candidates.all_fields_resolved());
}

#[test]
fn match_field_candidates_failure_leaves_nothing_matched() {
    let names = vec![sym(LEN), sym(MEM)];
    let mut candidates = Candidates::new(&names, 2);
    candidates.add_candidate(sym(LEN), 0);
    candidates.add_candidate(sym(MEM), 0);
    assert!(!candidates.match_field_candidates(0));
    assert_eq!(candidates.matched(sym(LEN)), None);
    assert_eq!(candidates.matched(sym(MEM)), None);
    // from the last metavariable on there is still a match
    assert!(candidates.match_field_candidates(1));
    assert_eq!(candidates.matched(sym(MEM)), Some(0));
}

#[test]
fn empty_candidates_are_reported() {
    let names = vec![sym(LEN), sym(MEM)];
    let mut candidates = Candidates::new(&names, 2);
    candidates.add_candidate(sym(LEN), 0);
    assert!(!candidates.candidates_not_empty());
    // a pattern without field metavariables matches at once
    let mut none = Candidates::new(&vec![], 2);
    assert!(none.candidates_not_empty());
    assert!(none.match_field_candidates(0));
    assert!(none.all_fields_resolved());
}

#[test]
fn build_prefers_the_field_of_the_same_name() {
    let x = sym(10);
    let y = sym(11);
    let z = sym(12);
    let names = vec![x, y];
    let field_names = vec![x, z];
    let compatible = vec![vec![true, true], vec![true, true]];
    let mut candidates = Candidates::build(&names, &field_names, &compatible).unwrap();
    assert!(candidates.match_field_candidates(0));
    assert_eq!(candidates.matched(x), Some(0));
    assert_eq!(candidates.matched(y), Some(1));
}

#[test]
fn build_ignores_an_incompatible_field_of_the_same_name() {
    let x = sym(10);
    let z = sym(12);
    let names = vec![x];
    let field_names = vec![x, z];
    let compatible = vec![vec![false, true]];
    let mut candidates = Candidates::build(&names, &field_names, &compatible).unwrap();
    candidates.commit_unique_field_candidates();
    assert_eq!(candidates.matched(x), Some(1));
}

#[test]
fn build_fails_without_a_candidate() {
    let names = vec![sym(10), sym(11)];
    let field_names = vec![sym(12)];
    let compatible = vec![vec![true], vec![false]];
    assert!(Candidates::build(&names, &field_names, &compatible).is_none());
}

#[test]
fn field_bindings_hold_the_matched_metavars() {
    let adt = sym(100);
    let names = vec![sym(LEN), sym(MEM)];
    let mut candidates = Candidates::new(&names, 3);
    assert!(candidates.try_match(sym(MEM), 2));
    let bindings = candidates.field_bindings(adt);
    assert_eq!(bindings.len(), 1);
    assert_eq!(bindings.get(adt, sym(MEM)), Some(2));
    assert_eq!(bindings.get(adt, sym(LEN)), None);
    assert_eq!(bindings.get(sym(101), sym(MEM)), None);
}
