use rpl_core::normalized::MetaAssign;
use rpl_core::bindings::NonLocalMetaVars;
use rpl_core::adt_fields::AdtFieldMap;
use rpl_core::bindings::{BindingSnapshot, MetaBindings};
use rpl_core::normalized::{vec_eq, LabelRename, LabelTarget, MatchedMap, NormalizedMatched};
use rpl_core::operation::OperationOperand;
use rpl_core::session::MatchSession;
use rpl_core::slot::{FnMatchContext, FnSlotCandidate, MatchSlot, SessionResult, SlotAssignment, SlotCandidate};
use rpl_core::types::{LocalDefId, Symbol, Ty, TyKind};

fn ty(id: u64) -> Ty {
    Ty { id, kind: TyKind::Other }
}

fn label(id: u64, target: u64) -> LabelTarget {
    LabelTarget { label: Symbol { id }, target }
}

fn normalized(tys: Vec<Ty>, extra: Vec<LabelTarget>) -> NormalizedMatched {
    NormalizedMatched { ty_vars: tys, const_vars: vec![], place_vars: vec![], adt_fields: AdtFieldMap::new(), extra }
}

fn identity_map(n: usize) -> MatchedMap {
    MatchedMap { ty_vars: (0..n).collect(), const_vars: vec![], place_vars: vec![], labels: vec![] }
}

fn result(def: u32, tys: Vec<Ty>) -> SessionResult {
    let def_id = LocalDefId { local_def_index: def };
    let cand = FnSlotCandidate {
        def_id,
        snapshot: BindingSnapshot {
            ty_vars: tys.clone(),
            const_vars: vec![],
            place_vars: vec![],
            adt_fields: AdtFieldMap::new(),
        },
        normalized: normalized(tys.clone(), vec![]),
        has_body_match: true,
    };
    SessionResult {
        assignments: vec![SlotAssignment { slot: MatchSlot::Fn(0), candidate: SlotCandidate::Fn(cand) }],
        bindings: MetaBindings {
            ty_vars: tys.into_iter().map(Some).collect(),
            const_vars: vec![],
            place_vars: vec![],
            adt_fields: AdtFieldMap::new(),
        },
        primary_fn: Some(FnMatchContext { def_id, fn_name: None, header: None, has_self: false, self_ty: None }),
    }
}

fn key_tys(r: &SessionResult) -> Vec<Ty> {
    let (_, n) = r.operation_match_key().unwrap();
    n.ty_vars.clone()
}

#[test]
fn map_picks_metavariables_and_sorts_renamed_labels() {
    let n = normalized(vec![ty(1), ty(2), ty(3)], vec![label(5, 1), label(3, 2)]);
    let map = MatchedMap {
        ty_vars: vec![2, 0],
        const_vars: vec![],
        place_vars: vec![],
        labels: vec![LabelRename { from: Symbol { id: 5 }, to: Symbol { id: 1 } }],
    };
    let m = n.map(&map);
    assert_eq!(m.ty_vars, vec![ty(3), ty(1)]);
    assert_eq!(m.extra.len(), 2);
    assert_eq!((m.extra[0].label.id, m.extra[0].target), (1, 1));
    assert_eq!((m.extra[1].label.id, m.extra[1].target), (3, 2));
}

#[test]
fn map_keeps_the_first_of_labels_renamed_alike() {
    let n = normalized(vec![], vec![label(5, 1), label(3, 2)]);
    let map = MatchedMap {
        ty_vars: vec![],
        const_vars: vec![],
        place_vars: vec![],
        labels: vec![LabelRename { from: Symbol { id: 5 }, to: Symbol { id: 3 } }],
    };
    let m = n.map(&map);
    assert_eq!(m.extra.len(), 1);
    assert_eq!((m.extra[0].label.id, m.extra[0].target), (3, 1));
}

#[test]
fn normalized_equality() {
    let a = normalized(vec![ty(1)], vec![label(2, 3)]);
    let b = a.copy();
    assert!(a.same_as(&b));
    let c = normalized(vec![ty(1)], vec![label(2, 4)]);
    assert!(!a.same_as(&c));
    assert!(vec_eq(&vec![ty(1), ty(2)], &vec![ty(1), ty(2)]));
    assert!(!vec_eq(&vec![ty(1)], &vec![ty(1), ty(2)]));
}

#[test]
fn negative_operand_removes_matching_results() {
    let session = MatchSession::with_defaults();
    let positive = vec![OperationOperand { results: vec![result(1, vec![ty(7)]), result(2, vec![ty(8)])], map: identity_map(1) }];
    let negative = vec![OperationOperand { results: vec![result(1, vec![ty(7)])], map: identity_map(1) }];
    let r = session.match_pattern_operation(positive, negative);
    assert_eq!(r.len(), 1);
    assert_eq!(r[0].primary_fn.unwrap().def_id, LocalDefId { local_def_index: 2 });
}

#[test]
fn negative_result_with_other_bindings_does_not_remove() {
    let session = MatchSession::with_defaults();
    let positive = vec![OperationOperand { results: vec![result(1, vec![ty(7)])], map: identity_map(1) }];
    let negative = vec![OperationOperand { results: vec![result(1, vec![ty(9)])], map: identity_map(1) }];
    let r = session.match_pattern_operation(positive, negative);
    assert_eq!(r.len(), 1);
}

#[test]
fn operands_are_mapped_and_concatenated() {
    let session = MatchSession::with_defaults();
    let swap = MatchedMap { ty_vars: vec![1, 0], const_vars: vec![], place_vars: vec![], labels: vec![] };
    let positive = vec![
        OperationOperand { results: vec![result(1, vec![ty(7), ty(8)])], map: swap },
        OperationOperand { results: vec![result(2, vec![ty(5), ty(6)])], map: identity_map(2) },
    ];
    let r = session.match_pattern_operation(positive, vec![]);
    assert_eq!(r.len(), 2);
    assert_eq!(key_tys(&r[0]), vec![ty(8), ty(7)]);
    assert_eq!(key_tys(&r[1]), vec![ty(5), ty(6)]);
    // the snapshot follows the mapped match
    match &r[0].assignments[0].candidate {
        SlotCandidate::Fn(c) => assert_eq!(c.snapshot.ty_vars, vec![ty(8), ty(7)]),
        SlotCandidate::Adt(_) => panic!("a function candidate"),
    }
}

#[test]
fn matched_map_follows_the_configuration() {
    let s = |id| Symbol { id };
    let target = NonLocalMetaVars { ty_vars: vec![s(1), s(2)], const_vars: vec![s(3)], place_vars: vec![] };
    let source = NonLocalMetaVars { ty_vars: vec![s(9), s(2)], const_vars: vec![s(3)], place_vars: vec![] };
    let config = vec![
        MetaAssign::Var { source: s(9), target: s(1) },
        MetaAssign::WildcardLabel,
        MetaAssign::Label { source: s(20), target: s(21) },
    ];
    let map = MatchedMap::new(&target, &source, Some(&config));
    assert_eq!(map.ty_vars, vec![0, 1]);
    assert_eq!(map.const_vars, vec![0]);
    assert!(map.place_vars.is_empty());
    assert_eq!(map.labels, vec![LabelRename { from: s(20), to: s(21) }]);
    let plain = MatchedMap::new(&target, &target, None);
    assert_eq!(plain.ty_vars, vec![0, 1]);
    assert!(plain.labels.is_empty());
}

#[test]
fn matched_map_finds_same_named_variables() {
    let s = |id| Symbol { id };
    // `$A`, `$B` in the operation; `$B`, `$A` in the operand.
    let target = NonLocalMetaVars { ty_vars: vec![s(1), s(2)], const_vars: vec![], place_vars: vec![] };
    let source = NonLocalMetaVars { ty_vars: vec![s(2), s(1)], const_vars: vec![], place_vars: vec![] };
    assert_eq!(MatchedMap::new(&target, &source, None).ty_vars, vec![1, 0]);
    // An assignment takes precedence over the same name.
    let config = vec![MetaAssign::Var { source: s(2), target: s(1) }, MetaAssign::Var { source: s(2), target: s(2) }];
    assert_eq!(MatchedMap::new(&target, &source, Some(&config)).ty_vars, vec![0, 0]);
}

#[test]
fn matched_map_picks_source_values() {
    let map = MatchedMap { ty_vars: vec![2, 0, 1, 7], const_vars: vec![1, 0], place_vars: vec![0], labels: vec![] };
    assert_eq!(map.map_ty_vars(&vec![10u32, 11, 12]), vec![12, 10, 11]);
    assert_eq!(map.map_const_vars(&vec!['a', 'b']), vec!['b', 'a']);
    assert_eq!(map.map_place_vars(&Vec::<u8>::new()), Vec::<u8>::new());
}

#[test]
fn normalize_renames_and_sorts_labels() {
    let map = MatchedMap {
        ty_vars: vec![1, 0],
        const_vars: vec![],
        place_vars: vec![],
        labels: vec![LabelRename { from: Symbol { id: 9 }, to: Symbol { id: 1 } }],
    };
    let labels = vec![
        LabelTarget { label: Symbol { id: 5 }, target: 50 },
        LabelTarget { label: Symbol { id: 9 }, target: 90 },
    ];
    let n = NormalizedMatched::normalize(&map, &vec![ty(10), ty(11)], &vec![], &vec![], &labels);
    assert!(vec_eq(&n.ty_vars, &vec![ty(11), ty(10)]));
    assert_eq!(
        n.extra,
        vec![LabelTarget { label: Symbol { id: 1 }, target: 90 }, LabelTarget { label: Symbol { id: 5 }, target: 50 }]
    );
    assert_eq!(n.adt_fields.len(), 0);
}
