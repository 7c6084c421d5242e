use rpl_core::csp::CspSolver;
use rpl_core::adt_fields::AdtFieldMap;
use rpl_core::bindings::{BindingSnapshot, NonLocalMetaVars};
use rpl_core::config::SessionConfig;
use rpl_core::normalized::NormalizedMatched;
use rpl_core::session::{CrateFnItem, CrateItemIndex, MatchSession, RustItems};
use rpl_core::signature::fn_assignment_signature;
use rpl_core::slot::{
    AdtSlotCandidate, AdtSlotDesc, FnHeader, FnSlotCandidate, FnSlotDesc, MatchSlot, SessionResult, SlotCandidate,
};
use rpl_core::types::{LocalDefId, Symbol, Ty, TyKind};

fn ty(id: u64) -> Ty {
    Ty { id, kind: TyKind::Other }
}

fn def(i: u32) -> LocalDefId {
    LocalDefId { local_def_index: i }
}

fn normalized(tys: Vec<Ty>) -> NormalizedMatched {
    NormalizedMatched {
        ty_vars: tys,
        const_vars: vec![],
        place_vars: vec![],
        adt_fields: AdtFieldMap::new(),
        extra: vec![],
    }
}

fn fn_cand(i: u32, tys: Vec<Ty>) -> FnSlotCandidate {
    FnSlotCandidate {
        def_id: def(i),
        snapshot: BindingSnapshot {
            ty_vars: tys.clone(),
            const_vars: vec![],
            place_vars: vec![],
            adt_fields: AdtFieldMap::new(),
        },
        normalized: normalized(tys),
        has_body_match: true,
    }
}

fn adt_cand(i: u32, tys: Vec<Ty>) -> AdtSlotCandidate {
    AdtSlotCandidate { def_id: def(i), ty_bindings: tys }
}

fn fn_slot(i: usize, optional: bool, signature_only: bool) -> FnSlotDesc {
    FnSlotDesc { slot: MatchSlot::Fn(i), optional, signature_only }
}

fn items(n_tys: u64, fn_slots: Vec<FnSlotDesc>, adt_slots: Vec<AdtSlotDesc>, dedup: bool) -> RustItems {
    RustItems {
        meta: NonLocalMetaVars {
            ty_vars: (0..n_tys).map(|id| Symbol { id }).collect(),
            const_vars: vec![],
            place_vars: vec![],
        },
        fn_slots,
        adt_slots,
        should_deduplicate: dedup,
    }
}

fn index() -> CrateItemIndex {
    CrateItemIndex {
        fns: vec![CrateFnItem {
            def_id: def(1),
            fn_name: Some(Symbol { id: 77 }),
            header: Some(FnHeader { is_unsafe: true, is_const: false, is_async: false }),
            has_self: true,
            self_ty: Some(ty(55)),
        }],
        adts: vec![],
    }
}

fn primary_def(r: &SessionResult) -> Option<LocalDefId> {
    r.primary_fn.map(|c| c.def_id)
}

fn fn_defs(r: &SessionResult) -> Vec<u32> {
    r.assignments
        .iter()
        .filter_map(|a| match &a.candidate {
            SlotCandidate::Fn(c) => Some(c.def_id.local_def_index),
            SlotCandidate::Adt(_) => None,
        })
        .collect()
}

#[test]
fn no_slots_give_no_results() {
    let session = MatchSession::with_defaults();
    let r = session.match_rust_items(&index(), &items(0, vec![], vec![], false), &vec![], &vec![]);
    assert!(r.is_empty());
}

#[test]
fn wildcard_fn_gives_one_result_per_candidate_enriched() {
    let session = MatchSession::with_defaults();
    let it = items(1, vec![fn_slot(0, true, false)], vec![], false);
    let cands = vec![vec![fn_cand(1, vec![ty(7)]), fn_cand(2, vec![ty(8)])]];
    let r = session.match_rust_items(&index(), &it, &cands, &vec![]);
    assert_eq!(r.len(), 2);
    assert_eq!(primary_def(&r[0]), Some(def(1)));
    assert_eq!(primary_def(&r[1]), Some(def(2)));
    let ctx = r[0].primary_fn.unwrap();
    assert_eq!(ctx.fn_name, Some(Symbol { id: 77 }));
    assert!(ctx.has_self);
    assert_eq!(ctx.self_ty, Some(ty(55)));
    assert_eq!(ctx.header.unwrap().is_unsafe, true);
    // a function missing from the index keeps a bare context
    let ctx2 = r[1].primary_fn.unwrap();
    assert_eq!(ctx2.fn_name, None);
    assert_eq!(ctx2.self_ty, None);
    assert_eq!(r[0].bindings.ty_vars, vec![Some(ty(7))]);
    assert_eq!(r[1].bindings.ty_vars, vec![Some(ty(8))]);
    assert_eq!(r[0].primary_fn_slot(), Some(MatchSlot::Fn(0)));
}

#[test]
fn deduplication_drops_equivalent_results() {
    let session = MatchSession::with_defaults();
    let cands = vec![vec![fn_cand(3, vec![ty(7)]), fn_cand(3, vec![ty(7)])]];
    let kept = session.match_rust_items(&index(), &items(1, vec![fn_slot(0, true, false)], vec![], true), &cands, &vec![]);
    assert_eq!(kept.len(), 1);
    let all = session.match_rust_items(&index(), &items(1, vec![fn_slot(0, true, false)], vec![], false), &cands, &vec![]);
    assert_eq!(all.len(), 2);
    assert!(all[0].equivalent(&all[1]));
}

#[test]
fn struct_context_pairs_agreeing_candidates() {
    let session = MatchSession::with_defaults();
    let adt = Symbol { id: 9 };
    let it = items(1, vec![fn_slot(0, false, false)], vec![AdtSlotDesc { slot: MatchSlot::Adt(adt), adt_pat_name: adt }], false);
    let fns = vec![vec![fn_cand(1, vec![ty(7)]), fn_cand(2, vec![ty(8)])]];
    let adts = vec![vec![adt_cand(10, vec![ty(7)]), adt_cand(11, vec![ty(8)])]];
    let r = session.match_rust_items(&index(), &it, &fns, &adts);
    assert_eq!(r.len(), 2);
    assert_eq!(fn_defs(&r[0]), vec![1]);
    assert_eq!(fn_defs(&r[1]), vec![2]);
    match &r[0].assignments[0].candidate {
        SlotCandidate::Adt(a) => assert_eq!(a.def_id, def(10)),
        SlotCandidate::Fn(_) => panic!("the ADT comes first"),
    }
    assert_eq!(r[0].assignments[0].slot, MatchSlot::Adt(adt));
}

#[test]
fn alternative_fns_report_each_slot_alone() {
    let session = MatchSession::with_defaults();
    let it = items(1, vec![fn_slot(0, false, false), fn_slot(1, false, false)], vec![], false);
    let fns = vec![vec![fn_cand(1, vec![ty(7)])], vec![fn_cand(2, vec![ty(8)]), fn_cand(3, vec![ty(9)])]];
    let r = session.match_rust_items(&index(), &it, &fns, &vec![]);
    assert_eq!(r.len(), 3);
    assert_eq!(primary_def(&r[0]), Some(def(1)));
    assert_eq!(primary_def(&r[1]), Some(def(2)));
    assert_eq!(primary_def(&r[2]), Some(def(3)));
    assert_eq!(r[2].primary_fn_slot(), Some(MatchSlot::Fn(1)));
}

#[test]
fn concurrent_slots_combine_distinct_agreeing_functions() {
    let session = MatchSession::with_defaults();
    // one body slot and one signature-only slot
    let it = items(1, vec![fn_slot(0, false, false), fn_slot(1, false, true)], vec![], false);
    let fns = vec![
        vec![fn_cand(1, vec![ty(7)]), fn_cand(2, vec![ty(8)])],
        vec![fn_cand(1, vec![ty(7)]), fn_cand(3, vec![ty(7)])],
    ];
    let r = session.match_rust_items(&index(), &it, &fns, &vec![]);
    // 1 and 1 share a definition, 2 disagrees with both: only (1, 3) is left
    assert_eq!(r.len(), 1);
    assert_eq!(fn_defs(&r[0]), vec![1, 3]);
    assert_eq!(fn_assignment_signature(&r[0]), vec![def(1), def(3)]);
    assert_eq!(primary_def(&r[0]), Some(def(1)));
}

#[test]
fn concurrent_slots_keep_one_result_per_set_of_functions() {
    let session = MatchSession::with_defaults();
    let it = items(0, vec![fn_slot(0, false, false), fn_slot(1, false, true)], vec![], false);
    let fns = vec![vec![fn_cand(1, vec![]), fn_cand(2, vec![])], vec![fn_cand(1, vec![]), fn_cand(2, vec![])]];
    let r = session.match_rust_items(&index(), &it, &fns, &vec![]);
    // (1, 2) and (2, 1) assign the same functions
    assert_eq!(r.len(), 1);
    assert_eq!(fn_defs(&r[0]), vec![1, 2]);
}

#[test]
fn optional_slot_may_stay_empty() {
    let session = MatchSession::with_defaults();
    let it = items(0, vec![fn_slot(0, false, false), fn_slot(1, true, true)], vec![], false);
    let fns = vec![vec![fn_cand(1, vec![])], vec![fn_cand(2, vec![])]];
    let r = session.match_rust_items(&index(), &it, &fns, &vec![]);
    assert_eq!(r.len(), 2);
    assert_eq!(fn_defs(&r[0]), vec![1]);
    assert_eq!(fn_defs(&r[1]), vec![1, 2]);
}

#[test]
fn result_limit_stops_trying_further_candidates() {
    let it = items(0, vec![fn_slot(0, false, false), fn_slot(1, false, true)], vec![], false);
    let fns = vec![vec![fn_cand(1, vec![]), fn_cand(2, vec![])], vec![fn_cand(3, vec![]), fn_cand(4, vec![])]];
    // the search stops once the limit is reached
    let limited = MatchSession::new(SessionConfig { max_results: 1 });
    let r = limited.match_rust_items(&index(), &it, &fns, &vec![]);
    assert_eq!(r.len(), 1);
    assert_eq!(fn_defs(&r[0]), vec![1, 3]);
    let three = MatchSession::new(SessionConfig { max_results: 3 });
    let r = three.match_rust_items(&index(), &it, &fns, &vec![]);
    assert_eq!(r.len(), 3);
    assert_eq!(fn_defs(&r[2]), vec![2, 3]);
    let unlimited = MatchSession::new(SessionConfig { max_results: 0 });
    let r = unlimited.match_rust_items(&index(), &it, &fns, &vec![]);
    assert_eq!(r.len(), 4);
    assert_eq!(fn_defs(&r[3]), vec![2, 4]);
}

#[test]
fn default_session_limit() {
    assert_eq!(SessionConfig::default().max_results, rpl_core::config::DEFAULT_MAX_SESSION_RESULTS);
    assert_eq!(rpl_core::config::DEFAULT_MAX_SESSION_RESULTS, 256);
}

#[test]
fn csp_solver_binds_adt_and_functions_together() {
    let meta = NonLocalMetaVars { ty_vars: vec![Symbol { id: 0 }], const_vars: vec![], place_vars: vec![] };
    let adt = Symbol { id: 9 };
    let fn_slots = vec![fn_slot(0, false, false), fn_slot(1, true, true)];
    let adt_slots = vec![AdtSlotDesc { slot: MatchSlot::Adt(adt), adt_pat_name: adt }];
    let fns = vec![vec![fn_cand(1, vec![ty(7)]), fn_cand(2, vec![ty(8)])], vec![fn_cand(3, vec![ty(7)])]];
    let adts = vec![vec![adt_cand(10, vec![ty(7)])]];
    let solver = CspSolver::new(SessionConfig { max_results: 0 }, &meta, &fn_slots, &adt_slots, &fns, &adts);
    let r = solver.solve();
    // the ADT fixes the type: function 2 disagrees; the optional slot is tried empty first
    assert_eq!(r.len(), 2);
    assert_eq!(fn_defs(&r[0]), vec![1]);
    assert_eq!(fn_defs(&r[1]), vec![1, 3]);
    assert_eq!(r[1].assignments.len(), 3);
    assert_eq!(r[0].bindings.ty_vars, vec![Some(ty(7))]);
    assert_eq!(MatchSlot::Fn(1).fn_index(), Some(1));
    assert_eq!(MatchSlot::Adt(adt).fn_index(), None);
}

#[test]
fn result_limit_caps_adt_only_items() {
    let meta = NonLocalMetaVars { ty_vars: vec![Symbol { id: 0 }], const_vars: vec![], place_vars: vec![] };
    let adt = Symbol { id: 9 };
    let adt_slots = vec![AdtSlotDesc { slot: MatchSlot::Adt(adt), adt_pat_name: adt }];
    let adts = vec![vec![adt_cand(10, vec![ty(7)]), adt_cand(11, vec![ty(8)])]];
    let fn_slots: Vec<FnSlotDesc> = vec![];
    let fns: Vec<Vec<FnSlotCandidate>> = vec![];
    let capped = CspSolver::new(SessionConfig { max_results: 1 }, &meta, &fn_slots, &adt_slots, &fns, &adts);
    assert_eq!(capped.solve().len(), 1);
    let all = CspSolver::new(SessionConfig { max_results: 0 }, &meta, &fn_slots, &adt_slots, &fns, &adts);
    assert_eq!(all.solve().len(), 2);
}

#[test]
fn two_adt_slots_go_to_the_solver() {
    let a = Symbol { id: 20 };
    let b = Symbol { id: 21 };
    let adt_slots = vec![
        AdtSlotDesc { slot: MatchSlot::Adt(a), adt_pat_name: a },
        AdtSlotDesc { slot: MatchSlot::Adt(b), adt_pat_name: b },
    ];
    let it = items(1, vec![fn_slot(0, false, false)], adt_slots, false);
    let fns = vec![vec![fn_cand(1, vec![])]];
    let adts = vec![vec![adt_cand(10, vec![])], vec![adt_cand(11, vec![])]];
    let session = MatchSession::new(SessionConfig { max_results: 0 });
    let r = session.match_rust_items(&index(), &it, &fns, &adts);
    assert_eq!(r.len(), 1);
    // every slot is filled in the one result
    assert_eq!(r[0].assignments.len(), 3);
}
