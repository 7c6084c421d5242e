use rpl_core::adt_fields::AdtFieldMap;
use rpl_core::bindings::{BindingSnapshot, MetaBindings};
use rpl_core::lint::MultiMatched;
use rpl_core::normalized::{LabelTarget, NormalizedMatched};
use rpl_core::paths::MetaContext;
use rpl_core::slot::{
    AdtSlotCandidate, FnMatchContext, FnSlotCandidate, MatchSlot, SessionResult, SlotAssignment, SlotCandidate,
};
use rpl_core::types::{Const, LocalDefId, PlaceRef, Symbol, Ty, TyKind};

fn ty(id: u64) -> Ty {
    Ty { id, kind: TyKind::Other }
}

fn normalized(tys: Vec<Ty>) -> NormalizedMatched {
    NormalizedMatched { ty_vars: tys, const_vars: vec![Const { id: 5 }], place_vars: vec![PlaceRef { id: 6 }], adt_fields: AdtFieldMap::new(), extra: vec![] }
}

fn fn_assign(slot: usize, def: u32, body: bool) -> SlotAssignment {
    SlotAssignment {
        slot: MatchSlot::Fn(slot),
        candidate: SlotCandidate::Fn(FnSlotCandidate {
            def_id: LocalDefId { local_def_index: def },
            snapshot: BindingSnapshot { ty_vars: vec![], const_vars: vec![], place_vars: vec![], adt_fields: AdtFieldMap::new() },
            normalized: normalized(vec![ty(def as u64)]),
            has_body_match: body,
        }),
    }
}

fn result(assignments: Vec<SlotAssignment>) -> SessionResult {
    SessionResult {
        assignments,
        bindings: MetaBindings { ty_vars: vec![None], const_vars: vec![Some(Const { id: 9 })], place_vars: vec![None], adt_fields: AdtFieldMap::new() },
        primary_fn: Some(FnMatchContext { def_id: LocalDefId { local_def_index: 1 }, fn_name: None, header: None, has_self: false, self_ty: None }),
    }
}

#[test]
fn signature_only_functions_are_not_reported_beside_a_body() {
    let adt = SlotAssignment {
        slot: MatchSlot::Adt(Symbol { id: 3 }),
        candidate: SlotCandidate::Adt(AdtSlotCandidate { def_id: LocalDefId { local_def_index: 40 }, ty_bindings: vec![] }),
    };
    let r = result(vec![adt, fn_assign(0, 1, true), fn_assign(1, 2, false)]);
    let t = r.lint_targets();
    assert_eq!(t.len(), 1);
    assert_eq!(t[0].def_id, LocalDefId { local_def_index: 1 });
    assert_eq!(t[0].owned.primary_slot, MatchSlot::Fn(0));
    assert_eq!(t[0].owned.bindings.const_vars, vec![Some(Const { id: 9 })]);
}

#[test]
fn without_a_body_every_function_is_reported() {
    let r = result(vec![fn_assign(0, 1, false), fn_assign(1, 2, false)]);
    let t = r.lint_targets();
    assert_eq!(t.len(), 2);
    assert_eq!(t[1].owned.def_id, LocalDefId { local_def_index: 2 });
    assert_eq!(t[1].owned.normalized.ty_vars, vec![ty(2)]);
    assert_eq!(t[1].owned.as_matched().type_meta_var(0), ty(2));
}

#[test]
fn fixed_bindings_take_precedence() {
    let r = result(vec![]);
    let n = normalized(vec![ty(7)]);
    let m = MultiMatched::from_session(&r, &n);
    assert_eq!(m.type_meta_var(0), ty(7));
    assert_eq!(m.const_meta_var(0), Const { id: 9 });
    assert_eq!(m.place_meta_var(0), PlaceRef { id: 6 });
}

#[test]
fn same_head_compares_shapes_and_labels() {
    let mut a = normalized(vec![ty(1)]);
    a.extra = vec![LabelTarget { label: Symbol { id: 1 }, target: 5 }];
    let mut b = normalized(vec![ty(2)]);
    b.extra = vec![LabelTarget { label: Symbol { id: 1 }, target: 6 }];
    assert!(a.has_same_head(&b));
    b.extra[0].label = Symbol { id: 2 };
    assert!(!a.has_same_head(&b));
    assert!(!a.has_same_head(&normalized(vec![])));
}

#[test]
fn file_ids_are_stable() {
    let mut cx = MetaContext::new();
    let a = cx.request_rpl_idx("a.rpl");
    let b = cx.request_rpl_idx("b.rpl");
    assert_eq!((a, b), (0, 1));
    assert_eq!(cx.request_rpl_idx("a.rpl"), 0);
    assert_eq!(cx.path(1), "b.rpl");
    cx.set_active_path(Some("b.rpl"));
    assert_eq!(cx.get_active_path(), "b.rpl");
}
