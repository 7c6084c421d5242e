use rpl_core::normalized::NormalizedMatched;
use rpl_core::meta::MetaVariableType;
use rpl_core::bindings::MetaDecl;
use rpl_core::adt_fields::AdtFieldMap;
use rpl_core::bindings::{merge_index_vec, should_skip_ty_binding, BindingSnapshot, MetaBindings, NonLocalMetaVars};
use rpl_core::types::{Const, PlaceRef, Symbol, Ty, TyKind};

fn ty(id: u64) -> Ty {
    Ty { id, kind: TyKind::Other }
}

fn empty_bindings() -> MetaBindings {
    MetaBindings { ty_vars: vec![], const_vars: vec![], place_vars: vec![], adt_fields: AdtFieldMap::new() }
}

#[test]
fn merge_index_vec_consistent() {
    let mut target: Vec<Option<u32>> = vec![None, None];
    let source: Vec<u32> = vec![1, 2];
    assert!(merge_index_vec(&mut target, &source));
    assert_eq!(target[0], Some(1));
    assert_eq!(target[1], Some(2));
    assert!(merge_index_vec(&mut target, &source));
}

#[test]
fn merge_index_vec_conflict() {
    let mut target: Vec<Option<u32>> = vec![None];
    let a: Vec<u32> = vec![1];
    let b: Vec<u32> = vec![2];
    assert!(merge_index_vec(&mut target, &a));
    assert!(!merge_index_vec(&mut target, &b));
}

#[test]
fn merge_adt_fields_consistent_and_conflict() {
    let mut bindings = empty_bindings();
    let adt = Symbol { id: 1 };
    let len = Symbol { id: 2 };
    let mem = Symbol { id: 3 };
    let mut fn_fields = AdtFieldMap::new();
    fn_fields.insert(adt, len, 1);
    fn_fields.insert(adt, mem, 2);
    assert!(bindings.merge_adt_fields(&fn_fields));

    let mut conflicting = AdtFieldMap::new();
    conflicting.insert(adt, len, 0);
    assert!(!bindings.merge_adt_fields(&conflicting));
}

#[test]
fn merge_index_vec_stops_at_the_first_conflict() {
    let mut target: Vec<Option<u32>> = vec![None, Some(5), None];
    let source: Vec<u32> = vec![1, 6, 3];
    assert!(!merge_index_vec(&mut target, &source));
    assert_eq!(target, vec![Some(1), Some(5), None]);
}

#[test]
fn merge_adt_fields_agreeing_again_keeps_bindings() {
    let mut bindings = empty_bindings();
    let adt = Symbol { id: 1 };
    let len = Symbol { id: 2 };
    let mut fields = AdtFieldMap::new();
    fields.insert(adt, len, 1);
    assert!(bindings.merge_adt_fields(&fields));
    assert!(bindings.merge_adt_fields(&fields));
    assert_eq!(bindings.adt_fields.get(adt, len), Some(1));
    assert_eq!(bindings.adt_fields.len(), 1);
}

#[test]
fn never_and_param_types_are_not_bound() {
    assert!(should_skip_ty_binding(Ty { id: 1, kind: TyKind::Never }));
    assert!(should_skip_ty_binding(Ty { id: 1, kind: TyKind::Param }));
    assert!(!should_skip_ty_binding(ty(1)));

    let mut bindings = MetaBindings {
        ty_vars: vec![None, None],
        const_vars: vec![],
        place_vars: vec![],
        adt_fields: AdtFieldMap::new(),
    };
    // a never type binds nothing and meets no conflict
    assert!(bindings.merge_ty_vars(&vec![Ty { id: 9, kind: TyKind::Never }, ty(2)]));
    assert_eq!(bindings.ty_vars, vec![None, Some(ty(2))]);
    assert!(bindings.merge_ty_vars(&vec![ty(3), ty(2)]));
    assert_eq!(bindings.ty_vars, vec![Some(ty(3)), Some(ty(2))]);
    assert!(!bindings.merge_ty_vars(&vec![ty(4)]));
}

#[test]
fn merge_snapshot_binds_every_kind() {
    let meta = NonLocalMetaVars {
        ty_vars: vec![Symbol { id: 1 }],
        const_vars: vec![Symbol { id: 2 }],
        place_vars: vec![Symbol { id: 3 }],
    };
    let mut bindings = MetaBindings::new(&meta);
    assert_eq!(bindings.ty_vars, vec![None]);
    let snapshot = BindingSnapshot {
        ty_vars: vec![ty(7)],
        const_vars: vec![Const { id: 8 }],
        place_vars: vec![PlaceRef { id: 9 }],
        adt_fields: AdtFieldMap::new(),
    };
    assert!(bindings.merge_snapshot(&snapshot));
    assert_eq!(bindings.ty_vars, vec![Some(ty(7))]);
    assert_eq!(bindings.const_vars, vec![Some(Const { id: 8 })]);
    assert_eq!(bindings.place_vars, vec![Some(PlaceRef { id: 9 })]);
    let other = BindingSnapshot {
        ty_vars: vec![ty(7)],
        const_vars: vec![Const { id: 10 }],
        place_vars: vec![PlaceRef { id: 9 }],
        adt_fields: AdtFieldMap::new(),
    };
    let copy = bindings.copy();
    assert!(!bindings.merge_snapshot(&other));
    assert!(copy.equivalent_to(&copy.copy()));
}

#[test]
fn snapshot_from_ty_vars_fills_the_rest() {
    let meta = NonLocalMetaVars {
        ty_vars: vec![Symbol { id: 1 }, Symbol { id: 2 }],
        const_vars: vec![Symbol { id: 3 }],
        place_vars: vec![],
    };
    let snapshot = BindingSnapshot::from_ty_vars(&meta, vec![ty(5), ty(6)]);
    assert_eq!(snapshot.ty_vars, vec![ty(5), ty(6)]);
    assert_eq!(snapshot.const_vars.len(), 1);
    assert_eq!(snapshot.place_vars.len(), 0);
    let mut bindings = MetaBindings::new(&meta);
    assert!(snapshot.merge_ty_vars_into(&mut bindings));
    assert_eq!(bindings.ty_vars, vec![Some(ty(5)), Some(ty(6))]);
    assert_eq!(bindings.const_vars, vec![None]);
}

#[test]
fn meta_decls_are_grouped_by_kind_in_order() {
    let s = |id| Symbol { id };
    let decls = vec![
        MetaDecl { name: s(1), kind: MetaVariableType::Const },
        MetaDecl { name: s(2), kind: MetaVariableType::Type },
        MetaDecl { name: s(3), kind: MetaVariableType::Place },
        MetaDecl { name: s(4), kind: MetaVariableType::Type },
    ];
    let meta = NonLocalMetaVars::from_meta_decls(&decls);
    assert_eq!(meta.ty_vars, vec![s(2), s(4)]);
    assert_eq!(meta.const_vars, vec![s(1)]);
    assert_eq!(meta.place_vars, vec![s(3)]);
    let mut more = NonLocalMetaVars::new();
    more.add_place_var(s(7));
    assert_eq!(more.place_vars, vec![s(7)]);
    assert!(more.ty_vars.is_empty());
}

#[test]
fn merging_constants_places_and_normalized_matches() {
    let mut bindings = MetaBindings {
        ty_vars: vec![None],
        const_vars: vec![None, None],
        place_vars: vec![None],
        adt_fields: AdtFieldMap::new(),
    };
    assert!(bindings.merge_const_vars(&vec![Const { id: 1 }]));
    assert!(!bindings.merge_const_vars(&vec![Const { id: 2 }]));
    assert!(bindings.merge_place_vars(&vec![PlaceRef { id: 3 }]));
    let n = NormalizedMatched {
        ty_vars: vec![ty(4)],
        const_vars: vec![Const { id: 1 }, Const { id: 5 }],
        place_vars: vec![PlaceRef { id: 3 }],
        adt_fields: AdtFieldMap::new(),
        extra: vec![],
    };
    assert!(bindings.merge_normalized(&n));
    assert_eq!(bindings.ty_vars, vec![Some(ty(4))]);
    assert_eq!(bindings.const_vars, vec![Some(Const { id: 1 }), Some(Const { id: 5 })]);
}
