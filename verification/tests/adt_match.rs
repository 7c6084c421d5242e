use rpl_core::adt_match::{
    collect_adt_field_bindings, resolved_ty_bindings, match_adt, match_adt_for_fn_mir, match_adt_structure, AdtMatchKind, AdtPatKind, AdtShape, AdtShapeKind,
    VariantPat, VariantShape,
};
use rpl_core::types::{Symbol, Ty, TyKind};

fn s(id: u64) -> Symbol {
    Symbol { id }
}

fn shape(kind: AdtShapeKind, variants: Vec<(u64, Vec<u64>)>) -> AdtShape {
    AdtShape {
        kind,
        variants: variants
            .into_iter()
            .map(|(name, fields)| VariantShape { name: s(name), field_names: fields.into_iter().map(s).collect() })
            .collect(),
    }
}

fn vpat(name: u64, fields: Vec<u64>) -> VariantPat {
    VariantPat { name: s(name), fields: fields.into_iter().map(s).collect() }
}

#[test]
fn struct_fields_resolve_with_same_name_first() {
    let pat = AdtPatKind::Struct(vpat(0, vec![1, 2]));
    let adt = shape(AdtShapeKind::Struct, vec![(0, vec![1, 3])]);
    let compat = vec![vec![vec![vec![true, true], vec![true, true]]]];
    let m = match_adt(&pat, &adt, &compat).unwrap();
    assert_eq!(m.kind, AdtMatchKind::Struct);
    assert_eq!(m.expect_struct().matched(s(1)), Some(0));
    assert_eq!(m.field_candidates().matched(s(2)), Some(1));
    assert!(m.all_fields_resolved());
    let b = m.field_bindings(s(50));
    assert_eq!(b.get(s(50), s(1)), Some(0));
    assert_eq!(b.get(s(50), s(2)), Some(1));
}

#[test]
fn fn_mir_matching_commits_only_unique_candidates() {
    let pat = AdtPatKind::Struct(vpat(0, vec![1, 2]));
    let adt = shape(AdtShapeKind::Struct, vec![(0, vec![1, 3, 4])]);
    let compat = vec![vec![vec![vec![true, false, false], vec![false, true, true]]]];
    let m = match_adt_for_fn_mir(&pat, &adt, &compat).unwrap();
    assert_eq!(m.fields.matched(s(1)), Some(0));
    assert_eq!(m.fields.matched(s(2)), None);
    assert!(!m.all_fields_resolved());
    let bare = match_adt_structure(&pat, &adt, &compat).unwrap();
    assert_eq!(bare.fields.matched(s(1)), None);
}

#[test]
fn kinds_must_agree() {
    let pat = AdtPatKind::Struct(vpat(0, vec![]));
    let adt = shape(AdtShapeKind::Union, vec![(0, vec![])]);
    let compat = vec![vec![vec![]]];
    assert!(match_adt(&pat, &adt, &compat).is_none());
    assert!(match_adt_structure(&pat, &adt, &compat).is_none());
    let e = AdtPatKind::Enum(vec![]);
    let st = shape(AdtShapeKind::Struct, vec![(0, vec![])]);
    assert!(match_adt(&e, &st, &vec![]).is_none());
}

#[test]
fn enum_variant_found_by_name() {
    let pat = AdtPatKind::Enum(vec![vpat(10, vec![1]), vpat(11, vec![2])]);
    let adt = shape(AdtShapeKind::Enum, vec![(11, vec![5]), (12, vec![6])]);
    let compat = vec![
        vec![vec![vec![true]], vec![vec![true]]],
        vec![vec![vec![true]], vec![vec![true]]],
    ];
    let m = match_adt(&pat, &adt, &compat).unwrap();
    assert_eq!(m.kind, AdtMatchKind::Enum { variant_idx: 0 });
    assert_eq!(m.fields.matched(s(2)), Some(0));
}

#[test]
fn enum_variant_without_candidates() {
    let pat = AdtPatKind::Enum(vec![vpat(10, vec![1]), vpat(11, vec![2])]);
    let adt = shape(AdtShapeKind::Enum, vec![(10, vec![5]), (11, vec![6])]);
    // the first pattern variant finds its variant but no candidate for its field
    let compat = vec![
        vec![vec![vec![false]], vec![vec![false]]],
        vec![vec![vec![true]], vec![vec![true]]],
    ];
    // full matching gives up at once ...
    assert!(match_adt(&pat, &adt, &compat).is_none());
    // ... while structure matching tries the next pattern variant
    let m = match_adt_structure(&pat, &adt, &compat).unwrap();
    assert_eq!(m.kind, AdtMatchKind::Enum { variant_idx: 1 });
}

#[test]
fn enum_variant_that_cannot_be_matched_is_skipped() {
    let pat = AdtPatKind::Enum(vec![vpat(10, vec![1, 2]), vpat(11, vec![3])]);
    let adt = shape(AdtShapeKind::Enum, vec![(10, vec![5]), (11, vec![6])]);
    // both fields of the first variant can only go to the one field
    let compat = vec![
        vec![vec![vec![true], vec![true]], vec![vec![true], vec![true]]],
        vec![vec![vec![true]], vec![vec![true]]],
    ];
    let m = match_adt(&pat, &adt, &compat).unwrap();
    assert_eq!(m.kind, AdtMatchKind::Enum { variant_idx: 1 });
    assert_eq!(m.fields.matched(s(3)), Some(0));
}

#[test]
fn field_bindings_are_collected_over_matches() {
    let pat = AdtPatKind::Struct(vpat(0, vec![1, 2]));
    let first = shape(AdtShapeKind::Struct, vec![(0, vec![1, 2])]);
    let second = shape(AdtShapeKind::Struct, vec![(0, vec![2, 1])]);
    let compat = vec![vec![vec![vec![true, true], vec![true, true]]]];
    let a = match_adt(&pat, &first, &compat).unwrap();
    let b = match_adt(&pat, &second, &compat).unwrap();
    let third = shape(AdtShapeKind::Struct, vec![(0, vec![1, 3, 4])]);
    let c = match_adt_for_fn_mir(&pat, &third, &vec![vec![vec![vec![true, false, false], vec![false, true, true]]]])
        .unwrap();
    // Matches of the same pattern: a later binding of a field replaces the earlier one.
    let map = collect_adt_field_bindings(&vec![(s(50), vec![a, b]), (s(60), vec![c])]);
    assert_eq!(map.get(s(50), s(1)), Some(1));
    assert_eq!(map.get(s(50), s(2)), Some(0));
    assert_eq!(map.get(s(60), s(1)), Some(0));
    assert_eq!(map.get(s(60), s(2)), None);
    assert_eq!(map.len(), 3);
    assert_eq!(collect_adt_field_bindings(&vec![]).len(), 0);
}

#[test]
fn unresolved_type_variables_are_never() {
    let never = Ty { id: 0, kind: TyKind::Never };
    let t1 = Ty { id: 1, kind: TyKind::Other };
    let t2 = Ty { id: 2, kind: TyKind::Param };
    let r = resolved_ty_bindings(&vec![vec![t1, t2], vec![], vec![t2]], never);
    assert_eq!(r, vec![t1, never, t2]);
}
