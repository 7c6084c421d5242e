use rpl_core::meta::{SpanWrapper, SrcSpan};
use rpl_core::locals::{AssignKind, BodyInfoCache, LocalAssign};
use rpl_core::predicates::{
    compatible_layout, is_null_ptr, maybe_misaligned, same_abi_and_pref_align, same_size, usize_lt, AlignedTy, Layout,
    MultipleTysPred, PredicateError, PredicateKind, ScalarPtr, SingleTyPred, TrivialPred,
};

fn at() -> SpanWrapper<'static> {
    SpanWrapper { span: SrcSpan { start: 3, end: 10 }, path: "p.rpl" }
}

fn layout(size: u64, abi_align: u64, pref_align: u64) -> Option<Layout> {
    Some(Layout { size, abi_align, pref_align })
}

#[test]
fn predicate_names() {
    let expected = [
        ("is_all_safe_trait", PredicateKind::Ty(SingleTyPred::IsAllSafeTrait)),
        ("is_not_unpin", PredicateKind::Ty(SingleTyPred::IsNotUnpin)),
        ("is_sync", PredicateKind::Ty(SingleTyPred::IsSync)),
        ("is_integral", PredicateKind::Ty(SingleTyPred::IsIntegral)),
        ("is_ptr", PredicateKind::Ty(SingleTyPred::IsPtr)),
        ("is_primitive", PredicateKind::Ty(SingleTyPred::IsPrimitive)),
        ("needs_drop", PredicateKind::Ty(SingleTyPred::NeedsDrop)),
        ("translate_from_function", PredicateKind::Translate),
        ("false", PredicateKind::Trivial(TrivialPred::False)),
        ("true", PredicateKind::Trivial(TrivialPred::True)),
        ("same_size", PredicateKind::MultipleTys(MultipleTysPred::SameSize)),
        ("same_abi_and_pref_align", PredicateKind::MultipleTys(MultipleTysPred::SameAbiAndPrefAlign)),
        ("requires_monomorphization", PredicateKind::Fn),
        ("maybe_misaligned", PredicateKind::TyConst),
        ("usize_lt", PredicateKind::MultipleConsts),
    ];
    for (name, kind) in expected {
        assert_eq!(PredicateKind::try_from_name(name, at()).unwrap(), kind, "{name}");
    }
}

#[test]
fn unknown_predicate_is_invalid() {
    match PredicateKind::try_from_name("is_send", at()) {
        Err(PredicateError::InvalidPredicate { pred, span }) => {
            assert_eq!(pred, "is_send");
            assert_eq!(span.span, SrcSpan { start: 3, end: 10 });
            assert_eq!(span.path, "p.rpl");
        },
        other => panic!("unexpected {other:?}"),
    }
    assert!(PredicateKind::try_from_name("", at()).is_err());
}

#[test]
fn size_and_alignment_predicates() {
    assert!(same_size(&vec![layout(8, 8, 8), layout(8, 4, 4)]));
    assert!(!same_size(&vec![layout(8, 8, 8), layout(4, 4, 4)]));
    assert!(!same_size(&vec![layout(8, 8, 8), None]));
    assert!(same_size(&vec![]));
    assert!(same_abi_and_pref_align(&vec![layout(8, 4, 8), layout(16, 4, 8)]));
    assert!(!same_abi_and_pref_align(&vec![layout(8, 4, 8), layout(8, 4, 4)]));
    assert!(!same_abi_and_pref_align(&vec![None]));
}

#[test]
fn compatible_layout_ignores_unknown_layouts() {
    assert!(compatible_layout(&vec![]));
    assert!(compatible_layout(&vec![layout(8, 8, 8), None, layout(8, 8, 16)]));
    assert!(!compatible_layout(&vec![layout(8, 8, 8), layout(8, 4, 8)]));
    assert!(compatible_layout(&vec![None, layout(1, 1, 1), layout(2, 2, 2)]));
}

#[test]
fn usize_lt_needs_known_strictly_increasing_values() {
    assert!(usize_lt(&vec![Some(1), Some(2), Some(10)]));
    assert!(!usize_lt(&vec![Some(1), Some(1)]));
    assert!(!usize_lt(&vec![Some(1), None]));
    assert!(usize_lt(&vec![None]));
    assert!(usize_lt(&vec![]));
}

#[test]
fn alignment_and_null_pointer_checks() {
    assert!(maybe_misaligned(AlignedTy::Param, Some(64)));
    assert!(maybe_misaligned(AlignedTy::Foreign, Some(64)));
    assert!(maybe_misaligned(AlignedTy::Sized { abi_align: 8 }, Some(4)));
    assert!(!maybe_misaligned(AlignedTy::Sized { abi_align: 8 }, Some(8)));
    assert!(maybe_misaligned(AlignedTy::Sized { abi_align: 8 }, None));
    assert!(is_null_ptr(None));
    assert!(is_null_ptr(Some(ScalarPtr::Address(0))));
    assert!(!is_null_ptr(Some(ScalarPtr::Address(16))));
    assert!(!is_null_ptr(Some(ScalarPtr::WithProvenance)));
    assert!(!is_null_ptr(Some(ScalarPtr::NotPointer)));
}

fn assign(lhs: usize, kind: AssignKind, first: Option<usize>, second: Option<usize>) -> LocalAssign {
    LocalAssign { lhs, kind, first, second }
}

#[test]
fn products_and_quotients_of_locals() {
    // _2 = _0 / _1
    let cache = BodyInfoCache::new(3, &vec![assign(2, AssignKind::Quotient, Some(0), Some(1))]);
    assert!(cache.product_of(&vec![2, 0]));
    assert!(!cache.product_of(&vec![2, 1]));
    assert!(!cache.product_of(&vec![0, 1]));
    assert!(cache.product_of(&vec![1, 1]));
    assert!(cache.product_of(&vec![2]));
    assert!(cache.product_of(&vec![]));
}

#[test]
fn relations_chain_through_locals_in_order() {
    // _2 = _0 * _1; _3 = _2 / _1
    let cache = BodyInfoCache::new(
        4,
        &vec![assign(2, AssignKind::Product, Some(0), Some(1)), assign(3, AssignKind::Quotient, Some(2), Some(1))],
    );
    assert!(cache.product_of(&vec![3, 2, 0]));
    assert!(cache.product_of(&vec![3, 0]));
    // chaining through _2 comes last and overrides the direct quotient relation
    assert!(cache.product_of(&vec![3, 1]));
    assert!(!cache.product_of(&vec![0, 3]));
}

#[test]
fn copies_and_other_assignments() {
    // _1 = _0 as _; _2 = something else; _3 = _1 (constant second operand ignored)
    let cache = BodyInfoCache::new(
        4,
        &vec![
            assign(1, AssignKind::Copy, Some(0), None),
            assign(2, AssignKind::Other, Some(0), Some(1)),
            assign(3, AssignKind::Product, Some(1), None),
        ],
    );
    assert!(cache.product_of(&vec![3, 1, 0]));
    assert!(!cache.product_of(&vec![2, 0]));
}

#[test]
fn two_divisions_make_a_product() {
    // _2 = _0 / _1; _3 = _4 / _2: _3 divides by a quotient of _1, so it is a product of _1
    let cache = BodyInfoCache::new(
        5,
        &vec![assign(2, AssignKind::Quotient, Some(0), Some(1)), assign(3, AssignKind::Quotient, Some(4), Some(2))],
    );
    assert!(cache.product_of(&vec![3, 1]));
    assert!(!cache.product_of(&vec![3, 0]));
    assert!(!cache.product_of(&vec![3, 2]));
    assert!(cache.product_of(&vec![3, 4]));
}
