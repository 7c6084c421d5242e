use rpl_core::attributes::{
    HeaderSafety, HirSafety, Inline, InlineAttr, InlineIdent, ItemVisibility, Safety, SafetyPair, Visibility,
    VisibilityPair,
};
use rpl_core::meta;

#[test]
fn safety_constraints() {
    assert!(Safety::Safe.check(HirSafety::Safe));
    assert!(!Safety::Safe.check(HirSafety::Unsafe));
    assert!(Safety::Unsafe.check(HirSafety::Unsafe));
    assert!(Safety::Any.check(HirSafety::Safe));
    assert!(Safety::Any.check(HirSafety::Unsafe));
    // a safe function with target features counts as unsafe
    assert!(!Safety::Safe.check_header(HeaderSafety::SafeTargetFeatures));
    assert!(Safety::Unsafe.check_header(HeaderSafety::SafeTargetFeatures));
    assert!(Safety::Unsafe.check_header(HeaderSafety::Normal(HirSafety::Unsafe)));
    // no header counts as safe
    assert!(Safety::Safe.check_option_header(None));
    assert!(!Safety::Unsafe.check_option_header(None));
    assert_eq!(Safety::default(), Safety::Safe);
}

#[test]
fn safety_markers() {
    assert_eq!(Safety::parse(None), Safety::Safe);
    assert_eq!(Safety::parse(Some(&SafetyPair { question: false })), Safety::Unsafe);
    assert_eq!(Safety::parse(Some(&SafetyPair { question: true })), Safety::Any);
}

#[test]
fn visibility_constraints_and_markers() {
    assert!(Visibility::Unspecified.check(ItemVisibility::Restricted));
    assert!(Visibility::Public.check(ItemVisibility::Public));
    assert!(!Visibility::Public.check(ItemVisibility::Restricted));
    assert!(Visibility::Restricted.check(ItemVisibility::Restricted));
    assert!(!Visibility::Restricted.check(ItemVisibility::Public));
    assert_eq!(Visibility::parse(None), Visibility::Unspecified);
    assert_eq!(Visibility::parse(Some(&VisibilityPair { scoped: false })), Visibility::Public);
    assert_eq!(Visibility::parse(Some(&VisibilityPair { scoped: true })), Visibility::Restricted);
    assert_eq!(Visibility::default(), Visibility::Unspecified);
}

#[test]
fn inline_attribute_check_finds_the_first_satisfying() {
    let attrs = vec![InlineAttr::Bare, InlineAttr::FirstIdent(InlineIdent::Always)];
    assert_eq!(Inline::Always.check(&attrs), Some(&InlineAttr::FirstIdent(InlineIdent::Always)));
    assert_eq!(Inline::Normal.check(&attrs), Some(&InlineAttr::Bare));
    assert_eq!(Inline::Never.check(&attrs), None);
    assert_eq!(Inline::Any.check(&vec![InlineAttr::FirstIdent(InlineIdent::Never)]), None);
    assert_eq!(Inline::Any.check(&vec![InlineAttr::EmptyList]), Some(&InlineAttr::EmptyList));
    assert!(!Inline::Always.satisfied_by(&InlineAttr::FirstIdent(InlineIdent::Other)));
}

#[test]
fn inline_constraint_of_a_pattern() {
    let none: Vec<InlineAttr> = vec![];
    assert!(meta::Inline::Unspecified.check(&none));
    assert!(!meta::Inline::Normal.check(&none));
    assert!(meta::Inline::Normal.check(&vec![InlineAttr::FirstNotIdent]));
    assert!(meta::Inline::Never.check(&vec![InlineAttr::Bare, InlineAttr::FirstIdent(InlineIdent::Never)]));
    assert!(!meta::Inline::Always.check(&vec![InlineAttr::FirstIdent(InlineIdent::Never)]));
    assert!(meta::Inline::Any.check(&vec![InlineAttr::Bare]));
    assert_eq!(meta::Inline::default(), meta::Inline::Unspecified);
}
