use rpl_core::meta::{AdtPatType, Ident, LocalSpecial, MetaVariableType, Path, PathSegment, SrcSpan, SyntaxNode, WithPath};
use rpl_core::paths::MetaContext;
use rpl_core::predicates::PredicateConjunction;
use rpl_core::symbol_table::{
    EnumInner, FnInner, FnName, ImplInner, ImplPat, MetaVarDecl, MetaVarKind, MetaVariable, NonLocalMetaSymTab,
    PlaceLocal, PlaceLocalKind, RPLMetaError, SymbolTable, TypeOrPath, Variant,
};

fn span(start: usize, end: usize) -> SrcSpan {
    SrcSpan { start, end }
}

fn ident(name: &str, start: usize) -> Ident {
    Ident { name: name.to_string(), span: span(start, start + name.len()) }
}

fn node(id: u64, start: usize) -> SyntaxNode {
    SyntaxNode { id, span: span(start, start + 1) }
}

fn no_preds() -> PredicateConjunction {
    PredicateConjunction { clauses: vec![] }
}

fn context<'a>() -> MetaContext<'a> {
    let mut mctx = MetaContext::new();
    mctx.set_active_path(Some("pat.rpl"));
    mctx
}

#[test]
fn meta_variables_are_numbered_per_kind() {
    let mctx = context();
    let mut t = NonLocalMetaSymTab::new();
    let mut errors = vec![];
    t.add_non_local_meta_var(&mctx, &ident("T", 0), MetaVarDecl::Type, no_preds(), &mut errors);
    t.add_non_local_meta_var(&mctx, &ident("U", 3), MetaVarDecl::Type, no_preds(), &mut errors);
    t.add_non_local_meta_var(&mctx, &ident("N", 6), MetaVarDecl::Const(node(7, 9)), no_preds(), &mut errors);
    t.add_non_local_meta_var(&mctx, &ident("p", 12), MetaVarDecl::Place(node(8, 14)), no_preds(), &mut errors);
    assert!(errors.is_empty());
    let tys = t.type_vars();
    assert_eq!(tys.len(), 2);
    assert_eq!((tys[0].0.as_str(), tys[0].1), ("T", 0));
    assert_eq!((tys[1].0.as_str(), tys[1].1), ("U", 1));
    let consts = t.const_vars();
    assert_eq!((consts[0].0.as_str(), consts[0].1), ("N", 0));
    let places = t.place_vars();
    assert_eq!((places[0].0.as_str(), places[0].1), ("p", 0));
    assert!(matches!(t.get_from_symbol("U"), Some(MetaVariable::Type(1, _))));
    match t.get_from_symbol("N") {
        Some(MetaVariable::Const(0, ty, _)) => assert_eq!(ty, node(7, 9)),
        _ => panic!("`N` is a constant metavariable"),
    }
    assert!(matches!(t.get_from_symbol("p"), Some(MetaVariable::Place(0, _, _))));
    assert!(t.get_from_symbol("V").is_none());
}

#[test]
fn a_redeclared_meta_variable_is_reported_and_rebound() {
    let mctx = context();
    let mut t = NonLocalMetaSymTab::new();
    let mut errors = vec![];
    t.add_non_local_meta_var(&mctx, &ident("T", 0), MetaVarDecl::Type, no_preds(), &mut errors);
    t.add_non_local_meta_var(&mctx, &ident("T", 10), MetaVarDecl::Type, no_preds(), &mut errors);
    assert_eq!(errors.len(), 1);
    match &errors[0] {
        RPLMetaError::NonLocalMetaVariableAlreadyDeclared { meta_var, span: s } => {
            assert_eq!(meta_var, "T");
            assert_eq!(s.span, span(10, 11));
            assert_eq!(s.path, "pat.rpl");
        },
        e => panic!("unexpected error {e:?}"),
    }
    let tys = t.type_vars();
    assert_eq!(tys.len(), 1);
    // The later declaration takes the place of the earlier one, at the count of type
    // metavariables at that time.
    assert_eq!(tys[0].1, 1);
}

#[test]
fn adt_patterns_are_declared_once() {
    let mctx = context();
    let mut t = NonLocalMetaSymTab::new();
    let mut errors = vec![];
    assert_eq!(t.add_adt_pat(&mctx, &ident("A", 0), AdtPatType::Struct, &mut errors), Some(()));
    assert_eq!(t.add_adt_pat(&mctx, &ident("A", 5), AdtPatType::Enum, &mut errors), None);
    assert_eq!(errors.len(), 1);
    match t.get_from_symbol("A") {
        Some(MetaVariable::AdtPat(kind, name)) => {
            assert_eq!(kind, AdtPatType::Struct);
            assert_eq!(name, "A");
        },
        _ => panic!("`A` is an ADT pattern"),
    }
    assert_eq!(
        t.get_non_local_meta_var(&mctx, &ident("A", 0), &mut errors),
        Some(MetaVarKind::Adt(AdtPatType::Struct))
    );
    assert_eq!(errors.len(), 1);
}

#[test]
fn type_variables_come_before_adt_patterns() {
    let mctx = context();
    let mut t = NonLocalMetaSymTab::new();
    let mut errors = vec![];
    t.add_adt_pat(&mctx, &ident("X", 0), AdtPatType::Enum, &mut errors);
    t.add_non_local_meta_var(&mctx, &ident("X", 2), MetaVarDecl::Type, no_preds(), &mut errors);
    assert!(errors.is_empty());
    assert_eq!(t.force_non_local_meta_var("X").ty(), MetaVarKind::NonAdt(MetaVariableType::Type));
}

#[test]
fn an_undeclared_meta_variable_is_reported() {
    let mctx = context();
    let t = NonLocalMetaSymTab::default();
    let mut errors = vec![];
    assert_eq!(t.get_non_local_meta_var(&mctx, &ident("Z", 4), &mut errors), None);
    assert!(matches!(
        &errors[..],
        [RPLMetaError::NonLocalMetaVariableNotDeclared { meta_var, span: s }] if meta_var == "Z" && s.span == span(4, 5)
    ));
}

#[test]
fn expect_meta_variables() {
    let preds = no_preds();
    let (idx, ty, _) = MetaVariable::Const(3, node(1, 0), &preds).expect_const();
    assert_eq!((idx, ty), (3, node(1, 0)));
    let (kind, idx, _) = MetaVariable::Place(2, node(1, 0), &preds).expect_non_adt();
    assert_eq!((kind, idx), (MetaVariableType::Place, 2));
    assert_eq!(MetaVariable::Type(0, &preds).ty(), MetaVarKind::NonAdt(MetaVariableType::Type));
}

#[test]
fn fields_and_variants_are_declared_once() {
    let mctx = context();
    let mut errors = vec![];
    let mut v = Variant::new();
    v.add_field(&mctx, &ident("a", 0), node(1, 2), &mut errors);
    v.add_field(&mctx, &ident("b", 4), node(2, 6), &mut errors);
    v.add_field(&mctx, &ident("a", 8), node(3, 10), &mut errors);
    assert_eq!(errors.len(), 1);
    assert!(matches!(&errors[0], RPLMetaError::SymbolAlreadyDeclared { ident, .. } if ident == "a"));
    let mut e = EnumInner::new();
    assert!(e.add_variant(&mctx, &ident("Some", 0), &mut errors).is_some());
    assert!(e.add_variant(&mctx, &ident("Some", 9), &mut errors).is_none());
    assert_eq!(errors.len(), 2);
}

#[test]
fn locals_are_numbered_in_declaration_order() {
    let mctx = context();
    let mut errors = vec![];
    let mut f = FnInner::new(span(0, 10), "pat.rpl", None);
    f.add_local(&mctx, Some("l0".to_string()), &ident("x", 1), node(1, 1), LocalSpecial::NoSpecial, &mut errors);
    f.add_local(&mctx, None, &ident("y", 2), node(2, 2), LocalSpecial::NoSpecial, &mut errors);
    f.add_local(&mctx, None, &ident("x", 3), node(3, 3), LocalSpecial::NoSpecial, &mut errors);
    assert_eq!(errors.len(), 1);
    assert!(matches!(&errors[0], RPLMetaError::SymbolAlreadyDeclared { ident, span: s } if ident == "x" && s.span == span(3, 4)));
    assert_eq!(f.get_local_idx("x"), 0);
    assert_eq!(f.get_local_idx("y"), 1);
    let sorted = f.get_sorted_locals();
    assert_eq!(sorted.path, "pat.rpl");
    assert_eq!(sorted.inner.len(), 2);
    assert_eq!(sorted.inner[0].0.as_deref(), Some("l0"));
    assert_eq!(sorted.inner[0].1, "x");
    assert_eq!(sorted.inner[0].2, node(1, 1));
    assert_eq!(sorted.inner[1].0, None);
    assert_eq!(sorted.inner[1].1, "y");
}

#[test]
fn self_and_ret_are_declared_once() {
    let mctx = context();
    let mut errors = vec![];
    let mut f = FnInner::new(span(0, 10), "pat.rpl", None);
    let self_local = PlaceLocal { span: span(1, 5), kind: PlaceLocalKind::SelfValue(ident("self", 1)) };
    let ret_local = PlaceLocal { span: span(6, 9), kind: PlaceLocalKind::RetValue(ident("RET", 6)) };
    f.add_place_local(&mctx, None, &self_local, node(10, 0), &mut errors);
    f.add_place_local(&mctx, None, &ret_local, node(11, 0), &mut errors);
    assert!(errors.is_empty());
    f.add_place_local(&mctx, None, &ret_local, node(12, 0), &mut errors);
    f.add_place_local(&mctx, None, &self_local, node(13, 0), &mut errors);
    assert!(matches!(&errors[..], [RPLMetaError::RetAlreadyDeclared { .. }, RPLMetaError::SelfAlreadyDeclared { .. }]));
    let meta = NonLocalMetaSymTab::new();
    assert_eq!(f.get_place_local(&mctx, &self_local, &meta, &mut errors), Some(node(10, 0)));
    assert_eq!(f.get_place_local(&mctx, &ret_local, &meta, &mut errors), Some(node(11, 0)));
    let sorted = f.get_sorted_locals();
    assert_eq!(sorted.inner[0].3, LocalSpecial::Self_);
    assert_eq!(sorted.inner[1].3, LocalSpecial::Return);
    let placeholder = PlaceLocal { span: span(0, 1), kind: PlaceLocalKind::PlaceHolder };
    f.add_place_local(&mctx, None, &placeholder, node(14, 0), &mut errors);
    assert_eq!(f.get_place_local(&mctx, &placeholder, &meta, &mut errors), None);
    assert_eq!(errors.len(), 2);
}

#[test]
fn unresolved_places_are_reported() {
    let mctx = context();
    let mut errors = vec![];
    let meta = NonLocalMetaSymTab::new();
    let f = FnInner::new(span(0, 10), "pat.rpl", None);
    let self_local = PlaceLocal { span: span(1, 5), kind: PlaceLocalKind::SelfValue(ident("self", 1)) };
    let ret_local = PlaceLocal { span: span(6, 9), kind: PlaceLocalKind::RetValue(ident("RET", 6)) };
    let z = PlaceLocal { span: span(2, 3), kind: PlaceLocalKind::Local(ident("z", 2)) };
    assert_eq!(f.get_place_local(&mctx, &self_local, &meta, &mut errors), None);
    assert_eq!(f.get_place_local(&mctx, &ret_local, &meta, &mut errors), None);
    assert_eq!(f.get_place_local(&mctx, &z, &meta, &mut errors), None);
    assert!(matches!(
        &errors[..],
        [
            RPLMetaError::SelfNotDeclared { .. },
            RPLMetaError::RetNotDeclared { .. },
            RPLMetaError::SymbolNotDeclared { ident, .. },
        ] if ident == "z"
    ));
    // With a `self` parameter but no self type, `self` has no type to resolve to.
    let mut g = FnInner::new(span(0, 10), "pat.rpl", None);
    g.add_self_param(&mctx, node(20, 1), &mut errors);
    assert_eq!(g.get_place_local(&mctx, &self_local, &meta, &mut errors), None);
    assert!(matches!(errors.last(), Some(RPLMetaError::SelfTypeOutsideImpl { .. })));
    // Inside an `impl`, it resolves to the self type.
    let mut h = FnInner::new(span(0, 10), "pat.rpl", Some(node(30, 0)));
    h.add_self_param(&mctx, node(20, 1), &mut errors);
    let before = errors.len();
    assert_eq!(h.get_place_local(&mctx, &self_local, &meta, &mut errors), Some(node(30, 0)));
    h.add_self_param(&mctx, node(21, 1), &mut errors);
    assert_eq!(errors.len(), before + 1);
    assert!(matches!(errors.last(), Some(RPLMetaError::SelfAlreadyDeclared { .. })));
}

#[test]
fn places_resolve_to_locals_then_parameters_then_place_variables() {
    let mctx = context();
    let mut errors = vec![];
    let mut meta = NonLocalMetaSymTab::new();
    meta.add_non_local_meta_var(&mctx, &ident("p", 0), MetaVarDecl::Place(node(40, 0)), no_preds(), &mut errors);
    let mut f = FnInner::new(span(0, 10), "pat.rpl", None);
    f.add_param(&mctx, &ident("a", 1), node(41, 0), &mut errors);
    f.add_param(&mctx, &ident("a", 5), node(42, 0), &mut errors);
    assert_eq!(errors.len(), 1);
    f.add_local(&mctx, None, &ident("p", 2), node(43, 0), LocalSpecial::NoSpecial, &mut errors);
    assert_eq!(f.get_place_or_local(&mctx, &ident("a", 0), &meta, &mut errors), Some(node(41, 0)));
    assert_eq!(f.get_place_or_local(&mctx, &ident("p", 0), &meta, &mut errors), Some(node(43, 0)));
    let g = FnInner::new(span(0, 10), "pat.rpl", None);
    assert_eq!(g.get_place_or_local(&mctx, &ident("p", 0), &meta, &mut errors), Some(node(40, 0)));
    assert_eq!(errors.len(), 1);
}

#[test]
fn types_and_imports_of_a_function() {
    let mctx = context();
    let mut errors = vec![];
    let mut f = FnInner::new(span(0, 10), "pat.rpl", None);
    f.add_type_impl(&mctx, &ident("T", 3), TypeOrPath::Type(node(50, 20)), &mut errors);
    let path = Path {
        leading: None,
        segments: vec![
            PathSegment { ident: ident("std", 0), args: vec![] },
            PathSegment { ident: ident("T", 5), args: vec![] },
        ],
        span: span(0, 6),
    };
    f.add_import(&mctx, node(51, 0), &path, &mut errors);
    assert_eq!(errors.len(), 1);
    match &errors[0] {
        RPLMetaError::TypeOrPathAlreadyDeclared { type_or_path, span: s, span_previous } => {
            assert_eq!(type_or_path, "T");
            assert_eq!(s.span, span(5, 6));
            assert_eq!(span_previous.span, span(20, 21));
        },
        e => panic!("unexpected error {e:?}"),
    }
    assert_eq!(f.get_type_or_path("pat.rpl", &ident("T", 0)).ok(), Some(TypeOrPath::Type(node(50, 20))));
    f.add_type_impl(&mctx, &ident("U", 3), TypeOrPath::Path(node(52, 30)), &mut errors);
    match f.get_type_or_path("other.rpl", &ident("V", 7)) {
        Err(RPLMetaError::TypeOrPathNotDeclared { type_or_path, span: s, declared }) => {
            assert_eq!(type_or_path, "V");
            assert_eq!(s.path, "other.rpl");
            assert_eq!(declared, vec!["T".to_string(), "U".to_string()]);
        },
        _ => panic!("`V` is not declared"),
    }
    assert_eq!(TypeOrPath::Path(node(52, 30)).span(), span(30, 31));
}

#[test]
fn paths_and_their_identifiers() {
    let single = Path { leading: None, segments: vec![PathSegment { ident: ident("T", 0), args: vec![] }], span: span(0, 1) };
    assert_eq!(single.as_ident().map(|i| i.name), Some("T".to_string()));
    let generic = Path {
        leading: None,
        segments: vec![PathSegment { ident: ident("Vec", 0), args: vec![node(1, 4)] }],
        span: span(0, 6),
    };
    assert!(generic.as_ident().is_none());
    let global = Path {
        leading: Some(node(2, 0)),
        segments: vec![
            PathSegment { ident: ident("core", 2), args: vec![] },
            PathSegment { ident: ident("mem", 8), args: vec![] },
        ],
        span: span(0, 11),
    };
    assert!(global.as_ident().is_none());
    assert!(global.leading_ident().is_none());
    assert_eq!(global.ident().name, "mem");
    assert_eq!(generic.leading_ident().map(|i| i.name), Some("Vec".to_string()));
}

#[test]
fn replacing_the_leading_identifier() {
    // `alloc::vec::Vec` in place of the `V` of `V<u8>::new`.
    let prefix = Path {
        leading: None,
        segments: vec![
            PathSegment { ident: ident("alloc", 0), args: vec![] },
            PathSegment { ident: ident("vec", 7), args: vec![] },
            PathSegment { ident: ident("Vec", 12), args: vec![] },
        ],
        span: span(0, 15),
    };
    let path = Path {
        leading: None,
        segments: vec![
            PathSegment { ident: ident("V", 30), args: vec![node(9, 32)] },
            PathSegment { ident: ident("new", 37), args: vec![] },
        ],
        span: span(30, 40),
    };
    let r = path.replace_leading_ident(prefix);
    assert!(r.leading.is_none());
    assert_eq!(r.span, span(30, 40));
    let names: Vec<&str> = r.segments.iter().map(|s| s.ident.name.as_str()).collect();
    assert_eq!(names, vec!["alloc", "vec", "Vec", "new"]);
    assert_eq!(r.segments[2].args, vec![node(9, 32)]);
    assert!(r.segments[3].args.is_empty());
}

#[test]
fn adts_of_a_symbol_table() {
    let mctx = context();
    let mut errors = vec![];
    let mut t = SymbolTable::new();
    {
        let s = t.add_struct(&mctx, &ident("S", 0), &mut errors).unwrap();
        s.add_field(&mctx, &ident("f", 1), node(1, 1), &mut errors);
    }
    assert!(t.add_struct(&mctx, &ident("S", 10), &mut errors).is_none());
    assert!(t.add_enum(&mctx, &ident("E", 20), &mut errors).is_some());
    assert!(t.add_enum(&mctx, &ident("E", 30), &mut errors).is_none());
    assert_eq!(errors.len(), 2);
    assert!(t.contains_adt(&ident("S", 0)));
    assert!(t.contains_adt(&ident("E", 0)));
    assert!(!t.contains_adt(&ident("F", 0)));
    assert_eq!(t.get_adt("S"), Some((AdtPatType::Struct, "S".to_string())));
    assert_eq!(t.get_adt("E"), Some((AdtPatType::Enum, "E".to_string())));
    assert_eq!(t.get_adt("F"), None);
}

#[test]
fn functions_of_a_symbol_table() {
    let mctx = context();
    let mut errors = vec![];
    let mut t = SymbolTable::default();
    {
        let (f, imports) = t.add_fn(&mctx, &FnName::Named(ident("f", 0)), None, &mut errors).unwrap();
        assert_eq!(imports.len(), 0);
        f.add_local(&mctx, Some("a".to_string()), &ident("x", 1), node(1, 1), LocalSpecial::NoSpecial, &mut errors);
    }
    assert!(t.add_fn(&mctx, &FnName::Named(ident("f", 9)), None, &mut errors).is_none());
    assert!(matches!(&errors[..], [RPLMetaError::SymbolAlreadyDeclared { ident, span: s }] if ident == "f" && s.span == span(9, 10)));
    {
        let (g, _) = t.add_fn(&mctx, &FnName::Unnamed(span(20, 21)), None, &mut errors).unwrap();
        g.add_local(&mctx, Some("b".to_string()), &ident("y", 22), node(2, 22), LocalSpecial::NoSpecial, &mut errors);
        g.add_local(&mctx, None, &ident("z", 23), node(3, 23), LocalSpecial::NoSpecial, &mut errors);
    }
    {
        let (h, _) = t.add_fn(&mctx, &FnName::Unnamed(span(30, 31)), None, &mut errors).unwrap();
        h.add_local(&mctx, Some("c".to_string()), &ident("w", 32), node(4, 32), LocalSpecial::NoSpecial, &mut errors);
    }
    assert_eq!(errors.len(), 1);
    assert_eq!(t.labels(), vec!["a".to_string(), "b".to_string(), "c".to_string()]);
    // `_` names the last unnamed function pattern.
    assert_eq!(t.get_fn("_").unwrap().get_local_idx("w"), 0);
    assert_eq!(t.get_fn("f").unwrap().get_local_idx("x"), 0);
    assert!(t.get_fn("g").is_none());
}

#[test]
fn impls_of_a_symbol_table() {
    let mctx = context();
    let mut errors = vec![];
    let mut t = SymbolTable::new();
    let imp = ImplPat { span: span(0, 40), ty: node(60, 5), impl_kind: None, trait_path: None };
    {
        let (m, _) = t.add_impl(&mctx, &imp, &mut errors).unwrap();
        let def = FnInner::new(span(10, 20), "pat.rpl", Some(node(60, 5)));
        assert!(m.add_fn(&mctx, &ident("new", 10), def).is_ok());
        let again = FnInner::new(span(21, 30), "pat.rpl", Some(node(60, 5)));
        assert!(matches!(m.add_fn(&mctx, &ident("new", 21), again), Err(RPLMetaError::MethodAlreadyDeclared { .. })));
    }
    assert!(t.add_impl(&mctx, &imp, &mut errors).is_none());
    assert!(matches!(&errors[..], [RPLMetaError::ImplAlreadyDeclared { span: s }] if s.span == span(0, 40)));
    let of_trait = ImplPat { span: span(50, 90), ty: node(60, 5), impl_kind: Some(node(61, 50)), trait_path: Some(node(62, 55)) };
    assert!(t.add_impl(&mctx, &of_trait, &mut errors).is_some());
    assert_eq!(errors.len(), 1);
    let m = t.get_impl(node(60, 5), None).unwrap();
    assert!(m.get_fn("new").is_some());
    assert!(m.get_fn("old").is_none());
    assert!(t.get_impl(node(60, 5), Some(node(61, 50))).is_some());
    assert!(t.get_impl(node(63, 5), None).is_none());
    let fresh = ImplInner::new(&of_trait);
    assert!(fresh.get_fn("new").is_none());
}

#[test]
fn imports_of_a_symbol_table() {
    let mctx = context();
    let mut t = SymbolTable::new();
    t.imports_mut().try_insert("Vec".to_string(), node(70, 0));
    let found = t.get_type_or_path(&WithPath::new("pat.rpl", ident("Vec", 3)));
    assert_eq!(found.ok(), Some(TypeOrPath::Path(node(70, 0))));
    match t.get_type_or_path(&WithPath::new("pat.rpl", ident("Box", 3))) {
        Err(RPLMetaError::TypeOrPathNotDeclared { declared, .. }) => assert_eq!(declared, vec!["Vec".to_string()]),
        _ => panic!("`Box` is not imported"),
    }
    let mut errors = vec![];
    t.meta_vars_mut().add_non_local_meta_var(&mctx, &ident("T", 0), MetaVarDecl::Type, no_preds(), &mut errors);
    assert_eq!(t.meta_vars().type_vars().len(), 1);
}

#[test]
fn function_names_give_their_scope() {
    let mctx = context();
    let (name, f) = FnInner::parse_from(&mctx, &FnName::Named(ident("f", 4)), None);
    assert_eq!(name.map(|i| i.name), Some("f".to_string()));
    assert_eq!(f.get_sorted_locals().path, "pat.rpl");
    let (name, _) = FnInner::parse_from(&mctx, &FnName::Unnamed(span(0, 1)), None);
    assert!(name.is_none());
}

fn check_sync<T: Sync>() {}

#[test]
fn test_check_sync() {
    check_sync::<rpl_core::paths::MetaContext<'_>>();
}
