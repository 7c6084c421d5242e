use rpl_core::context::PatTy;
use rpl_core::item::{Adt, AdtKind, Fn, FnBody, Fns, MirPatternRef, Mutability, Param, Params, SymbolMap, Variant};
use rpl_core::types::Symbol;

fn sym(id: u64) -> Symbol {
    Symbol { id }
}

fn ty(id: u64) -> PatTy {
    PatTy { id }
}

#[test]
fn struct_fields_take_the_last_type() {
    let mut adt = Adt::new_struct();
    adt.non_enum_variant_mut().add_field(sym(1), ty(10));
    adt.non_enum_variant_mut().add_field(sym(2), ty(20));
    adt.non_enum_variant_mut().add_field(sym(1), ty(11));
    let v = adt.non_enum_variant();
    assert_eq!(v.fields.len(), 2);
    assert_eq!(v.fields.get(sym(1)).map(|f| f.ty), Some(ty(11)));
    assert_eq!(v.fields.get(sym(2)).map(|f| f.ty), Some(ty(20)));
    assert!(v.fields.get(sym(3)).is_none());
}

#[test]
fn enum_variants_are_made_once() {
    let mut adt = Adt::new_enum();
    adt.add_variant(sym(5)).add_field(sym(1), ty(10));
    adt.add_variant(sym(6));
    adt.add_variant(sym(5)).add_field(sym(2), ty(20));
    match &adt.kind {
        AdtKind::Enum(variants) => {
            assert_eq!(variants.len(), 2);
            assert_eq!(variants.get(sym(5)).unwrap().fields.len(), 2);
            assert_eq!(variants.get(sym(6)).unwrap().fields.len(), 0);
        },
        AdtKind::Struct(_) => panic!("an enum pattern"),
    }
}

#[test]
fn symbol_maps_insert_in_place() {
    let mut m: SymbolMap<u32> = SymbolMap::new();
    m.insert(sym(3), 30);
    m.insert(sym(4), 40);
    m.insert(sym(3), 31);
    assert_eq!(m.len(), 2);
    assert_eq!(m.find(sym(3)), Some(0));
    assert_eq!(m.get(sym(3)), Some(&31));
    *m.get_or_insert(sym(5), 0) += 7;
    *m.get_or_insert(sym(4), 0) += 1;
    assert_eq!(m.get(sym(5)), Some(&7));
    assert_eq!(m.get(sym(4)), Some(&41));
    let v = Variant::new();
    assert_eq!(v.fields.len(), 0);
}

#[test]
fn function_patterns() {
    let mut fns = Fns::new();
    {
        let f = fns.new_fn(sym(1), ty(100));
        f.params.add_param(sym(7), Mutability::Mut, ty(70));
        f.set_body(FnBody::Mir(MirPatternRef { id: 9 }));
    }
    // A second request for the same name hands back the function made first.
    let again = fns.new_fn(sym(1), ty(200));
    assert_eq!(again.ret, ty(100));
    assert_eq!(again.expect_mir_body(), MirPatternRef { id: 9 });
    assert_eq!(again.params.params, vec![Param { mutability: Mutability::Mut, ident: sym(7), ty: ty(70) }]);
    assert!(fns.get_fn_pat(sym(1)).is_none());
    fns.new_fn_pat(sym(2), ty(300)).params.set_non_exhaustive();
    assert!(fns.get_fn_pat(sym(2)).unwrap().params.non_exhaustive);
    let u = fns.new_unnamed(ty(400));
    assert_eq!(u.ret, ty(400));
    assert!(u.body.is_none());
    let f = Fn::new(ty(1));
    assert!(f.params.params.is_empty());
    let p = Params::new();
    assert!(!p.non_exhaustive);
}
