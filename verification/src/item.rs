//! The items of a pattern: ADT patterns with their variants and fields, function
//! patterns with their parameters and bodies.
use vstd::prelude::*;

use crate::context::{Field, PatTy};
use crate::types::{Interned, Symbol};

verus! {

/// `k` is a key of `s`.
pub open spec fn has_key<V>(s: Seq<(Symbol, V)>, k: Symbol) -> bool {
    exists|i: int| 0 <= i < s.len() && #[trigger] s[i].0 == k
}

/// No key occurs twice in `s`.
pub open spec fn keys_distinct<V>(s: Seq<(Symbol, V)>) -> bool {
    forall|i: int, j: int| 0 <= i < s.len() && 0 <= j < s.len() && #[trigger] s[i].0 == #[trigger] s[j].0 ==> i == j
}

/// The value of key `k` in `s`.
pub open spec fn value_of<V>(s: Seq<(Symbol, V)>, k: Symbol) -> V {
    s[choose|i: int| 0 <= i < s.len() && #[trigger] s[i].0 == k].1
}

pub proof fn lemma_value_of<V>(s: Seq<(Symbol, V)>, k: Symbol, i: int)
    requires
        keys_distinct(s),
        0 <= i < s.len(),
        s[i].0 == k,
    ensures
        value_of(s, k) == s[i].1,
        has_key(s, k),
{
    let j = choose|j: int| 0 <= j < s.len() && #[trigger] s[j].0 == k;
    assert(s[i].0 == s[j].0);
}

/// A table from symbols to values, in insertion order; no symbol occurs twice.
#[derive(Debug)]
pub struct SymbolMap<V> {
    entries: Vec<(Symbol, V)>,
}

impl<V> View for SymbolMap<V> {
    type V = Seq<(Symbol, V)>;

    closed spec fn view(&self) -> Seq<(Symbol, V)> {
        self.entries@
    }
}

impl<V> SymbolMap<V> {
    pub open spec fn wf(&self) -> bool {
        keys_distinct(self@)
    }

    /// The empty table.
    pub fn new() -> (r: Self)
        ensures
            r.wf(),
            r@ == Seq::<(Symbol, V)>::empty(),
    {
        SymbolMap { entries: Vec::new() }
    }

    /// The number of entries.
    pub fn len(&self) -> (r: usize)
        ensures
            r == self@.len(),
    {
        self.entries.len()
    }

    /// The position of `k`, if present.
    pub fn find(&self, k: Symbol) -> (r: Option<usize>)
        ensures
            match r {
                Some(i) => i < self@.len() && self@[i as int].0 == k,
                None => !has_key(self@, k),
            },
    {
        let mut i: usize = 0;
        while i < self.entries.len()
            invariant
                i <= self@.len(),
                forall|j: int| 0 <= j < i ==> self@[j].0 != k,
            decreases self@.len() - i,
        {
            if self.entries[i].0.same(&k) {
                return Some(i);
            }
            i = i + 1;
        }
        None
    }

    /// The value of `k`, if present.
    pub fn get(&self, k: Symbol) -> (r: Option<&V>)
        requires
            self.wf(),
        ensures
            r is Some == has_key(self@, k),
            r matches Some(v) ==> *v == value_of(self@, k),
    {
        match self.find(k) {
            Some(i) => {
                proof {
                    lemma_value_of(self@, k, i as int);
                }
                Some(&self.entries[i].1)
            },
            None => None,
        }
    }

    /// Bind `k` to `v`, in its place if present, else at the end.
    pub fn insert(&mut self, k: Symbol, v: V)
        requires
            old(self).wf(),
        ensures
            final(self).wf(),
            has_key(old(self)@, k) ==> exists|i: int|
                0 <= i < old(self)@.len() && old(self)@[i].0 == k && final(self)@ == old(self)@.update(i, (k, v)),
            !has_key(old(self)@, k) ==> final(self)@ == old(self)@.push((k, v)),
    {
        match self.find(k) {
            Some(i) => {
                self.entries.set(i, (k, v));
            },
            None => {
                self.entries.push((k, v));
                assert forall|a: int, b: int|
                    0 <= a < self@.len() && 0 <= b < self@.len() && #[trigger] self@[a].0 == #[trigger] self@[b].0 implies a
                    == b by {
                    if a < old(self)@.len() && b == old(self)@.len() {
                        assert(old(self)@[a].0 == k);
                    }
                    if b < old(self)@.len() && a == old(self)@.len() {
                        assert(old(self)@[b].0 == k);
                    }
                }
            },
        }
    }

    /// The value of `k`, made with `default` if `k` is absent; handed back to be changed.
    pub fn get_or_insert(&mut self, k: Symbol, default: V) -> (r: &mut V)
        requires
            old(self).wf(),
        ensures
            has_key(old(self)@, k) ==> *r == value_of(old(self)@, k) && exists|i: int|
                0 <= i < old(self)@.len() && old(self)@[i].0 == k && final(self)@ == old(self)@.update(
                    i,
                    (k, *final(r)),
                ),
            !has_key(old(self)@, k) ==> *r == default && final(self)@ == old(self)@.push((k, *final(r))),
            final(self).wf(),
    {
        let i = match self.find(k) {
            Some(i) => {
                proof {
                    lemma_value_of(self@, k, i as int);
                }
                i
            },
            None => {
                self.entries.push((k, default));
                assert forall|a: int, b: int|
                    0 <= a < self@.len() && 0 <= b < self@.len() && #[trigger] self@[a].0 == #[trigger] self@[b].0 implies a
                    == b by {
                    if a < old(self)@.len() && b == old(self)@.len() {
                        assert(old(self)@[a].0 == k);
                    }
                    if b < old(self)@.len() && a == old(self)@.len() {
                        assert(old(self)@[b].0 == k);
                    }
                }
                self.entries.len() - 1
            },
        };
        let ghost mid = self@;
        let e = &mut self.entries[i];
        let r = &mut e.1;
        proof {
            assert(mid[i as int].0 == k);
            assert(mid.update(i as int, (k, *final(r)))[i as int] == (k, *final(r)));
        }
        r
    }
}

/// The fields of a struct pattern or of an enum variant, by name.
#[derive(Debug)]
pub struct Variant {
    pub fields: SymbolMap<Field>,
}

impl Variant {
    /// No field.
    pub fn new() -> (r: Self)
        ensures
            r.fields.wf(),
            r.fields@.len() == 0,
    {
        Variant { fields: SymbolMap::new() }
    }

    /// Give the field `name` the type `ty`, in place of the type it had.
    pub fn add_field(&mut self, name: Symbol, ty: PatTy)
        requires
            old(self).fields.wf(),
        ensures
            final(self).fields.wf(),
            has_key(old(self).fields@, name) ==> exists|i: int|
                0 <= i < old(self).fields@.len() && old(self).fields@[i].0 == name && final(self).fields@
                    == old(self).fields@.update(i, (name, Field { ty })),
            !has_key(old(self).fields@, name) ==> final(self).fields@ == old(self).fields@.push(
                (name, Field { ty }),
            ),
    {
        self.fields.insert(name, Field { ty });
    }
}

/// A struct pattern has one variant; an enum pattern has variants by name.
#[derive(Debug)]
pub enum AdtKind {
    Struct(Variant),
    Enum(SymbolMap<Variant>),
}

/// An ADT pattern.
#[derive(Debug)]
pub struct Adt {
    pub kind: AdtKind,
}

impl Adt {
    /// A struct pattern without fields.
    pub fn new_struct() -> (r: Self)
        ensures
            r.kind matches AdtKind::Struct(v) && v.fields.wf() && v.fields@.len() == 0,
    {
        Adt { kind: AdtKind::Struct(Variant::new()) }
    }

    /// An enum pattern without variants.
    pub fn new_enum() -> (r: Self)
        ensures
            r.kind matches AdtKind::Enum(m) && m.wf() && m@.len() == 0,
    {
        Adt { kind: AdtKind::Enum(SymbolMap::new()) }
    }

    /// The variant of a struct pattern, to be changed.
    pub fn non_enum_variant_mut(&mut self) -> (r: &mut Variant)
        requires
            old(self).kind is Struct,
        ensures
            old(self).kind == AdtKind::Struct(*r),
            final(self).kind == AdtKind::Struct(*final(r)),
    {
        match &mut self.kind {
            AdtKind::Struct(variant) => variant,
            AdtKind::Enum(_) => unreached(),
        }
    }

    /// The variant `name` of an enum pattern, added without fields if absent; handed
    /// back to be changed.
    pub fn add_variant(&mut self, name: Symbol) -> (r: &mut Variant)
        requires
            old(self).kind matches AdtKind::Enum(m) && m.wf(),
        ensures
            final(self).kind matches AdtKind::Enum(fm) && fm.wf() && ({
                let m = old(self).kind->Enum_0@;
                &&& has_key(m, name) ==> *r == value_of(m, name) && exists|i: int|
                    0 <= i < m.len() && m[i].0 == name && fm@ == m.update(i, (name, *final(r)))
                &&& !has_key(m, name) ==> r.fields@.len() == 0 && r.fields.wf() && fm@ == m.push(
                    (name, *final(r)),
                )
            }),
    {
        match &mut self.kind {
            AdtKind::Struct(_) => unreached(),
            AdtKind::Enum(variants) => variants.get_or_insert(name, Variant::new()),
        }
    }

    /// The variant of a struct pattern.
    pub fn non_enum_variant(&self) -> (r: &Variant)
        requires
            self.kind is Struct,
        ensures
            self.kind == AdtKind::Struct(*r),
    {
        match &self.kind {
            AdtKind::Struct(variant) => variant,
            AdtKind::Enum(_) => unreached(),
        }
    }
}

/// Whether a binding is mutable.
#[derive(Debug, Clone, Copy, PartialEq, Eq, Structural)]
pub enum Mutability {
    Not,
    Mut,
}

/// A parameter of a function pattern.
#[derive(Debug, Clone, Copy, PartialEq, Eq, Structural)]
pub struct Param {
    pub mutability: Mutability,
    pub ident: Symbol,
    pub ty: PatTy,
}

/// The parameters of a function pattern, in order, and whether more may follow.
#[derive(Debug)]
pub struct Params {
    pub params: Vec<Param>,
    pub non_exhaustive: bool,
}

impl Params {
    /// No parameter, exhaustive.
    pub fn new() -> (r: Self)
        ensures
            r.params@.len() == 0,
            !r.non_exhaustive,
    {
        Params { params: Vec::new(), non_exhaustive: false }
    }

    /// Append a parameter.
    pub fn add_param(&mut self, ident: Symbol, mutability: Mutability, ty: PatTy)
        ensures
            final(self).params@ == old(self).params@.push(Param { mutability, ident, ty }),
            final(self).non_exhaustive == old(self).non_exhaustive,
    {
        self.params.push(Param { mutability, ident, ty });
    }

    /// Let more parameters follow.
    pub fn set_non_exhaustive(&mut self)
        ensures
            final(self).params@ == old(self).params@,
            final(self).non_exhaustive,
    {
        self.non_exhaustive = true;
    }
}

/// A MIR pattern, by identity.
#[derive(Debug, Clone, Copy, PartialEq, Eq, Structural)]
pub struct MirPatternRef {
    pub id: u64,
}

/// The body of a function pattern.
#[derive(Debug, Clone, Copy, PartialEq, Eq, Structural)]
pub enum FnBody {
    Mir(MirPatternRef),
}

/// A function pattern: parameters, return type and body.
#[derive(Debug)]
pub struct Fn {
    pub params: Params,
    pub ret: PatTy,
    pub body: Option<FnBody>,
}

impl Fn {
    /// No parameter and no body, returning `ret`.
    pub fn new(ret: PatTy) -> (r: Self)
        ensures
            r.params.params@.len() == 0,
            !r.params.non_exhaustive,
            r.ret == ret,
            r.body is None,
    {
        Fn { params: Params::new(), ret, body: None }
    }

    /// Set the body.
    pub fn set_body(&mut self, body: FnBody)
        ensures
            final(self).body == Some(body),
            final(self).params == old(self).params,
            final(self).ret == old(self).ret,
    {
        self.body = Some(body);
    }

    /// The MIR body, which must be set.
    pub fn expect_mir_body(&self) -> (r: MirPatternRef)
        requires
            self.body is Some,
        ensures
            self.body == Some(FnBody::Mir(r)),
    {
        match self.body {
            Some(FnBody::Mir(mir_body)) => mir_body,
            None => unreached(),
        }
    }
}

/// The function patterns of an item: named ones, named patterns, and unnamed ones.
#[derive(Debug)]
pub struct Fns {
    fns: SymbolMap<Fn>,
    fn_pats: SymbolMap<Fn>,
    unnamed_fns: Vec<Fn>,
}

impl Fns {
    pub closed spec fn named(&self) -> Seq<(Symbol, Fn)> {
        self.fns@
    }

    pub closed spec fn patterns(&self) -> Seq<(Symbol, Fn)> {
        self.fn_pats@
    }

    pub closed spec fn unnamed(&self) -> Seq<Fn> {
        self.unnamed_fns@
    }

    pub open spec fn wf(&self) -> bool {
        keys_distinct(self.named()) && keys_distinct(self.patterns())
    }

    /// No function.
    pub fn new() -> (r: Self)
        ensures
            r.wf(),
            r.named().len() == 0,
            r.patterns().len() == 0,
            r.unnamed().len() == 0,
    {
        Fns { fns: SymbolMap::new(), fn_pats: SymbolMap::new(), unnamed_fns: Vec::new() }
    }

    /// The function pattern `name`.
    pub fn get_fn_pat(&self, name: Symbol) -> (r: Option<&Fn>)
        requires
            self.wf(),
        ensures
            r is Some == has_key(self.patterns(), name),
            r matches Some(f) ==> *f == value_of(self.patterns(), name),
    {
        self.fn_pats.get(name)
    }

    /// The function `name`, made without parameters or body if absent.
    pub fn new_fn(&mut self, name: Symbol, ret: PatTy) -> (r: &mut Fn)
        requires
            old(self).wf(),
        ensures
            final(self).wf(),
            final(self).patterns() == old(self).patterns(),
            final(self).unnamed() == old(self).unnamed(),
            has_key(old(self).named(), name) ==> *r == value_of(old(self).named(), name) && exists|i: int|
                0 <= i < old(self).named().len() && old(self).named()[i].0 == name && final(self).named()
                    == old(self).named().update(i, (name, *final(r))),
            !has_key(old(self).named(), name) ==> r.ret == ret && r.body is None && r.params.params@.len() == 0
                && final(self).named() == old(self).named().push((name, *final(r))),
    {
        self.fns.get_or_insert(name, Fn::new(ret))
    }

    /// The function pattern `name`, made without parameters or body if absent.
    pub fn new_fn_pat(&mut self, name: Symbol, ret: PatTy) -> (r: &mut Fn)
        requires
            old(self).wf(),
        ensures
            final(self).wf(),
            final(self).named() == old(self).named(),
            final(self).unnamed() == old(self).unnamed(),
            has_key(old(self).patterns(), name) ==> *r == value_of(old(self).patterns(), name) && exists|i: int|
                0 <= i < old(self).patterns().len() && old(self).patterns()[i].0 == name && final(self).patterns()
                    == old(self).patterns().update(i, (name, *final(r))),
            !has_key(old(self).patterns(), name) ==> r.ret == ret && r.body is None && r.params.params@.len() == 0
                && final(self).patterns() == old(self).patterns().push((name, *final(r))),
    {
        self.fn_pats.get_or_insert(name, Fn::new(ret))
    }

    /// A new unnamed function returning `ret`.
    pub fn new_unnamed(&mut self, ret: PatTy) -> (r: &mut Fn)
        requires
            old(self).wf(),
        ensures
            final(self).wf(),
            final(self).named() == old(self).named(),
            final(self).patterns() == old(self).patterns(),
            r.ret == ret && r.body is None && r.params.params@.len() == 0,
            final(self).unnamed() == old(self).unnamed().push(*final(r)),
    {
        self.unnamed_fns.push(Fn::new(ret));
        let last = self.unnamed_fns.len() - 1;
        let ghost mid = self.unnamed_fns@;
        let r = &mut self.unnamed_fns[last];
        proof {
            assert(mid.update(last as int, *final(r)) =~= old(self).unnamed_fns@.push(*final(r)));
        }
        r
    }
}

} // verus!
