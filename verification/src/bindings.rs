//! The metavariable environment shared by all slots of a match session.
//!
//! A [`BindingSnapshot`] holds the metavariable values found by one candidate; a
//! [`MetaBindings`] holds the values fixed so far. Merging a snapshot succeeds when no
//! value it brings contradicts a value already fixed, and then fixes the new ones.
use vstd::prelude::*;

use crate::adt_fields::{
    entries_map, keys_distinct, lemma_entries_map_prefix, maps_agree, AdtFieldEntry, AdtFieldMap,
};
use crate::meta::MetaVariableType;
use crate::normalized::NormalizedMatched;
use crate::types::{copy_vec, Const, FieldIdx, Interned, PlaceRef, Symbol, Ty, TyKind};

verus! {

/// The non-local metavariables declared by a pattern, by kind.
#[derive(Debug)]
pub struct NonLocalMetaVars {
    pub ty_vars: Vec<Symbol>,
    pub const_vars: Vec<Symbol>,
    pub place_vars: Vec<Symbol>,
}

/// A declaration of a non-local metavariable: its name and its kind.
#[derive(Debug, Clone, Copy)]
pub struct MetaDecl {
    pub name: Symbol,
    pub kind: MetaVariableType,
}

/// The names of the declarations of kind `kind`, in declaration order.
pub open spec fn decl_names(decls: Seq<MetaDecl>, kind: MetaVariableType) -> Seq<Symbol>
    decreases decls.len(),
{
    if decls.len() == 0 {
        Seq::empty()
    } else if decls.last().kind == kind {
        decl_names(decls.drop_last(), kind).push(decls.last().name)
    } else {
        decl_names(decls.drop_last(), kind)
    }
}

impl NonLocalMetaVars {
    /// No metavariable.
    pub fn new() -> (r: Self)
        ensures
            r.ty_vars@.len() == 0,
            r.const_vars@.len() == 0,
            r.place_vars@.len() == 0,
    {
        NonLocalMetaVars { ty_vars: Vec::new(), const_vars: Vec::new(), place_vars: Vec::new() }
    }

    /// Declare a type metavariable after the others.
    pub fn add_ty_var(&mut self, name: Symbol)
        ensures
            final(self).ty_vars@ == old(self).ty_vars@.push(name),
            final(self).const_vars@ == old(self).const_vars@,
            final(self).place_vars@ == old(self).place_vars@,
    {
        self.ty_vars.push(name);
    }

    /// Declare a constant metavariable after the others.
    pub fn add_const_var(&mut self, name: Symbol)
        ensures
            final(self).const_vars@ == old(self).const_vars@.push(name),
            final(self).ty_vars@ == old(self).ty_vars@,
            final(self).place_vars@ == old(self).place_vars@,
    {
        self.const_vars.push(name);
    }

    /// Declare a place metavariable after the others.
    pub fn add_place_var(&mut self, name: Symbol)
        ensures
            final(self).place_vars@ == old(self).place_vars@.push(name),
            final(self).ty_vars@ == old(self).ty_vars@,
            final(self).const_vars@ == old(self).const_vars@,
    {
        self.place_vars.push(name);
    }

    /// The metavariables of a declaration list, each kind in declaration order.
    pub fn from_meta_decls(decls: &Vec<MetaDecl>) -> (r: Self)
        ensures
            r.ty_vars@ == decl_names(decls@, MetaVariableType::Type),
            r.const_vars@ == decl_names(decls@, MetaVariableType::Const),
            r.place_vars@ == decl_names(decls@, MetaVariableType::Place),
    {
        let mut meta = NonLocalMetaVars::new();
        for i in 0..decls.len()
            invariant
                meta.ty_vars@ == decl_names(decls@.subrange(0, i as int), MetaVariableType::Type),
                meta.const_vars@ == decl_names(decls@.subrange(0, i as int), MetaVariableType::Const),
                meta.place_vars@ == decl_names(decls@.subrange(0, i as int), MetaVariableType::Place),
        {
            let d = decls[i];
            proof {
                assert(decls@.subrange(0, i + 1).drop_last() =~= decls@.subrange(0, i as int));
                assert(decls@.subrange(0, i + 1).last() == d);
            }
            match d.kind {
                MetaVariableType::Type => meta.add_ty_var(d.name),
                MetaVariableType::Const => meta.add_const_var(d.name),
                MetaVariableType::Place => meta.add_place_var(d.name),
            }
        }
        assert(decls@.subrange(0, decls@.len() as int) =~= decls@);
        meta
    }
}

/// A type that ADT definition matching may bind to a type metavariable although it
/// says nothing about the concrete type: a generic parameter or the never type.
pub open spec fn skips_binding(ty: Ty) -> bool {
    ty.kind is Param || ty.kind is Never
}

/// Merging `source` into `target` meets no contradiction (values for which `skip`
/// holds are ignored).
pub open spec fn merge_ok<T>(target: Seq<Option<T>>, source: Seq<T>, skip: spec_fn(T) -> bool) -> bool {
    forall|i: int|
        0 <= i < source.len() ==> skip(#[trigger] source[i]) || target[i] is None || target[i] == Some(
            source[i],
        )
}

/// `target` after merging `source`: every value of `source` not skipped becomes fixed.
pub open spec fn merge_result<T>(target: Seq<Option<T>>, source: Seq<T>, skip: spec_fn(T) -> bool) -> Seq<
    Option<T>,
> {
    Seq::new(
        target.len(),
        |i: int|
            if i < source.len() && !skip(source[i]) {
                Some(source[i])
            } else {
                target[i]
            },
    )
}

/// Skip nothing.
pub open spec fn skip_none<T>() -> spec_fn(T) -> bool {
    |x: T| false
}

/// Skip the types that ADT definition matching binds without meaning.
pub open spec fn skip_unbound_tys() -> spec_fn(Ty) -> bool {
    |t: Ty| skips_binding(t)
}

/// What a merge that stopped at the first contradiction leaves behind: the values
/// before position `c` are merged, and position `c` contradicts.
pub open spec fn merge_stopped_at<T>(
    target: Seq<Option<T>>,
    source: Seq<T>,
    skip: spec_fn(T) -> bool,
    c: int,
    result: Seq<Option<T>>,
) -> bool {
    &&& 0 <= c < source.len()
    &&& merge_ok(target, source.take(c), skip)
    &&& !merge_ok(target, source.take(c + 1), skip)
    &&& result == merge_result(target, source.take(c), skip)
}

/// Merge `source` into `target`, fixing every value not yet fixed; stop with `false`
/// at the first value that contradicts a fixed one.
pub fn merge_index_vec<T: Interned>(target: &mut Vec<Option<T>>, source: &Vec<T>) -> (r: bool)
    requires
        source@.len() <= old(target)@.len(),
    ensures
        r == merge_ok(old(target)@, source@, skip_none()),
        r ==> final(target)@ == merge_result(old(target)@, source@, skip_none()),
        !r ==> exists|c: int| merge_stopped_at(old(target)@, source@, skip_none(), c, final(target)@),
{
    let ghost old_t = target@;
    let ghost skip = skip_none::<T>();
    let n = source.len();
    for i in 0..n
        invariant
            n == source@.len(),
            n <= old_t.len(),
            old_t == old(target)@,
            skip == skip_none::<T>(),
            merge_ok(old_t, source@.take(i as int), skip),
            target@ == merge_result(old_t, source@.take(i as int), skip),
    {
        let value = source[i];
        match target[i] {
            None => {
                target.set(i, Some(value));
            },
            Some(existing) => {
                if !existing.same(&value) {
                    proof {
                        assert(target@[i as int] == old_t[i as int]);
                        assert(source@[i as int] == value);
                        assert(!(skip(source@[i as int]) || old_t[i as int] is None || old_t[i as int] == Some(
                            source@[i as int],
                        )));
                        lemma_merge_conflict(old_t, source@, skip, i as int);
                    }
                    return false;
                }
            },
        }
        proof {
            lemma_merge_step(old_t, source@, skip, i as int);
            assert(target@ =~= merge_result(old_t, source@.take(i + 1), skip));
        }
    }
    proof {
        assert(source@.take(n as int) =~= source@);
    }
    true
}

proof fn lemma_merge_conflict<T>(target: Seq<Option<T>>, source: Seq<T>, skip: spec_fn(T) -> bool, i: int)
    requires
        0 <= i < source.len(),
        source.len() <= target.len(),
        merge_ok(target, source.take(i), skip),
        !(skip(source[i]) || target[i] is None || target[i] == Some(source[i])),
    ensures
        !merge_ok(target, source, skip),
        !merge_ok(target, source.take(i + 1), skip),
        merge_stopped_at(target, source, skip, i, merge_result(target, source.take(i), skip)),
{
    assert(source.take(i + 1)[i] == source[i]);
}

proof fn lemma_merge_step<T>(target: Seq<Option<T>>, source: Seq<T>, skip: spec_fn(T) -> bool, i: int)
    requires
        0 <= i < source.len(),
        source.len() <= target.len(),
        merge_ok(target, source.take(i), skip),
        skip(source[i]) || target[i] is None || target[i] == Some(source[i]),
    ensures
        merge_ok(target, source.take(i + 1), skip),
{
    assert forall|j: int| 0 <= j < i + 1 implies skip(#[trigger] source.take(i + 1)[j]) || target[j] is None
        || target[j] == Some(source.take(i + 1)[j]) by {
        if j < i {
            assert(source.take(i + 1)[j] == source.take(i)[j]);
        }
    }
}

/// ADT definition matching may bind type metavariables to generic parameters; concrete
/// bindings come from monomorphized function slots instead.
pub fn should_skip_ty_binding(ty: Ty) -> (r: bool)
    ensures
        r == skips_binding(ty),
{
    match ty.kind {
        TyKind::Param | TyKind::Never => true,
        TyKind::Other => false,
    }
}

/// The view of a snapshot of metavariable values.
pub struct SnapshotView {
    pub ty_vars: Seq<Ty>,
    pub const_vars: Seq<Const>,
    pub place_vars: Seq<PlaceRef>,
    pub adt_fields: Map<(Symbol, Symbol), FieldIdx>,
}

/// The view of the metavariable environment: a value per metavariable, if fixed.
pub struct BindingsView {
    pub ty_vars: Seq<Option<Ty>>,
    pub const_vars: Seq<Option<Const>>,
    pub place_vars: Seq<Option<PlaceRef>>,
    pub adt_fields: Map<(Symbol, Symbol), FieldIdx>,
}

/// The snapshot fits into the environment (every row is at most as long).
pub open spec fn snapshot_fits(b: BindingsView, s: SnapshotView) -> bool {
    &&& s.ty_vars.len() <= b.ty_vars.len()
    &&& s.const_vars.len() <= b.const_vars.len()
    &&& s.place_vars.len() <= b.place_vars.len()
}

/// Merging the type values `tys` into `b` meets no contradiction.
pub open spec fn ty_merge_ok(b: BindingsView, tys: Seq<Ty>) -> bool {
    merge_ok(b.ty_vars, tys, skip_unbound_tys())
}

/// `b` after merging the type values `tys`.
pub open spec fn ty_merged(b: BindingsView, tys: Seq<Ty>) -> BindingsView {
    BindingsView { ty_vars: merge_result(b.ty_vars, tys, skip_unbound_tys()), ..b }
}

/// Merging the snapshot into `b` meets no contradiction.
pub open spec fn snapshot_compatible(b: BindingsView, s: SnapshotView) -> bool {
    &&& merge_ok(b.ty_vars, s.ty_vars, skip_unbound_tys())
    &&& merge_ok(b.const_vars, s.const_vars, skip_none())
    &&& merge_ok(b.place_vars, s.place_vars, skip_none())
    &&& maps_agree(b.adt_fields, s.adt_fields)
}

/// `b` after merging the snapshot.
pub open spec fn snapshot_merged(b: BindingsView, s: SnapshotView) -> BindingsView {
    BindingsView {
        ty_vars: merge_result(b.ty_vars, s.ty_vars, skip_unbound_tys()),
        const_vars: merge_result(b.const_vars, s.const_vars, skip_none()),
        place_vars: merge_result(b.place_vars, s.place_vars, skip_none()),
        adt_fields: b.adt_fields.union_prefer_right(s.adt_fields),
    }
}

/// Merging the same values a second time meets no contradiction and changes nothing.
pub proof fn lemma_merge_idempotent<T>(target: Seq<Option<T>>, source: Seq<T>, skip: spec_fn(T) -> bool)
    requires
        source.len() <= target.len(),
        merge_ok(target, source, skip),
    ensures
        merge_ok(merge_result(target, source, skip), source, skip),
        merge_result(merge_result(target, source, skip), source, skip) == merge_result(target, source, skip),
{
    assert(merge_result(merge_result(target, source, skip), source, skip) =~= merge_result(target, source, skip));
}

/// Merging a snapshot a second time meets no contradiction and changes nothing.
pub proof fn lemma_snapshot_merge_idempotent(b: BindingsView, s: SnapshotView)
    requires
        snapshot_fits(b, s),
        snapshot_compatible(b, s),
    ensures
        snapshot_compatible(snapshot_merged(b, s), s),
        snapshot_merged(snapshot_merged(b, s), s) == snapshot_merged(b, s),
{
    lemma_merge_idempotent(b.ty_vars, s.ty_vars, skip_unbound_tys());
    lemma_merge_idempotent(b.const_vars, s.const_vars, skip_none());
    lemma_merge_idempotent(b.place_vars, s.place_vars, skip_none());
    let m = b.adt_fields.union_prefer_right(s.adt_fields);
    assert(maps_agree(m, s.adt_fields));
    assert(m.union_prefer_right(s.adt_fields) =~= m);
}

/// A merge that meets no contradiction keeps every value fixed before.
pub proof fn lemma_merge_keeps_fixed<T>(target: Seq<Option<T>>, source: Seq<T>, skip: spec_fn(T) -> bool)
    requires
        merge_ok(target, source, skip),
    ensures
        forall|i: int|
            0 <= i < target.len() && (#[trigger] target[i]) is Some ==> merge_result(target, source, skip)[i]
                == target[i],
{
}

/// The environment of a pattern with no metavariable fixed yet.
pub open spec fn empty_bindings(ty: nat, cst: nat, place: nat) -> BindingsView {
    BindingsView {
        ty_vars: Seq::new(ty, |i: int| None),
        const_vars: Seq::new(cst, |i: int| None),
        place_vars: Seq::new(place, |i: int| None),
        adt_fields: Map::empty(),
    }
}

/// Snapshot of metavariable bindings projected onto a shared [`NonLocalMetaVars`] index space.
#[derive(Debug)]
pub struct BindingSnapshot {
    pub ty_vars: Vec<Ty>,
    pub const_vars: Vec<Const>,
    pub place_vars: Vec<PlaceRef>,
    pub adt_fields: AdtFieldMap,
}

impl View for BindingSnapshot {
    type V = SnapshotView;

    open spec fn view(&self) -> SnapshotView {
        SnapshotView {
            ty_vars: self.ty_vars@,
            const_vars: self.const_vars@,
            place_vars: self.place_vars@,
            adt_fields: self.adt_fields@,
        }
    }
}

/// The placeholder that stands for a constant metavariable that ADT-only matching
/// does not bind.
pub open spec fn placeholder_const() -> Const {
    Const { id: 0 }
}

/// The placeholder that stands for a place metavariable that ADT-only matching
/// does not bind.
pub open spec fn placeholder_place() -> PlaceRef {
    PlaceRef { id: 0 }
}

impl BindingSnapshot {
    /// The metavariable values of a normalized match.
    pub fn from_normalized(matched: &NormalizedMatched) -> (r: BindingSnapshot)
        ensures
            r@ == (SnapshotView {
                ty_vars: matched@.ty_vars,
                const_vars: matched@.const_vars,
                place_vars: matched@.place_vars,
                adt_fields: matched@.adt_fields,
            }),
    {
        BindingSnapshot {
            ty_vars: copy_vec(&matched.ty_vars),
            const_vars: copy_vec(&matched.const_vars),
            place_vars: copy_vec(&matched.place_vars),
            adt_fields: matched.adt_fields.copy(),
        }
    }

    /// A partial snapshot holding only type metavariable values (e.g. from ADT
    /// matching); constant and place rows hold placeholders.
    pub fn from_ty_vars(meta: &NonLocalMetaVars, ty_vars: Vec<Ty>) -> (r: BindingSnapshot)
        requires
            ty_vars@.len() == meta.ty_vars@.len(),
        ensures
            r@.ty_vars == ty_vars@,
            r@.const_vars == Seq::new(meta.const_vars@.len(), |i: int| placeholder_const()),
            r@.place_vars == Seq::new(meta.place_vars@.len(), |i: int| placeholder_place()),
            r@.adt_fields == Map::<(Symbol, Symbol), FieldIdx>::empty(),
    {
        let mut const_vars: Vec<Const> = Vec::new();
        for i in 0..meta.const_vars.len()
            invariant
                const_vars@ == Seq::new(i as nat, |j: int| placeholder_const()),
        {
            const_vars.push(Const { id: 0 });
            assert(const_vars@ =~= Seq::new((i + 1) as nat, |j: int| placeholder_const()));
        }
        let mut place_vars: Vec<PlaceRef> = Vec::new();
        for i in 0..meta.place_vars.len()
            invariant
                place_vars@ == Seq::new(i as nat, |j: int| placeholder_place()),
        {
            place_vars.push(PlaceRef { id: 0 });
            assert(place_vars@ =~= Seq::new((i + 1) as nat, |j: int| placeholder_place()));
        }
        BindingSnapshot { ty_vars, const_vars, place_vars, adt_fields: AdtFieldMap::new() }
    }

    /// Merge only the type metavariable rows into `bindings` (placeholder constant and
    /// place rows are ignored).
    pub fn merge_ty_vars_into(&self, bindings: &mut MetaBindings) -> (r: bool)
        requires
            self.ty_vars@.len() <= old(bindings)@.ty_vars.len(),
        ensures
            r == ty_merge_ok(old(bindings)@, self.ty_vars@),
            r ==> final(bindings)@ == ty_merged(old(bindings)@, self.ty_vars@),
    {
        bindings.merge_ty_vars(&self.ty_vars)
    }

    /// A copy of this snapshot.
    pub fn copy(&self) -> (r: BindingSnapshot)
        ensures
            r@ == self@,
    {
        BindingSnapshot {
            ty_vars: copy_vec(&self.ty_vars),
            const_vars: copy_vec(&self.const_vars),
            place_vars: copy_vec(&self.place_vars),
            adt_fields: self.adt_fields.copy(),
        }
    }
}

/// Global metavariable environment shared across all slots in a match session.
#[derive(Debug)]
pub struct MetaBindings {
    pub ty_vars: Vec<Option<Ty>>,
    pub const_vars: Vec<Option<Const>>,
    pub place_vars: Vec<Option<PlaceRef>>,
    pub adt_fields: AdtFieldMap,
}

impl View for MetaBindings {
    type V = BindingsView;

    open spec fn view(&self) -> BindingsView {
        BindingsView {
            ty_vars: self.ty_vars@,
            const_vars: self.const_vars@,
            place_vars: self.place_vars@,
            adt_fields: self.adt_fields@,
        }
    }
}

fn nones<T>(n: usize) -> (r: Vec<Option<T>>)
    ensures
        r@ == Seq::new(n as nat, |i: int| None::<T>),
{
    let mut r: Vec<Option<T>> = Vec::new();
    for i in 0..n
        invariant
            r@ == Seq::new(i as nat, |j: int| None::<T>),
    {
        r.push(None);
        assert(r@ =~= Seq::new((i + 1) as nat, |j: int| None::<T>));
    }
    r
}

fn copy_opt_vec<T: Copy>(v: &Vec<Option<T>>) -> (r: Vec<Option<T>>)
    ensures
        r@ == v@,
{
    let mut r: Vec<Option<T>> = Vec::new();
    for i in 0..v.len()
        invariant
            r@ == v@.subrange(0, i as int),
    {
        let x = match v[i] {
            Some(x) => Some(x),
            None => None,
        };
        r.push(x);
    }
    assert(r@ == v@);
    r
}

fn opt_vec_eq<T: Interned>(a: &Vec<Option<T>>, b: &Vec<Option<T>>) -> (r: bool)
    ensures
        r == (a@ == b@),
{
    if a.len() != b.len() {
        return false;
    }
    for i in 0..a.len()
        invariant
            a@.len() == b@.len(),
            forall|j: int| 0 <= j < i ==> a@[j] == b@[j],
    {
        let same = match (a[i], b[i]) {
            (Some(x), Some(y)) => x.same(&y),
            (None, None) => true,
            _ => false,
        };
        if !same {
            return false;
        }
    }
    assert(a@ =~= b@);
    true
}

impl MetaBindings {
    /// The environment of `meta` with no metavariable fixed.
    pub fn new(meta: &NonLocalMetaVars) -> (r: MetaBindings)
        ensures
            r@ == empty_bindings(meta.ty_vars@.len(), meta.const_vars@.len(), meta.place_vars@.len()),
    {
        MetaBindings {
            ty_vars: nones(meta.ty_vars.len()),
            const_vars: nones(meta.const_vars.len()),
            place_vars: nones(meta.place_vars.len()),
            adt_fields: AdtFieldMap::new(),
        }
    }

    /// A copy of this environment.
    pub fn copy(&self) -> (r: MetaBindings)
        ensures
            r@ == self@,
    {
        MetaBindings {
            ty_vars: copy_opt_vec(&self.ty_vars),
            const_vars: copy_opt_vec(&self.const_vars),
            place_vars: copy_opt_vec(&self.place_vars),
            adt_fields: self.adt_fields.copy(),
        }
    }

    /// Merge every row of `snapshot`; `false` at the first contradiction.
    pub fn merge_snapshot(&mut self, snapshot: &BindingSnapshot) -> (r: bool)
        requires
            snapshot_fits(old(self)@, snapshot@),
        ensures
            r == snapshot_compatible(old(self)@, snapshot@),
            r ==> final(self)@ == snapshot_merged(old(self)@, snapshot@),
    {
        let ghost b = self@;
        if !self.merge_ty_vars(&snapshot.ty_vars) {
            return false;
        }
        if !merge_index_vec(&mut self.const_vars, &snapshot.const_vars) {
            return false;
        }
        if !merge_index_vec(&mut self.place_vars, &snapshot.place_vars) {
            return false;
        }
        let r = self.merge_adt_fields(&snapshot.adt_fields);
        proof {
            if r {
                assert(self@ =~= snapshot_merged(b, snapshot@));
            }
        }
        r
    }

    /// Merge the values of a normalized match.
    pub fn merge_normalized(&mut self, matched: &NormalizedMatched) -> (r: bool)
        requires
            matched.ty_vars@.len() <= old(self)@.ty_vars.len(),
            matched.const_vars@.len() <= old(self)@.const_vars.len(),
            matched.place_vars@.len() <= old(self)@.place_vars.len(),
        ensures
            r == snapshot_compatible(
                old(self)@,
                SnapshotView {
                    ty_vars: matched@.ty_vars,
                    const_vars: matched@.const_vars,
                    place_vars: matched@.place_vars,
                    adt_fields: matched@.adt_fields,
                },
            ),
            r ==> final(self)@ == snapshot_merged(
                old(self)@,
                SnapshotView {
                    ty_vars: matched@.ty_vars,
                    const_vars: matched@.const_vars,
                    place_vars: matched@.place_vars,
                    adt_fields: matched@.adt_fields,
                },
            ),
    {
        self.merge_snapshot(&BindingSnapshot::from_normalized(matched))
    }

    /// Merge type metavariable values from ADT slot matching (shape and types only).
    pub fn merge_adt_ty_bindings(&mut self, ty_bindings: &Vec<Ty>) -> (r: bool)
        requires
            ty_bindings@.len() <= old(self)@.ty_vars.len(),
        ensures
            r == ty_merge_ok(old(self)@, ty_bindings@),
            r ==> final(self)@ == ty_merged(old(self)@, ty_bindings@),
    {
        self.merge_ty_vars(ty_bindings)
    }

    /// Merge field metavariable bindings; `false` when one of them binds a field
    /// metavariable already bound to another field.
    pub fn merge_adt_fields(&mut self, fields: &AdtFieldMap) -> (r: bool)
        ensures
            r == maps_agree(old(self)@.adt_fields, fields@),
            r ==> final(self)@ == (BindingsView {
                adt_fields: old(self)@.adt_fields.union_prefer_right(fields@),
                ..old(self)@
            }),
            !r ==> {
                &&& final(self)@.ty_vars == old(self)@.ty_vars
                &&& final(self)@.const_vars == old(self)@.const_vars
                &&& final(self)@.place_vars == old(self)@.place_vars
                &&& old(self)@.adt_fields.submap_of(final(self)@.adt_fields)
                &&& forall|k: (Symbol, Symbol)|
                    #[trigger] final(self)@.adt_fields.contains_key(k) && !old(self)@.adt_fields.contains_key(k)
                        ==> fields@.contains_key(k) && final(self)@.adt_fields[k] == fields@[k]
            },
    {
        let ghost old_m = self@.adt_fields;
        let ghost old_b = self@;
        let ghost f = fields@;
        let n = fields.len();
        let ghost es = fields.entries_seq();
        proof {
            assert(es.take(0) =~= Seq::<AdtFieldEntry>::empty());
            assert(entries_map(es.take(0)) =~= Map::<(Symbol, Symbol), FieldIdx>::empty());
            assert(old_m.union_prefer_right(Map::empty()) =~= old_m);
        }
        for i in 0..n
            invariant
                n == es.len(),
                es == fields.entries_seq(),
                keys_distinct(es),
                old_m == old(self)@.adt_fields,
                old_b == old(self)@,
                f == fields@,
                f == entries_map(es),
                self@.ty_vars == old_b.ty_vars,
                self@.const_vars == old_b.const_vars,
                self@.place_vars == old_b.place_vars,
                maps_agree(old_m, entries_map(es.take(i as int))),
                self@.adt_fields == old_m.union_prefer_right(entries_map(es.take(i as int))),
        {
            let e = fields.entry(i);
            proof {
                lemma_entries_map_prefix(es, i as int);
            }
            let ghost prefix = entries_map(es.take(i as int));
            let ghost k = e.key();
            match self.adt_fields.get(e.adt, e.field) {
                None => {
                    self.adt_fields.insert(e.adt, e.field, e.idx);
                    proof {
                        assert(self@.adt_fields =~= old_m.union_prefer_right(entries_map(es.take(i + 1))));
                    }
                },
                Some(existing) => {
                    if existing != e.idx {
                        proof {
                            assert(!prefix.contains_key(k));
                            assert(old_m.union_prefer_right(prefix)[k] == old_m[k]);
                            assert(f[k] == e.idx);
                            assert(old_m.contains_key(k) && old_m[k] != f[k]);
                            assert(!maps_agree(old_m, f));
                            assert forall|kk: (Symbol, Symbol)| #[trigger] self@.adt_fields.contains_key(kk)
                                && !old_m.contains_key(kk) implies f.contains_key(kk) && self@.adt_fields[kk]
                                == f[kk] by {
                                assert(prefix.contains_key(kk));
                            }
                            assert(old_m.submap_of(self@.adt_fields));
                        }
                        return false;
                    }
                    proof {
                        assert(self@.adt_fields =~= old_m.union_prefer_right(entries_map(es.take(i + 1))));
                    }
                },
            }
        }
        proof {
            assert(es.take(n as int) =~= es);
            assert(self@ =~= (BindingsView { adt_fields: old_m.union_prefer_right(f), ..old_b }));
        }
        true
    }

    /// Merge type metavariable values, ignoring generic parameters and the never type.
    pub fn merge_ty_vars(&mut self, vars: &Vec<Ty>) -> (r: bool)
        requires
            vars@.len() <= old(self)@.ty_vars.len(),
        ensures
            r == ty_merge_ok(old(self)@, vars@),
            r ==> final(self)@ == ty_merged(old(self)@, vars@),
            !r ==> exists|c: int|
                merge_stopped_at(old(self)@.ty_vars, vars@, skip_unbound_tys(), c, final(self)@.ty_vars),
            final(self)@.const_vars == old(self)@.const_vars,
            final(self)@.place_vars == old(self)@.place_vars,
            final(self)@.adt_fields == old(self)@.adt_fields,
    {
        let ghost old_b = self@;
        let ghost old_t = self@.ty_vars;
        let ghost skip = skip_unbound_tys();
        let n = vars.len();
        for i in 0..n
            invariant
                n == vars@.len(),
                n <= old_t.len(),
                old_t == old(self)@.ty_vars,
                old_b == old(self)@,
                skip == skip_unbound_tys(),
                self@.const_vars == old_b.const_vars,
                self@.place_vars == old_b.place_vars,
                self@.adt_fields == old_b.adt_fields,
                merge_ok(old_t, vars@.take(i as int), skip),
                self@.ty_vars == merge_result(old_t, vars@.take(i as int), skip),
        {
            let value = vars[i];
            if !should_skip_ty_binding(value) {
                match self.ty_vars[i] {
                    None => {
                        self.ty_vars.set(i, Some(value));
                    },
                    Some(existing) => {
                        if !existing.same(&value) {
                            proof {
                                assert(self@.ty_vars[i as int] == old_t[i as int]);
                                assert(vars@[i as int] == value);
                                assert(!(skip(vars@[i as int]) || old_t[i as int] is None || old_t[i as int] == Some(
                                    vars@[i as int],
                                )));
                                lemma_merge_conflict(old_t, vars@, skip, i as int);
                            }
                            return false;
                        }
                    },
                }
            }
            proof {
                lemma_merge_step(old_t, vars@, skip, i as int);
                assert(self@.ty_vars =~= merge_result(old_t, vars@.take(i + 1), skip));
            }
        }
        proof {
            assert(vars@.take(n as int) =~= vars@);
            assert(self@ =~= ty_merged(old_b, vars@));
        }
        true
    }

    /// Merge constant metavariable values.
    pub fn merge_const_vars(&mut self, vars: &Vec<Const>) -> (r: bool)
        requires
            vars@.len() <= old(self)@.const_vars.len(),
        ensures
            r == merge_ok(old(self)@.const_vars, vars@, skip_none()),
            r ==> final(self)@ == (BindingsView {
                const_vars: merge_result(old(self)@.const_vars, vars@, skip_none()),
                ..old(self)@
            }),
    {
        merge_index_vec(&mut self.const_vars, vars)
    }

    /// Merge place metavariable values.
    pub fn merge_place_vars(&mut self, vars: &Vec<PlaceRef>) -> (r: bool)
        requires
            vars@.len() <= old(self)@.place_vars.len(),
        ensures
            r == merge_ok(old(self)@.place_vars, vars@, skip_none()),
            r ==> final(self)@ == (BindingsView {
                place_vars: merge_result(old(self)@.place_vars, vars@, skip_none()),
                ..old(self)@
            }),
    {
        merge_index_vec(&mut self.place_vars, vars)
    }

    /// Whether both environments fix the same values.
    pub fn equivalent_to(&self, other: &Self) -> (r: bool)
        ensures
            r == (self@ == other@),
    {
        let a = opt_vec_eq(&self.ty_vars, &other.ty_vars);
        let b = opt_vec_eq(&self.const_vars, &other.const_vars);
        let c = opt_vec_eq(&self.place_vars, &other.place_vars);
        let d = self.adt_fields.same_bindings(&other.adt_fields);
        a && b && c && d
    }
}

} // verus!
