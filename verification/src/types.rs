//! Plain values that stand for the compiler's interned entities.
//!
//! The matcher compares types, constants, places, symbols and definitions only by
//! identity, so each of them is carried here as the identity the compiler gave it.
use vstd::prelude::*;

verus! {

/// An interned name.
#[derive(Debug, Clone, Copy, PartialEq, Eq, Structural, Hash)]
pub struct Symbol {
    pub id: u64,
}

/// A definition of the crate being checked.
#[derive(Debug, Clone, Copy, PartialEq, Eq, Structural, Hash)]
pub struct LocalDefId {
    pub local_def_index: u32,
}

/// What the matcher needs to know of the shape of a type.
#[derive(Debug, Clone, Copy, PartialEq, Eq, Structural, Hash)]
pub enum TyKind {
    /// A generic parameter.
    Param,
    /// The never type.
    Never,
    /// Any other type.
    Other,
}

/// An interned type: its identity and its kind.
#[derive(Debug, Clone, Copy, PartialEq, Eq, Structural, Hash)]
pub struct Ty {
    pub id: u64,
    pub kind: TyKind,
}

/// An interned constant.
#[derive(Debug, Clone, Copy, PartialEq, Eq, Structural, Hash)]
pub struct Const {
    pub id: u64,
}

/// An interned place (a local with a projection).
#[derive(Debug, Clone, Copy, PartialEq, Eq, Structural, Hash)]
pub struct PlaceRef {
    pub id: u64,
}

/// The index of a field inside a struct or an enum variant.
pub type FieldIdx = u32;

/// Values compared by identity.
pub trait Interned: Copy {
    fn same(&self, other: &Self) -> (r: bool)
        ensures
            r == (*self == *other),
    ;
}

impl Interned for Ty {
    fn same(&self, other: &Self) -> (r: bool) {
        self.id == other.id && match (self.kind, other.kind) {
            (TyKind::Param, TyKind::Param) => true,
            (TyKind::Never, TyKind::Never) => true,
            (TyKind::Other, TyKind::Other) => true,
            _ => false,
        }
    }
}

impl Interned for Const {
    fn same(&self, other: &Self) -> (r: bool) {
        self.id == other.id
    }
}

impl Interned for PlaceRef {
    fn same(&self, other: &Self) -> (r: bool) {
        self.id == other.id
    }
}

impl Interned for Symbol {
    fn same(&self, other: &Self) -> (r: bool) {
        self.id == other.id
    }
}

impl Interned for LocalDefId {
    fn same(&self, other: &Self) -> (r: bool) {
        self.local_def_index == other.local_def_index
    }
}

/// An element-by-element copy of a vector of plain values.
pub fn copy_vec<T: Copy>(v: &Vec<T>) -> (r: Vec<T>)
    ensures
        r@ == v@,
{
    let mut r: Vec<T> = Vec::new();
    for i in 0..v.len()
        invariant
            r@ == v@.subrange(0, i as int),
    {
        r.push(v[i]);
    }
    assert(r@ == v@);
    r
}

/// Whether `v` holds `x`.
pub fn vec_contains<T: Interned>(v: &Vec<T>, x: &T) -> (r: bool)
    ensures
        r == v@.contains(*x),
{
    for i in 0..v.len()
        invariant
            forall|j: int| 0 <= j < i ==> v@[j] != *x,
    {
        if v[i].same(x) {
            return true;
        }
    }
    false
}

} // verus!
