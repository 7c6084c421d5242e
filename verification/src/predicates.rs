//! Predicates of pattern constraints: their names, the data a constraint holds, and the
//! decisions that the predicates on layouts and constants take once the compiler has
//! computed the layouts and evaluated the constants.
use vstd::prelude::*;

use crate::attributes::Attribute;
use crate::meta::{str_eq, SpanWrapper};
use crate::types::Symbol;

verus! {

/// Predicates on a single type.
#[derive(Debug, Clone, Copy, PartialEq, Eq, Structural)]
pub enum SingleTyPred {
    IsAllSafeTrait,
    IsNotUnpin,
    IsSync,
    IsIntegral,
    IsPtr,
    IsPrimitive,
    NeedsDrop,
}

/// Predicates that hold or fail whatever their arguments.
#[derive(Debug, Clone, Copy, PartialEq, Eq, Structural)]
pub enum TrivialPred {
    False,
    True,
}

/// Predicates on several types.
#[derive(Debug, Clone, Copy, PartialEq, Eq, Structural)]
pub enum MultipleTysPred {
    SameSize,
    SameAbiAndPrefAlign,
}

/// The predicate a name in a constraint stands for, grouped by what it takes.
#[derive(Debug, Clone, Copy, PartialEq, Eq, Structural)]
pub enum PredicateKind {
    Ty(SingleTyPred),
    /// `translate_from_function`
    Translate,
    Trivial(TrivialPred),
    MultipleTys(MultipleTysPred),
    /// `requires_monomorphization`
    Fn,
    /// `maybe_misaligned`
    TyConst,
    /// `usize_lt`
    MultipleConsts,
}

/// An error in a predicate of a pattern.
#[derive(Debug, Clone)]
pub enum PredicateError<'i> {
    /// No predicate has this name; where the name stands.
    InvalidPredicate { pred: &'i str, span: SpanWrapper<'i> },
    /// The arguments do not suit the predicate.
    InvalidArgs(String),
}

/// The predicate named `name`, if there is one.
pub open spec fn predicate_kind_of(name: Seq<char>) -> Option<PredicateKind> {
    if name == "is_all_safe_trait"@ {
        Some(PredicateKind::Ty(SingleTyPred::IsAllSafeTrait))
    } else if name == "is_not_unpin"@ {
        Some(PredicateKind::Ty(SingleTyPred::IsNotUnpin))
    } else if name == "is_sync"@ {
        Some(PredicateKind::Ty(SingleTyPred::IsSync))
    } else if name == "is_integral"@ {
        Some(PredicateKind::Ty(SingleTyPred::IsIntegral))
    } else if name == "is_ptr"@ {
        Some(PredicateKind::Ty(SingleTyPred::IsPtr))
    } else if name == "is_primitive"@ {
        Some(PredicateKind::Ty(SingleTyPred::IsPrimitive))
    } else if name == "needs_drop"@ {
        Some(PredicateKind::Ty(SingleTyPred::NeedsDrop))
    } else if name == "translate_from_function"@ {
        Some(PredicateKind::Translate)
    } else if name == "false"@ {
        Some(PredicateKind::Trivial(TrivialPred::False))
    } else if name == "true"@ {
        Some(PredicateKind::Trivial(TrivialPred::True))
    } else if name == "same_size"@ {
        Some(PredicateKind::MultipleTys(MultipleTysPred::SameSize))
    } else if name == "same_abi_and_pref_align"@ {
        Some(PredicateKind::MultipleTys(MultipleTysPred::SameAbiAndPrefAlign))
    } else if name == "requires_monomorphization"@ {
        Some(PredicateKind::Fn)
    } else if name == "maybe_misaligned"@ {
        Some(PredicateKind::TyConst)
    } else if name == "usize_lt"@ {
        Some(PredicateKind::MultipleConsts)
    } else {
        None
    }
}

impl PredicateKind {
    /// The predicate named `name`, written at `span`; an unknown name is an invalid
    /// predicate, reported with its place.
    pub fn try_from_name<'i>(name: &'i str, span: SpanWrapper<'i>) -> (r: Result<PredicateKind, PredicateError<'i>>)
        ensures
            match predicate_kind_of(name@) {
                Some(k) => r matches Ok(x) && x == k,
                None => r matches Err(PredicateError::InvalidPredicate { pred, span: sp }) && pred@ == name@
                    && sp.span == span.span && sp.path == span.path,
            },
    {
        if str_eq(name, "is_all_safe_trait") {
            Ok(PredicateKind::Ty(SingleTyPred::IsAllSafeTrait))
        } else if str_eq(name, "is_not_unpin") {
            Ok(PredicateKind::Ty(SingleTyPred::IsNotUnpin))
        } else if str_eq(name, "is_sync") {
            Ok(PredicateKind::Ty(SingleTyPred::IsSync))
        } else if str_eq(name, "is_integral") {
            Ok(PredicateKind::Ty(SingleTyPred::IsIntegral))
        } else if str_eq(name, "is_ptr") {
            Ok(PredicateKind::Ty(SingleTyPred::IsPtr))
        } else if str_eq(name, "is_primitive") {
            Ok(PredicateKind::Ty(SingleTyPred::IsPrimitive))
        } else if str_eq(name, "needs_drop") {
            Ok(PredicateKind::Ty(SingleTyPred::NeedsDrop))
        } else if str_eq(name, "translate_from_function") {
            Ok(PredicateKind::Translate)
        } else if str_eq(name, "false") {
            Ok(PredicateKind::Trivial(TrivialPred::False))
        } else if str_eq(name, "true") {
            Ok(PredicateKind::Trivial(TrivialPred::True))
        } else if str_eq(name, "same_size") {
            Ok(PredicateKind::MultipleTys(MultipleTysPred::SameSize))
        } else if str_eq(name, "same_abi_and_pref_align") {
            Ok(PredicateKind::MultipleTys(MultipleTysPred::SameAbiAndPrefAlign))
        } else if str_eq(name, "requires_monomorphization") {
            Ok(PredicateKind::Fn)
        } else if str_eq(name, "maybe_misaligned") {
            Ok(PredicateKind::TyConst)
        } else if str_eq(name, "usize_lt") {
            Ok(PredicateKind::MultipleConsts)
        } else {
            Err(PredicateError::InvalidPredicate { pred: name, span })
        }
    }
}

/// An argument of a predicate.
#[derive(Debug, Clone)]
pub enum PredicateArg {
    Label(Symbol),
    MetaVar(Symbol),
    Path(Vec<Symbol>),
    SelfValue,
}

/// A predicate applied to arguments, possibly negated.
#[derive(Debug, Clone)]
pub struct PredicateTerm {
    pub kind: PredicateKind,
    pub args: Vec<PredicateArg>,
    pub is_neg: bool,
}

/// A disjunction of predicate terms.
#[derive(Debug, Clone)]
pub struct PredicateClause {
    pub terms: Vec<PredicateTerm>,
}

/// A conjunction of clauses.
#[derive(Debug, Clone)]
pub struct PredicateConjunction {
    pub clauses: Vec<PredicateClause>,
}

/// A constraint of a pattern: predicates, or an attribute.
#[derive(Debug, Clone)]
pub enum Constraint {
    Pred(PredicateConjunction),
    Attr(Attribute),
}

/// What the compiler computed of the layout of a type.
#[derive(Debug, Clone, Copy, PartialEq, Eq, Structural)]
pub struct Layout {
    pub size: u64,
    pub abi_align: u64,
    pub pref_align: u64,
}

/// Every layout is known.
pub open spec fn all_known(layouts: Seq<Option<Layout>>) -> bool {
    forall|i: int| 0 <= i < layouts.len() ==> (#[trigger] layouts[i]) is Some
}

/// `same_size`: every layout is known and all sizes are equal.
pub open spec fn same_size_holds(layouts: Seq<Option<Layout>>) -> bool {
    &&& all_known(layouts)
    &&& forall|i: int| 0 <= i < layouts.len() ==> (#[trigger] layouts[i])->Some_0.size == layouts[0]->Some_0.size
}

/// `same_abi_and_pref_align`: every layout is known and all alignments are equal.
pub open spec fn same_align_holds(layouts: Seq<Option<Layout>>) -> bool {
    &&& all_known(layouts)
    &&& forall|i: int|
        0 <= i < layouts.len() ==> (#[trigger] layouts[i])->Some_0.abi_align == layouts[0]->Some_0.abi_align
            && layouts[i]->Some_0.pref_align == layouts[0]->Some_0.pref_align
}

/// Two layouts are compatible unless both are known and differ in size or ABI alignment.
pub open spec fn layouts_compatible(a: Option<Layout>, b: Option<Layout>) -> bool {
    match (a, b) {
        (Some(x), Some(y)) => x.size == y.size && x.abi_align == y.abi_align,
        _ => true,
    }
}

/// `compatible_layout`: the first layout is compatible with every other one.
pub open spec fn compatible_layout_holds(layouts: Seq<Option<Layout>>) -> bool {
    forall|i: int| 1 <= i < layouts.len() ==> layouts_compatible(layouts[0], #[trigger] layouts[i])
}

/// `usize_lt`: every constant is known and they strictly increase.
pub open spec fn usize_lt_holds(values: Seq<Option<u64>>) -> bool {
    forall|i: int|
        0 <= i < values.len() - 1 ==> (#[trigger] values[i]) is Some && values[i + 1] is Some && values[i]->Some_0
            < values[i + 1]->Some_0
}

/// Whether all types have the same size, given their layouts (`None` where the layout
/// could not be computed).
pub fn same_size(layouts: &Vec<Option<Layout>>) -> (r: bool)
    ensures
        r == same_size_holds(layouts@),
{
    for i in 0..layouts.len()
        invariant
            forall|j: int| 0 <= j < i ==> (#[trigger] layouts@[j]) is Some,
    {
        if layouts[i].is_none() {
            return false;
        }
    }
    for i in 0..layouts.len()
        invariant
            all_known(layouts@),
            forall|j: int| 0 <= j < i ==> (#[trigger] layouts@[j])->Some_0.size == layouts@[0]->Some_0.size,
    {
        if layouts[i].unwrap().size != layouts[0].unwrap().size {
            return false;
        }
    }
    true
}

/// Whether all types have the same ABI and preferred alignments, given their layouts
/// (`None` where the layout could not be computed).
pub fn same_abi_and_pref_align(layouts: &Vec<Option<Layout>>) -> (r: bool)
    ensures
        r == same_align_holds(layouts@),
{
    for i in 0..layouts.len()
        invariant
            forall|j: int| 0 <= j < i ==> (#[trigger] layouts@[j]) is Some,
    {
        if layouts[i].is_none() {
            return false;
        }
    }
    for i in 0..layouts.len()
        invariant
            all_known(layouts@),
            forall|j: int|
                0 <= j < i ==> (#[trigger] layouts@[j])->Some_0.abi_align == layouts@[0]->Some_0.abi_align
                    && layouts@[j]->Some_0.pref_align == layouts@[0]->Some_0.pref_align,
    {
        let a = layouts[i].unwrap();
        let b = layouts[0].unwrap();
        if a.abi_align != b.abi_align || a.pref_align != b.pref_align {
            return false;
        }
    }
    true
}

/// Whether the first type's layout is compatible with each other type's; an unknown
/// layout is compatible with anything.
pub fn compatible_layout(layouts: &Vec<Option<Layout>>) -> (r: bool)
    ensures
        r == compatible_layout_holds(layouts@),
{
    if layouts.len() == 0 {
        return true;
    }
    let first = layouts[0];
    for i in 1..layouts.len()
        invariant
            first == layouts@[0],
            forall|j: int| 1 <= j < i ==> layouts_compatible(layouts@[0], #[trigger] layouts@[j]),
    {
        let ok = match (first, layouts[i]) {
            (Some(x), Some(y)) => x.size == y.size && x.abi_align == y.abi_align,
            _ => true,
        };
        if !ok {
            return false;
        }
    }
    true
}

/// Whether the constants strictly increase, given their values (`None` where a constant
/// is not a known integer).
pub fn usize_lt(values: &Vec<Option<u64>>) -> (r: bool)
    ensures
        r == usize_lt_holds(values@),
{
    let n = values.len();
    if n < 2 {
        return true;
    }
    let mut i: usize = 0;
    while i + 1 < n
        invariant
            n == values@.len(),
            i < n,
            forall|j: int|
                0 <= j < i ==> (#[trigger] values@[j]) is Some && values@[j + 1] is Some && values@[j]->Some_0
                    < values@[j + 1]->Some_0,
        decreases n - i,
    {
        let ok = match (values[i], values[i + 1]) {
            (Some(a), Some(b)) => a < b,
            _ => false,
        };
        if !ok {
            return false;
        }
        i = i + 1;
    }
    true
}

/// The type of a value whose alignment is checked.
#[derive(Debug, Clone, Copy, PartialEq, Eq, Structural)]
pub enum AlignedTy {
    /// A generic parameter: anything.
    Param,
    /// A foreign type: opaque.
    Foreign,
    /// Any other type, with its ABI alignment.
    Sized { abi_align: u64 },
}

/// Whether `alignment` may be too small for `ty`: always for a parameter or a foreign
/// type; otherwise when the alignment is not a known integer or is below the type's ABI
/// alignment.
pub fn maybe_misaligned(ty: AlignedTy, alignment: Option<u64>) -> (r: bool)
    ensures
        r == match ty {
            AlignedTy::Sized { abi_align } => match alignment {
                Some(a) => a < abi_align,
                None => true,
            },
            _ => true,
        },
{
    match ty {
        AlignedTy::Param => true,
        AlignedTy::Foreign => true,
        AlignedTy::Sized { abi_align } => match alignment {
            Some(a) => a < abi_align,
            None => true,
        },
    }
}

/// What the evaluation of a constant gives, as far as a null pointer check reads it.
#[derive(Debug, Clone, Copy, PartialEq, Eq, Structural)]
pub enum ScalarPtr {
    /// The scalar is not a pointer.
    NotPointer,
    /// A pointer with provenance.
    WithProvenance,
    /// A bare address.
    Address(u64),
}

/// Whether a constant may be a null pointer: when it cannot be evaluated, or it is a bare
/// address zero.
pub fn is_null_ptr(value: Option<ScalarPtr>) -> (r: bool)
    ensures
        r == match value {
            None => true,
            Some(ScalarPtr::Address(a)) => a == 0,
            Some(_) => false,
        },
{
    match value {
        None => true,
        Some(ScalarPtr::NotPointer) => false,
        Some(ScalarPtr::WithProvenance) => false,
        Some(ScalarPtr::Address(a)) => a == 0,
    }
}

} // verus!
