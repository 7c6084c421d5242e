//! Matching an ADT pattern against an ADT definition: the kinds must agree, an enum
//! pattern's variants are looked up by name, and the field metavariables of the matched
//! variant get their candidates among the variant's fields.
//!
//! Which field can hold which field metavariable is decided by type matching; it is given
//! here as a compatibility table: `compat[p][v][i][e]` tells whether field `e` of variant
//! `v` of the ADT can hold field metavariable `i` of variant `p` of the pattern (a struct
//! has the single variant `0`, on both sides).
use vstd::prelude::*;

use crate::adt_fields::AdtFieldMap;
use crate::candidates::{
    all_have_candidates, all_matched, built_view, committed, distinct_names, field_bindings_of,
    fresh_view, room_from, search, Candidates, CandidatesView,
};
use crate::types::{FieldIdx, Interned, Symbol, Ty};

verus! {

/// A variant of an ADT definition: its name and the names of its fields.
#[derive(Debug, Clone)]
pub struct VariantShape {
    pub name: Symbol,
    pub field_names: Vec<Symbol>,
}

/// The kind of an ADT definition.
#[derive(Debug, Clone, Copy, PartialEq, Eq, Structural)]
pub enum AdtShapeKind {
    Struct,
    Enum,
    Union,
}

/// An ADT definition, as far as pattern matching reads it; a struct or a union has one
/// variant.
#[derive(Debug, Clone)]
pub struct AdtShape {
    pub kind: AdtShapeKind,
    pub variants: Vec<VariantShape>,
}

/// A variant of an ADT pattern: its name and its field metavariables.
#[derive(Debug, Clone)]
pub struct VariantPat {
    pub name: Symbol,
    pub fields: Vec<Symbol>,
}

/// The kind of an ADT pattern.
#[derive(Debug, Clone)]
pub enum AdtPatKind {
    Struct(VariantPat),
    Enum(Vec<VariantPat>),
}

/// Which variant of the ADT matched.
#[derive(Debug, Clone, Copy, PartialEq, Eq, Structural)]
pub enum AdtMatchKind {
    Struct,
    Enum { variant_idx: usize },
}

/// An ADT that matched an ADT pattern, with the candidates of its field metavariables.
#[derive(Debug)]
pub struct AdtMatch {
    pub kind: AdtMatchKind,
    pub fields: Candidates,
}

/// The variants of a pattern: a struct pattern's one, or an enum pattern's.
pub open spec fn pat_variants(pat: &AdtPatKind) -> Seq<VariantPat> {
    match pat {
        AdtPatKind::Struct(vp) => seq![*vp],
        AdtPatKind::Enum(vps) => vps@,
    }
}

/// A compatibility matrix as rows of booleans.
pub open spec fn matrix_view(m: Vec<Vec<bool>>) -> Seq<Seq<bool>> {
    m@.map_values(|c: Vec<bool>| c@)
}

/// The inputs fit together: a struct or a union has one variant, every pattern variant
/// names distinct field metavariables, every variant has at most `u32::MAX` fields, and
/// the compatibility table has a matrix for every pair of variants with one row per field
/// metavariable and one column per field.
pub open spec fn adt_inputs_fit(pat: &AdtPatKind, adt: &AdtShape, compat: &Vec<Vec<Vec<Vec<bool>>>>) -> bool {
    let pvs = pat_variants(pat);
    &&& (adt.kind !is Enum ==> adt.variants@.len() == 1)
    &&& forall|p: int| 0 <= p < pvs.len() ==> distinct_names((#[trigger] pvs[p]).fields@)
    &&& forall|v: int| 0 <= v < adt.variants@.len() ==> (#[trigger] adt.variants@[v]).field_names@.len() <= u32::MAX
    &&& compat@.len() == pvs.len()
    &&& forall|p: int| 0 <= p < pvs.len() ==> (#[trigger] compat@[p])@.len() == adt.variants@.len()
    &&& forall|p: int, v: int|
        0 <= p < pvs.len() && 0 <= v < adt.variants@.len() ==> {
            let m = #[trigger] compat@[p]@[v];
            &&& m@.len() == pvs[p].fields@.len()
            &&& forall|i: int| 0 <= i < m@.len() ==> (#[trigger] m@[i])@.len() == adt.variants@[v].field_names@.len()
        }
}

/// The first variant at or after `from` named `name`.
pub open spec fn named_variant(variants: Seq<VariantShape>, name: Symbol, from: int) -> Option<int>
    decreases variants.len() - from,
{
    if from < 0 || from >= variants.len() {
        None
    } else if variants[from].name == name {
        Some(from)
    } else {
        named_variant(variants, name, from + 1)
    }
}

/// The candidates of pattern variant `p` against ADT variant `v`.
pub open spec fn variant_candidates(
    pat: &AdtPatKind,
    adt: &AdtShape,
    compat: &Vec<Vec<Vec<Vec<bool>>>>,
    p: int,
    v: int,
) -> CandidatesView {
    built_view(pat_variants(pat)[p].fields@, adt.variants@[v].field_names@, matrix_view(compat@[p]@[v]))
}

/// The structure match of the enum pattern's variants from `p` on: the first variant
/// found in the ADT whose field metavariables all have candidates.
pub open spec fn enum_structure_from(pat: &AdtPatKind, adt: &AdtShape, compat: &Vec<Vec<Vec<Vec<bool>>>>, p: int) -> Option<
    (AdtMatchKind, CandidatesView),
>
    decreases pat_variants(pat).len() - p,
{
    let pvs = pat_variants(pat);
    if p < 0 || p >= pvs.len() {
        None
    } else {
        match named_variant(adt.variants@, pvs[p].name, 0) {
            None => enum_structure_from(pat, adt, compat, p + 1),
            Some(v) => {
                let b = variant_candidates(pat, adt, compat, p, v);
                if all_have_candidates(b) {
                    Some((AdtMatchKind::Enum { variant_idx: v as usize }, b))
                } else {
                    enum_structure_from(pat, adt, compat, p + 1)
                }
            },
        }
    }
}

/// The structure match of `pat` against `adt`: the matched variant and the candidates of
/// its field metavariables, with nothing matched yet.
pub open spec fn structure_match(pat: &AdtPatKind, adt: &AdtShape, compat: &Vec<Vec<Vec<Vec<bool>>>>) -> Option<
    (AdtMatchKind, CandidatesView),
> {
    match (pat, adt.kind) {
        (AdtPatKind::Struct(_), AdtShapeKind::Struct) => {
            let b = variant_candidates(pat, adt, compat, 0, 0);
            if all_have_candidates(b) {
                Some((AdtMatchKind::Struct, b))
            } else {
                None
            }
        },
        (AdtPatKind::Enum(_), AdtShapeKind::Enum) => enum_structure_from(pat, adt, compat, 0),
        _ => None,
    }
}

/// The full match of the enum pattern's variants from `p` on: the first variant found in
/// the ADT whose field metavariables can all be matched; a variant found whose field
/// metavariables do not all have candidates ends the search with no match.
pub open spec fn enum_match_from(pat: &AdtPatKind, adt: &AdtShape, compat: &Vec<Vec<Vec<Vec<bool>>>>, p: int) -> Option<
    (AdtMatchKind, CandidatesView),
>
    decreases pat_variants(pat).len() - p,
{
    let pvs = pat_variants(pat);
    if p < 0 || p >= pvs.len() {
        None
    } else {
        match named_variant(adt.variants@, pvs[p].name, 0) {
            None => enum_match_from(pat, adt, compat, p + 1),
            Some(v) => {
                let b = variant_candidates(pat, adt, compat, p, v);
                if !all_have_candidates(b) {
                    None
                } else {
                    match search(b, 0) {
                        Some(w) => Some((AdtMatchKind::Enum { variant_idx: v as usize }, w)),
                        None => enum_match_from(pat, adt, compat, p + 1),
                    }
                }
            },
        }
    }
}

/// The full match of `pat` against `adt`: the matched variant with every field
/// metavariable matched to a field.
pub open spec fn full_match(pat: &AdtPatKind, adt: &AdtShape, compat: &Vec<Vec<Vec<Vec<bool>>>>) -> Option<
    (AdtMatchKind, CandidatesView),
> {
    match (pat, adt.kind) {
        (AdtPatKind::Struct(_), AdtShapeKind::Struct) => {
            let b = variant_candidates(pat, adt, compat, 0, 0);
            if all_have_candidates(b) {
                match search(b, 0) {
                    Some(w) => Some((AdtMatchKind::Struct, w)),
                    None => None,
                }
            } else {
                None
            }
        },
        (AdtPatKind::Enum(_), AdtShapeKind::Enum) => enum_match_from(pat, adt, compat, 0),
        _ => None,
    }
}

/// `r` is the match `m`.
pub open spec fn is_match(r: Option<AdtMatch>, m: Option<(AdtMatchKind, CandidatesView)>) -> bool {
    match (r, m) {
        (Some(a), Some((k, c))) => a.kind == k && a.fields@ == c,
        (None, None) => true,
        _ => false,
    }
}

fn find_variant(variants: &Vec<VariantShape>, name: Symbol) -> (r: Option<usize>)
    ensures
        match r {
            Some(v) => named_variant(variants@, name, 0) == Some(v as int),
            None => named_variant(variants@, name, 0) is None,
        },
{
    let mut v: usize = 0;
    while v < variants.len()
        invariant
            v <= variants@.len(),
            named_variant(variants@, name, 0) == named_variant(variants@, name, v as int),
        decreases variants@.len() - v,
    {
        if variants[v].name.same(&name) {
            return Some(v);
        }
        v = v + 1;
    }
    None
}

/// The candidates of pattern variant `p` (given as `vp`) against ADT variant `v`.
fn build_variant(
    pat: &AdtPatKind,
    vp: &VariantPat,
    adt: &AdtShape,
    compat: &Vec<Vec<Vec<Vec<bool>>>>,
    p: usize,
    v: usize,
) -> (r: Option<Candidates>)
    requires
        adt_inputs_fit(pat, adt, compat),
        p < pat_variants(pat).len(),
        *vp == pat_variants(pat)[p as int],
        v < adt.variants@.len(),
    ensures
        r is Some <==> all_have_candidates(variant_candidates(pat, adt, compat, p as int, v as int)),
        r matches Some(c) ==> c@ == variant_candidates(pat, adt, compat, p as int, v as int),
{
    let pvs = Ghost(pat_variants(pat));
    assert(distinct_names(pvs@[p as int].fields@));
    let m = &compat[p][v];
    assert(m@.len() == vp.fields@.len());
    Candidates::build(&vp.fields, &adt.variants[v].field_names, m)
}

proof fn lemma_built_room(names: Seq<Symbol>, field_names: Seq<Symbol>, rows: Seq<Seq<bool>>)
    ensures
        room_from(built_view(names, field_names, rows), 0),
{
    let c = built_view(names, field_names, rows);
    assert forall|j: int| 0 <= j < c.names.len() implies #[trigger] c.matches[j].count < usize::MAX by {
        assert(c.matches[j] == fresh_view(names, field_names.len()).matches[j]);
    }
}

impl AdtMatch {
    /// A struct that matched.
    pub fn new_struct(fields: Candidates) -> (r: Self)
        ensures
            r.kind == AdtMatchKind::Struct,
            r.fields@ == fields@,
    {
        AdtMatch { kind: AdtMatchKind::Struct, fields }
    }

    /// An enum that matched with variant `variant_idx`.
    pub fn new_enum(variant_idx: usize, fields: Candidates) -> (r: Self)
        ensures
            r.kind == (AdtMatchKind::Enum { variant_idx }),
            r.fields@ == fields@,
    {
        AdtMatch { kind: AdtMatchKind::Enum { variant_idx }, fields }
    }

    /// The candidates of the field metavariables.
    pub fn field_candidates(&self) -> (r: &Candidates)
        ensures
            r@ == self.fields@,
    {
        &self.fields
    }

    /// The candidates of the field metavariables of a struct.
    pub fn expect_struct(&self) -> (r: &Candidates)
        requires
            self.kind == AdtMatchKind::Struct,
        ensures
            r@ == self.fields@,
    {
        &self.fields
    }

    /// The bindings `(adt_pat, field metavariable) -> field` committed so far.
    pub fn field_bindings(&self, adt_pat: Symbol) -> (r: AdtFieldMap)
        ensures
            r@ == field_bindings_of(self.fields@, adt_pat),
    {
        self.fields.field_bindings(adt_pat)
    }

    /// Whether every field metavariable has a committed binding.
    pub fn all_fields_resolved(&self) -> (r: bool)
        ensures
            r == all_matched(self.fields@),
    {
        self.fields.all_fields_resolved()
    }
}

/// Match the kind of `pat` against `adt` and give the field metavariables of the matched
/// variant their candidates, matching none of them yet.
pub fn match_adt_structure(pat: &AdtPatKind, adt: &AdtShape, compat: &Vec<Vec<Vec<Vec<bool>>>>) -> (r: Option<
    AdtMatch,
>)
    requires
        adt_inputs_fit(pat, adt, compat),
    ensures
        is_match(r, structure_match(pat, adt, compat)),
{
    match pat {
        AdtPatKind::Struct(vp) => match adt.kind {
            AdtShapeKind::Struct => match build_variant(pat, vp, adt, compat, 0, 0) {
                Some(fields) => Some(AdtMatch::new_struct(fields)),
                None => None,
            },
            _ => None,
        },
        AdtPatKind::Enum(vps) => match adt.kind {
            AdtShapeKind::Enum => {
                let mut p: usize = 0;
                while p < vps.len()
                    invariant
                        adt_inputs_fit(pat, adt, compat),
                        pat_variants(pat) == vps@,
                        pat is Enum,
                        adt.kind == AdtShapeKind::Enum,
                        p <= vps@.len(),
                        enum_structure_from(pat, adt, compat, 0) == enum_structure_from(pat, adt, compat, p as int),
                    decreases vps@.len() - p,
                {
                    let vp = &vps[p];
                    match find_variant(&adt.variants, vp.name) {
                        Some(v) => {
                            proof {
                                lemma_named_variant_bounds(adt.variants@, vp.name, 0);
                            }
                            match build_variant(pat, vp, adt, compat, p, v) {
                                Some(fields) => {
                                    let ghost b = fields@;
                                    let r = AdtMatch::new_enum(v, fields);
                                    assert(enum_structure_from(pat, adt, compat, p as int) == Some(
                                        (AdtMatchKind::Enum { variant_idx: v }, b),
                                    ));
                                    return Some(r);
                                },
                                None => {},
                            }
                        },
                        None => {},
                    }
                    p = p + 1;
                }
                None
            },
            _ => None,
        },
    }
}

proof fn lemma_named_variant_bounds(variants: Seq<VariantShape>, name: Symbol, from: int)
    ensures
        named_variant(variants, name, from) matches Some(v) ==> from <= v < variants.len() && variants[v].name == name,
    decreases variants.len() - from,
{
    if 0 <= from < variants.len() && variants[from].name != name {
        lemma_named_variant_bounds(variants, name, from + 1);
    }
}

/// `v` is the first variant of `variants` named `name`.
pub open spec fn first_named(variants: Seq<VariantShape>, name: Symbol, v: int) -> bool {
    &&& 0 <= v < variants.len()
    &&& variants[v].name == name
    &&& forall|u: int| 0 <= u < v ==> (#[trigger] variants[u]).name != name
}

proof fn lemma_named_variant_first(variants: Seq<VariantShape>, name: Symbol, from: int)
    requires
        0 <= from,
    ensures
        named_variant(variants, name, from) matches Some(v) ==> from <= v < variants.len() && variants[v].name == name
            && forall|u: int| from <= u < v ==> (#[trigger] variants[u]).name != name,
        named_variant(variants, name, from) is None ==> forall|u: int|
            from <= u < variants.len() ==> (#[trigger] variants[u]).name != name,
    decreases variants.len() - from,
{
    if from < variants.len() && variants[from].name != name {
        lemma_named_variant_first(variants, name, from + 1);
    }
}

/// The lookup of a variant by name finds exactly the first variant with that name.
proof fn lemma_named_variant_is_first(variants: Seq<VariantShape>, name: Symbol, v: int)
    ensures
        named_variant(variants, name, 0) == Some(v) <==> first_named(variants, name, v),
{
    lemma_named_variant_first(variants, name, 0);
    if first_named(variants, name, v) {
        match named_variant(variants, name, 0) {
            Some(w) => {
                if w < v {
                    assert(variants[w].name != name);
                } else if w > v {
                    assert(variants[v].name != name);
                }
            },
            None => {
                assert(variants[v].name != name);
            },
        }
    }
}

/// Pattern variant `p` can match ADT variant `v`: `v` is the ADT's first variant with the
/// same name, and every field metavariable of `p` has a candidate field in `v`.
pub open spec fn variant_viable(pat: &AdtPatKind, adt: &AdtShape, compat: &Vec<Vec<Vec<Vec<bool>>>>, p: int, v: int) -> bool {
    &&& first_named(adt.variants@, pat_variants(pat)[p].name, v)
    &&& all_have_candidates(variant_candidates(pat, adt, compat, p, v))
}

proof fn lemma_enum_structure_from_first_viable(
    pat: &AdtPatKind,
    adt: &AdtShape,
    compat: &Vec<Vec<Vec<Vec<bool>>>>,
    q: int,
    p: int,
    v: int,
)
    requires
        0 <= q <= p < pat_variants(pat).len(),
        variant_viable(pat, adt, compat, p, v),
        forall|r: int, w: int| 0 <= r < p && #[trigger] variant_viable(pat, adt, compat, r, w) ==> false,
    ensures
        enum_structure_from(pat, adt, compat, q) == Some(
            (AdtMatchKind::Enum { variant_idx: v as usize }, variant_candidates(pat, adt, compat, p, v)),
        ),
    decreases p - q,
{
    let pvs = pat_variants(pat);
    lemma_named_variant_first(adt.variants@, pvs[q].name, 0);
    if q == p {
        lemma_named_variant_is_first(adt.variants@, pvs[p].name, v);
    } else {
        match named_variant(adt.variants@, pvs[q].name, 0) {
            Some(w) => {
                lemma_named_variant_is_first(adt.variants@, pvs[q].name, w);
                if all_have_candidates(variant_candidates(pat, adt, compat, q, w)) {
                    assert(variant_viable(pat, adt, compat, q, w));
                }
            },
            None => {},
        }
        lemma_enum_structure_from_first_viable(pat, adt, compat, q + 1, p, v);
    }
}

proof fn lemma_enum_structure_from_none(pat: &AdtPatKind, adt: &AdtShape, compat: &Vec<Vec<Vec<Vec<bool>>>>, q: int)
    requires
        0 <= q,
        forall|r: int, w: int| 0 <= r < pat_variants(pat).len() && #[trigger] variant_viable(pat, adt, compat, r, w) ==> false,
    ensures
        enum_structure_from(pat, adt, compat, q) is None,
    decreases pat_variants(pat).len() - q,
{
    let pvs = pat_variants(pat);
    if q < pvs.len() {
        match named_variant(adt.variants@, pvs[q].name, 0) {
            Some(w) => {
                lemma_named_variant_is_first(adt.variants@, pvs[q].name, w);
                if all_have_candidates(variant_candidates(pat, adt, compat, q, w)) {
                    assert(variant_viable(pat, adt, compat, q, w));
                }
            },
            None => {},
        }
        lemma_enum_structure_from_none(pat, adt, compat, q + 1);
    }
}

/// An enum pattern matches the structure of an enum at the first pattern variant that
/// can match: the ADT has a variant of that name and every field metavariable has a
/// candidate field there. Earlier pattern variants that the ADT lacks, or whose field
/// metavariables lack candidates, are passed over; the match is the ADT's first variant
/// of that name, with its candidates.
pub proof fn lemma_enum_structure_first_viable(
    pat: &AdtPatKind,
    adt: &AdtShape,
    compat: &Vec<Vec<Vec<Vec<bool>>>>,
    p: int,
    v: int,
)
    requires
        pat is Enum,
        adt.kind == AdtShapeKind::Enum,
        0 <= p < pat_variants(pat).len(),
        variant_viable(pat, adt, compat, p, v),
        forall|r: int, w: int| 0 <= r < p && #[trigger] variant_viable(pat, adt, compat, r, w) ==> false,
    ensures
        structure_match(pat, adt, compat) == Some(
            (AdtMatchKind::Enum { variant_idx: v as usize }, variant_candidates(pat, adt, compat, p, v)),
        ),
{
    lemma_enum_structure_from_first_viable(pat, adt, compat, 0, p, v);
}

/// An enum pattern of which no variant can match an enum (by name, with candidates for
/// every field metavariable) does not match its structure.
pub proof fn lemma_enum_structure_none(pat: &AdtPatKind, adt: &AdtShape, compat: &Vec<Vec<Vec<Vec<bool>>>>)
    requires
        pat is Enum,
        adt.kind == AdtShapeKind::Enum,
        forall|r: int, w: int| 0 <= r < pat_variants(pat).len() && #[trigger] variant_viable(pat, adt, compat, r, w) ==> false,
    ensures
        structure_match(pat, adt, compat) is None,
{
    lemma_enum_structure_from_none(pat, adt, compat, 0);
}

/// Pattern variant `r`, found in the ADT as its first variant `w` of that name, was tried
/// and passed over: every field metavariable had candidates, but no assignment of them
/// to distinct fields exists.
pub open spec fn variant_tried_and_failed(
    pat: &AdtPatKind,
    adt: &AdtShape,
    compat: &Vec<Vec<Vec<Vec<bool>>>>,
    r: int,
    w: int,
) -> bool {
    &&& all_have_candidates(variant_candidates(pat, adt, compat, r, w))
    &&& search(variant_candidates(pat, adt, compat, r, w), 0) is None
}

proof fn lemma_enum_match_from_first(
    pat: &AdtPatKind,
    adt: &AdtShape,
    compat: &Vec<Vec<Vec<Vec<bool>>>>,
    q: int,
    p: int,
    v: int,
)
    requires
        0 <= q <= p < pat_variants(pat).len(),
        first_named(adt.variants@, pat_variants(pat)[p].name, v),
        forall|r: int, w: int|
            0 <= r < p && #[trigger] first_named(adt.variants@, pat_variants(pat)[r].name, w)
                ==> variant_tried_and_failed(pat, adt, compat, r, w),
    ensures
        !all_have_candidates(variant_candidates(pat, adt, compat, p, v)) ==> enum_match_from(pat, adt, compat, q)
            is None,
        all_have_candidates(variant_candidates(pat, adt, compat, p, v)) && search(
            variant_candidates(pat, adt, compat, p, v),
            0,
        ) is Some ==> enum_match_from(pat, adt, compat, q) == Some(
            (
                AdtMatchKind::Enum { variant_idx: v as usize },
                search(variant_candidates(pat, adt, compat, p, v), 0)->Some_0,
            ),
        ),
    decreases p - q,
{
    let pvs = pat_variants(pat);
    if q == p {
        lemma_named_variant_is_first(adt.variants@, pvs[p].name, v);
    } else {
        match named_variant(adt.variants@, pvs[q].name, 0) {
            Some(w) => {
                lemma_named_variant_is_first(adt.variants@, pvs[q].name, w);
                assert(variant_tried_and_failed(pat, adt, compat, q, w));
            },
            None => {},
        }
        lemma_enum_match_from_first(pat, adt, compat, q + 1, p, v);
    }
}

proof fn lemma_enum_match_from_none(pat: &AdtPatKind, adt: &AdtShape, compat: &Vec<Vec<Vec<Vec<bool>>>>, q: int)
    requires
        0 <= q,
        forall|r: int, w: int|
            0 <= r < pat_variants(pat).len() && #[trigger] first_named(adt.variants@, pat_variants(pat)[r].name, w)
                ==> variant_tried_and_failed(pat, adt, compat, r, w),
    ensures
        enum_match_from(pat, adt, compat, q) is None,
    decreases pat_variants(pat).len() - q,
{
    let pvs = pat_variants(pat);
    if q < pvs.len() {
        match named_variant(adt.variants@, pvs[q].name, 0) {
            Some(w) => {
                lemma_named_variant_is_first(adt.variants@, pvs[q].name, w);
                assert(variant_tried_and_failed(pat, adt, compat, q, w));
            },
            None => {},
        }
        lemma_enum_match_from_none(pat, adt, compat, q + 1);
    }
}

/// The full match of an enum pattern against an enum goes through the pattern variants in
/// order, passing over those the ADT lacks and those whose field metavariables cannot all
/// be matched to distinct fields. At the first other variant found in the ADT: if some
/// field metavariable has no candidate there, nothing matches; otherwise the match is
/// that ADT variant with the assignment the search finds.
pub proof fn lemma_enum_full_match_first(
    pat: &AdtPatKind,
    adt: &AdtShape,
    compat: &Vec<Vec<Vec<Vec<bool>>>>,
    p: int,
    v: int,
)
    requires
        pat is Enum,
        adt.kind == AdtShapeKind::Enum,
        0 <= p < pat_variants(pat).len(),
        first_named(adt.variants@, pat_variants(pat)[p].name, v),
        forall|r: int, w: int|
            0 <= r < p && #[trigger] first_named(adt.variants@, pat_variants(pat)[r].name, w)
                ==> variant_tried_and_failed(pat, adt, compat, r, w),
    ensures
        !all_have_candidates(variant_candidates(pat, adt, compat, p, v)) ==> full_match(pat, adt, compat) is None,
        all_have_candidates(variant_candidates(pat, adt, compat, p, v)) && search(
            variant_candidates(pat, adt, compat, p, v),
            0,
        ) is Some ==> full_match(pat, adt, compat) == Some(
            (
                AdtMatchKind::Enum { variant_idx: v as usize },
                search(variant_candidates(pat, adt, compat, p, v), 0)->Some_0,
            ),
        ),
{
    lemma_enum_match_from_first(pat, adt, compat, 0, p, v);
}

/// An enum pattern none of whose variants found in an enum can have its field
/// metavariables matched to distinct fields does not match it.
pub proof fn lemma_enum_full_match_none(pat: &AdtPatKind, adt: &AdtShape, compat: &Vec<Vec<Vec<Vec<bool>>>>)
    requires
        pat is Enum,
        adt.kind == AdtShapeKind::Enum,
        forall|r: int, w: int|
            0 <= r < pat_variants(pat).len() && #[trigger] first_named(adt.variants@, pat_variants(pat)[r].name, w)
                ==> variant_tried_and_failed(pat, adt, compat, r, w),
    ensures
        full_match(pat, adt, compat) is None,
{
    lemma_enum_match_from_none(pat, adt, compat, 0);
}

/// Match `pat` against `adt` and match every field metavariable of the matched variant
/// with one of its candidates.
pub fn match_adt(pat: &AdtPatKind, adt: &AdtShape, compat: &Vec<Vec<Vec<Vec<bool>>>>) -> (r: Option<AdtMatch>)
    requires
        adt_inputs_fit(pat, adt, compat),
    ensures
        is_match(r, full_match(pat, adt, compat)),
{
    match pat {
        AdtPatKind::Struct(vp) => match adt.kind {
            AdtShapeKind::Struct => match build_variant(pat, vp, adt, compat, 0, 0) {
                Some(fields) => {
                    let mut fields = fields;
                    proof {
                        lemma_built_room(vp.fields@, adt.variants@[0].field_names@, matrix_view(compat@[0]@[0]));
                    }
                    if fields.match_field_candidates(0) {
                        Some(AdtMatch::new_struct(fields))
                    } else {
                        None
                    }
                },
                None => None,
            },
            _ => None,
        },
        AdtPatKind::Enum(vps) => match adt.kind {
            AdtShapeKind::Enum => {
                let mut p: usize = 0;
                while p < vps.len()
                    invariant
                        adt_inputs_fit(pat, adt, compat),
                        pat_variants(pat) == vps@,
                        pat is Enum,
                        adt.kind == AdtShapeKind::Enum,
                        p <= vps@.len(),
                        enum_match_from(pat, adt, compat, 0) == enum_match_from(pat, adt, compat, p as int),
                    decreases vps@.len() - p,
                {
                    let vp = &vps[p];
                    match find_variant(&adt.variants, vp.name) {
                        Some(v) => {
                            proof {
                                lemma_named_variant_bounds(adt.variants@, vp.name, 0);
                            }
                            match build_variant(pat, vp, adt, compat, p, v) {
                                Some(fields) => {
                                    let mut fields = fields;
                                    proof {
                                        lemma_built_room(
                                            vp.fields@,
                                            adt.variants@[v as int].field_names@,
                                            matrix_view(compat@[p as int]@[v as int]),
                                        );
                                    }
                                    let ghost b = fields@;
                                    if fields.match_field_candidates(0) {
                                        let r = AdtMatch::new_enum(v, fields);
                                        assert(enum_match_from(pat, adt, compat, p as int) == Some(
                                            (AdtMatchKind::Enum { variant_idx: v }, search(b, 0)->Some_0),
                                        ));
                                        return Some(r);
                                    }
                                },
                                None => {
                                    return None;
                                },
                            }
                        },
                        None => {},
                    }
                    p = p + 1;
                }
                None
            },
            _ => None,
        },
    }
}

/// Match the kind of `pat` against `adt` for function body matching: the field
/// metavariables with exactly one candidate are matched with it at once, the others are
/// left for the statements to decide.
pub fn match_adt_for_fn_mir(pat: &AdtPatKind, adt: &AdtShape, compat: &Vec<Vec<Vec<Vec<bool>>>>) -> (r: Option<
    AdtMatch,
>)
    requires
        adt_inputs_fit(pat, adt, compat),
    ensures
        match structure_match(pat, adt, compat) {
            Some((k, c)) => r matches Some(a) && a.kind == k && a.fields@ == committed(c, c.names.len() as int),
            None => r is None,
        },
{
    match match_adt_structure(pat, adt, compat) {
        Some(m) => {
            let AdtMatch { kind, mut fields } = m;
            fields.commit_unique_field_candidates();
            Some(AdtMatch { kind, fields })
        },
        None => None,
    }
}

/// The bindings after extending `acc` with those of each match of ADT pattern `adt`, in
/// order.
pub open spec fn extended_bindings(
    acc: Map<(Symbol, Symbol), FieldIdx>,
    adt: Symbol,
    ms: Seq<AdtMatch>,
) -> Map<(Symbol, Symbol), FieldIdx>
    decreases ms.len(),
{
    if ms.len() == 0 {
        acc
    } else {
        extended_bindings(acc, adt, ms.drop_last()).union_prefer_right(field_bindings_of(ms.last().fields@, adt))
    }
}

/// The committed field bindings of every match of every ADT pattern, in order; a later
/// binding of a key replaces an earlier one.
pub open spec fn collected_bindings(s: Seq<(Symbol, Vec<AdtMatch>)>) -> Map<(Symbol, Symbol), FieldIdx>
    decreases s.len(),
{
    if s.len() == 0 {
        Map::empty()
    } else {
        extended_bindings(collected_bindings(s.drop_last()), s.last().0, s.last().1@)
    }
}

/// Collect the committed field bindings of the matches of each ADT pattern.
pub fn collect_adt_field_bindings(adt_matches: &Vec<(Symbol, Vec<AdtMatch>)>) -> (r: AdtFieldMap)
    ensures
        r@ == collected_bindings(adt_matches@),
{
    let mut map = AdtFieldMap::new();
    for a in 0..adt_matches.len()
        invariant
            map@ == collected_bindings(adt_matches@.subrange(0, a as int)),
    {
        let adt_pat = adt_matches[a].0;
        let matches = &adt_matches[a].1;
        let ghost acc = map@;
        for m in 0..matches.len()
            invariant
                adt_pat == adt_matches@[a as int].0,
                matches == &adt_matches@[a as int].1,
                map@ == extended_bindings(acc, adt_pat, matches@.subrange(0, m as int)),
        {
            let b = matches[m].field_bindings(adt_pat);
            map.extend(&b);
            assert(matches@.subrange(0, m + 1).drop_last() =~= matches@.subrange(0, m as int));
        }
        assert(matches@.subrange(0, matches@.len() as int) =~= matches@);
        assert(adt_matches@.subrange(0, a + 1).drop_last() =~= adt_matches@.subrange(0, a as int));
    }
    assert(adt_matches@.subrange(0, adt_matches@.len() as int) =~= adt_matches@);
    map
}

/// The type bound to each type metavariable: the first of its candidates, or `never`
/// when it has none.
pub fn resolved_ty_bindings(ty_vars: &Vec<Vec<Ty>>, never: Ty) -> (r: Vec<Ty>)
    ensures
        r@.len() == ty_vars@.len(),
        forall|i: int|
            0 <= i < r@.len() ==> #[trigger] r@[i] == if ty_vars@[i]@.len() == 0 {
                never
            } else {
                ty_vars@[i]@[0]
            },
{
    let mut r: Vec<Ty> = Vec::new();
    for i in 0..ty_vars.len()
        invariant
            r@.len() == i,
            forall|j: int|
                0 <= j < i ==> #[trigger] r@[j] == if ty_vars@[j]@.len() == 0 {
                    never
                } else {
                    ty_vars@[j]@[0]
                },
    {
        let set = &ty_vars[i];
        if set.len() == 0 {
            r.push(never);
        } else {
            r.push(set[0]);
        }
    }
    r
}

} // verus!
