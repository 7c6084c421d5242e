//! A normalized view of one match of a function pattern.
//!
//! Normalization maps the matched metavariables and labels to the canonical form of
//! another pattern (through a [`MatchedMap`]), so that two matches found through
//! different patterns with identically named metavariables and labels compare equal.
use vstd::prelude::*;

use crate::adt_fields::AdtFieldMap;
use crate::bindings::NonLocalMetaVars;
use crate::types::{copy_vec, Const, FieldIdx, Interned, PlaceRef, Symbol, Ty};

verus! {

/// A label of the pattern and the matched position it names.
#[derive(Debug, Clone, Copy, PartialEq, Eq, Structural)]
pub struct LabelTarget {
    pub label: Symbol,
    pub target: u64,
}

/// A renaming of one label.
#[derive(Debug, Clone, Copy, PartialEq, Eq, Structural)]
pub struct LabelRename {
    pub from: Symbol,
    pub to: Symbol,
}

/// How the metavariables and labels of one pattern map onto those of another:
/// metavariable `i` of the target pattern is metavariable `ty_vars[i]` (and so on) of the
/// source pattern.
#[derive(Debug)]
pub struct MatchedMap {
    pub ty_vars: Vec<usize>,
    pub const_vars: Vec<usize>,
    pub place_vars: Vec<usize>,
    pub labels: Vec<LabelRename>,
}

/// The name that label `l` takes under `renames` (the first matching rename, else itself).
pub open spec fn renamed_label(renames: Seq<LabelRename>, l: Symbol) -> Symbol
    decreases renames.len(),
{
    if renames.len() == 0 {
        l
    } else if renames[0].from == l {
        renames[0].to
    } else {
        renamed_label(renames.drop_first(), l)
    }
}

/// `s` is ordered by strictly increasing label.
pub open spec fn strictly_sorted(s: Seq<LabelTarget>) -> bool {
    forall|i: int, j: int| 0 <= i < j < s.len() ==> (#[trigger] s[i]).label.id < (#[trigger] s[j]).label.id
}

/// `s` is the sorted, duplicate-free form of `input`: every entry of `s` comes from
/// `input`, and every label of `input` occurs in `s`.
pub open spec fn sorted_form_of(s: Seq<LabelTarget>, input: Seq<LabelTarget>) -> bool {
    &&& strictly_sorted(s)
    &&& forall|i: int| 0 <= i < s.len() ==> input.contains(#[trigger] s[i])
    &&& forall|i: int| 0 <= i < input.len() ==> exists|j: int| 0 <= j < s.len() && #[trigger] s[j].label == (#[trigger] input[i]).label
}

/// One assignment of a pattern operation's configuration.
#[derive(Debug, Clone, Copy, PartialEq, Eq, Structural)]
pub enum MetaAssign {
    /// Metavariable `target` of the operation is metavariable `source` of the operand.
    Var { source: Symbol, target: Symbol },
    /// A metavariable given to the label `_`: nothing to map.
    WildcardLabel,
    /// Label `source` of the operand is label `target` of the operation.
    Label { source: Symbol, target: Symbol },
}

/// The operand's name of the operation's metavariable `name`: the source of the first
/// assignment to it, or the same name.
pub open spec fn assigned_source(assigns: Seq<MetaAssign>, name: Symbol) -> Symbol
    decreases assigns.len(),
{
    if assigns.len() == 0 {
        name
    } else {
        match assigns[0] {
            MetaAssign::Var { source, target } => if target == name {
                source
            } else {
                assigned_source(assigns.drop_first(), name)
            },
            _ => assigned_source(assigns.drop_first(), name),
        }
    }
}

/// The label renamings of the assignments, in order.
pub open spec fn label_renames(assigns: Seq<MetaAssign>) -> Seq<LabelRename>
    decreases assigns.len(),
{
    if assigns.len() == 0 {
        Seq::empty()
    } else {
        let rest = label_renames(assigns.drop_last());
        match assigns.last() {
            MetaAssign::Label { source, target } => rest.push(LabelRename { from: source, to: target }),
            _ => rest,
        }
    }
}

/// No metavariable is assigned twice and no label is renamed twice.
pub open spec fn assigns_distinct(assigns: Seq<MetaAssign>) -> bool {
    forall|i: int, j: int|
        0 <= i < j < assigns.len() ==> match (#[trigger] assigns[i], #[trigger] assigns[j]) {
            (MetaAssign::Var { target: a, .. }, MetaAssign::Var { target: b, .. }) => a != b,
            (MetaAssign::Label { source: a, .. }, MetaAssign::Label { source: b, .. }) => a != b,
            _ => true,
        }
}

/// Every metavariable of `target` names, through the assignments, one of `source`.
pub open spec fn all_assigned(target: Seq<Symbol>, source: Seq<Symbol>, assigns: Seq<MetaAssign>) -> bool {
    forall|i: int| 0 <= i < target.len() ==> source.contains(assigned_source(assigns, #[trigger] target[i]))
}

/// `p` gives, for each metavariable of `target`, the position in `source` of the first
/// metavariable named as the assignments name it (or, without an assignment, named
/// like it).
pub open spec fn same_named_positions(
    p: Seq<usize>,
    target: Seq<Symbol>,
    source: Seq<Symbol>,
    assigns: Seq<MetaAssign>,
) -> bool {
    &&& p.len() == target.len()
    &&& forall|i: int|
        0 <= i < p.len() ==> {
            &&& #[trigger] p[i] < source.len()
            &&& source[p[i] as int] == assigned_source(assigns, target[i])
            &&& forall|k: int| 0 <= k < p[i] ==> source[k] != assigned_source(assigns, target[i])
        }
}

fn source_of(assigns: &Vec<MetaAssign>, name: Symbol) -> (r: Symbol)
    ensures
        r == assigned_source(assigns@, name),
{
    let mut i: usize = 0;
    assert(assigns@.subrange(0, assigns@.len() as int) =~= assigns@);
    while i < assigns.len()
        invariant
            i <= assigns@.len(),
            assigned_source(assigns@, name) == assigned_source(assigns@.subrange(i as int, assigns@.len() as int), name),
        decreases assigns@.len() - i,
    {
        proof {
            let rest = assigns@.subrange(i as int, assigns@.len() as int);
            assert(rest.drop_first() =~= assigns@.subrange(i + 1, assigns@.len() as int));
            assert(rest[0] == assigns@[i as int]);
        }
        match assigns[i] {
            MetaAssign::Var { source, target } => {
                if target.same(&name) {
                    return source;
                }
            },
            _ => {},
        }
        i = i + 1;
    }
    name
}

/// The positions of the operation's metavariables of one kind: for each one, the
/// position of the operand's metavariable of the name it is assigned (or its own).
fn kind_positions(target: &Vec<Symbol>, source: &Vec<Symbol>, assigns: &Vec<MetaAssign>) -> (r: Vec<usize>)
    requires
        all_assigned(target@, source@, assigns@),
    ensures
        same_named_positions(r@, target@, source@, assigns@),
{
    let mut r: Vec<usize> = Vec::new();
    for i in 0..target.len()
        invariant
            all_assigned(target@, source@, assigns@),
            same_named_positions(r@, target@.take(i as int), source@, assigns@),
    {
        let name = source_of(assigns, target[i]);
        proof {
            assert(source@.contains(assigned_source(assigns@, target@[i as int])));
        }
        let mut j: usize = 0;
        while j < source.len() && !source[j].same(&name)
            invariant
                j <= source@.len(),
                source@.contains(name),
                forall|k: int| 0 <= k < j ==> source@[k] != name,
            decreases source@.len() - j,
        {
            j = j + 1;
        }
        proof {
            if j == source@.len() {
                let k = choose|k: int| 0 <= k < source@.len() && source@[k] == name;
                assert(source@[k] == name);
            }
        }
        let ghost before = r@;
        r.push(j);
        proof {
            let t = target@.take(i + 1);
            assert forall|a: int| 0 <= a < r@.len() implies {
                &&& #[trigger] r@[a] < source@.len()
                &&& source@[r@[a] as int] == assigned_source(assigns@, t[a])
                &&& forall|k: int| 0 <= k < r@[a] ==> source@[k] != assigned_source(assigns@, t[a])
            } by {
                if a < i {
                    assert(r@[a] == before[a]);
                    assert(t[a] == target@.take(i as int)[a]);
                } else {
                    assert(t[a] == target@[i as int]);
                }
            }
        }
    }
    assert(target@.take(target@.len() as int) =~= target@);
    r
}

impl MatchedMap {
    /// The map of a pattern operation's operand onto the operation: each metavariable of
    /// `target` is looked up in `source` under the name that the configuration assigns
    /// to it (or its own), and the configuration's labels are renamed.
    pub fn new(target: &NonLocalMetaVars, source: &NonLocalMetaVars, configuration: Option<&Vec<MetaAssign>>) -> (r:
        MatchedMap)
        requires
            configuration matches Some(a) ==> assigns_distinct(a@),
            all_assigned(
                target.ty_vars@,
                source.ty_vars@,
                match configuration {
                    Some(a) => a@,
                    None => Seq::empty(),
                },
            ),
            all_assigned(
                target.const_vars@,
                source.const_vars@,
                match configuration {
                    Some(a) => a@,
                    None => Seq::empty(),
                },
            ),
            all_assigned(
                target.place_vars@,
                source.place_vars@,
                match configuration {
                    Some(a) => a@,
                    None => Seq::empty(),
                },
            ),
        ensures
            same_named_positions(
                r.ty_vars@,
                target.ty_vars@,
                source.ty_vars@,
                match configuration {
                    Some(a) => a@,
                    None => Seq::empty(),
                },
            ),
            same_named_positions(
                r.const_vars@,
                target.const_vars@,
                source.const_vars@,
                match configuration {
                    Some(a) => a@,
                    None => Seq::empty(),
                },
            ),
            same_named_positions(
                r.place_vars@,
                target.place_vars@,
                source.place_vars@,
                match configuration {
                    Some(a) => a@,
                    None => Seq::empty(),
                },
            ),
            r.labels@ == label_renames(
                match configuration {
                    Some(a) => a@,
                    None => Seq::empty(),
                },
            ),
    {
        let empty: Vec<MetaAssign> = Vec::new();
        let assigns = match configuration {
            Some(a) => a,
            None => &empty,
        };
        let mut labels: Vec<LabelRename> = Vec::new();
        for i in 0..assigns.len()
            invariant
                labels@ == label_renames(assigns@.subrange(0, i as int)),
        {
            proof {
                assert(assigns@.subrange(0, i + 1).drop_last() =~= assigns@.subrange(0, i as int));
            }
            match assigns[i] {
                MetaAssign::Label { source, target } => labels.push(LabelRename { from: source, to: target }),
                _ => {},
            }
        }
        assert(assigns@.subrange(0, assigns@.len() as int) =~= assigns@);
        MatchedMap {
            ty_vars: kind_positions(&target.ty_vars, &source.ty_vars, assigns),
            const_vars: kind_positions(&target.const_vars, &source.const_vars, assigns),
            place_vars: kind_positions(&target.place_vars, &source.place_vars, assigns),
            labels,
        }
    }
}

/// The view of a normalized match.
pub struct NormalizedView {
    pub ty_vars: Seq<Ty>,
    pub const_vars: Seq<Const>,
    pub place_vars: Seq<PlaceRef>,
    pub adt_fields: Map<(Symbol, Symbol), FieldIdx>,
    pub extra: Seq<LabelTarget>,
}

/// A match of a function pattern with its metavariables and labels in canonical form.
#[derive(Debug)]
pub struct NormalizedMatched {
    pub ty_vars: Vec<Ty>,
    pub const_vars: Vec<Const>,
    pub place_vars: Vec<PlaceRef>,
    pub adt_fields: AdtFieldMap,
    /// Labels and what they name, sorted by label.
    pub extra: Vec<LabelTarget>,
}

impl View for NormalizedMatched {
    type V = NormalizedView;

    open spec fn view(&self) -> NormalizedView {
        NormalizedView {
            ty_vars: self.ty_vars@,
            const_vars: self.const_vars@,
            place_vars: self.place_vars@,
            adt_fields: self.adt_fields@,
            extra: self.extra@,
        }
    }
}

/// `out` picks the entries of `src` at the positions listed in `idx`.
pub open spec fn reindexed<T>(src: Seq<T>, idx: Seq<usize>) -> Seq<T> {
    Seq::new(idx.len(), |i: int| src[idx[i] as int])
}

/// All positions in `idx` lie inside `src`.
pub open spec fn indices_in_bounds<T>(src: Seq<T>, idx: Seq<usize>) -> bool {
    forall|i: int| 0 <= i < idx.len() ==> #[trigger] idx[i] < src.len()
}

fn reindex<T: Copy>(src: &Vec<T>, idx: &Vec<usize>) -> (r: Vec<T>)
    requires
        indices_in_bounds(src@, idx@),
    ensures
        r@ == reindexed(src@, idx@),
{
    let mut r: Vec<T> = Vec::new();
    for i in 0..idx.len()
        invariant
            indices_in_bounds(src@, idx@),
            r@ == reindexed(src@, idx@).subrange(0, i as int),
    {
        r.push(src[idx[i]]);
    }
    assert(r@ == reindexed(src@, idx@));
    r
}

/// Positions `0..vars.len()` of `vars`, each taken through `map`: entry `i` of the
/// result is `vars[map[i]]`.
fn map_prefix<T: Copy>(map: &Vec<usize>, vars: &Vec<T>) -> (r: Vec<T>)
    requires
        vars@.len() <= map@.len(),
        indices_in_bounds(vars@, map@.take(vars@.len() as int)),
    ensures
        r@ == reindexed(vars@, map@.take(vars@.len() as int)),
{
    let ghost idx = map@.take(vars@.len() as int);
    let mut r: Vec<T> = Vec::new();
    for i in 0..vars.len()
        invariant
            vars@.len() <= map@.len(),
            idx == map@.take(vars@.len() as int),
            indices_in_bounds(vars@, idx),
            r@ == reindexed(vars@, idx).subrange(0, i as int),
    {
        assert(idx[i as int] == map@[i as int]);
        r.push(vars[map[i]]);
    }
    assert(r@ == reindexed(vars@, idx));
    r
}

impl MatchedMap {
    /// The type metavariable values of the source pattern, in the order of the target's
    /// metavariables.
    pub fn map_ty_vars<T: Copy>(&self, ty_vars: &Vec<T>) -> (r: Vec<T>)
        requires
            ty_vars@.len() <= self.ty_vars@.len(),
            indices_in_bounds(ty_vars@, self.ty_vars@.take(ty_vars@.len() as int)),
        ensures
            r@ == reindexed(ty_vars@, self.ty_vars@.take(ty_vars@.len() as int)),
    {
        map_prefix(&self.ty_vars, ty_vars)
    }

    /// The constant metavariable values, in the order of the target's metavariables.
    pub fn map_const_vars<T: Copy>(&self, const_vars: &Vec<T>) -> (r: Vec<T>)
        requires
            const_vars@.len() <= self.const_vars@.len(),
            indices_in_bounds(const_vars@, self.const_vars@.take(const_vars@.len() as int)),
        ensures
            r@ == reindexed(const_vars@, self.const_vars@.take(const_vars@.len() as int)),
    {
        map_prefix(&self.const_vars, const_vars)
    }

    /// The place metavariable values, in the order of the target's metavariables.
    pub fn map_place_vars<T: Copy>(&self, place_vars: &Vec<T>) -> (r: Vec<T>)
        requires
            place_vars@.len() <= self.place_vars@.len(),
            indices_in_bounds(place_vars@, self.place_vars@.take(place_vars@.len() as int)),
        ensures
            r@ == reindexed(place_vars@, self.place_vars@.take(place_vars@.len() as int)),
    {
        map_prefix(&self.place_vars, place_vars)
    }
}

fn rename_label(renames: &Vec<LabelRename>, l: Symbol) -> (r: Symbol)
    ensures
        r == renamed_label(renames@, l),
{
    assert(renames@.subrange(0, renames@.len() as int) == renames@);
    for i in 0..renames.len()
        invariant
            forall|j: int| 0 <= j < i ==> (#[trigger] renames@[j]).from != l,
            renamed_label(renames@, l) == renamed_label(renames@.subrange(i as int, renames@.len() as int), l),
    {
        let ghost rest = renames@.subrange(i as int, renames@.len() as int);
        assert(rest.drop_first() == renames@.subrange(i + 1, renames@.len() as int));
        if renames[i].from.same(&l) {
            return renames[i].to;
        }
    }
    assert(renames@.subrange(renames@.len() as int, renames@.len() as int).len() == 0);
    l
}

/// The first position at or after `from` whose label is not below the label of `x`.
pub open spec fn insertion_point(s: Seq<LabelTarget>, x: LabelTarget, from: int) -> int
    decreases s.len() - from,
{
    if from < 0 || from >= s.len() || s[from].label.id >= x.label.id {
        from
    } else {
        insertion_point(s, x, from + 1)
    }
}

/// `s` with `x` inserted in label order, unless its label is already present.
pub open spec fn insert_label(s: Seq<LabelTarget>, x: LabelTarget) -> Seq<LabelTarget> {
    let p = insertion_point(s, x, 0);
    if 0 <= p < s.len() && s[p].label.id == x.label.id {
        s
    } else {
        s.insert(p, x)
    }
}

/// The labels of `input` sorted by label; of two entries with the same label the
/// earlier one is kept.
pub open spec fn sort_labels(input: Seq<LabelTarget>) -> Seq<LabelTarget>
    decreases input.len(),
{
    if input.len() == 0 {
        input
    } else {
        insert_label(sort_labels(input.drop_last()), input.last())
    }
}

proof fn lemma_insertion_point_bounds(s: Seq<LabelTarget>, x: LabelTarget, from: int)
    requires
        0 <= from <= s.len(),
    ensures
        from <= insertion_point(s, x, from) <= s.len(),
    decreases s.len() - from,
{
    if from < s.len() && s[from].label.id < x.label.id {
        lemma_insertion_point_bounds(s, x, from + 1);
    }
}

/// Insert `x` into the strictly sorted `s` unless its label is already there.
fn insert_sorted(s: &mut Vec<LabelTarget>, x: LabelTarget)
    requires
        strictly_sorted(old(s)@),
    ensures
        final(s)@ == insert_label(old(s)@, x),
        strictly_sorted(final(s)@),
        forall|i: int| 0 <= i < final(s)@.len() ==> #[trigger] final(s)@[i] == x || old(s)@.contains(final(s)@[i]),
        forall|i: int| 0 <= i < old(s)@.len() ==> final(s)@.contains(#[trigger] old(s)@[i]),
        exists|j: int| 0 <= j < final(s)@.len() && #[trigger] final(s)@[j].label == x.label,
{
    let mut pos: usize = 0;
    while pos < s.len() && s[pos].label.id < x.label.id
        invariant
            s@ == old(s)@,
            pos <= s@.len(),
            forall|j: int| 0 <= j < pos ==> (#[trigger] s@[j]).label.id < x.label.id,
            insertion_point(s@, x, 0) == insertion_point(s@, x, pos as int),
        decreases s@.len() - pos,
    {
        pos = pos + 1;
    }
    assert(insertion_point(s@, x, 0) == pos);
    let ghost old_s = s@;
    if pos < s.len() && s[pos].label.id == x.label.id {
        assert(old_s[pos as int].label == x.label);
        assert(s@[pos as int].label == x.label);
        return;
    }
    s.insert(pos, x);
    assert(s@[pos as int] == x);
    assert(s@[pos as int].label == x.label);
    assert forall|i: int| 0 <= i < old_s.len() implies s@.contains(#[trigger] old_s[i]) by {
        if i < pos {
            assert(s@[i] == old_s[i]);
        } else {
            assert(s@[i + 1] == old_s[i]);
        }
    }
    assert forall|i: int| 0 <= i < s@.len() implies #[trigger] s@[i] == x || old_s.contains(s@[i]) by {
        if i < pos {
            assert(s@[i] == old_s[i]);
        } else if i > pos {
            assert(s@[i] == old_s[i - 1]);
        }
    }
}

proof fn lemma_sorted_form_extend(before: Seq<LabelTarget>, after: Seq<LabelTarget>, pre: Seq<LabelTarget>, x: LabelTarget)
    requires
        sorted_form_of(before, pre),
        strictly_sorted(after),
        forall|i: int| 0 <= i < after.len() ==> #[trigger] after[i] == x || before.contains(after[i]),
        forall|i: int| 0 <= i < before.len() ==> after.contains(#[trigger] before[i]),
        exists|j: int| 0 <= j < after.len() && #[trigger] after[j].label == x.label,
    ensures
        sorted_form_of(after, pre.push(x)),
{
    let post = pre.push(x);
    assert forall|k: int| 0 <= k < after.len() implies post.contains(#[trigger] after[k]) by {
        if after[k] == x {
            assert(post[pre.len() as int] == x);
        } else {
            let j = choose|j: int| 0 <= j < before.len() && before[j] == after[k];
            assert(pre.contains(before[j]));
            let m = choose|m: int| 0 <= m < pre.len() && pre[m] == before[j];
            assert(post[m] == pre[m]);
        }
    }
    assert forall|k: int| 0 <= k < post.len() implies exists|j: int|
        0 <= j < after.len() && #[trigger] after[j].label == (#[trigger] post[k]).label by {
        if k < pre.len() {
            assert(post[k] == pre[k]);
            let j = choose|j: int| 0 <= j < before.len() && #[trigger] before[j].label == pre[k].label;
            assert(after.contains(before[j]));
            let j2 = choose|j2: int| 0 <= j2 < after.len() && after[j2] == before[j];
            assert(after[j2].label == post[k].label);
        } else {
            assert(post[k] == x);
        }
    }
}

/// The labels of `extra` renamed by `renames`.
pub open spec fn renamed_labels(extra: Seq<LabelTarget>, renames: Seq<LabelRename>) -> Seq<LabelTarget> {
    extra.map_values(|e: LabelTarget| LabelTarget { label: renamed_label(renames, e.label), target: e.target })
}

proof fn lemma_sort_labels_step(input: Seq<LabelTarget>, i: int)
    requires
        0 <= i < input.len(),
    ensures
        sort_labels(input.subrange(0, i + 1)) == insert_label(sort_labels(input.subrange(0, i)), input[i]),
        input.subrange(0, i + 1) == input.subrange(0, i).push(input[i]),
{
    assert(input.subrange(0, i + 1) == input.subrange(0, i).push(input[i]));
    assert(input.subrange(0, i + 1).drop_last() == input.subrange(0, i));
}

fn sort_renamed_labels(extra: &Vec<LabelTarget>, renames: &Vec<LabelRename>) -> (r: Vec<LabelTarget>)
    ensures
        r@ == sort_labels(renamed_labels(extra@, renames@)),
        sorted_form_of(r@, renamed_labels(extra@, renames@)),
{
    let ghost input = renamed_labels(extra@, renames@);
    let mut out: Vec<LabelTarget> = Vec::new();
    assert(input.subrange(0, 0) =~= Seq::<LabelTarget>::empty());
    for i in 0..extra.len()
        invariant
            input == renamed_labels(extra@, renames@),
            input.len() == extra@.len(),
            sorted_form_of(out@, input.subrange(0, i as int)),
            out@ == sort_labels(input.subrange(0, i as int)),
    {
        let e = extra[i];
        let x = LabelTarget { label: rename_label(renames, e.label), target: e.target };
        assert(input[i as int] == x);
        let ghost before = out@;
        insert_sorted(&mut out, x);
        proof {
            lemma_sort_labels_step(input, i as int);
            lemma_sorted_form_extend(before, out@, input.subrange(0, i as int), x);
        }
    }
    assert(input.subrange(0, extra@.len() as int) == input);
    out
}

impl NormalizedMatched {
    /// A copy of this match.
    pub fn copy(&self) -> (r: NormalizedMatched)
        ensures
            r@ == self@,
    {
        NormalizedMatched {
            ty_vars: copy_vec(&self.ty_vars),
            const_vars: copy_vec(&self.const_vars),
            place_vars: copy_vec(&self.place_vars),
            adt_fields: self.adt_fields.copy(),
            extra: copy_vec(&self.extra),
        }
    }

    /// Map this match from one pattern to another: metavariables are picked through
    /// `matched_map` and labels are renamed, then sorted again by label.
    pub fn map(self, matched_map: &MatchedMap) -> (r: NormalizedMatched)
        requires
            indices_in_bounds(self.ty_vars@, matched_map.ty_vars@),
            indices_in_bounds(self.const_vars@, matched_map.const_vars@),
            indices_in_bounds(self.place_vars@, matched_map.place_vars@),
        ensures
            r.ty_vars@ == reindexed(self.ty_vars@, matched_map.ty_vars@),
            r.extra@ == sort_labels(renamed_labels(self.extra@, matched_map.labels@)),
            r.const_vars@ == reindexed(self.const_vars@, matched_map.const_vars@),
            r.place_vars@ == reindexed(self.place_vars@, matched_map.place_vars@),
            r.adt_fields@ == self.adt_fields@,
            sorted_form_of(r.extra@, renamed_labels(self.extra@, matched_map.labels@)),
    {
        let ty_vars = reindex(&self.ty_vars, &matched_map.ty_vars);
        let const_vars = reindex(&self.const_vars, &matched_map.const_vars);
        let place_vars = reindex(&self.place_vars, &matched_map.place_vars);
        let extra = sort_renamed_labels(&self.extra, &matched_map.labels);
        NormalizedMatched { ty_vars, const_vars, place_vars, adt_fields: self.adt_fields, extra }
    }

    /// The match `(ty_vars, const_vars, place_vars, labels)` of one pattern, seen through
    /// `matched_map` as a match of another: metavariables picked through the map, labels
    /// renamed and sorted by label.
    pub fn normalize(
        matched_map: &MatchedMap,
        ty_vars: &Vec<Ty>,
        const_vars: &Vec<Const>,
        place_vars: &Vec<PlaceRef>,
        labels: &Vec<LabelTarget>,
    ) -> (r: NormalizedMatched)
        requires
            indices_in_bounds(ty_vars@, matched_map.ty_vars@),
            indices_in_bounds(const_vars@, matched_map.const_vars@),
            indices_in_bounds(place_vars@, matched_map.place_vars@),
        ensures
            r.ty_vars@ == reindexed(ty_vars@, matched_map.ty_vars@),
            r.const_vars@ == reindexed(const_vars@, matched_map.const_vars@),
            r.place_vars@ == reindexed(place_vars@, matched_map.place_vars@),
            r.extra@ == sort_labels(renamed_labels(labels@, matched_map.labels@)),
            sorted_form_of(r.extra@, renamed_labels(labels@, matched_map.labels@)),
            r.adt_fields@ == Map::<(Symbol, Symbol), FieldIdx>::empty(),
    {
        let from = NormalizedMatched {
            ty_vars: copy_vec(ty_vars),
            const_vars: copy_vec(const_vars),
            place_vars: copy_vec(place_vars),
            adt_fields: AdtFieldMap::new(),
            extra: copy_vec(labels),
        };
        from.map(matched_map)
    }

    /// Whether two matches have the same shape: as many metavariables of each kind and the
    /// same labels in the same order.
    pub fn has_same_head(&self, other: &NormalizedMatched) -> (r: bool)
        ensures
            r == (self.ty_vars@.len() == other.ty_vars@.len() && self.const_vars@.len() == other.const_vars@.len()
                && self.place_vars@.len() == other.place_vars@.len() && self.extra@.len() == other.extra@.len()
                && forall|i: int| 0 <= i < self.extra@.len() ==> (#[trigger] self.extra@[i]).label == other.extra@[i].label),
    {
        if self.ty_vars.len() != other.ty_vars.len() || self.const_vars.len() != other.const_vars.len()
            || self.place_vars.len() != other.place_vars.len() || self.extra.len() != other.extra.len() {
            return false;
        }
        for i in 0..self.extra.len()
            invariant
                self.extra@.len() == other.extra@.len(),
                forall|j: int| 0 <= j < i ==> (#[trigger] self.extra@[j]).label == other.extra@[j].label,
        {
            if !self.extra[i].label.same(&other.extra[i].label) {
                return false;
            }
        }
        true
    }

    /// Whether two normalized matches are equal.
    pub fn same_as(&self, other: &NormalizedMatched) -> (r: bool)
        ensures
            r == (self@ == other@),
    {
        let a = vec_eq(&self.ty_vars, &other.ty_vars);
        let b = vec_eq(&self.const_vars, &other.const_vars);
        let c = vec_eq(&self.place_vars, &other.place_vars);
        let d = self.adt_fields.same_bindings(&other.adt_fields);
        let e = label_vec_eq(&self.extra, &other.extra);
        a && b && c && d && e
    }
}

/// Element-wise equality of two vectors.
pub fn vec_eq<T: Interned>(a: &Vec<T>, b: &Vec<T>) -> (r: bool)
    ensures
        r == (a@ == b@),
{
    if a.len() != b.len() {
        return false;
    }
    for i in 0..a.len()
        invariant
            a@.len() == b@.len(),
            forall|j: int| 0 <= j < i ==> a@[j] == b@[j],
    {
        if !a[i].same(&b[i]) {
            return false;
        }
    }
    assert(a@ =~= b@);
    true
}

fn label_vec_eq(a: &Vec<LabelTarget>, b: &Vec<LabelTarget>) -> (r: bool)
    ensures
        r == (a@ == b@),
{
    if a.len() != b.len() {
        return false;
    }
    for i in 0..a.len()
        invariant
            a@.len() == b@.len(),
            forall|j: int| 0 <= j < i ==> a@[j] == b@[j],
    {
        if !(a[i].label.same(&b[i].label) && a[i].target == b[i].target) {
            return false;
        }
    }
    assert(a@ =~= b@);
    true
}

} // verus!
