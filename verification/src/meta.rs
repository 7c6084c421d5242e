//! Pieces of the pattern metadata: metavariable kinds, paths of pattern files, and
//! the names of primitive types.
use vstd::prelude::*;

use crate::attributes::{inline_attr_satisfies, InlineAttr};

verus! {

/// The kind of a non-local metavariable.
#[derive(Debug, Clone, Copy, PartialEq, Eq, Structural)]
pub enum MetaVariableType {
    Type,
    Const,
    Place,
}

/// The kind of an ADT pattern.
#[derive(Debug, Clone, Copy, PartialEq, Eq, Structural)]
pub enum AdtPatType {
    Struct,
    Enum,
}

/// The role of a local of a function pattern.
#[derive(Debug, Clone, Copy, PartialEq, Eq, Structural)]
pub enum LocalSpecial {
    NoSpecial,
    Arg,
    Self_,
    Return,
}

/// A value found in a pattern file, with the path of that file.
#[derive(Debug, Clone, Copy)]
pub struct WithPath<'i, T> {
    pub path: &'i str,
    pub inner: T,
}

impl<'i, T> WithPath<'i, T> {
    pub fn new(path: &'i str, inner: T) -> (r: Self)
        ensures
            r.path == path,
            r.inner == inner,
    {
        WithPath { path, inner }
    }

    /// The value, without its path.
    pub fn deref(&self) -> (r: &T)
        ensures
            *r == self.inner,
    {
        &self.inner
    }

    /// `r` is what `map` may give back for `f`: the same path, and a value that `f`
    /// may return for this value.
    pub open spec fn mapped_by<U, F: FnOnce(&T) -> U>(&self, f: F, r: WithPath<'i, U>) -> bool {
        &&& r.path == self.path
        &&& f.ensures((&self.inner,), r.inner)
    }

    /// The same path with `f` applied to the value.
    pub fn map<U, F>(&self, f: F) -> (r: WithPath<'i, U>)
        where
            F: FnOnce(&T) -> U,
        requires
            f.requires((&self.inner,)),
        ensures
            self.mapped_by(f, r),
            forall|sf: spec_fn(T) -> U| computes(f, sf) ==> r == self.map_spec(sf),
    {
        let path = self.path;
        let inner = f(&self.inner);
        WithPath { path, inner }
    }

    /// The same path with the spec function `sf` applied to the value.
    pub open spec fn map_spec<U>(self, sf: spec_fn(T) -> U) -> WithPath<'i, U> {
        WithPath { path: self.path, inner: sf(self.inner) }
    }
}

/// The closure `f` computes the spec function `sf`: whatever it returns for `x` is `sf(x)`.
pub open spec fn computes<A, B, F: FnOnce(&A) -> B>(f: F, sf: spec_fn(A) -> B) -> bool {
    forall|x: &A, y: B| #[trigger] f.ensures((x,), y) ==> y == sf(*x)
}

/// Mapping by `f` and then by `g` is mapping once by their composition: where `f`, `g`
/// and `h` compute `sf`, `sg` and `sg` after `sf`, the results of `w.map(f).map(g)` and
/// of `w.map(h)` are equal, and both keep the path of `w`.
pub proof fn lemma_map_compose<'i, T, U, V, F, G, H>(
    w: WithPath<'i, T>,
    f: F,
    g: G,
    h: H,
    sf: spec_fn(T) -> U,
    sg: spec_fn(U) -> V,
    r1: WithPath<'i, U>,
    r2: WithPath<'i, V>,
    r3: WithPath<'i, V>,
)
    where
        F: FnOnce(&T) -> U,
        G: FnOnce(&U) -> V,
        H: FnOnce(&T) -> V,
    requires
        computes(f, sf),
        computes(g, sg),
        computes(h, |x: T| sg(sf(x))),
        w.mapped_by(f, r1),
        r1.mapped_by(g, r2),
        w.mapped_by(h, r3),
    ensures
        r2 == r3,
        r2.path == w.path,
        r2 == w.map_spec(sf).map_spec(sg),
{
    assert(f.ensures((&w.inner,), r1.inner));
    assert(g.ensures((&r1.inner,), r2.inner));
    assert(h.ensures((&w.inner,), r3.inner));
}

/// Mapping by spec functions composes: mapping by `sf` and then `sg` is mapping by `sg`
/// after `sf`.
pub proof fn lemma_map_spec_compose<'i, T, U, V>(
    w: WithPath<'i, T>,
    sf: spec_fn(T) -> U,
    sg: spec_fn(U) -> V,
)
    ensures
        w.map_spec(sf).map_spec(sg) == w.map_spec(|x: T| sg(sf(x))),
{
}

/// A range of a pattern file, by byte offsets.
#[derive(Debug, Clone, Copy, PartialEq, Eq, Structural)]
pub struct SrcSpan {
    pub start: usize,
    pub end: usize,
}

/// A range of a pattern file, with the path of that file.
#[derive(Debug, Clone, Copy)]
pub struct SpanWrapper<'i> {
    pub span: SrcSpan,
    pub path: &'i str,
}

impl<'i> SpanWrapper<'i> {
    pub fn new(span: SrcSpan, path: &'i str) -> (r: Self)
        ensures
            r.span == span,
            r.path == path,
    {
        SpanWrapper { span, path }
    }
}

/// An identifier of a pattern file: its name and where it stands.
#[derive(Debug, Clone)]
pub struct Ident {
    pub name: String,
    pub span: SrcSpan,
}

impl Ident {
    /// The name by content, and the range.
    pub open spec fn view_pair(&self) -> (Seq<char>, SrcSpan) {
        (self.name@, self.span)
    }

    /// A copy of the identifier.
    pub fn copy(&self) -> (r: Ident)
        ensures
            r.name@ == self.name@,
            r.span == self.span,
    {
        Ident { name: self.name.clone(), span: self.span }
    }
}

/// A node of a parsed pattern file, by identity, with its range.
#[derive(Debug, Clone, Copy, PartialEq, Eq, Structural)]
pub struct SyntaxNode {
    pub id: u64,
    pub span: SrcSpan,
}

/// A segment of a path: an identifier and its generic arguments.
#[derive(Debug)]
pub struct PathSegment {
    pub ident: Ident,
    pub args: Vec<SyntaxNode>,
}

/// A segment by content.
pub type SegmentView = (Seq<char>, SrcSpan, Seq<SyntaxNode>);

pub open spec fn segment_view(s: PathSegment) -> SegmentView {
    (s.ident.name@, s.ident.span, s.args@)
}

/// A path of a pattern file: an optional leading `::`, its segments, and its range.
#[derive(Debug)]
pub struct Path {
    pub leading: Option<SyntaxNode>,
    pub segments: Vec<PathSegment>,
    pub span: SrcSpan,
}

impl Path {
    /// The segments by content.
    pub open spec fn segments_view(&self) -> Seq<SegmentView> {
        self.segments@.map_values(|s: PathSegment| segment_view(s))
    }

    /// The identifier of a path of one segment, without leading `::` or generic
    /// arguments.
    pub fn as_ident(&self) -> (r: Option<Ident>)
        ensures
            r is Some == (self.leading is None && self.segments@.len() == 1
                && self.segments@[0].args@.len() == 0),
            r matches Some(i) ==> i.view_pair() == self.segments@[0].ident.view_pair(),
    {
        if self.leading.is_none() && self.segments.len() == 1 && self.segments[0].args.len() == 0 {
            Some(self.segments[0].ident.copy())
        } else {
            None
        }
    }

    /// The identifier of the last segment.
    pub fn ident(&self) -> (r: Ident)
        requires
            self.segments@.len() > 0,
        ensures
            r.view_pair() == self.segments@.last().ident.view_pair(),
    {
        self.segments[self.segments.len() - 1].ident.copy()
    }

    /// The identifier of the first segment, unless the path starts with `::`.
    pub fn leading_ident(&self) -> (r: Option<Ident>)
        requires
            self.segments@.len() > 0,
        ensures
            r is Some == self.leading is None,
            r matches Some(i) ==> i.view_pair() == self.segments@[0].ident.view_pair(),
    {
        if self.leading.is_none() {
            Some(self.segments[0].ident.copy())
        } else {
            None
        }
    }

    /// The path `prefix` followed by this path without its first identifier: the
    /// generic arguments of this path's first segment go to the last segment of
    /// `prefix`, the range is this path's.
    pub fn replace_leading_ident(self, prefix: Self) -> (r: Self)
        requires
            self.leading is None,
            self.segments@.len() > 0,
            prefix.segments@.len() > 0,
        ensures
            r.leading == prefix.leading,
            r.span == self.span,
            r.segments_view() == ({
                let p = prefix.segments_view();
                let s = self.segments_view();
                let last = p.last();
                p.drop_last().push((last.0, last.1, last.2 + s[0].2)) + s.drop_first()
            }),
    {
        let ghost p = prefix.segments_view();
        let ghost sv = self.segments_view();
        let Path { leading: _, segments, span } = self;
        let Path { leading, segments: mut out, span: _ } = prefix;
        let mut rest = segments;
        let first = rest.remove(0);
        assert(first.ident.name@ == sv[0].0 && first.ident.span == sv[0].1 && first.args@ == sv[0].2);
        let last_i = out.len() - 1;
        let PathSegment { ident: last_ident, args: mut last_args } = out.remove(last_i);
        let ghost last_view = p.last();
        let mut extra = first.args;
        let ghost extra_view = extra@;
        last_args.append(&mut extra);
        out.push(PathSegment { ident: last_ident, args: last_args });
        let ghost mid = out@.map_values(|s: PathSegment| segment_view(s));
        assert(mid =~= p.drop_last().push((last_view.0, last_view.1, last_view.2 + extra_view)));
        let ghost rest_view = rest@.map_values(|s: PathSegment| segment_view(s));
        assert(rest_view =~= sv.drop_first());
        let mut rest = rest;
        out.append(&mut rest);
        let r = Path { leading, segments: out, span };
        assert(r.segments_view() =~= mid + rest_view);
        r
    }
}

/// The text of a list of generic arguments, separated by `, `; `t[id]` is the text of
/// the node with that id.
pub open spec fn args_text(args: Seq<SyntaxNode>, t: Seq<Seq<char>>) -> Seq<char>
    decreases args.len(),
{
    if args.len() == 0 {
        Seq::empty()
    } else {
        let sep = if args.len() > 1 { ", "@ } else { Seq::empty() };
        args_text(args.drop_last(), t) + sep + t[args.last().id as int]
    }
}

/// The text of a segment: its name, then `::<`, its arguments and `>` if it has any.
pub open spec fn segment_text(s: SegmentView, t: Seq<Seq<char>>) -> Seq<char> {
    if s.2.len() == 0 {
        s.0
    } else {
        s.0 + "::<"@ + args_text(s.2, t) + ">"@
    }
}

/// The text of a list of segments, separated by `::`.
pub open spec fn segments_text(segs: Seq<SegmentView>, t: Seq<Seq<char>>) -> Seq<char>
    decreases segs.len(),
{
    if segs.len() == 0 {
        Seq::empty()
    } else {
        let sep = if segs.len() > 1 { "::"@ } else { Seq::empty() };
        segments_text(segs.drop_last(), t) + sep + segment_text(segs.last(), t)
    }
}

/// The text of a path: the text of its leading `::` node, if any, then its segments.
pub open spec fn path_text(leading: Option<SyntaxNode>, segs: Seq<SegmentView>, t: Seq<Seq<char>>) -> Seq<char> {
    let lead = match leading {
        Some(n) => t[n.id as int],
        None => Seq::empty(),
    };
    lead + segments_text(segs, t)
}

/// Every node of the path has a text in a table of `n` texts.
pub open spec fn path_nodes_below(leading: Option<SyntaxNode>, segs: Seq<SegmentView>, n: nat) -> bool {
    &&& leading matches Some(l) ==> l.id < n
    &&& forall|i: int, j: int| 0 <= i < segs.len() && 0 <= j < segs[i].2.len() ==> (#[trigger] segs[i].2[j]).id < n
}

impl Path {
    /// The text of the path, where `node_texts[id]` is the source text of the node with
    /// that id: the leading `::` as written, the segments separated by `::`, and generic
    /// arguments written `::<A, B>`.
    pub fn text(&self, node_texts: &Vec<String>) -> (r: String)
        requires
            path_nodes_below(self.leading, self.segments_view(), node_texts@.len()),
        ensures
            r@ == path_text(self.leading, self.segments_view(), node_texts@.map_values(|s: String| s@)),
    {
        let ghost t = node_texts@.map_values(|s: String| s@);
        let ghost segs = self.segments_view();
        let mut out = String::new();
        match self.leading {
            Some(n) => {
                let len = node_texts.len();
                assert(n.id < len);
                let k = n.id as usize;
                assert(k as int == n.id as int);
                assert(t[k as int] == node_texts@[k as int]@);
                out.append(node_texts[k].as_str());
            },
            None => {},
        }
        let ghost lead = out@;
        assert(lead =~= path_text(self.leading, Seq::empty(), t));
        for i in 0..self.segments.len()
            invariant
                t == node_texts@.map_values(|s: String| s@),
                segs == self.segments_view(),
                path_nodes_below(self.leading, segs, node_texts@.len()),
                out@ == lead + segments_text(segs.subrange(0, i as int), t),
        {
            let seg = &self.segments[i];
            assert(segs[i as int] == segment_view(self.segments@[i as int]));
            if i > 0 {
                out.append("::");
            }
            let ghost before_seg = out@;
            out.append(seg.ident.name.as_str());
            if seg.args.len() > 0 {
                out.append("::<");
                let ghost before_args = out@;
                for j in 0..seg.args.len()
                    invariant
                        t == node_texts@.map_values(|s: String| s@),
                        segs == self.segments_view(),
                        segs[i as int] == segment_view(self.segments@[i as int]),
                        seg == self.segments@[i as int],
                        0 <= i < segs.len(),
                        path_nodes_below(self.leading, segs, node_texts@.len()),
                        out@ == before_args + args_text(seg.args@.subrange(0, j as int), t),
                {
                    assert(segs[i as int].2[j as int] == seg.args@[j as int]);
                    assert(seg.args@.subrange(0, j + 1).drop_last() =~= seg.args@.subrange(0, j as int));
                    if j > 0 {
                        out.append(", ");
                    }
                    let len = node_texts.len();
                    assert(segs[i as int].2[j as int].id < len);
                    let k = seg.args[j].id as usize;
                    assert(k as int == seg.args@[j as int].id as int);
                    assert(t[k as int] == node_texts@[k as int]@);
                    out.append(node_texts[k].as_str());
                }
                assert(seg.args@.subrange(0, seg.args@.len() as int) =~= seg.args@);
                out.append(">");
            }
            proof {
                assert(segs.subrange(0, i + 1).drop_last() =~= segs.subrange(0, i as int));
                assert(segs.subrange(0, i + 1).last() == segs[i as int]);
            }
        }
        assert(segs.subrange(0, segs.len() as int) =~= segs);
        out
    }
}

/// The names of the primitive types.
pub open spec fn primitive_names() -> Set<Seq<char>> {
    set![
        "u8"@,
        "u16"@,
        "u32"@,
        "u64"@,
        "u128"@,
        "usize"@,
        "i8"@,
        "i16"@,
        "i32"@,
        "i64"@,
        "i128"@,
        "isize"@,
        "bool"@,
        "str"@,
    ]
}

pub(crate) fn str_eq(a: &str, b: &str) -> (r: bool)
    ensures
        r == (a@ == b@),
{
    a.to_owned() == b.to_owned()
}

/// Whether `ident` names a primitive type.
pub fn str_is_primitive(ident: &str) -> (r: bool)
    ensures
        r == primitive_names().contains(ident@),
{
    str_eq(ident, "u8") || str_eq(ident, "u16") || str_eq(ident, "u32") || str_eq(ident, "u64") || str_eq(
        ident,
        "u128",
    ) || str_eq(ident, "usize") || str_eq(ident, "i8") || str_eq(ident, "i16") || str_eq(ident, "i32")
        || str_eq(ident, "i64") || str_eq(ident, "i128") || str_eq(ident, "isize") || str_eq(ident, "bool")
        || str_eq(ident, "str")
}

/// Whether the identifier names a primitive type.
pub fn ident_is_primitive(ident: &Ident) -> (r: bool)
    ensures
        r == primitive_names().contains(ident.name@),
{
    str_is_primitive(ident.name.as_str())
}

/// An `#[inline]` constraint of a function pattern.
#[derive(Debug, Clone, Copy, PartialEq, Eq, Structural)]
pub enum Inline {
    Unspecified,
    /// `#[inline]`
    Normal,
    /// `#[inline(always)]`
    Always,
    /// `#[inline(never)]`
    Never,
    /// Not [`Inline::Never`]
    Any,
}

impl Default for Inline {
    fn default() -> (r: Self)
        ensures
            r == Inline::Unspecified,
    {
        Inline::Unspecified
    }
}

impl Inline {
    /// Whether the `#[inline]` attributes of a function satisfy the constraint: an
    /// unspecified constraint always holds, `#[inline]` needs some attribute, the
    /// others need some attribute with the right argument.
    pub fn check(self, attrs: &Vec<InlineAttr>) -> (r: bool)
        ensures
            r == (match self {
                Inline::Unspecified => true,
                Inline::Normal => attrs@.len() > 0,
                Inline::Always => exists|i: int|
                    0 <= i < attrs@.len() && inline_attr_satisfies(crate::attributes::Inline::Always, #[trigger] attrs@[i]),
                Inline::Never => exists|i: int|
                    0 <= i < attrs@.len() && inline_attr_satisfies(crate::attributes::Inline::Never, #[trigger] attrs@[i]),
                Inline::Any => exists|i: int|
                    0 <= i < attrs@.len() && inline_attr_satisfies(crate::attributes::Inline::Any, #[trigger] attrs@[i]),
            }),
    {
        let c = match self {
            Inline::Unspecified => {
                return true;
            },
            Inline::Normal => {
                return attrs.len() > 0;
            },
            Inline::Always => crate::attributes::Inline::Always,
            Inline::Never => crate::attributes::Inline::Never,
            Inline::Any => crate::attributes::Inline::Any,
        };
        for i in 0..attrs.len()
            invariant
                self is Always ==> c == crate::attributes::Inline::Always,
                self is Never ==> c == crate::attributes::Inline::Never,
                self is Any ==> c == crate::attributes::Inline::Any,
                !(self is Unspecified) && !(self is Normal),
                forall|j: int| 0 <= j < i ==> !inline_attr_satisfies(c, #[trigger] attrs@[j]),
        {
            if c.satisfied_by(&attrs[i]) {
                assert(inline_attr_satisfies(c, attrs@[i as int]));
                return true;
            }
        }
        false
    }
}

/// Turning a fallible value into an optional one, recording the error.
pub trait Record: Sized {
    type Ok;
    type Err;

    fn or_record(self, errors: &mut Vec<Self::Err>) -> Option<Self::Ok>;
}

impl<T, E> Record for Result<T, E> {
    type Ok = T;
    type Err = E;

    fn or_record(self, errors: &mut Vec<E>) -> (r: Option<T>)
        ensures
            match self {
                Ok(v) => r == Some(v) && final(errors)@ == old(errors)@,
                Err(e) => r is None && final(errors)@ == old(errors)@.push(e),
            },
    {
        match self {
            Ok(value) => Some(value),
            Err(err) => {
                errors.push(err);
                None
            },
        }
    }
}

/// The value of `result`, or the default value after recording the error.
pub fn or_record_and_default<T: Default, E>(result: Result<T, E>, errors: &mut Vec<E>) -> (r: T)
    ensures
        match result {
            Ok(v) => r == v && final(errors)@ == old(errors)@,
            Err(e) => final(errors)@ == old(errors)@.push(e),
        },
{
    match result.or_record(errors) {
        Some(v) => v,
        None => T::default(),
    }
}

} // verus!
