//! The symbol tables of a pattern file: which metavariables, ADTs, functions, impls,
//! parameters and locals a pattern declares, and the errors found while declaring and
//! resolving them.
//!
//! A parsed node of the pattern file (a type, a path, an `impl` kind, a `self`
//! parameter) is carried as a [`SyntaxNode`]: the identity of the node and its range.
use vstd::prelude::*;

use crate::meta::{
    AdtPatType, Ident, LocalSpecial, MetaVariableType, Path, SpanWrapper, SrcSpan, SyntaxNode, WithPath,
};
use crate::name_map::{
    decl_value, declared_at, declared_once, declares, lemma_decl_value, lemma_declared_witness,
    lemma_push_distinct, names_distinct, names_of, rebound, NameMap,
};
use crate::paths::MetaContext;
use crate::predicates::PredicateConjunction;

verus! {

/// A type or a path declared in a function scope.
#[derive(Debug, Clone, Copy, PartialEq, Eq, Structural)]
pub enum TypeOrPath {
    Type(SyntaxNode),
    Path(SyntaxNode),
}

impl TypeOrPath {
    /// Where it stands.
    pub fn span(&self) -> (r: SrcSpan)
        ensures
            r == match *self {
                TypeOrPath::Type(n) => n.span,
                TypeOrPath::Path(n) => n.span,
            },
    {
        match self {
            TypeOrPath::Type(ty) => ty.span,
            TypeOrPath::Path(path) => path.span,
        }
    }
}

/// The declared kind of a non-local metavariable: a type, or a constant or place with
/// its type.
#[derive(Debug, Clone, Copy, PartialEq, Eq, Structural)]
pub enum MetaVarDecl {
    Type,
    Const(SyntaxNode),
    Place(SyntaxNode),
}

/// The kind of a declared non-local metavariable or ADT pattern.
#[derive(Debug, Clone, Copy, PartialEq, Eq, Structural)]
pub enum MetaVarKind {
    NonAdt(MetaVariableType),
    Adt(AdtPatType),
}

/// An error found while declaring or resolving the symbols of a pattern file.
#[derive(Debug, Clone)]
pub enum RPLMetaError<'i> {
    SymbolAlreadyDeclared { ident: String, span: SpanWrapper<'i> },
    SymbolNotDeclared { ident: String, span: SpanWrapper<'i> },
    NonLocalMetaVariableAlreadyDeclared { meta_var: String, span: SpanWrapper<'i> },
    NonLocalMetaVariableNotDeclared { meta_var: String, span: SpanWrapper<'i> },
    TypeOrPathAlreadyDeclared {
        type_or_path: String,
        span: SpanWrapper<'i>,
        span_previous: SpanWrapper<'i>,
    },
    TypeOrPathNotDeclared { type_or_path: String, span: SpanWrapper<'i>, declared: Vec<String> },
    MethodAlreadyDeclared { span: SpanWrapper<'i> },
    SelfNotDeclared { span: SpanWrapper<'i> },
    SelfAlreadyDeclared { span: SpanWrapper<'i> },
    SelfTypeOutsideImpl { span: SpanWrapper<'i> },
    RetNotDeclared { span: SpanWrapper<'i> },
    RetAlreadyDeclared { span: SpanWrapper<'i> },
    ImplAlreadyDeclared { span: SpanWrapper<'i> },
}

/// A range with the path of its file, by content.
pub type SpanView = (SrcSpan, Seq<char>);

/// An error, with names and paths by content.
pub enum MetaErrorView {
    SymbolAlreadyDeclared { ident: Seq<char>, span: SpanView },
    SymbolNotDeclared { ident: Seq<char>, span: SpanView },
    NonLocalMetaVariableAlreadyDeclared { meta_var: Seq<char>, span: SpanView },
    NonLocalMetaVariableNotDeclared { meta_var: Seq<char>, span: SpanView },
    TypeOrPathAlreadyDeclared { type_or_path: Seq<char>, span: SpanView, span_previous: SpanView },
    TypeOrPathNotDeclared { type_or_path: Seq<char>, span: SpanView, declared: Seq<Seq<char>> },
    MethodAlreadyDeclared { span: SpanView },
    SelfNotDeclared { span: SpanView },
    SelfAlreadyDeclared { span: SpanView },
    SelfTypeOutsideImpl { span: SpanView },
    RetNotDeclared { span: SpanView },
    RetAlreadyDeclared { span: SpanView },
    ImplAlreadyDeclared { span: SpanView },
}

pub open spec fn span_view(s: SpanWrapper) -> SpanView {
    (s.span, s.path@)
}

/// The names of a list of strings, by content.
pub open spec fn strings_view(v: Seq<String>) -> Seq<Seq<char>> {
    v.map_values(|s: String| s@)
}

impl<'i> View for RPLMetaError<'i> {
    type V = MetaErrorView;

    open spec fn view(&self) -> MetaErrorView {
        match *self {
            RPLMetaError::SymbolAlreadyDeclared { ident, span } => MetaErrorView::SymbolAlreadyDeclared {
                ident: ident@,
                span: span_view(span),
            },
            RPLMetaError::SymbolNotDeclared { ident, span } => MetaErrorView::SymbolNotDeclared {
                ident: ident@,
                span: span_view(span),
            },
            RPLMetaError::NonLocalMetaVariableAlreadyDeclared {
                meta_var,
                span,
            } => MetaErrorView::NonLocalMetaVariableAlreadyDeclared {
                meta_var: meta_var@,
                span: span_view(span),
            },
            RPLMetaError::NonLocalMetaVariableNotDeclared {
                meta_var,
                span,
            } => MetaErrorView::NonLocalMetaVariableNotDeclared { meta_var: meta_var@, span: span_view(span) },
            RPLMetaError::TypeOrPathAlreadyDeclared {
                type_or_path,
                span,
                span_previous,
            } => MetaErrorView::TypeOrPathAlreadyDeclared {
                type_or_path: type_or_path@,
                span: span_view(span),
                span_previous: span_view(span_previous),
            },
            RPLMetaError::TypeOrPathNotDeclared {
                type_or_path,
                span,
                declared,
            } => MetaErrorView::TypeOrPathNotDeclared {
                type_or_path: type_or_path@,
                span: span_view(span),
                declared: strings_view(declared@),
            },
            RPLMetaError::MethodAlreadyDeclared { span } => MetaErrorView::MethodAlreadyDeclared {
                span: span_view(span),
            },
            RPLMetaError::SelfNotDeclared { span } => MetaErrorView::SelfNotDeclared {
                span: span_view(span),
            },
            RPLMetaError::SelfAlreadyDeclared { span } => MetaErrorView::SelfAlreadyDeclared {
                span: span_view(span),
            },
            RPLMetaError::SelfTypeOutsideImpl { span } => MetaErrorView::SelfTypeOutsideImpl {
                span: span_view(span),
            },
            RPLMetaError::RetNotDeclared { span } => MetaErrorView::RetNotDeclared {
                span: span_view(span),
            },
            RPLMetaError::RetAlreadyDeclared { span } => MetaErrorView::RetAlreadyDeclared {
                span: span_view(span),
            },
            RPLMetaError::ImplAlreadyDeclared { span } => MetaErrorView::ImplAlreadyDeclared {
                span: span_view(span),
            },
        }
    }
}

/// A list of errors, by content.
pub open spec fn errors_view(v: Seq<RPLMetaError>) -> Seq<MetaErrorView> {
    v.map_values(|e: RPLMetaError| e@)
}

/// The range `span` in the active file of `mctx`.
pub open spec fn at_active(mctx: &MetaContext, span: SrcSpan) -> SpanView {
    (span, mctx.active()->Some_0@)
}

/// `new` is `old` with `e` appended.
pub open spec fn pushed(old: Seq<RPLMetaError>, new: Seq<RPLMetaError>, e: MetaErrorView) -> bool {
    errors_view(new) == errors_view(old).push(e)
}

/// Append `e` to `errors`.
fn push_error<'i>(errors: &mut Vec<RPLMetaError<'i>>, e: RPLMetaError<'i>)
    ensures
        errors_view(final(errors)@) == errors_view(old(errors)@).push(e@),
{
    let ghost ev = e@;
    errors.push(e);
    assert(errors_view(errors@) =~= errors_view(old(errors)@).push(ev));
}

/// The range `span` in the active file.
fn active_span<'i>(mctx: &MetaContext<'i>, span: SrcSpan) -> (r: SpanWrapper<'i>)
    requires
        mctx.active() is Some,
    ensures
        span_view(r) == at_active(mctx, span),
{
    SpanWrapper::new(span, mctx.get_active_path())
}

/// The declaration of a type metavariable: its position and its predicates.
pub type TypeVarDecl = (usize, PredicateConjunction);

/// The declaration of a constant or place metavariable: its position, its type and its
/// predicates.
pub type TypedVarDecl = (usize, SyntaxNode, PredicateConjunction);

/// The non-local metavariables and ADT patterns of a pattern item, in declaration order.
#[derive(Debug)]
pub struct NonLocalMetaSymTab {
    type_vars: NameMap<TypeVarDecl>,
    const_vars: NameMap<TypedVarDecl>,
    place_vars: NameMap<TypedVarDecl>,
    adt_pats: NameMap<AdtPatType>,
}

impl NonLocalMetaSymTab {
    /// The type metavariables.
    pub closed spec fn type_decls(&self) -> Seq<(Seq<char>, TypeVarDecl)> {
        self.type_vars@
    }

    /// The constant metavariables.
    pub closed spec fn const_decls(&self) -> Seq<(Seq<char>, TypedVarDecl)> {
        self.const_vars@
    }

    /// The place metavariables.
    pub closed spec fn place_decls(&self) -> Seq<(Seq<char>, TypedVarDecl)> {
        self.place_vars@
    }

    /// The ADT patterns.
    pub closed spec fn adt_decls(&self) -> Seq<(Seq<char>, AdtPatType)> {
        self.adt_pats@
    }

    /// No name is declared twice in one kind.
    pub open spec fn wf(&self) -> bool {
        &&& names_distinct(self.type_decls())
        &&& names_distinct(self.const_decls())
        &&& names_distinct(self.place_decls())
        &&& names_distinct(self.adt_decls())
    }

    /// The kind under which `name` is found: type, constant and place metavariables
    /// first, then ADT patterns.
    pub open spec fn kind_of(&self, name: Seq<char>) -> Option<MetaVarKind> {
        if declares(self.type_decls(), name) {
            Some(MetaVarKind::NonAdt(MetaVariableType::Type))
        } else if declares(self.const_decls(), name) {
            Some(MetaVarKind::NonAdt(MetaVariableType::Const))
        } else if declares(self.place_decls(), name) {
            Some(MetaVarKind::NonAdt(MetaVariableType::Place))
        } else if declares(self.adt_decls(), name) {
            Some(MetaVarKind::Adt(decl_value(self.adt_decls(), name)))
        } else {
            None
        }
    }

    /// `v` is what the table holds for `name` under the kind of `v`.
    pub open spec fn holds(&self, name: Seq<char>, v: MetaVariable) -> bool {
        match v {
            MetaVariable::Type(i, p) => decl_value(self.type_decls(), name) == (i, *p),
            MetaVariable::Const(i, n, p) => decl_value(self.const_decls(), name) == (i, n, *p),
            MetaVariable::Place(i, n, p) => decl_value(self.place_decls(), name) == (i, n, *p),
            MetaVariable::AdtPat(k, s) => s@ == name && decl_value(self.adt_decls(), name) == k,
        }
    }

    /// No metavariable, no ADT pattern.
    pub fn new() -> (r: Self)
        ensures
            r.wf(),
            r.type_decls().len() == 0,
            r.const_decls().len() == 0,
            r.place_decls().len() == 0,
            r.adt_decls().len() == 0,
    {
        NonLocalMetaSymTab {
            type_vars: NameMap::new(),
            const_vars: NameMap::new(),
            place_vars: NameMap::new(),
            adt_pats: NameMap::new(),
        }
    }

    /// The names and positions of the type metavariables.
    pub fn type_vars(&self) -> (r: Vec<(String, usize)>)
        ensures
            r@.len() == self.type_decls().len(),
            forall|i: int|
                0 <= i < r@.len() ==> (#[trigger] r@[i]).0@ == self.type_decls()[i].0 && r@[i].1
                    == self.type_decls()[i].1.0,
    {
        let mut r: Vec<(String, usize)> = Vec::new();
        let mut i: usize = 0;
        while i < self.type_vars.len()
            invariant
                i <= self.type_decls().len(),
                r@.len() == i,
                forall|j: int|
                    0 <= j < i ==> (#[trigger] r@[j]).0@ == self.type_decls()[j].0 && r@[j].1
                        == self.type_decls()[j].1.0,
            decreases self.type_decls().len() - i,
        {
            let (name, decl) = self.type_vars.entry_at(i);
            r.push((name.clone(), decl.0));
            i = i + 1;
        }
        r
    }

    /// The names and positions of the constant metavariables.
    pub fn const_vars(&self) -> (r: Vec<(String, usize)>)
        ensures
            r@.len() == self.const_decls().len(),
            forall|i: int|
                0 <= i < r@.len() ==> (#[trigger] r@[i]).0@ == self.const_decls()[i].0 && r@[i].1
                    == self.const_decls()[i].1.0,
    {
        typed_var_positions(&self.const_vars)
    }

    /// The names and positions of the place metavariables.
    pub fn place_vars(&self) -> (r: Vec<(String, usize)>)
        ensures
            r@.len() == self.place_decls().len(),
            forall|i: int|
                0 <= i < r@.len() ==> (#[trigger] r@[i]).0@ == self.place_decls()[i].0 && r@[i].1
                    == self.place_decls()[i].1.0,
    {
        typed_var_positions(&self.place_vars)
    }

    /// The place metavariables.
    pub fn place_vars_map(&self) -> (r: &NameMap<TypedVarDecl>)
        ensures
            r@ == self.place_decls(),
    {
        &self.place_vars
    }

    /// Declare a non-local metavariable; a name declared twice in one kind is reported,
    /// and the later declaration takes the place of the earlier one, at the position
    /// the number of that kind's metavariables gives.
    pub fn add_non_local_meta_var<'i>(
        &mut self,
        mctx: &MetaContext<'i>,
        meta_var: &Ident,
        meta_var_ty: MetaVarDecl,
        preds: PredicateConjunction,
        errors: &mut Vec<RPLMetaError<'i>>,
    )
        requires
            old(self).wf(),
            (match meta_var_ty {
                MetaVarDecl::Type => declares(old(self).type_decls(), meta_var.name@),
                MetaVarDecl::Const(_) => declares(old(self).const_decls(), meta_var.name@),
                MetaVarDecl::Place(_) => declares(old(self).place_decls(), meta_var.name@),
            }) ==> mctx.active() is Some,
        ensures
            final(self).wf(),
            final(self).adt_decls() == old(self).adt_decls(),
            ({
                let name = meta_var.name@;
                let (old_decls_has, same_others) = match meta_var_ty {
                    MetaVarDecl::Type => (
                        declares(old(self).type_decls(), name),
                        rebound(
                            old(self).type_decls(),
                            final(self).type_decls(),
                            name,
                            (old(self).type_decls().len() as usize, preds),
                        ) && final(self).const_decls() == old(self).const_decls()
                            && final(self).place_decls() == old(self).place_decls(),
                    ),
                    MetaVarDecl::Const(ty) => (
                        declares(old(self).const_decls(), name),
                        rebound(
                            old(self).const_decls(),
                            final(self).const_decls(),
                            name,
                            (old(self).const_decls().len() as usize, ty, preds),
                        ) && final(self).type_decls() == old(self).type_decls()
                            && final(self).place_decls() == old(self).place_decls(),
                    ),
                    MetaVarDecl::Place(ty) => (
                        declares(old(self).place_decls(), name),
                        rebound(
                            old(self).place_decls(),
                            final(self).place_decls(),
                            name,
                            (old(self).place_decls().len() as usize, ty, preds),
                        ) && final(self).type_decls() == old(self).type_decls()
                            && final(self).const_decls() == old(self).const_decls(),
                    ),
                };
                &&& same_others
                &&& old_decls_has ==> pushed(
                    old(errors)@,
                    final(errors)@,
                    MetaErrorView::NonLocalMetaVariableAlreadyDeclared {
                        meta_var: name,
                        span: at_active(mctx, meta_var.span),
                    },
                )
                &&& !old_decls_has ==> final(errors)@ == old(errors)@
            }),
    {
        let existed = match meta_var_ty {
            MetaVarDecl::Type => {
                let idx = self.type_vars.len();
                self.type_vars.insert(meta_var.name.clone(), (idx, preds))
            },
            MetaVarDecl::Const(ty) => {
                let idx = self.const_vars.len();
                self.const_vars.insert(meta_var.name.clone(), (idx, ty, preds))
            },
            MetaVarDecl::Place(ty) => {
                let idx = self.place_vars.len();
                self.place_vars.insert(meta_var.name.clone(), (idx, ty, preds))
            },
        };
        if existed {
            let span = active_span(mctx, meta_var.span);
            push_error(
                errors,
                RPLMetaError::NonLocalMetaVariableAlreadyDeclared { meta_var: meta_var.name.clone(), span },
            );
        }
    }

    /// Declare an ADT pattern; one declared before is reported and kept.
    pub fn add_adt_pat<'i>(
        &mut self,
        mctx: &MetaContext<'i>,
        meta_var: &Ident,
        adt_pat_ty: AdtPatType,
        errors: &mut Vec<RPLMetaError<'i>>,
    ) -> (r: Option<()>)
        requires
            old(self).wf(),
            declares(old(self).adt_decls(), meta_var.name@) ==> mctx.active() is Some,
        ensures
            final(self).wf(),
            final(self).type_decls() == old(self).type_decls(),
            final(self).const_decls() == old(self).const_decls(),
            final(self).place_decls() == old(self).place_decls(),
            declared_once(old(self).adt_decls(), final(self).adt_decls(), meta_var.name@, adt_pat_ty),
            r is Some == !declares(old(self).adt_decls(), meta_var.name@),
            r is Some ==> final(errors)@ == old(errors)@,
            r is None ==> pushed(
                old(errors)@,
                final(errors)@,
                MetaErrorView::NonLocalMetaVariableAlreadyDeclared {
                    meta_var: meta_var.name@,
                    span: at_active(mctx, meta_var.span),
                },
            ),
    {
        if self.adt_pats.try_insert(meta_var.name.clone(), adt_pat_ty) {
            Some(())
        } else {
            let span = active_span(mctx, meta_var.span);
            push_error(
                errors,
                RPLMetaError::NonLocalMetaVariableAlreadyDeclared { meta_var: meta_var.name.clone(), span },
            );
            None
        }
    }

    /// What `symbol` names: a type, constant or place metavariable, else an ADT pattern.
    pub fn get_from_symbol(&self, symbol: &str) -> (r: Option<MetaVariable<'_>>)
        requires
            self.wf(),
        ensures
            r is Some == self.kind_of(symbol@) is Some,
            r matches Some(v) ==> v.kind() == self.kind_of(symbol@)->Some_0 && self.holds(symbol@, v),
    {
        if let Some((idx, preds)) = self.type_vars.get(symbol) {
            Some(MetaVariable::Type(*idx, preds))
        } else if let Some((idx, ty, preds)) = self.const_vars.get(symbol) {
            Some(MetaVariable::Const(*idx, *ty, preds))
        } else if let Some((idx, ty, preds)) = self.place_vars.get(symbol) {
            Some(MetaVariable::Place(*idx, *ty, preds))
        } else if let Some(adt_pat_ty) = self.adt_pats.get(symbol) {
            Some(MetaVariable::AdtPat(*adt_pat_ty, symbol.to_owned()))
        } else {
            None
        }
    }

    /// The kind of the metavariable `meta_var`; one not declared is reported.
    pub fn get_non_local_meta_var<'i>(
        &self,
        mctx: &MetaContext<'i>,
        meta_var: &Ident,
        errors: &mut Vec<RPLMetaError<'i>>,
    ) -> (r: Option<MetaVarKind>)
        requires
            self.wf(),
            self.kind_of(meta_var.name@) is None ==> mctx.active() is Some,
        ensures
            r == self.kind_of(meta_var.name@),
            r is Some ==> final(errors)@ == old(errors)@,
            r is None ==> pushed(
                old(errors)@,
                final(errors)@,
                MetaErrorView::NonLocalMetaVariableNotDeclared {
                    meta_var: meta_var.name@,
                    span: at_active(mctx, meta_var.span),
                },
            ),
    {
        match self.get_from_symbol(meta_var.name.as_str()) {
            Some(var) => Some(var.ty()),
            None => {
                let span = active_span(mctx, meta_var.span);
                push_error(
                    errors,
                    RPLMetaError::NonLocalMetaVariableNotDeclared { meta_var: meta_var.name.clone(), span },
                );
                None
            },
        }
    }

    /// The metavariable named `name`, which must be declared.
    pub fn force_non_local_meta_var(&self, name: &str) -> (r: MetaVariable<'_>)
        requires
            self.wf(),
            self.kind_of(name@) is Some,
        ensures
            r.kind() == self.kind_of(name@)->Some_0,
            self.holds(name@, r),
    {
        match self.get_from_symbol(name) {
            Some(var) => var,
            None => unreached(),
        }
    }
}

/// The names and positions of a table of constant or place metavariables.
fn typed_var_positions(t: &NameMap<TypedVarDecl>) -> (r: Vec<(String, usize)>)
    ensures
        r@.len() == t@.len(),
        forall|i: int| 0 <= i < r@.len() ==> (#[trigger] r@[i]).0@ == t@[i].0 && r@[i].1 == t@[i].1.0,
{
    let mut r: Vec<(String, usize)> = Vec::new();
    let mut i: usize = 0;
    while i < t.len()
        invariant
            i <= t@.len(),
            r@.len() == i,
            forall|j: int| 0 <= j < i ==> (#[trigger] r@[j]).0@ == t@[j].0 && r@[j].1 == t@[j].1.0,
        decreases t@.len() - i,
    {
        let (name, decl) = t.entry_at(i);
        r.push((name.clone(), decl.0));
        i = i + 1;
    }
    r
}

/// A declared metavariable or ADT pattern; predicates are borrowed from the table.
#[derive(Debug)]
pub enum MetaVariable<'a> {
    Type(usize, &'a PredicateConjunction),
    Const(usize, SyntaxNode, &'a PredicateConjunction),
    Place(usize, SyntaxNode, &'a PredicateConjunction),
    AdtPat(AdtPatType, String),
}

impl<'a> MetaVariable<'a> {
    /// The kind of the metavariable.
    pub open spec fn kind(&self) -> MetaVarKind {
        match *self {
            MetaVariable::Type(..) => MetaVarKind::NonAdt(MetaVariableType::Type),
            MetaVariable::Const(..) => MetaVarKind::NonAdt(MetaVariableType::Const),
            MetaVariable::Place(..) => MetaVarKind::NonAdt(MetaVariableType::Place),
            MetaVariable::AdtPat(k, _) => MetaVarKind::Adt(k),
        }
    }

    /// The kind of the metavariable.
    pub fn ty(&self) -> (r: MetaVarKind)
        ensures
            r == self.kind(),
    {
        match self {
            MetaVariable::Type(..) => MetaVarKind::NonAdt(MetaVariableType::Type),
            MetaVariable::Const(..) => MetaVarKind::NonAdt(MetaVariableType::Const),
            MetaVariable::Place(..) => MetaVarKind::NonAdt(MetaVariableType::Place),
            MetaVariable::AdtPat(kind, _) => MetaVarKind::Adt(*kind),
        }
    }

    /// The position, type and predicates of a constant metavariable.
    pub fn expect_const(self) -> (r: (usize, SyntaxNode, &'a PredicateConjunction))
        requires
            self is Const,
        ensures
            self == MetaVariable::Const(r.0, r.1, r.2),
    {
        match self {
            MetaVariable::Const(idx, ty, pred) => (idx, ty, pred),
            _ => (0, SyntaxNode { id: 0, span: SrcSpan { start: 0, end: 0 } }, unreached()),
        }
    }

    /// The kind, position and predicates of a metavariable that is not an ADT pattern.
    pub fn expect_non_adt(self) -> (r: (MetaVariableType, usize, &'a PredicateConjunction))
        requires
            !(self is AdtPat),
        ensures
            MetaVarKind::NonAdt(r.0) == self.kind(),
            match self {
                MetaVariable::Type(i, p) => r.1 == i && r.2 == p,
                MetaVariable::Const(i, _, p) => r.1 == i && r.2 == p,
                MetaVariable::Place(i, _, p) => r.1 == i && r.2 == p,
                MetaVariable::AdtPat(..) => false,
            },
    {
        match self {
            MetaVariable::Type(idx, pred) => (MetaVariableType::Type, idx, pred),
            MetaVariable::Const(idx, _, pred) => (MetaVariableType::Const, idx, pred),
            MetaVariable::Place(idx, _, pred) => (MetaVariableType::Place, idx, pred),
            MetaVariable::AdtPat(..) => (MetaVariableType::Type, 0, unreached()),
        }
    }
}

/// The fields of a struct pattern or an enum variant, in declaration order.
#[derive(Debug)]
pub struct Variant {
    fields: NameMap<SyntaxNode>,
}

impl Variant {
    /// The fields and their types.
    pub closed spec fn field_decls(&self) -> Seq<(Seq<char>, SyntaxNode)> {
        self.fields@
    }

    /// No field is declared twice.
    pub open spec fn wf(&self) -> bool {
        names_distinct(self.field_decls())
    }

    /// No field.
    pub fn new() -> (r: Self)
        ensures
            r.wf(),
            r.field_decls().len() == 0,
    {
        Variant { fields: NameMap::new() }
    }

    /// Declare a field; one declared before is reported and keeps its type.
    pub fn add_field<'i>(
        &mut self,
        mctx: &MetaContext<'i>,
        ident: &Ident,
        ty: SyntaxNode,
        errors: &mut Vec<RPLMetaError<'i>>,
    )
        requires
            old(self).wf(),
            declares(old(self).field_decls(), ident.name@) ==> mctx.active() is Some,
        ensures
            final(self).wf(),
            declared_once(old(self).field_decls(), final(self).field_decls(), ident.name@, ty),
            declares(old(self).field_decls(), ident.name@) ==> pushed(
                old(errors)@,
                final(errors)@,
                MetaErrorView::SymbolAlreadyDeclared { ident: ident.name@, span: at_active(mctx, ident.span) },
            ),
            !declares(old(self).field_decls(), ident.name@) ==> final(errors)@ == old(errors)@,
    {
        if !self.fields.try_insert(ident.name.clone(), ty) {
            let span = active_span(mctx, ident.span);
            push_error(errors, RPLMetaError::SymbolAlreadyDeclared { ident: ident.name.clone(), span });
        }
    }
}

/// The variants of an enum pattern, in declaration order.
#[derive(Debug)]
pub struct EnumInner {
    variants: NameMap<Variant>,
}

impl EnumInner {
    /// The variants.
    pub closed spec fn variant_decls(&self) -> Seq<(Seq<char>, Variant)> {
        self.variants@
    }

    /// No variant is declared twice.
    pub open spec fn wf(&self) -> bool {
        names_distinct(self.variant_decls())
    }

    /// No variant.
    pub fn new() -> (r: Self)
        ensures
            r.wf(),
            r.variant_decls().len() == 0,
    {
        EnumInner { variants: NameMap::new() }
    }

    /// Declare a variant, which is handed back to have its fields declared; one declared
    /// before is reported and kept.
    pub fn add_variant<'i>(
        &mut self,
        mctx: &MetaContext<'i>,
        ident: &Ident,
        errors: &mut Vec<RPLMetaError<'i>>,
    ) -> (r: Option<&mut Variant>)
        requires
            old(self).wf(),
            declares(old(self).variant_decls(), ident.name@) ==> mctx.active() is Some,
        ensures
            r is Some == !declares(old(self).variant_decls(), ident.name@),
            r is None ==> final(self).variant_decls() == old(self).variant_decls(),
            r is None ==> pushed(
                old(errors)@,
                final(errors)@,
                MetaErrorView::SymbolAlreadyDeclared { ident: ident.name@, span: at_active(mctx, ident.span) },
            ),
            r matches Some(v) ==> {
                &&& v.wf()
                &&& v.field_decls().len() == 0
                &&& final(self).wf()
                &&& final(self).variant_decls() == old(self).variant_decls().push((ident.name@, *final(v)))
                &&& final(errors)@ == old(errors)@
            },
    {
        if self.variants.try_insert(ident.name.clone(), Variant::new()) {
            let last = self.variants.len() - 1;
            Some(self.variants.value_at_mut(last))
        } else {
            let span = active_span(mctx, ident.span);
            push_error(errors, RPLMetaError::SymbolAlreadyDeclared { ident: ident.name.clone(), span });
            None
        }
    }
}

/// The declaration of a local of a function pattern: its label, its position, its type
/// and its role.
#[derive(Debug)]
pub struct LocalDecl {
    pub label: Option<String>,
    pub idx: usize,
    pub ty: SyntaxNode,
    pub special: LocalSpecial,
}

/// The name of a function pattern: `_`, or an identifier.
#[derive(Debug)]
pub enum FnName {
    Unnamed(SrcSpan),
    Named(Ident),
}

/// A local of a MIR pattern as written: a placeholder, `self`, `RET`, or an identifier,
/// with its range.
#[derive(Debug)]
pub struct PlaceLocal {
    pub span: SrcSpan,
    pub kind: PlaceLocalKind,
}

#[derive(Debug)]
pub enum PlaceLocalKind {
    PlaceHolder,
    SelfValue(Ident),
    RetValue(Ident),
    Local(Ident),
}

/// The scope of a function pattern: its types and imports, `self`, the return value,
/// its parameters and its locals.
#[derive(Debug)]
pub struct FnInner<'i> {
    span: SrcSpan,
    path: &'i str,
    types: NameMap<TypeOrPath>,
    self_value: Option<SyntaxNode>,
    ret_value: Option<SyntaxNode>,
    self_param: Option<SyntaxNode>,
    self_ty: Option<SyntaxNode>,
    params: NameMap<SyntaxNode>,
    locals: NameMap<LocalDecl>,
    symbol_to_local_idx: NameMap<usize>,
}

/// A function scope, by content.
pub struct FnView {
    pub span: SrcSpan,
    pub path: Seq<char>,
    pub types: Seq<(Seq<char>, TypeOrPath)>,
    pub self_value: Option<SyntaxNode>,
    pub ret_value: Option<SyntaxNode>,
    pub self_param: Option<SyntaxNode>,
    pub self_ty: Option<SyntaxNode>,
    pub params: Seq<(Seq<char>, SyntaxNode)>,
    pub locals: Seq<(Seq<char>, LocalDecl)>,
}

impl FnView {
    /// The type of a local or, failing that, of a parameter named `name`.
    pub open spec fn local_type(self, name: Seq<char>) -> Option<SyntaxNode> {
        if declares(self.locals, name) {
            Some(decl_value(self.locals, name).ty)
        } else if declares(self.params, name) {
            Some(decl_value(self.params, name))
        } else {
            None
        }
    }
}

/// `v` is a label copied from `l`.
pub open spec fn same_label(v: Option<String>, l: Option<String>) -> bool {
    match (v, l) {
        (Some(a), Some(b)) => a@ == b@,
        (None, None) => true,
        _ => false,
    }
}

fn copy_label(l: &Option<String>) -> (r: Option<String>)
    ensures
        same_label(r, *l),
{
    match l {
        Some(s) => Some(s.clone()),
        None => None,
    }
}

impl<'i> View for FnInner<'i> {
    type V = FnView;

    closed spec fn view(&self) -> FnView {
        FnView {
            span: self.span,
            path: self.path@,
            types: self.types@,
            self_value: self.self_value,
            ret_value: self.ret_value,
            self_param: self.self_param,
            self_ty: self.self_ty,
            params: self.params@,
            locals: self.locals@,
        }
    }
}

impl<'i> FnInner<'i> {
    /// The position each local was declared at, by name.
    pub closed spec fn local_positions(&self) -> Seq<(Seq<char>, usize)> {
        self.symbol_to_local_idx@
    }

    /// No name is declared twice in one table; the locals are numbered in declaration
    /// order, and the positions by name agree with them.
    pub open spec fn wf(&self) -> bool {
        &&& names_distinct(self@.types)
        &&& names_distinct(self@.params)
        &&& names_distinct(self@.locals)
        &&& forall|i: int| 0 <= i < self@.locals.len() ==> (#[trigger] self@.locals[i]).1.idx == i
        &&& self.local_positions().len() == self@.locals.len()
        &&& forall|i: int|
            0 <= i < self@.locals.len() ==> (#[trigger] self.local_positions()[i]) == (
                self@.locals[i].0,
                i as usize,
            )
    }

    /// A scope with nothing declared, of the function at `span` in the file `path`.
    pub fn new(span: SrcSpan, path: &'i str, self_ty: Option<SyntaxNode>) -> (r: Self)
        ensures
            r.wf(),
            r@ == (FnView {
                span,
                path: path@,
                types: Seq::empty(),
                self_value: None,
                ret_value: None,
                self_param: None,
                self_ty,
                params: Seq::empty(),
                locals: Seq::empty(),
            }),
    {
        let r = FnInner {
            span,
            path,
            types: NameMap::new(),
            self_value: None,
            ret_value: None,
            self_param: None,
            self_ty,
            params: NameMap::new(),
            locals: NameMap::new(),
            symbol_to_local_idx: NameMap::new(),
        };
        r
    }

    /// The name of a function pattern and its empty scope, in the active file.
    pub fn parse_from(mctx: &MetaContext<'i>, fn_name: &FnName, self_ty: Option<SyntaxNode>) -> (r: (
        Option<Ident>,
        Self,
    ))
        requires
            mctx.active() is Some,
        ensures
            r.1.wf(),
            r.1@.path == mctx.active()->Some_0@,
            r.1@.self_ty == self_ty,
            r.1@.types.len() == 0 && r.1@.params.len() == 0 && r.1@.locals.len() == 0,
            r.1@.self_value is None && r.1@.ret_value is None && r.1@.self_param is None,
            match *fn_name {
                FnName::Unnamed(span) => r.0 is None && r.1@.span == span,
                FnName::Named(ident) => r.0 matches Some(i) && i.view_pair() == ident.view_pair()
                    && r.1@.span == ident.span,
            },
    {
        match fn_name {
            FnName::Unnamed(span) => (None, Self::new(*span, mctx.get_active_path(), self_ty)),
            FnName::Named(ident) => {
                let ident = ident.copy();
                let span = ident.span;
                (Some(ident), FnInner::new(span, mctx.get_active_path(), self_ty))
            },
        }
    }

    /// Declare a type or an imported path; one declared before is reported, with where
    /// it was, and kept.
    pub fn add_type_impl(
        &mut self,
        mctx: &MetaContext<'i>,
        ident: &Ident,
        ty: TypeOrPath,
        errors: &mut Vec<RPLMetaError<'i>>,
    )
        requires
            old(self).wf(),
            declares(old(self)@.types, ident.name@) ==> mctx.active() is Some,
        ensures
            final(self).wf(),
            final(self).local_positions() == old(self).local_positions(),
            final(self)@ == (FnView { types: final(self)@.types, ..old(self)@ }),
            declared_once(old(self)@.types, final(self)@.types, ident.name@, ty),
            declares(old(self)@.types, ident.name@) ==> pushed(
                old(errors)@,
                final(errors)@,
                MetaErrorView::TypeOrPathAlreadyDeclared {
                    type_or_path: ident.name@,
                    span: at_active(mctx, ident.span),
                    span_previous: at_active(
                        mctx,
                        type_or_path_span(decl_value(old(self)@.types, ident.name@)),
                    ),
                },
            ),
            !declares(old(self)@.types, ident.name@) ==> final(errors)@ == old(errors)@,
    {
        match self.types.get(ident.name.as_str()) {
            Some(previous) => {
                let span = active_span(mctx, ident.span);
                let span_previous = active_span(mctx, previous.span());
                push_error(
                    errors,
                    RPLMetaError::TypeOrPathAlreadyDeclared {
                        type_or_path: ident.name.clone(),
                        span,
                        span_previous,
                    },
                );
            },
            None => {
                let ok = self.types.try_insert(ident.name.clone(), ty);
                assert(ok);
            },
        }
    }
}

/// The scope `v` after declaring the local `name`, unless a local of that name is
/// declared already.
pub open spec fn with_local(
    v: FnView,
    label: Option<String>,
    name: Seq<char>,
    ty: SyntaxNode,
    special: LocalSpecial,
) -> FnView {
    if declares(v.locals, name) {
        v
    } else {
        FnView {
            locals: v.locals.push(
                (name, LocalDecl { label, idx: v.locals.len() as usize, ty, special }),
            ),
            ..v
        }
    }
}

/// The scope `v` after declaring the MIR local `local` of type `ty`: `self` and `RET`
/// also set the type of the self value and of the return value, unless it was set.
pub open spec fn with_place_local(v: FnView, label: Option<String>, local: PlaceLocal, ty: SyntaxNode) -> FnView {
    match local.kind {
        PlaceLocalKind::PlaceHolder => v,
        PlaceLocalKind::SelfValue(ident) => if v.self_value is Some {
            v
        } else {
            with_local(FnView { self_value: Some(ty), ..v }, label, ident.name@, ty, LocalSpecial::Self_)
        },
        PlaceLocalKind::RetValue(ident) => if v.ret_value is Some {
            v
        } else {
            with_local(FnView { ret_value: Some(ty), ..v }, label, ident.name@, ty, LocalSpecial::Return)
        },
        PlaceLocalKind::Local(ident) => with_local(v, label, ident.name@, ty, LocalSpecial::NoSpecial),
    }
}

/// The error declaring the MIR local `local` in `v` reports, if any, in the file `path`.
pub open spec fn place_local_error(v: FnView, local: PlaceLocal, path: Seq<char>) -> Option<MetaErrorView> {
    match local.kind {
        PlaceLocalKind::PlaceHolder => None,
        PlaceLocalKind::SelfValue(ident) => if v.self_value is Some {
            Some(MetaErrorView::SelfAlreadyDeclared { span: (local.span, path) })
        } else {
            local_error(v.locals, ident, path)
        },
        PlaceLocalKind::RetValue(ident) => if v.ret_value is Some {
            Some(MetaErrorView::RetAlreadyDeclared { span: (local.span, path) })
        } else {
            local_error(v.locals, ident, path)
        },
        PlaceLocalKind::Local(ident) => local_error(v.locals, ident, path),
    }
}

/// The error declaring the local `ident` reports, if any.
pub open spec fn local_error(locals: Seq<(Seq<char>, LocalDecl)>, ident: Ident, path: Seq<char>) -> Option<
    MetaErrorView,
> {
    if declares(locals, ident.name@) {
        Some(MetaErrorView::SymbolAlreadyDeclared { ident: ident.name@, span: (ident.span, path) })
    } else {
        None
    }
}

/// `errors` after reporting `e`, if there is one.
pub open spec fn reported(old: Seq<RPLMetaError>, new: Seq<RPLMetaError>, e: Option<MetaErrorView>) -> bool {
    match e {
        Some(e) => pushed(old, new, e),
        None => new == old,
    }
}

/// The type of a local or parameter named `name`, else of the place metavariable.
pub open spec fn place_or_local_type(v: FnView, meta_vars: &NonLocalMetaSymTab, name: Seq<char>) -> Option<
    SyntaxNode,
> {
    match v.local_type(name) {
        Some(t) => Some(t),
        None => if declares(meta_vars.place_decls(), name) {
            Some(decl_value(meta_vars.place_decls(), name).1)
        } else {
            None
        },
    }
}

/// What the MIR local `local` resolves to in `v`, or the error that is reported.
pub open spec fn place_local_type(
    v: FnView,
    meta_vars: &NonLocalMetaSymTab,
    local: PlaceLocal,
    path: Seq<char>,
) -> Result<Option<SyntaxNode>, MetaErrorView> {
    match local.kind {
        PlaceLocalKind::PlaceHolder => Ok(None),
        PlaceLocalKind::RetValue(_) => match v.ret_value {
            Some(t) => Ok(Some(t)),
            None => Err(MetaErrorView::RetNotDeclared { span: (local.span, path) }),
        },
        PlaceLocalKind::Local(ident) => match place_or_local_type(v, meta_vars, ident.name@) {
            Some(t) => Ok(Some(t)),
            None => Err(MetaErrorView::SymbolNotDeclared { ident: ident.name@, span: (ident.span, path) }),
        },
        PlaceLocalKind::SelfValue(_) => if v.self_value is None && v.self_param is None {
            Err(MetaErrorView::SelfNotDeclared { span: (local.span, path) })
        } else {
            match v.self_value {
                Some(t) => Ok(Some(t)),
                None => match v.self_ty {
                    Some(t) => Ok(Some(t)),
                    None => Err(MetaErrorView::SelfTypeOutsideImpl { span: (local.span, path) }),
                },
            }
        },
    }
}

impl<'i> FnInner<'i> {
    /// The type or path declared as `ident`, or the error naming what is declared.
    pub fn get_type_or_path(&self, path: &'i str, ident: &Ident) -> (r: Result<TypeOrPath, RPLMetaError<'i>>)
        requires
            self.wf(),
        ensures
            declares(self@.types, ident.name@) ==> r == Ok::<TypeOrPath, RPLMetaError<'i>>(
                decl_value(self@.types, ident.name@),
            ),
            !declares(self@.types, ident.name@) ==> (r matches Err(e) && e@ == (
            MetaErrorView::TypeOrPathNotDeclared {
                type_or_path: ident.name@,
                span: (ident.span, path@),
                declared: names_of(self@.types),
            })),
    {
        match self.types.get(ident.name.as_str()) {
            Some(t) => Ok(*t),
            None => Err(
                RPLMetaError::TypeOrPathNotDeclared {
                    span: SpanWrapper::new(ident.span, path),
                    type_or_path: ident.name.clone(),
                    declared: self.types.names(),
                },
            ),
        }
    }

    /// Declare the last identifier of `path` as the path `node`.
    pub fn add_import(
        &mut self,
        mctx: &MetaContext<'i>,
        node: SyntaxNode,
        path: &Path,
        errors: &mut Vec<RPLMetaError<'i>>,
    )
        requires
            old(self).wf(),
            path.segments@.len() > 0,
            declares(old(self)@.types, path.segments@.last().ident.name@) ==> mctx.active() is Some,
        ensures
            final(self).wf(),
            final(self).local_positions() == old(self).local_positions(),
            final(self)@ == (FnView { types: final(self)@.types, ..old(self)@ }),
            ({
                let ident = path.segments@.last().ident;
                &&& declared_once(old(self)@.types, final(self)@.types, ident.name@, TypeOrPath::Path(node))
                &&& declares(old(self)@.types, ident.name@) ==> pushed(
                    old(errors)@,
                    final(errors)@,
                    MetaErrorView::TypeOrPathAlreadyDeclared {
                        type_or_path: ident.name@,
                        span: at_active(mctx, ident.span),
                        span_previous: at_active(
                            mctx,
                            type_or_path_span(decl_value(old(self)@.types, ident.name@)),
                        ),
                    },
                )
                &&& !declares(old(self)@.types, ident.name@) ==> final(errors)@ == old(errors)@
            }),
    {
        let ident = path.ident();
        self.add_type_impl(mctx, &ident, TypeOrPath::Path(node), errors);
    }

    /// The locals in declaration order, which is the order of their positions: label,
    /// name, type and role of each, with the file of the function.
    pub fn get_sorted_locals(&self) -> (r: WithPath<'i, Vec<(Option<String>, String, SyntaxNode, LocalSpecial)>>)
        requires
            self.wf(),
        ensures
            r.path@ == self@.path,
            r.inner@.len() == self@.locals.len(),
            forall|i: int|
                0 <= i < r.inner@.len() ==> {
                    let l = #[trigger] r.inner@[i];
                    let d = self@.locals[i];
                    &&& d.1.idx == i
                    &&& same_label(l.0, d.1.label)
                    &&& l.1@ == d.0
                    &&& l.2 == d.1.ty
                    &&& l.3 == d.1.special
                },
    {
        let mut out: Vec<(Option<String>, String, SyntaxNode, LocalSpecial)> = Vec::new();
        let mut i: usize = 0;
        while i < self.locals.len()
            invariant
                self.wf(),
                i <= self@.locals.len(),
                out@.len() == i,
                forall|j: int|
                    0 <= j < i ==> {
                        let l = #[trigger] out@[j];
                        let d = self@.locals[j];
                        &&& same_label(l.0, d.1.label)
                        &&& l.1@ == d.0
                        &&& l.2 == d.1.ty
                        &&& l.3 == d.1.special
                    },
            decreases self@.locals.len() - i,
        {
            let (name, decl) = self.locals.entry_at(i);
            out.push((copy_label(&decl.label), name.clone(), decl.ty, decl.special));
            i = i + 1;
        }
        WithPath::new(self.path, out)
    }

    /// The position of the local `symbol`, which must be declared.
    pub fn get_local_idx(&self, symbol: &str) -> (r: usize)
        requires
            self.wf(),
            declares(self@.locals, symbol@),
        ensures
            declared_at(self@.locals, symbol@, r as int),
            r == decl_value(self.local_positions(), symbol@),
    {
        let ghost i = lemma_declared_witness(self@.locals, symbol@);
        proof {
            assert(self.local_positions()[i] == (self@.locals[i].0, i as usize));
            lemma_decl_value(self.local_positions(), symbol@, i);
        }
        match self.symbol_to_local_idx.get(symbol) {
            Some(idx) => *idx,
            None => unreached(),
        }
    }

    /// Declare the `self` parameter; a second one is reported, and replaces the first.
    pub fn add_self_param(&mut self, mctx: &MetaContext<'i>, self_param: SyntaxNode, errors: &mut Vec<RPLMetaError<'i>>)
        requires
            old(self).wf(),
            old(self)@.self_param is Some ==> mctx.active() is Some,
        ensures
            final(self).wf(),
            final(self).local_positions() == old(self).local_positions(),
            final(self)@ == (FnView { self_param: Some(self_param), ..old(self)@ }),
            old(self)@.self_param is Some ==> pushed(
                old(errors)@,
                final(errors)@,
                MetaErrorView::SelfAlreadyDeclared { span: at_active(mctx, self_param.span) },
            ),
            old(self)@.self_param is None ==> final(errors)@ == old(errors)@,
    {
        if self.self_param.is_some() {
            let span = active_span(mctx, self_param.span);
            push_error(errors, RPLMetaError::SelfAlreadyDeclared { span });
        }
        self.self_param = Some(self_param);
    }

    /// Declare a parameter; one declared before is reported and keeps its type.
    pub fn add_param(
        &mut self,
        mctx: &MetaContext<'i>,
        ident: &Ident,
        ty: SyntaxNode,
        errors: &mut Vec<RPLMetaError<'i>>,
    )
        requires
            old(self).wf(),
            declares(old(self)@.params, ident.name@) ==> mctx.active() is Some,
        ensures
            final(self).wf(),
            final(self).local_positions() == old(self).local_positions(),
            final(self)@ == (FnView { params: final(self)@.params, ..old(self)@ }),
            declared_once(old(self)@.params, final(self)@.params, ident.name@, ty),
            declares(old(self)@.params, ident.name@) ==> pushed(
                old(errors)@,
                final(errors)@,
                MetaErrorView::SymbolAlreadyDeclared { ident: ident.name@, span: at_active(mctx, ident.span) },
            ),
            !declares(old(self)@.params, ident.name@) ==> final(errors)@ == old(errors)@,
    {
        if !self.params.try_insert(ident.name.clone(), ty) {
            let span = active_span(mctx, ident.span);
            push_error(errors, RPLMetaError::SymbolAlreadyDeclared { ident: ident.name.clone(), span });
        }
    }

    /// Declare a local at the next position; one declared before is reported and kept.
    pub fn add_local(
        &mut self,
        mctx: &MetaContext<'i>,
        label: Option<String>,
        ident: &Ident,
        ty: SyntaxNode,
        special: LocalSpecial,
        errors: &mut Vec<RPLMetaError<'i>>,
    )
        requires
            old(self).wf(),
            declares(old(self)@.locals, ident.name@) ==> mctx.active() is Some,
        ensures
            final(self).wf(),
            final(self)@ == with_local(old(self)@, label, ident.name@, ty, special),
            reported(old(errors)@, final(errors)@, local_error(old(self)@.locals, *ident, mctx.active()->Some_0@)),
    {
        let len = self.locals.len();
        proof {
            assert forall|k: Seq<char>| declares(self.local_positions(), k) == declares(self@.locals, k) by {
                if declares(self.local_positions(), k) {
                    let i = lemma_declared_witness(self.local_positions(), k);
                    assert(self.local_positions()[i] == (self@.locals[i].0, i as usize));
                    assert(declared_at(self@.locals, k, i));
                }
                if declares(self@.locals, k) {
                    let i = lemma_declared_witness(self@.locals, k);
                    assert(self.local_positions()[i] == (self@.locals[i].0, i as usize));
                    assert(declared_at(self.local_positions(), k, i));
                }
            }
        }
        let ghost old_view = self@;
        let ghost old_positions = self.local_positions();
        if self.locals.try_insert(ident.name.clone(), LocalDecl { label, idx: len, ty, special }) {
            let existed = self.symbol_to_local_idx.insert(ident.name.clone(), len);
            assert(!existed);
            assert(self.local_positions() == old_positions.push((ident.name@, len)));
            assert(self@ == with_local(old_view, label, ident.name@, ty, special));
        } else {
            let span = active_span(mctx, ident.span);
            push_error(errors, RPLMetaError::SymbolAlreadyDeclared { ident: ident.name.clone(), span });
        }
    }

    /// Declare a local of a MIR pattern: `self` and `RET` also set the type of the self
    /// value and of the return value, and are reported if it was set already.
    pub fn add_place_local(
        &mut self,
        mctx: &MetaContext<'i>,
        label: Option<String>,
        local: &PlaceLocal,
        ty: SyntaxNode,
        errors: &mut Vec<RPLMetaError<'i>>,
    )
        requires
            old(self).wf(),
            place_local_error(old(self)@, *local, mctx.active()->Some_0@) is Some ==> mctx.active() is Some,
        ensures
            final(self).wf(),
            final(self)@ == with_place_local(old(self)@, label, *local, ty),
            reported(old(errors)@, final(errors)@, place_local_error(old(self)@, *local, mctx.active()->Some_0@)),
    {
        match &local.kind {
            PlaceLocalKind::PlaceHolder => {},
            PlaceLocalKind::SelfValue(ident) => {
                if self.self_value.is_some() {
                    let span = active_span(mctx, local.span);
                    push_error(errors, RPLMetaError::SelfAlreadyDeclared { span });
                } else {
                    self.self_value = Some(ty);
                    self.add_local(mctx, label, ident, ty, LocalSpecial::Self_, errors);
                }
            },
            PlaceLocalKind::RetValue(ident) => {
                if self.ret_value.is_some() {
                    let span = active_span(mctx, local.span);
                    push_error(errors, RPLMetaError::RetAlreadyDeclared { span });
                } else {
                    self.ret_value = Some(ty);
                    self.add_local(mctx, label, ident, ty, LocalSpecial::Return, errors);
                }
            },
            PlaceLocalKind::Local(ident) => {
                self.add_local(mctx, label, ident, ty, LocalSpecial::NoSpecial, errors);
            },
        }
    }

    /// The type of the place metavariable `name`.
    fn get_place_impl(&self, name: &str, meta_vars: &NonLocalMetaSymTab) -> (r: Option<SyntaxNode>)
        requires
            meta_vars.wf(),
        ensures
            r == (if declares(meta_vars.place_decls(), name@) {
                Some(decl_value(meta_vars.place_decls(), name@).1)
            } else {
                None
            }),
    {
        match meta_vars.place_vars_map().get(name) {
            Some(decl) => Some(decl.1),
            None => None,
        }
    }

    /// The type of the local, else of the parameter, `name`.
    fn get_local_impl(&self, name: &str) -> (r: Option<SyntaxNode>)
        requires
            self.wf(),
        ensures
            r == self@.local_type(name@),
    {
        match self.locals.get(name) {
            Some(decl) => Some(decl.ty),
            None => match self.params.get(name) {
                Some(ty) => Some(*ty),
                None => None,
            },
        }
    }

    /// The type of the local, parameter or place metavariable `ident`; one not declared
    /// is reported.
    pub fn get_place_or_local(
        &self,
        mctx: &MetaContext<'i>,
        ident: &Ident,
        meta_vars: &NonLocalMetaSymTab,
        errors: &mut Vec<RPLMetaError<'i>>,
    ) -> (r: Option<SyntaxNode>)
        requires
            self.wf(),
            meta_vars.wf(),
            place_or_local_type(self@, meta_vars, ident.name@) is None ==> mctx.active() is Some,
        ensures
            r == place_or_local_type(self@, meta_vars, ident.name@),
            r is Some ==> final(errors)@ == old(errors)@,
            r is None ==> pushed(
                old(errors)@,
                final(errors)@,
                MetaErrorView::SymbolNotDeclared { ident: ident.name@, span: at_active(mctx, ident.span) },
            ),
    {
        match self.get_local_impl(ident.name.as_str()) {
            Some(t) => Some(t),
            None => match self.get_place_impl(ident.name.as_str(), meta_vars) {
                Some(t) => Some(t),
                None => {
                    let span = active_span(mctx, ident.span);
                    push_error(errors, RPLMetaError::SymbolNotDeclared { ident: ident.name.clone(), span });
                    None
                },
            },
        }
    }

    /// The type of the MIR local `local`: `RET` is the return value, `self` the self
    /// value or else the self type; what cannot be resolved is reported.
    pub fn get_place_local(
        &self,
        mctx: &MetaContext<'i>,
        local: &PlaceLocal,
        meta_vars: &NonLocalMetaSymTab,
        errors: &mut Vec<RPLMetaError<'i>>,
    ) -> (r: Option<SyntaxNode>)
        requires
            self.wf(),
            meta_vars.wf(),
            place_local_type(self@, meta_vars, *local, mctx.active()->Some_0@) is Err ==> mctx.active() is Some,
        ensures
            match place_local_type(self@, meta_vars, *local, mctx.active()->Some_0@) {
                Ok(t) => r == t && final(errors)@ == old(errors)@,
                Err(e) => r is None && pushed(old(errors)@, final(errors)@, e),
            },
    {
        match &local.kind {
            PlaceLocalKind::PlaceHolder => None,
            PlaceLocalKind::RetValue(_) => match self.ret_value {
                Some(t) => Some(t),
                None => {
                    let span = active_span(mctx, local.span);
                    push_error(errors, RPLMetaError::RetNotDeclared { span });
                    None
                },
            },
            PlaceLocalKind::Local(ident) => self.get_place_or_local(mctx, ident, meta_vars, errors),
            PlaceLocalKind::SelfValue(_) => {
                if self.self_value.is_none() && self.self_param.is_none() {
                    let span = active_span(mctx, local.span);
                    push_error(errors, RPLMetaError::SelfNotDeclared { span });
                    None
                } else {
                    match self.self_value {
                        Some(t) => Some(t),
                        None => match self.self_ty {
                            Some(t) => Some(t),
                            None => {
                                let span = active_span(mctx, local.span);
                                push_error(errors, RPLMetaError::SelfTypeOutsideImpl { span });
                                None
                            },
                        },
                    }
                }
            },
        }
    }
}

/// Where a type or path stands.
pub open spec fn type_or_path_span(t: TypeOrPath) -> SrcSpan {
    match t {
        TypeOrPath::Type(n) => n.span,
        TypeOrPath::Path(n) => n.span,
    }
}

/// Every scope of a list of named function scopes is well formed.
pub open spec fn all_wf<'i>(s: Seq<(Seq<char>, FnInner<'i>)>) -> bool {
    forall|i: int| 0 <= i < s.len() ==> (#[trigger] s[i]).1.wf()
}

pub proof fn lemma_all_wf_push<'i>(s: Seq<(Seq<char>, FnInner<'i>)>, name: Seq<char>, f: FnInner<'i>)
    requires
        all_wf(s),
    ensures
        all_wf(s.push((name, f))) == f.wf(),
{
    let t = s.push((name, f));
    if f.wf() {
        assert forall|i: int| 0 <= i < t.len() implies (#[trigger] t[i]).1.wf() by {
            if i < s.len() {
                assert(t[i] == s[i]);
            }
        }
    }
    assert(t[s.len() as int] == (name, f));
}

/// An `impl` pattern as written: its range, its self type, its kind, and the trait it
/// implements.
#[derive(Debug, Clone, Copy, PartialEq, Eq, Structural)]
pub struct ImplPat {
    pub span: SrcSpan,
    pub ty: SyntaxNode,
    pub impl_kind: Option<SyntaxNode>,
    pub trait_path: Option<SyntaxNode>,
}

/// The methods of an `impl` pattern, in declaration order.
#[derive(Debug)]
pub struct ImplInner<'i> {
    trait_: Option<SyntaxNode>,
    ty: SyntaxNode,
    fns: NameMap<FnInner<'i>>,
}

impl<'i> ImplInner<'i> {
    /// The methods.
    pub closed spec fn fn_decls(&self) -> Seq<(Seq<char>, FnInner<'i>)> {
        self.fns@
    }

    /// The trait and the self type.
    pub closed spec fn header(&self) -> (Option<SyntaxNode>, SyntaxNode) {
        (self.trait_, self.ty)
    }

    /// No method is declared twice, and each method's scope is well formed.
    pub open spec fn wf(&self) -> bool {
        &&& names_distinct(self.fn_decls())
        &&& all_wf(self.fn_decls())
    }

    /// No method yet.
    pub fn new(impl_pat: &ImplPat) -> (r: Self)
        ensures
            r.wf(),
            r.fn_decls().len() == 0,
            r.header() == (impl_pat.trait_path, impl_pat.ty),
    {
        ImplInner { trait_: impl_pat.trait_path, ty: impl_pat.ty, fns: NameMap::new() }
    }

    /// Declare the method `ident` with the scope `fn_def`, handed back to be filled; a
    /// method declared before is an error, and the table is left as it was.
    pub fn add_fn(&mut self, mctx: &MetaContext<'i>, ident: &Ident, fn_def: FnInner<'i>) -> (r: Result<
        &mut FnInner<'i>,
        RPLMetaError<'i>,
    >)
        requires
            old(self).wf(),
            fn_def.wf(),
            declares(old(self).fn_decls(), ident.name@) ==> mctx.active() is Some,
        ensures
            r is Ok == !declares(old(self).fn_decls(), ident.name@),
            r matches Err(e) ==> e@ == (MetaErrorView::MethodAlreadyDeclared {
                span: at_active(mctx, ident.span),
            }) && final(self).fn_decls() == old(self).fn_decls() && final(self).header() == old(self).header(),
            r matches Ok(f) ==> *f == fn_def,
            r matches Ok(f) ==> final(self).fn_decls() == old(self).fn_decls().push((ident.name@, *final(f))),
            r matches Ok(f) ==> final(self).header() == old(self).header(),
            r matches Ok(f) ==> final(self).wf() == final(f).wf(),
    {
        let ghost before = self.fns@;
        if self.fns.try_insert(ident.name.clone(), fn_def) {
            let last = self.fns.len() - 1;
            let f = self.fns.value_at_mut(last);
            proof {
                assert(before.push((ident.name@, fn_def)).update(last as int, (ident.name@, *final(f)))
                    =~= before.push((ident.name@, *final(f))));
                lemma_all_wf_push(old(self).fn_decls(), ident.name@, *final(f));
                lemma_push_distinct(old(self).fn_decls(), ident.name@, *final(f));
            }
            Ok(f)
        } else {
            Err(RPLMetaError::MethodAlreadyDeclared { span: active_span(mctx, ident.span) })
        }
    }

    /// The method `name`, if declared.
    pub fn get_fn(&self, name: &str) -> (r: Option<&FnInner<'i>>)
        requires
            self.wf(),
        ensures
            r is Some == declares(self.fn_decls(), name@),
            r matches Some(f) ==> *f == decl_value(self.fn_decls(), name@) && f.wf(),
    {
        let r = self.fns.get(name);
        proof {
            if declares(self.fn_decls(), name@) {
                let i = lemma_declared_witness(self.fn_decls(), name@);
                lemma_decl_value(self.fn_decls(), name@, i);
                assert(self.fn_decls()[i].1.wf());
            }
        }
        r
    }
}

/// An `impl` is identified by its self type and its kind.
pub type ImplKey = (SyntaxNode, Option<SyntaxNode>);

fn same_impl_key(a: &ImplKey, b: &ImplKey) -> (r: bool)
    ensures
        r == (*a == *b),
{
    a.0 == b.0 && match (a.1, b.1) {
        (Some(x), Some(y)) => x == y,
        (None, None) => true,
        _ => false,
    }
}

/// The labels of a list of locals, in order.
pub open spec fn local_labels(locals: Seq<(Seq<char>, LocalDecl)>) -> Seq<Seq<char>>
    decreases locals.len(),
{
    if locals.len() == 0 {
        Seq::empty()
    } else {
        local_labels(locals.drop_last()) + match locals.last().1.label {
            Some(l) => seq![l@],
            None => Seq::empty(),
        }
    }
}

/// The labels of the locals of a list of function scopes, in order.
pub open spec fn fns_labels<'i>(fns: Seq<FnInner<'i>>) -> Seq<Seq<char>>
    decreases fns.len(),
{
    if fns.len() == 0 {
        Seq::empty()
    } else {
        fns_labels(fns.drop_last()) + local_labels(fns.last()@.locals)
    }
}

/// The scopes of a list of named function scopes.
pub open spec fn scopes<'i>(s: Seq<(Seq<char>, FnInner<'i>)>) -> Seq<FnInner<'i>> {
    s.map_values(|e: (Seq<char>, FnInner<'i>)| e.1)
}

/// Every scope of a list is well formed.
pub open spec fn scopes_wf<'i>(s: Seq<FnInner<'i>>) -> bool {
    forall|i: int| 0 <= i < s.len() ==> (#[trigger] s[i]).wf()
}

/// No `impl` is declared twice, and each is well formed.
pub open spec fn impls_wf<'i>(s: Seq<(ImplKey, ImplInner<'i>)>) -> bool {
    &&& forall|i: int, j: int| 0 <= i < s.len() && 0 <= j < s.len() && #[trigger] s[i].0 == #[trigger] s[j].0 ==> i == j
    &&& forall|i: int| 0 <= i < s.len() ==> (#[trigger] s[i]).1.wf()
}

/// `key` is the key of an `impl` of `s`.
pub open spec fn declares_impl<'i>(s: Seq<(ImplKey, ImplInner<'i>)>, key: ImplKey) -> bool {
    exists|i: int| 0 <= i < s.len() && (#[trigger] s[i]).0 == key
}

pub proof fn lemma_scopes_wf_push<'i>(s: Seq<FnInner<'i>>, f: FnInner<'i>)
    requires
        scopes_wf(s),
    ensures
        scopes_wf(s.push(f)) == f.wf(),
{
    let t = s.push(f);
    if f.wf() {
        assert forall|i: int| 0 <= i < t.len() implies (#[trigger] t[i]).wf() by {
            if i < s.len() {
                assert(t[i] == s[i]);
            }
        }
    }
    assert(t[s.len() as int] == f);
}

pub proof fn lemma_impls_wf_push<'i>(s: Seq<(ImplKey, ImplInner<'i>)>, key: ImplKey, m: ImplInner<'i>)
    requires
        impls_wf(s),
        !declares_impl(s, key),
    ensures
        impls_wf(s.push((key, m))) == m.wf(),
{
    let t = s.push((key, m));
    assert(t[s.len() as int] == (key, m));
    if m.wf() {
        assert forall|i: int| 0 <= i < t.len() implies (#[trigger] t[i]).1.wf() by {
            if i < s.len() {
                assert(t[i] == s[i]);
            }
        }
    }
    assert forall|i: int, j: int| 0 <= i < t.len() && 0 <= j < t.len() && #[trigger] t[i].0 == #[trigger] t[j].0 implies i
        == j by {
        if i < s.len() {
            assert(t[i] == s[i]);
        }
        if j < s.len() {
            assert(t[j] == s[j]);
        }
        if i < s.len() && j == s.len() {
            assert(s[i].0 == key);
        }
        if j < s.len() && i == s.len() {
            assert(s[j].0 == key);
        }
    }
}

/// The symbols of a pattern item: its metavariables, imports, ADT patterns, named and
/// unnamed functions and `impl`s, each in declaration order.
#[derive(Debug)]
pub struct SymbolTable<'i> {
    meta_vars: NonLocalMetaSymTab,
    imports: NameMap<SyntaxNode>,
    structs: NameMap<Variant>,
    enums: NameMap<EnumInner>,
    fns: NameMap<FnInner<'i>>,
    unnamed_fns: Vec<FnInner<'i>>,
    impls: Vec<(ImplKey, ImplInner<'i>)>,
}

impl<'i> SymbolTable<'i> {
    pub closed spec fn meta(&self) -> NonLocalMetaSymTab {
        self.meta_vars
    }

    pub closed spec fn import_decls(&self) -> Seq<(Seq<char>, SyntaxNode)> {
        self.imports@
    }

    pub closed spec fn struct_decls(&self) -> Seq<(Seq<char>, Variant)> {
        self.structs@
    }

    pub closed spec fn enum_decls(&self) -> Seq<(Seq<char>, EnumInner)> {
        self.enums@
    }

    pub closed spec fn fn_decls(&self) -> Seq<(Seq<char>, FnInner<'i>)> {
        self.fns@
    }

    pub closed spec fn unnamed_decls(&self) -> Seq<FnInner<'i>> {
        self.unnamed_fns@
    }

    pub closed spec fn impl_decls(&self) -> Seq<(ImplKey, ImplInner<'i>)> {
        self.impls@
    }

    /// No name or `impl` is declared twice in one kind, and every declaration in the
    /// table is well formed.
    pub open spec fn wf(&self) -> bool {
        &&& self.meta().wf()
        &&& names_distinct(self.import_decls())
        &&& names_distinct(self.struct_decls())
        &&& names_distinct(self.enum_decls())
        &&& names_distinct(self.fn_decls())
        &&& all_wf(self.fn_decls())
        &&& scopes_wf(self.unnamed_decls())
        &&& impls_wf(self.impl_decls())
    }

    /// `self` and `other` hold the same declarations but for those that the named
    /// accessors of a change list.
    pub open spec fn same_but_fns(&self, other: &Self) -> bool {
        &&& self.meta() == other.meta()
        &&& self.import_decls() == other.import_decls()
        &&& self.struct_decls() == other.struct_decls()
        &&& self.enum_decls() == other.enum_decls()
        &&& self.impl_decls() == other.impl_decls()
    }

    /// Nothing declared.
    pub fn new() -> (r: Self)
        ensures
            r.wf(),
            r.meta().type_decls().len() == 0 && r.meta().const_decls().len() == 0,
            r.meta().place_decls().len() == 0 && r.meta().adt_decls().len() == 0,
            r.import_decls().len() == 0,
            r.struct_decls().len() == 0,
            r.enum_decls().len() == 0,
            r.fn_decls().len() == 0,
            r.unnamed_decls().len() == 0,
            r.impl_decls().len() == 0,
    {
        SymbolTable {
            meta_vars: NonLocalMetaSymTab::new(),
            imports: NameMap::new(),
            structs: NameMap::new(),
            enums: NameMap::new(),
            fns: NameMap::new(),
            unnamed_fns: Vec::new(),
            impls: Vec::new(),
        }
    }

    /// The metavariables of the pattern item.
    pub fn meta_vars(&self) -> (r: &NonLocalMetaSymTab)
        ensures
            *r == self.meta(),
    {
        &self.meta_vars
    }

    /// The metavariables of the pattern item, to declare them.
    pub fn meta_vars_mut(&mut self) -> (r: &mut NonLocalMetaSymTab)
        ensures
            *r == old(self).meta(),
            final(self).meta() == *final(r),
            final(self).import_decls() == old(self).import_decls(),
            final(self).struct_decls() == old(self).struct_decls(),
            final(self).enum_decls() == old(self).enum_decls(),
            final(self).fn_decls() == old(self).fn_decls(),
            final(self).unnamed_decls() == old(self).unnamed_decls(),
            final(self).impl_decls() == old(self).impl_decls(),
    {
        &mut self.meta_vars
    }

    /// The paths imported into the pattern item, to declare them.
    pub fn imports_mut(&mut self) -> (r: &mut NameMap<SyntaxNode>)
        ensures
            r@ == old(self).import_decls(),
            final(self).import_decls() == final(r)@,
            final(self).meta() == old(self).meta(),
            final(self).struct_decls() == old(self).struct_decls(),
            final(self).enum_decls() == old(self).enum_decls(),
            final(self).fn_decls() == old(self).fn_decls(),
            final(self).unnamed_decls() == old(self).unnamed_decls(),
            final(self).impl_decls() == old(self).impl_decls(),
    {
        &mut self.imports
    }

    /// Declare an enum pattern, handed back to have its variants declared; one declared
    /// before is reported and kept.
    pub fn add_enum(&mut self, mctx: &MetaContext<'i>, ident: &Ident, errors: &mut Vec<RPLMetaError<'i>>) -> (r:
        Option<&mut EnumInner>)
        requires
            declares(old(self).enum_decls(), ident.name@) ==> mctx.active() is Some,
            old(self).wf(),
        ensures
            final(self).meta() == old(self).meta(),
            final(self).import_decls() == old(self).import_decls(),
            final(self).struct_decls() == old(self).struct_decls(),
            final(self).fn_decls() == old(self).fn_decls(),
            final(self).unnamed_decls() == old(self).unnamed_decls(),
            final(self).impl_decls() == old(self).impl_decls(),
            final(self).wf(),
            r is Some == !declares(old(self).enum_decls(), ident.name@),
            declares(final(self).enum_decls(), ident.name@),
            r is None ==> final(self).enum_decls() == old(self).enum_decls(),
            r is None ==> pushed(
                old(errors)@,
                final(errors)@,
                MetaErrorView::SymbolAlreadyDeclared { ident: ident.name@, span: at_active(mctx, ident.span) },
            ),
            r matches Some(e) ==> e.wf() && e.variant_decls().len() == 0,
            r matches Some(e) ==> final(self).enum_decls() == old(self).enum_decls().push((ident.name@, *final(e))),
            r is Some ==> final(errors)@ == old(errors)@,
    {
        let ghost before = self.enums@;
        if self.enums.try_insert(ident.name.clone(), EnumInner::new()) {
            let ghost mid = self.enums@;
            let last = self.enums.len() - 1;
            let e = self.enums.value_at_mut(last);
            proof {
                assert(mid[last as int].0 == ident.name@);
                assert(mid.update(last as int, (ident.name@, *final(e))) =~= before.push((ident.name@, *final(e))));
                lemma_push_distinct(before, ident.name@, *final(e));
                assert(declared_at(before.push((ident.name@, *final(e))), ident.name@, before.len() as int));
            }
            Some(e)
        } else {
            let span = active_span(mctx, ident.span);
            push_error(errors, RPLMetaError::SymbolAlreadyDeclared { ident: ident.name.clone(), span });
            None
        }
    }

    /// Declare a struct pattern, handed back to have its fields declared; one declared
    /// before is reported and kept.
    pub fn add_struct(&mut self, mctx: &MetaContext<'i>, ident: &Ident, errors: &mut Vec<RPLMetaError<'i>>) -> (r:
        Option<&mut Variant>)
        requires
            declares(old(self).struct_decls(), ident.name@) ==> mctx.active() is Some,
            old(self).wf(),
        ensures
            final(self).meta() == old(self).meta(),
            final(self).import_decls() == old(self).import_decls(),
            final(self).enum_decls() == old(self).enum_decls(),
            final(self).fn_decls() == old(self).fn_decls(),
            final(self).unnamed_decls() == old(self).unnamed_decls(),
            final(self).impl_decls() == old(self).impl_decls(),
            final(self).wf(),
            r is Some == !declares(old(self).struct_decls(), ident.name@),
            declares(final(self).struct_decls(), ident.name@),
            r is None ==> final(self).struct_decls() == old(self).struct_decls(),
            r is None ==> pushed(
                old(errors)@,
                final(errors)@,
                MetaErrorView::SymbolAlreadyDeclared { ident: ident.name@, span: at_active(mctx, ident.span) },
            ),
            r matches Some(v) ==> v.wf() && v.field_decls().len() == 0,
            r matches Some(v) ==> final(self).struct_decls() == old(self).struct_decls().push((ident.name@, *final(v))),
            r is Some ==> final(errors)@ == old(errors)@,
    {
        let ghost before = self.structs@;
        if self.structs.try_insert(ident.name.clone(), Variant::new()) {
            let ghost mid = self.structs@;
            let last = self.structs.len() - 1;
            let v = self.structs.value_at_mut(last);
            proof {
                assert(mid[last as int].0 == ident.name@);
                assert(mid.update(last as int, (ident.name@, *final(v))) =~= before.push((ident.name@, *final(v))));
                lemma_push_distinct(before, ident.name@, *final(v));
                assert(declared_at(before.push((ident.name@, *final(v))), ident.name@, before.len() as int));
            }
            Some(v)
        } else {
            let span = active_span(mctx, ident.span);
            push_error(errors, RPLMetaError::SymbolAlreadyDeclared { ident: ident.name.clone(), span });
            None
        }
    }

    /// Whether `ident` names a struct or an enum pattern.
    pub fn contains_adt(&self, ident: &Ident) -> (r: bool)
        requires
            self.wf(),
        ensures
            r == (declares(self.struct_decls(), ident.name@) || declares(self.enum_decls(), ident.name@)),
    {
        self.structs.find(ident.name.as_str()).is_some() || self.enums.find(ident.name.as_str()).is_some()
    }

    /// The kind of the ADT pattern `symbol`: a struct first, else an enum.
    pub fn get_adt(&self, symbol: &str) -> (r: Option<(AdtPatType, String)>)
        requires
            self.wf(),
        ensures
            declares(self.struct_decls(), symbol@) ==> (r matches Some((k, s)) && k == AdtPatType::Struct && s@
                == symbol@),
            !declares(self.struct_decls(), symbol@) && declares(self.enum_decls(), symbol@) ==> (r matches Some(
                (k, s),
            ) && k == AdtPatType::Enum && s@ == symbol@),
            !declares(self.struct_decls(), symbol@) && !declares(self.enum_decls(), symbol@) ==> r is None,
    {
        if self.structs.find(symbol).is_some() {
            Some((AdtPatType::Struct, symbol.to_owned()))
        } else if self.enums.find(symbol).is_some() {
            Some((AdtPatType::Enum, symbol.to_owned()))
        } else {
            None
        }
    }
}

impl<'i> SymbolTable<'i> {
    /// Declare a function pattern, handed back to be filled, with the imports of the
    /// pattern item: a named one is reported and not declared if its name was declared
    /// before, an unnamed one is always added.
    pub fn add_fn(
        &mut self,
        mctx: &MetaContext<'i>,
        fn_name: &FnName,
        self_ty: Option<SyntaxNode>,
        errors: &mut Vec<RPLMetaError<'i>>,
    ) -> (r: Option<(&mut FnInner<'i>, &NameMap<SyntaxNode>)>)
        requires
            old(self).wf(),
            mctx.active() is Some,
        ensures
            final(self).meta() == old(self).meta(),
            final(self).import_decls() == old(self).import_decls(),
            final(self).struct_decls() == old(self).struct_decls(),
            final(self).enum_decls() == old(self).enum_decls(),
            final(self).impl_decls() == old(self).impl_decls(),
            r matches Some((f, imports)) ==> {
                &&& f.wf()
                &&& f@.path == mctx.active()->Some_0@
                &&& f@.self_ty == self_ty
                &&& f@.types.len() == 0 && f@.params.len() == 0 && f@.locals.len() == 0
                &&& f@.self_value is None && f@.ret_value is None && f@.self_param is None
                &&& imports@ == old(self).import_decls()
                &&& final(self).wf() == final(f).wf()
                &&& final(errors)@ == old(errors)@
            },
            match *fn_name {
                FnName::Unnamed(span) => r matches Some((f, _)) && f@.span == span && final(self).fn_decls()
                    == old(self).fn_decls() && final(self).unnamed_decls() == old(self).unnamed_decls().push(
                    *final(f),
                ),
                FnName::Named(ident) => {
                    &&& r is Some == !declares(old(self).fn_decls(), ident.name@)
                    &&& r matches Some((f, _)) ==> f@.span == ident.span && final(self).fn_decls()
                        == old(self).fn_decls().push((ident.name@, *final(f))) && final(self).unnamed_decls()
                        == old(self).unnamed_decls()
                    &&& r is None ==> final(self).fn_decls() == old(self).fn_decls() && final(self).unnamed_decls()
                        == old(self).unnamed_decls() && pushed(
                        old(errors)@,
                        final(errors)@,
                        MetaErrorView::SymbolAlreadyDeclared {
                            ident: ident.name@,
                            span: at_active(mctx, ident.span),
                        },
                    )
                },
            },
    {
        let (fn_name_ident, fn_def) = FnInner::parse_from(mctx, fn_name, self_ty);
        match fn_name_ident {
            Some(name) => {
                let ghost before = self.fns@;
                let ghost def = fn_def;
                if self.fns.try_insert(name.name.clone(), fn_def) {
                    let ghost mid = self.fns@;
                    let last = self.fns.len() - 1;
                    let f = self.fns.value_at_mut(last);
                    proof {
                        assert(mid.update(last as int, (name.name@, *final(f))) =~= before.push(
                            (name.name@, *final(f)),
                        ));
                        lemma_all_wf_push(before, name.name@, *final(f));
                        lemma_push_distinct(before, name.name@, *final(f));
                    }
                    Some((f, &self.imports))
                } else {
                    let span = active_span(mctx, name.span);
                    push_error(errors, RPLMetaError::SymbolAlreadyDeclared { ident: name.name.clone(), span });
                    None
                }
            },
            None => {
                let ghost before = self.unnamed_fns@;
                self.unnamed_fns.push(fn_def);
                let last = self.unnamed_fns.len() - 1;
                let ghost mid = self.unnamed_fns@;
                let f = &mut self.unnamed_fns[last];
                proof {
                    assert(mid.update(last as int, *final(f)) =~= before.push(*final(f)));
                    lemma_scopes_wf_push(before, *final(f));
                }
                Some((f, &self.imports))
            },
        }
    }

    /// The position of the `impl` with key `key`, if declared.
    fn find_impl(&self, key: ImplKey) -> (r: Option<usize>)
        ensures
            match r {
                Some(i) => i < self.impl_decls().len() && self.impl_decls()[i as int].0 == key,
                None => forall|i: int| 0 <= i < self.impl_decls().len() ==> self.impl_decls()[i].0 != key,
            },
    {
        let mut i: usize = 0;
        while i < self.impls.len()
            invariant
                i <= self.impls@.len(),
                forall|j: int| 0 <= j < i ==> self.impls@[j].0 != key,
            decreases self.impls@.len() - i,
        {
            if same_impl_key(&self.impls[i].0, &key) {
                return Some(i);
            }
            i = i + 1;
        }
        None
    }

    /// Declare an `impl` pattern, handed back to have its methods declared, with the
    /// imports of the pattern item; an `impl` of the same self type and kind declared
    /// before is reported and kept.
    pub fn add_impl(
        &mut self,
        mctx: &MetaContext<'i>,
        impl_pat: &ImplPat,
        errors: &mut Vec<RPLMetaError<'i>>,
    ) -> (r: Option<(&mut ImplInner<'i>, &NameMap<SyntaxNode>)>)
        requires
            old(self).wf(),
            declares_impl(old(self).impl_decls(), (impl_pat.ty, impl_pat.impl_kind)) ==> mctx.active() is Some,
        ensures
            final(self).meta() == old(self).meta(),
            final(self).import_decls() == old(self).import_decls(),
            final(self).struct_decls() == old(self).struct_decls(),
            final(self).enum_decls() == old(self).enum_decls(),
            final(self).fn_decls() == old(self).fn_decls(),
            final(self).unnamed_decls() == old(self).unnamed_decls(),
            r is Some == !declares_impl(old(self).impl_decls(), (impl_pat.ty, impl_pat.impl_kind)),
            r is None ==> final(self).impl_decls() == old(self).impl_decls() && pushed(
                old(errors)@,
                final(errors)@,
                MetaErrorView::ImplAlreadyDeclared { span: at_active(mctx, impl_pat.span) },
            ),
            r matches Some((m, imports)) ==> {
                &&& m.wf()
                &&& m.fn_decls().len() == 0
                &&& m.header() == (impl_pat.trait_path, impl_pat.ty)
                &&& imports@ == old(self).import_decls()
                &&& final(self).impl_decls() == old(self).impl_decls().push(
                    ((impl_pat.ty, impl_pat.impl_kind), *final(m)),
                )
                &&& final(self).wf() == final(m).wf()
                &&& final(errors)@ == old(errors)@
            },
    {
        let key = (impl_pat.ty, impl_pat.impl_kind);
        match self.find_impl(key) {
            Some(_) => {
                let span = active_span(mctx, impl_pat.span);
                push_error(errors, RPLMetaError::ImplAlreadyDeclared { span });
                None
            },
            None => {
                let ghost before = self.impls@;
                self.impls.push((key, ImplInner::new(impl_pat)));
                let last = self.impls.len() - 1;
                let ghost mid = self.impls@;
                let m = &mut self.impls[last].1;
                proof {
                    assert(mid.update(last as int, (key, *final(m))) =~= before.push((key, *final(m))));
                    lemma_impls_wf_push(before, key, *final(m));
                }
                Some((m, &self.imports))
            },
        }
    }

    /// The function pattern `name`: `_` is the last unnamed one.
    pub fn get_fn(&self, name: &str) -> (r: Option<&FnInner<'i>>)
        requires
            self.wf(),
        ensures
            name@ == "_"@ ==> r == (if self.unnamed_decls().len() == 0 {
                None
            } else {
                Some(&self.unnamed_decls().last())
            }),
            name@ != "_"@ ==> r is Some == declares(self.fn_decls(), name@),
            name@ != "_"@ ==> (r matches Some(f) ==> *f == decl_value(self.fn_decls(), name@)),
            r matches Some(f) ==> f.wf(),
    {
        if crate::meta::str_eq(name, "_") {
            if self.unnamed_fns.len() == 0 {
                None
            } else {
                let last = self.unnamed_fns.len() - 1;
                Some(&self.unnamed_fns[last])
            }
        } else {
            let r = self.fns.get(name);
            proof {
                if declares(self.fn_decls(), name@) {
                    let i = lemma_declared_witness(self.fn_decls(), name@);
                    lemma_decl_value(self.fn_decls(), name@, i);
                    assert(self.fn_decls()[i].1.wf());
                }
            }
            r
        }
    }

    /// The `impl` pattern of self type `ty` and kind `impl_kind`.
    pub fn get_impl(&self, ty: SyntaxNode, impl_kind: Option<SyntaxNode>) -> (r: Option<&ImplInner<'i>>)
        requires
            self.wf(),
        ensures
            r is Some == declares_impl(self.impl_decls(), (ty, impl_kind)),
            r matches Some(m) ==> m.wf() && exists|i: int|
                0 <= i < self.impl_decls().len() && (#[trigger] self.impl_decls()[i]) == ((ty, impl_kind), *m),
    {
        match self.find_impl((ty, impl_kind)) {
            Some(i) => {
                assert(self.impl_decls()[i as int].1.wf());
                assert(self.impl_decls()[i as int] == ((ty, impl_kind), self.impls@[i as int].1));
                Some(&self.impls[i].1)
            },
            None => None,
        }
    }

    /// The path imported as `ident`, or the error naming what is imported.
    pub fn get_type_or_path(&self, ident: &WithPath<'i, Ident>) -> (r: Result<TypeOrPath, RPLMetaError<'i>>)
        requires
            self.wf(),
        ensures
            declares(self.import_decls(), ident.inner.name@) ==> r == Ok::<TypeOrPath, RPLMetaError<'i>>(
                TypeOrPath::Path(decl_value(self.import_decls(), ident.inner.name@)),
            ),
            !declares(self.import_decls(), ident.inner.name@) ==> (r matches Err(e) && e@ == (
            MetaErrorView::TypeOrPathNotDeclared {
                type_or_path: ident.inner.name@,
                span: (ident.inner.span, ident.path@),
                declared: names_of(self.import_decls()),
            })),
    {
        match self.imports.get(ident.inner.name.as_str()) {
            Some(path) => Ok(TypeOrPath::Path(*path)),
            None => Err(
                RPLMetaError::TypeOrPathNotDeclared {
                    span: SpanWrapper::new(ident.inner.span, ident.path),
                    type_or_path: ident.inner.name.clone(),
                    declared: self.imports.names(),
                },
            ),
        }
    }
}

/// Append the labels of the locals of `f` to `out`.
fn push_local_labels<'i>(f: &FnInner<'i>, out: &mut Vec<String>)
    ensures
        strings_view(final(out)@) == strings_view(old(out)@) + local_labels(f@.locals),
{
    let ghost start = strings_view(out@);
    let mut j: usize = 0;
    while j < f.locals.len()
        invariant
            j <= f@.locals.len(),
            strings_view(out@) == start + local_labels(f@.locals.take(j as int)),
        decreases f@.locals.len() - j,
    {
        let ghost before = strings_view(out@);
        let (_, decl) = f.locals.entry_at(j);
        let ghost t = f@.locals.take(j as int + 1);
        assert(t.drop_last() =~= f@.locals.take(j as int));
        assert(t.last() == f@.locals[j as int]);
        match &decl.label {
            Some(l) => {
                out.push(l.clone());
                assert(strings_view(out@) =~= before.push(l@));
            },
            None => {},
        }
        proof {
            assert(local_labels(t) == local_labels(f@.locals.take(j as int)) + match f@.locals[j as int].1.label {
                Some(l) => seq![l@],
                None => Seq::<Seq<char>>::empty(),
            });
        }
        assert(strings_view(out@) =~= start + local_labels(t));
        j = j + 1;
    }
    assert(f@.locals.take(j as int) =~= f@.locals);
}

impl<'i> SymbolTable<'i> {
    /// The labels of the locals of the named function patterns, then of the unnamed
    /// ones, each in declaration order.
    pub fn labels(&self) -> (r: Vec<String>)
        ensures
            strings_view(r@) == fns_labels(scopes(self.fn_decls())) + fns_labels(self.unnamed_decls()),
    {
        let mut out: Vec<String> = Vec::new();
        let mut i: usize = 0;
        while i < self.fns.len()
            invariant
                i <= self.fn_decls().len(),
                strings_view(out@) == fns_labels(scopes(self.fn_decls()).take(i as int)),
            decreases self.fn_decls().len() - i,
        {
            let (_, f) = self.fns.entry_at(i);
            push_local_labels(f, &mut out);
            proof {
                let t = scopes(self.fn_decls()).take(i as int + 1);
                assert(t.drop_last() =~= scopes(self.fn_decls()).take(i as int));
                assert(t.last() == *f);
            }
            i = i + 1;
        }
        assert(scopes(self.fn_decls()).take(i as int) =~= scopes(self.fn_decls()));
        let ghost named = strings_view(out@);
        let mut k: usize = 0;
        while k < self.unnamed_fns.len()
            invariant
                k <= self.unnamed_decls().len(),
                named == fns_labels(scopes(self.fn_decls())),
                strings_view(out@) == named + fns_labels(self.unnamed_decls().take(k as int)),
            decreases self.unnamed_decls().len() - k,
        {
            push_local_labels(&self.unnamed_fns[k], &mut out);
            proof {
                let t = self.unnamed_decls().take(k as int + 1);
                assert(t.drop_last() =~= self.unnamed_decls().take(k as int));
                assert(t.last() == self.unnamed_fns@[k as int]);
            }
            assert(strings_view(out@) =~= named + fns_labels(self.unnamed_decls().take(k as int + 1)));
            k = k + 1;
        }
        assert(self.unnamed_decls().take(k as int) =~= self.unnamed_decls());
        out
    }
}

/// A local declared under a new name is found again with the declared type, at the next
/// position; declaring a name twice leaves the scope as it was.
pub proof fn lemma_local_reads_back(v: FnView, label: Option<String>, name: Seq<char>, ty: SyntaxNode, special: LocalSpecial)
    requires
        names_distinct(v.locals),
    ensures
        declares(v.locals, name) ==> with_local(v, label, name, ty, special) == v,
        !declares(v.locals, name) ==> {
            let w = with_local(v, label, name, ty, special);
            &&& w.local_type(name) == Some(ty)
            &&& decl_value(w.locals, name).idx == v.locals.len() as usize
            &&& decl_value(w.locals, name).label == label
            &&& decl_value(w.locals, name).special == special
        },
{
    if !declares(v.locals, name) {
        let w = with_local(v, label, name, ty, special);
        lemma_push_distinct(v.locals, name, LocalDecl { label, idx: v.locals.len() as usize, ty, special });
        assert(declared_at(w.locals, name, v.locals.len() as int));
        lemma_decl_value(w.locals, name, v.locals.len() as int);
    }
}

/// A type metavariable declared under `name` is what the table then finds for `name`:
/// a type metavariable, at the position the declaration gave it, with its predicates.
pub proof fn lemma_type_var_reads_back(
    old: NonLocalMetaSymTab,
    new: NonLocalMetaSymTab,
    name: Seq<char>,
    preds: PredicateConjunction,
)
    requires
        old.wf(),
        new.wf(),
        rebound(old.type_decls(), new.type_decls(), name, (old.type_decls().len() as usize, preds)),
    ensures
        new.kind_of(name) == Some(MetaVarKind::NonAdt(MetaVariableType::Type)),
        decl_value(new.type_decls(), name) == (old.type_decls().len() as usize, preds),
{
    crate::name_map::lemma_rebound_reads_back(
        old.type_decls(),
        new.type_decls(),
        name,
        (old.type_decls().len() as usize, preds),
        name,
    );
}

impl Default for NonLocalMetaSymTab {
    fn default() -> (r: Self)
        ensures
            r.wf(),
            r.type_decls().len() == 0,
            r.const_decls().len() == 0,
            r.place_decls().len() == 0,
            r.adt_decls().len() == 0,
    {
        NonLocalMetaSymTab::new()
    }
}

impl<'i> Default for SymbolTable<'i> {
    fn default() -> (r: Self)
        ensures
            r.wf(),
            r.import_decls().len() == 0,
            r.struct_decls().len() == 0,
            r.enum_decls().len() == 0,
            r.fn_decls().len() == 0,
            r.unnamed_decls().len() == 0,
            r.impl_decls().len() == 0,
    {
        SymbolTable::new()
    }
}

} // verus!
