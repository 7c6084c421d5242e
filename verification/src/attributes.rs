//! Attribute constraints on matched items: inlining, safety and visibility.
use vstd::prelude::*;

verus! {

/// The first identifier of the argument list of an `#[inline(..)]` attribute.
#[derive(Debug, Clone, Copy, PartialEq, Eq, Structural)]
pub enum InlineIdent {
    Always,
    Never,
    /// Any other identifier.
    Other,
}

/// What an `#[inline]` attribute says, as far as the constraint reads it.
#[derive(Debug, Clone, Copy, PartialEq, Eq, Structural)]
pub enum InlineAttr {
    /// `#[inline]`: no argument list.
    Bare,
    /// An empty argument list.
    EmptyList,
    /// The first argument is not an identifier.
    FirstNotIdent,
    /// The first argument is this identifier.
    FirstIdent(InlineIdent),
}

/// An `#[inline]` constraint of a pattern.
#[derive(Debug, Clone, Copy, PartialEq, Eq, Structural)]
pub enum Inline {
    /// `#[inline]`
    Normal,
    /// `#[inline(always)]`
    Always,
    /// `#[inline(never)]`
    Never,
    /// Not [`Inline::Never`]
    Any,
}

/// Whether `attr` satisfies the constraint `c` (for `Normal`, any attribute does).
pub open spec fn inline_attr_satisfies(c: Inline, attr: InlineAttr) -> bool {
    match c {
        Inline::Normal => true,
        Inline::Always => attr == InlineAttr::FirstIdent(InlineIdent::Always),
        Inline::Never => attr == InlineAttr::FirstIdent(InlineIdent::Never),
        Inline::Any => attr != InlineAttr::FirstIdent(InlineIdent::Never),
    }
}

/// The first position at or after `from` of an attribute satisfying `c`.
pub open spec fn first_inline_attr(c: Inline, attrs: Seq<InlineAttr>, from: int) -> Option<int>
    decreases attrs.len() - from,
{
    if from < 0 || from >= attrs.len() {
        None
    } else if inline_attr_satisfies(c, attrs[from]) {
        Some(from)
    } else {
        first_inline_attr(c, attrs, from + 1)
    }
}

impl Inline {
    /// Whether one attribute satisfies the constraint.
    pub fn satisfied_by(self, attr: &InlineAttr) -> (r: bool)
        ensures
            r == inline_attr_satisfies(self, *attr),
    {
        match self {
            Inline::Normal => true,
            Inline::Always => match attr {
                InlineAttr::FirstIdent(InlineIdent::Always) => true,
                _ => false,
            },
            Inline::Never => match attr {
                InlineAttr::FirstIdent(InlineIdent::Never) => true,
                _ => false,
            },
            Inline::Any => match attr {
                InlineAttr::FirstIdent(InlineIdent::Never) => false,
                _ => true,
            },
        }
    }

    /// The first of the `#[inline]` attributes of an item that satisfies the constraint.
    pub fn check(self, attrs: &Vec<InlineAttr>) -> (r: Option<&InlineAttr>)
        ensures
            r matches Some(a) ==> first_inline_attr(self, attrs@, 0) matches Some(i) && *a == attrs@[i],
            r is None ==> first_inline_attr(self, attrs@, 0) is None,
    {
        for i in 0..attrs.len()
            invariant
                first_inline_attr(self, attrs@, 0) == first_inline_attr(self, attrs@, i as int),
        {
            if self.satisfied_by(&attrs[i]) {
                return Some(&attrs[i]);
            }
        }
        None
    }
}

/// The safety of a function or an item, as the compiler records it.
#[derive(Debug, Clone, Copy, PartialEq, Eq, Structural)]
pub enum HirSafety {
    Safe,
    Unsafe,
}

/// The safety of a function header.
#[derive(Debug, Clone, Copy, PartialEq, Eq, Structural)]
pub enum HeaderSafety {
    Normal(HirSafety),
    /// Safe, but with `#[target_feature]`.
    SafeTargetFeatures,
}

/// The `unsafe` / `unsafe?` marker of a pattern, as parsed.
#[derive(Debug, Clone, Copy)]
pub struct SafetyPair {
    /// The marker ends in `?`.
    pub question: bool,
}

/// A safety constraint of a pattern.
#[derive(Debug, Clone, Copy, PartialEq, Eq, Structural)]
pub enum Safety {
    Safe,
    Unsafe,
    Any,
}

impl Default for Safety {
    fn default() -> (r: Self)
        ensures
            r == Safety::Safe,
    {
        Safety::Safe
    }
}

impl Safety {
    /// Whether an item of safety `safety` satisfies the constraint.
    pub fn check(self, safety: HirSafety) -> (r: bool)
        ensures
            r == (match safety {
                HirSafety::Safe => self is Safe || self is Any,
                HirSafety::Unsafe => self is Unsafe || self is Any,
            }),
    {
        match safety {
            HirSafety::Safe => match self {
                Safety::Safe | Safety::Any => true,
                _ => false,
            },
            HirSafety::Unsafe => match self {
                Safety::Unsafe | Safety::Any => true,
                _ => false,
            },
        }
    }

    /// Whether a function header of safety `safety` satisfies the constraint; a safe
    /// function with target features counts as unsafe.
    pub fn check_header(self, safety: HeaderSafety) -> (r: bool)
        ensures
            r == (match safety {
                HeaderSafety::Normal(HirSafety::Safe) => self is Safe || self is Any,
                HeaderSafety::Normal(HirSafety::Unsafe) => self is Unsafe || self is Any,
                HeaderSafety::SafeTargetFeatures => self is Unsafe || self is Any,
            }),
    {
        match safety {
            HeaderSafety::Normal(safety) => self.check(safety),
            HeaderSafety::SafeTargetFeatures => match self {
                Safety::Unsafe | Safety::Any => true,
                _ => false,
            },
        }
    }

    /// Like [`Safety::check_header`]; an item without a header counts as safe.
    pub fn check_option_header(self, safety: Option<HeaderSafety>) -> (r: bool)
        ensures
            r == (match safety {
                Some(HeaderSafety::Normal(HirSafety::Safe)) => self is Safe || self is Any,
                Some(HeaderSafety::Normal(HirSafety::Unsafe)) => self is Unsafe || self is Any,
                Some(HeaderSafety::SafeTargetFeatures) => self is Unsafe || self is Any,
                None => self is Safe || self is Any,
            }),
    {
        match safety {
            Some(safety) => self.check_header(safety),
            None => match self {
                Safety::Safe | Safety::Any => true,
                _ => false,
            },
        }
    }

    /// The constraint a pattern's marker states: none is `Safe`, `unsafe` is `Unsafe`,
    /// `unsafe?` is `Any`.
    pub fn parse(safety: Option<&SafetyPair>) -> (r: Self)
        ensures
            r == (match safety {
                Some(p) => if p.question {
                    Safety::Any
                } else {
                    Safety::Unsafe
                },
                None => Safety::Safe,
            }),
    {
        if let Some(safety) = safety {
            if safety.question {
                Safety::Any
            } else {
                Safety::Unsafe
            }
        } else {
            Safety::Safe
        }
    }
}

/// The visibility of an item, as the compiler records it.
#[derive(Debug, Clone, Copy, PartialEq, Eq, Structural)]
pub enum ItemVisibility {
    Public,
    /// Visible only inside some module.
    Restricted,
}

/// The `pub` / `pub(..)` marker of a pattern, as parsed.
#[derive(Debug, Clone, Copy)]
pub struct VisibilityPair {
    /// The marker has a scope in parentheses.
    pub scoped: bool,
}

/// A visibility constraint of a pattern.
#[derive(Debug, Clone, Copy, PartialEq, Eq, Structural)]
pub enum Visibility {
    Unspecified,
    Public,
    Restricted,
}

impl Default for Visibility {
    fn default() -> (r: Self)
        ensures
            r == Visibility::Unspecified,
    {
        Visibility::Unspecified
    }
}

impl Visibility {
    /// Whether an item of visibility `visibility` satisfies the constraint.
    pub fn check(self, visibility: ItemVisibility) -> (r: bool)
        ensures
            r == (match self {
                Visibility::Unspecified => true,
                Visibility::Public => visibility is Public,
                Visibility::Restricted => !(visibility is Public),
            }),
    {
        match self {
            Visibility::Unspecified => true,
            Visibility::Public => match visibility {
                ItemVisibility::Public => true,
                ItemVisibility::Restricted => false,
            },
            Visibility::Restricted => match visibility {
                ItemVisibility::Public => false,
                ItemVisibility::Restricted => true,
            },
        }
    }

    /// The constraint a pattern's marker states: none is `Unspecified`, `pub` is
    /// `Public`, `pub(..)` is `Restricted`.
    pub fn parse(visibility: Option<&VisibilityPair>) -> (r: Self)
        ensures
            r == (match visibility {
                Some(p) => if p.scoped {
                    Visibility::Restricted
                } else {
                    Visibility::Public
                },
                None => Visibility::Unspecified,
            }),
    {
        if let Some(visibility) = visibility {
            if visibility.scoped {
                Visibility::Restricted
            } else {
                Visibility::Public
            }
        } else {
            Visibility::Unspecified
        }
    }
}

/// An attribute constraint `name = value` of a pattern.
#[derive(Debug, Clone)]
pub struct Attribute {
    pub name: String,
    pub value: String,
}

} // verus!
