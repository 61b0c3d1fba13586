//! The shape of a field's type: a bare value, an optional wrapper or a
//! repeated-elements wrapper. A wrapper is recognised by its spelling alone:
//! a path of one segment, named `Option` or `Vec`, with exactly one type
//! argument. Aliases and longer paths are bare.

use crate::syntax::{
    lemma_segment_view, lemma_type_view, GenericArg, GenericArgView, PathArguments,
    PathArgumentsView, TypeExpr, TypeExprView,
};
use crate::text::str_eq;
use vstd::prelude::*;

verus! {

/// The three shapes, without the types they hold.
#[derive(Debug, Clone, Copy, PartialEq, Eq, Structural)]
pub enum Shape {
    Bare,
    Optional,
    Repeated,
}

/// The shape of a type, with the type that an accessor for one value takes:
/// the type itself where it is bare, and the wrapped type otherwise.
#[derive(Debug, PartialEq, Eq)]
pub enum ShapeClassification<'a> {
    Bare(&'a TypeExpr),
    Optional(&'a TypeExpr),
    Repeated(&'a TypeExpr),
}

/// The view of [`ShapeClassification`].
pub ghost enum ShapeClassificationView {
    Bare(TypeExprView),
    Optional(TypeExprView),
    Repeated(TypeExprView),
}

impl<'a> DeepView for ShapeClassification<'a> {
    type V = ShapeClassificationView;

    open spec fn deep_view(&self) -> ShapeClassificationView {
        match self {
            ShapeClassification::Bare(t) => ShapeClassificationView::Bare(t.deep_view()),
            ShapeClassification::Optional(t) => ShapeClassificationView::Optional(t.deep_view()),
            ShapeClassification::Repeated(t) => ShapeClassificationView::Repeated(t.deep_view()),
        }
    }
}

impl ShapeClassificationView {
    /// The shape alone.
    pub open spec fn shape(self) -> Shape {
        match self {
            ShapeClassificationView::Bare(_) => Shape::Bare,
            ShapeClassificationView::Optional(_) => Shape::Optional,
            ShapeClassificationView::Repeated(_) => Shape::Repeated,
        }
    }

    /// The type that an accessor for one value takes.
    pub open spec fn element(self) -> TypeExprView {
        match self {
            ShapeClassificationView::Bare(t) => t,
            ShapeClassificationView::Optional(t) => t,
            ShapeClassificationView::Repeated(t) => t,
        }
    }
}

impl<'a> ShapeClassification<'a> {
    /// The shape alone.
    pub fn shape(&self) -> (r: Shape)
        ensures
            r == self.deep_view().shape(),
    {
        match self {
            ShapeClassification::Bare(_) => Shape::Bare,
            ShapeClassification::Optional(_) => Shape::Optional,
            ShapeClassification::Repeated(_) => Shape::Repeated,
        }
    }

    /// The type that an accessor for one value takes.
    pub fn element(&self) -> (r: &'a TypeExpr)
        ensures
            r.deep_view() == self.deep_view().element(),
    {
        match self {
            ShapeClassification::Bare(t) => t,
            ShapeClassification::Optional(t) => t,
            ShapeClassification::Repeated(t) => t,
        }
    }
}

/// The type that `ty` wraps where `ty` is the wrapper `wrapper`: a path of
/// one segment with that name and exactly one argument, a type.
pub open spec fn underlying_type(ty: TypeExprView, wrapper: Seq<char>) -> Option<TypeExprView> {
    match ty.path {
        Some(segments) => if segments.len() == 1 && segments[0].ident == wrapper {
            match segments[0].args {
                PathArgumentsView::AngleBracketed(args) => if args.len() == 1 {
                    match args[0] {
                        GenericArgView::Type(inner) => Some(inner),
                        GenericArgView::Other(_) => None,
                    }
                } else {
                    None
                },
                _ => None,
            }
        } else {
            None
        },
        None => None,
    }
}

/// The shape of `ty`. The optional wrapper is looked for first.
pub open spec fn classification(ty: TypeExprView) -> ShapeClassificationView {
    match underlying_type(ty, "Option"@) {
        Some(inner) => ShapeClassificationView::Optional(inner),
        None => match underlying_type(ty, "Vec"@) {
            Some(inner) => ShapeClassificationView::Repeated(inner),
            None => ShapeClassificationView::Bare(ty),
        },
    }
}

/// The type that `ty` wraps where `ty` is the wrapper named `wrapper`.
pub fn get_underlying_type<'t>(ty: &'t TypeExpr, wrapper: &str) -> (r: Option<&'t TypeExpr>)
    ensures
        r.deep_view() == underlying_type(ty.deep_view(), wrapper@),
{
    proof {
        lemma_type_view(*ty);
    }
    if let Some(segments) = &ty.path {
        if segments.len() == 1 {
            let segment = &segments[0];
            proof {
                lemma_segment_view(*segment);
            }
            if let PathArguments::AngleBracketed(args) = &segment.args {
                if args.len() == 1 && str_eq(segment.ident.as_str(), wrapper) {
                    if let GenericArg::Type(inner) = &args[0] {
                        return Some(inner);
                    }
                }
            }
        }
    }
    None
}

/// The type inside `Option<..>`.
pub fn get_option_underlying_type(ty: &TypeExpr) -> (r: Option<&TypeExpr>)
    ensures
        r.deep_view() == underlying_type(ty.deep_view(), "Option"@),
{
    get_underlying_type(ty, "Option")
}

/// The type inside `Vec<..>`.
pub fn get_vec_underlying_type(ty: &TypeExpr) -> (r: Option<&TypeExpr>)
    ensures
        r.deep_view() == underlying_type(ty.deep_view(), "Vec"@),
{
    get_underlying_type(ty, "Vec")
}

/// Whether `ty` is the optional wrapper.
pub fn is_option_type(ty: &TypeExpr) -> (r: bool)
    ensures
        r == (underlying_type(ty.deep_view(), "Option"@) is Some),
{
    get_option_underlying_type(ty).is_some()
}

/// Whether `ty` is the repeated-elements wrapper.
pub fn is_vec_type(ty: &TypeExpr) -> (r: bool)
    ensures
        r == (underlying_type(ty.deep_view(), "Vec"@) is Some),
{
    get_vec_underlying_type(ty).is_some()
}

/// The shape of `ty`.
pub fn classify(ty: &TypeExpr) -> (r: ShapeClassification<'_>)
    ensures
        r.deep_view() == classification(ty.deep_view()),
{
    match get_option_underlying_type(ty) {
        Some(inner) => ShapeClassification::Optional(inner),
        None => match get_vec_underlying_type(ty) {
            Some(inner) => ShapeClassification::Repeated(inner),
            None => ShapeClassification::Bare(ty),
        },
    }
}

} // verus!
