//! Bound inference for the formatting implementation: which generic
//! parameters of a record must have the formatting capability, and which
//! associated types must have it by a predicate of their own.
//!
//! Only the type arguments of a field's declared type are looked into, at
//! whatever depth; the declared type itself is taken as it is. A type
//! parameter needs no bound where its name stands only in arguments that
//! are the phantom marker's, as in `PhantomData<T>`, or that are an
//! associated type of it, as in `Vec<T::Value>`. Every other occurrence of
//! the name in the text of a field's type is a read, and a parameter that
//! is read keeps the bound. Every type argument that is a path of more than
//! one segment gets a predicate of its own.

use crate::descriptor::{FieldDescriptor, FieldDescriptorView, TypeDescriptor, TypeDescriptorView};
use crate::syntax::{
    lemma_segment_view, lemma_type_view, GenericArg, GenericArgView, GenericParam,
    GenericParamView, ParamKind, PathArguments, PathArgumentsView, PathSegment, PathSegmentView,
    TypeExpr, TypeExprView,
};
use crate::text::{
    copy_texts, count_word, count_words, join_path, join_with_separator, lemma_count_of_the_word,
    str_eq,
};
use vstd::prelude::*;
use vstd::string::*;

verus! {

broadcast use vstd::std_specs::vec::axiom_vec_index_decreases;

/// The formatting capability, as a bound is written.
pub open spec fn capability() -> Seq<char> {
    "std::fmt::Debug"@
}

/// A generic parameter with the bounds that the implementation puts on it.
#[derive(Debug, PartialEq, Eq)]
pub struct ParamBounds {
    pub name: String,
    /// The bounds, each as source text: those written on the declaration,
    /// and after them the formatting capability where it is needed.
    pub bounds: Vec<String>,
}

/// The view of [`ParamBounds`].
pub ghost struct ParamBoundsView {
    pub name: Seq<char>,
    pub bounds: Seq<Seq<char>>,
}

impl DeepView for ParamBounds {
    type V = ParamBoundsView;

    open spec fn deep_view(&self) -> ParamBoundsView {
        ParamBoundsView { name: self.name@, bounds: self.bounds.deep_view() }
    }
}

/// What the formatting implementation asks of the types it is generic over.
#[derive(Debug, PartialEq, Eq)]
pub struct GeneratedPredicates {
    /// The generic parameters of the record, in order, with their bounds.
    pub params: Vec<ParamBounds>,
    /// The types, each as source text, that the `where` clause gives the
    /// formatting capability, in order.
    pub predicates: Vec<String>,
}

/// The view of [`GeneratedPredicates`].
pub ghost struct GeneratedPredicatesView {
    pub params: Seq<ParamBoundsView>,
    pub predicates: Seq<Seq<char>>,
}

impl DeepView for GeneratedPredicates {
    type V = GeneratedPredicatesView;

    open spec fn deep_view(&self) -> GeneratedPredicatesView {
        GeneratedPredicatesView {
            params: self.params.deep_view(),
            predicates: self.predicates.deep_view(),
        }
    }
}

/// Whether a type argument is a path of more than one segment, the form of
/// an associated type such as `T::Value`.
pub open spec fn is_associated(arg: GenericArgView) -> bool {
    arg matches GenericArgView::Type(t) && t.path matches Some(p) && p.len() > 1
}

/// Whether a type argument is the parameter `param` and nothing else.
pub open spec fn is_parameter(arg: GenericArgView, param: Seq<char>) -> bool {
    arg matches GenericArgView::Type(t) && t.path matches Some(p) && p.len() == 1 && p[0].ident
        == param && p[0].args is Empty
}

/// Whether a type is a path of more than one segment that begins with
/// `param`: an associated type of the parameter.
pub open spec fn heads_associated(ty: TypeExprView, param: Seq<char>) -> bool {
    ty.path matches Some(p) && p.len() > 1 && p[0].ident == param
}

/// How many times `param` stands in the type arguments of a declared type
/// where it needs no bound, at whatever depth: as the head of an argument
/// that is an associated type such as `T::Value`, or as the one argument of
/// the phantom marker. The declared type itself is no argument and is not
/// counted.
pub open spec fn exempt_in_declared(ty: TypeExprView, param: Seq<char>) -> nat {
    match ty.path {
        Some(segments) => exempt_in_segments(segments, param),
        None => 0,
    }
}

/// How many times `param` stands in a type argument where it needs no
/// bound: once where the argument is an associated type of `param`, and as
/// often as in its own arguments.
pub open spec fn exempt_in_type(ty: TypeExprView, param: Seq<char>) -> nat
    decreases ty,
{
    match ty.path {
        Some(segments) => exempt_in_segments(segments, param) + if heads_associated(ty, param) {
            1nat
        } else {
            0nat
        },
        None => 0,
    }
}

/// The sum of [`exempt_in_segment`] over the segments.
pub open spec fn exempt_in_segments(segments: Seq<PathSegmentView>, param: Seq<char>) -> nat
    decreases segments,
{
    if segments.len() == 0 {
        0
    } else {
        exempt_in_segments(segments.drop_last(), param) + exempt_in_segment(segments.last(), param)
    }
}

/// How many times `param` stands in the arguments of a segment where it
/// needs no bound.
pub open spec fn exempt_in_segment(segment: PathSegmentView, param: Seq<char>) -> nat
    decreases segment,
{
    match segment.args {
        PathArgumentsView::AngleBracketed(args) => exempt_in_arguments(segment.ident, args, param),
        _ => 0,
    }
}

/// The sum of [`exempt_in_argument`] over the arguments of a segment named `head`.
pub open spec fn exempt_in_arguments(
    head: Seq<char>,
    args: Seq<GenericArgView>,
    param: Seq<char>,
) -> nat
    decreases args,
{
    if args.len() == 0 {
        0
    } else {
        exempt_in_arguments(head, args.drop_last(), param) + exempt_in_argument(
            head,
            args.last(),
            param,
        )
    }
}

/// How many times `param` stands in an argument of a segment named `head`
/// where it needs no bound: once where the argument is the parameter itself
/// and the segment the phantom marker, and otherwise as often as in the
/// type that the argument is.
pub open spec fn exempt_in_argument(head: Seq<char>, arg: GenericArgView, param: Seq<char>) -> nat
    decreases arg,
{
    match arg {
        GenericArgView::Type(t) => if is_parameter(arg, param) && head == "PhantomData"@ {
            1
        } else {
            exempt_in_type(t, param)
        },
        GenericArgView::Other(_) => 0,
    }
}

/// Whether a field's type shows that `param` needs no bound: among its
/// type arguments the parameter stands inside the phantom marker or at the
/// head of an associated type.
pub open spec fn omits_bound(ty: TypeExprView, param: Seq<char>) -> bool {
    exempt_in_declared(ty, param) > 0
}

/// Whether a field's type reads `param`: the name stands in the text of the
/// type more often than it stands where it needs no bound. Every occurrence
/// in the text counts, in whatever kind of type and however deep; so a
/// field whose own type is `T::Value` reads `T`.
pub open spec fn reads(ty: TypeExprView, param: Seq<char>) -> bool {
    count_words(ty.text, param) > exempt_in_declared(ty, param)
}

/// Whether some field shows that `param` needs no bound.
pub open spec fn shown_exempt(fields: Seq<FieldDescriptorView>, param: Seq<char>) -> bool {
    exists|f: int| 0 <= f < fields.len() && omits_bound((#[trigger] fields[f]).declared_type, param)
}

/// Whether some field reads `param`.
pub open spec fn read_somewhere(fields: Seq<FieldDescriptorView>, param: Seq<char>) -> bool {
    exists|f: int| 0 <= f < fields.len() && reads((#[trigger] fields[f]).declared_type, param)
}

/// Whether the parameter gets the formatting capability. It does by
/// default, and it does wherever a field reads it; it does not where some
/// field shows that it needs none and no field reads it.
pub open spec fn needs_bound(fields: Seq<FieldDescriptorView>, param: Seq<char>) -> bool {
    !shown_exempt(fields, param) || read_somewhere(fields, param)
}

/// `a - b`, and 0 where `b` is the greater.
pub open spec fn minus(a: nat, b: nat) -> nat {
    if a > b {
        (a - b) as nat
    } else {
        0
    }
}

/// The bounds of one parameter. Only a type parameter is ever given the capability.
pub open spec fn bounds_of(
    p: GenericParamView,
    fields: Seq<FieldDescriptorView>,
    inference: bool,
) -> ParamBoundsView {
    ParamBoundsView {
        name: p.name,
        bounds: if inference && p.kind == ParamKind::Type && needs_bound(fields, p.name) {
            p.bounds.push(capability())
        } else {
            p.bounds
        },
    }
}

/// The parameters with their bounds; without inference, as they were declared.
pub open spec fn bounded_params(
    generics: Seq<GenericParamView>,
    fields: Seq<FieldDescriptorView>,
    inference: bool,
) -> Seq<ParamBoundsView> {
    Seq::new(generics.len(), |i: int| bounds_of(generics[i], fields, inference))
}

/// The type arguments of a declared type that are paths of more than one
/// segment, as source text, in order and at whatever depth. The declared
/// type itself is no argument and is never among them.
pub open spec fn associated_in_declared(ty: TypeExprView) -> Seq<Seq<char>> {
    match ty.path {
        Some(segments) => associated_in_segments(segments),
        None => Seq::empty(),
    }
}

/// What a type argument contributes: the argument itself where it is a
/// path of more than one segment, and after it what its own arguments
/// contribute.
pub open spec fn associated_in_type(ty: TypeExprView) -> Seq<Seq<char>>
    decreases ty,
{
    match ty.path {
        Some(segments) => if segments.len() > 1 {
            seq![ty.text] + associated_in_segments(segments)
        } else {
            associated_in_segments(segments)
        },
        None => Seq::empty(),
    }
}

/// The associated types in the arguments of the segments, in order.
pub open spec fn associated_in_segments(segments: Seq<PathSegmentView>) -> Seq<Seq<char>>
    decreases segments,
{
    if segments.len() == 0 {
        Seq::empty()
    } else {
        associated_in_segments(segments.drop_last()) + associated_in_segment(segments.last())
    }
}

/// The associated types in the arguments of one segment.
pub open spec fn associated_in_segment(segment: PathSegmentView) -> Seq<Seq<char>>
    decreases segment,
{
    match segment.args {
        PathArgumentsView::AngleBracketed(args) => associated_in_arguments(args),
        _ => Seq::empty(),
    }
}

/// The associated types in the arguments, in order.
pub open spec fn associated_in_arguments(args: Seq<GenericArgView>) -> Seq<Seq<char>>
    decreases args,
{
    if args.len() == 0 {
        Seq::empty()
    } else {
        associated_in_arguments(args.drop_last()) + associated_in_argument(args.last())
    }
}

/// The associated types in one argument: those of the type that it is.
pub open spec fn associated_in_argument(arg: GenericArgView) -> Seq<Seq<char>>
    decreases arg,
{
    match arg {
        GenericArgView::Type(t) => associated_in_type(t),
        GenericArgView::Other(_) => Seq::empty(),
    }
}

/// The type arguments in the fields' types that are paths of more than one
/// segment, field by field in declaration order; one that occurs twice is
/// listed twice.
pub open spec fn associated_types(fields: Seq<FieldDescriptorView>) -> Seq<Seq<char>>
    decreases fields.len(),
{
    if fields.len() == 0 {
        Seq::empty()
    } else {
        associated_types(fields.drop_last()) + associated_in_declared(
            fields.last().declared_type,
        )
    }
}

/// What the formatting implementation of a record asks. With an explicit
/// bound nothing is inferred: the parameters keep their declared bounds and
/// the one predicate is on the given path. Otherwise every type parameter
/// gets the capability, unless a field shows that it needs none and no
/// field reads it, and every associated type in the fields' types gets a
/// predicate.
pub open spec fn inferred(d: TypeDescriptorView) -> GeneratedPredicatesView {
    match d.bound {
        Some(path) => GeneratedPredicatesView {
            params: bounded_params(d.generics, d.fields, false),
            predicates: seq![join_path(path)],
        },
        None => GeneratedPredicatesView {
            params: bounded_params(d.generics, d.fields, true),
            predicates: associated_types(d.fields),
        },
    }
}

/// Whether a type argument is the parameter `param` and nothing else.
fn argument_is_parameter(arg: &GenericArg, param: &str) -> (r: bool)
    ensures
        r == is_parameter(arg.deep_view(), param@),
{
    match arg {
        GenericArg::Type(t) => {
            proof {
                lemma_type_view(*t);
            }
            match &t.path {
                Some(p) => {
                    if p.len() == 1 {
                        proof {
                            lemma_segment_view(p[0]);
                        }
                        let plain = match &p[0].args {
                            PathArguments::Empty => true,
                            _ => false,
                        };
                        plain && str_eq(p[0].ident.as_str(), param)
                    } else {
                        false
                    }
                },
                None => false,
            }
        },
        GenericArg::Other(_) => false,
    }
}

/// Takes from `left` one for each time that `param` stands where it needs
/// no bound, as long as anything is left: in the arguments of `ty`, and,
/// where `ty` is itself an argument, in `ty` itself.
fn discount_type(ty: &TypeExpr, param: &str, left: usize, argument: bool) -> (r: usize)
    ensures
        r == minus(
            left as nat,
            if argument {
                exempt_in_type(ty.deep_view(), param@)
            } else {
                exempt_in_declared(ty.deep_view(), param@)
            },
        ),
    decreases ty,
{
    proof {
        lemma_type_view(*ty);
    }
    match &ty.path {
        Some(segments) => {
            let ghost all = segments.deep_view();
            let ghost start = left;
            let mut left = left;
            let mut s: usize = 0;
            proof {
                assert(all.take(0) =~= Seq::<PathSegmentView>::empty());
            }
            while s < segments.len()
                invariant
                    s <= segments.len(),
                    ty.path == Some(*segments),
                    all == segments.deep_view(),
                    left == minus(start as nat, exempt_in_segments(all.take(s as int), param@)),
                decreases segments.len() - s,
            {
                proof {
                    assert(all.take(s + 1).drop_last() =~= all.take(s as int));
                    assert(all.take(s + 1).last() == all[s as int]);
                    assert(ty.path->0 == *segments);
                    assert(decreases_to!(*ty => ty.path->0[s as int]));
                }
                left = discount_segment(&segments[s], param, left);
                s += 1;
            }
            proof {
                assert(all.take(segments.len() as int) =~= all);
            }
            if argument && segments.len() > 1 {
                proof {
                    lemma_segment_view(segments[0]);
                }
                if str_eq(segments[0].ident.as_str(), param) && left > 0 {
                    left -= 1;
                }
            }
            left
        },
        None => left,
    }
}

/// Takes from `left` one for each time that `param` stands in the
/// arguments of the segment where it needs no bound.
fn discount_segment(segment: &PathSegment, param: &str, left: usize) -> (r: usize)
    ensures
        r == minus(left as nat, exempt_in_segment(segment.deep_view(), param@)),
    decreases segment,
{
    proof {
        lemma_segment_view(*segment);
    }
    match &segment.args {
        PathArguments::AngleBracketed(args) => {
            let marker = str_eq(segment.ident.as_str(), "PhantomData");
            let ghost head = segment.ident@;
            let ghost all = args.deep_view();
            let ghost start = left;
            let mut left = left;
            let mut a: usize = 0;
            proof {
                assert(all.take(0) =~= Seq::<GenericArgView>::empty());
            }
            while a < args.len()
                invariant
                    a <= args.len(),
                    segment.args == PathArguments::AngleBracketed(*args),
                    all == args.deep_view(),
                    head == segment.ident@,
                    marker == (head == "PhantomData"@),
                    left == minus(
                        start as nat,
                        exempt_in_arguments(head, all.take(a as int), param@),
                    ),
                decreases args.len() - a,
            {
                proof {
                    assert(all.take(a + 1).drop_last() =~= all.take(a as int));
                    assert(all.take(a + 1).last() == all[a as int]);
                    assert(exempt_in_arguments(head, all.take(a + 1), param@)
                        == exempt_in_arguments(head, all.take(a as int), param@)
                        + exempt_in_argument(head, all[a as int], param@));
                    assert(exempt_in_argument(head, all[a as int], param@) == match all[a as int] {
                        GenericArgView::Type(t) => if is_parameter(all[a as int], param@) && head
                            == "PhantomData"@ {
                            1nat
                        } else {
                            exempt_in_type(t, param@)
                        },
                        GenericArgView::Other(_) => 0nat,
                    });
                }
                if marker && argument_is_parameter(&args[a], param) {
                    if left > 0 {
                        left -= 1;
                    }
                } else {
                    match &args[a] {
                        GenericArg::Type(t) => {
                            proof {
                                assert(all[a as int] == GenericArgView::Type(t.deep_view()));
                                assert(segment.args->AngleBracketed_0 == *args);
                                assert(args[a as int]->Type_0 == *t);
                                assert(decreases_to!(
                                    *segment => segment.args->AngleBracketed_0[a as int]->Type_0
                                ));
                            }
                            left = discount_type(t, param, left, true);
                        },
                        GenericArg::Other(_) => {},
                    }
                }
                a += 1;
            }
            proof {
                assert(all.take(args.len() as int) =~= all);
            }
            left
        },
        _ => left,
    }
}

/// Whether a field's type shows that `param` needs no bound.
pub fn omit_bound(field: &FieldDescriptor<'_>, param: &str) -> (r: bool)
    ensures
        r == omits_bound(field.deep_view().declared_type, param@),
{
    discount_type(field.declared_type, param, 1, false) == 0
}

/// Whether a field's type reads `param`.
pub fn reads_parameter(field: &FieldDescriptor<'_>, param: &str) -> (r: bool)
    ensures
        r == reads(field.deep_view().declared_type, param@),
{
    proof {
        lemma_type_view(*field.declared_type);
    }
    let words = count_word(field.declared_type.text.as_str(), param);
    discount_type(field.declared_type, param, words, false) > 0
}

/// The parameters with their bounds: with `enable_bound_inference`, every
/// type parameter gets the formatting capability, unless a field shows that
/// it needs none and no field reads it.
pub fn add_generic_trait_bounds(
    generics: &Vec<GenericParam>,
    fields: &Vec<FieldDescriptor<'_>>,
    enable_bound_inference: bool,
) -> (r: Vec<ParamBounds>)
    ensures
        r.deep_view() == bounded_params(
            generics.deep_view(),
            fields.deep_view(),
            enable_bound_inference,
        ),
{
    let mut out: Vec<ParamBounds> = Vec::new();
    let mut i: usize = 0;
    while i < generics.len()
        invariant
            i <= generics.len(),
            out.len() == i,
            forall|j: int|
                0 <= j < i ==> (#[trigger] out[j]).deep_view() == bounds_of(
                    generics[j].deep_view(),
                    fields.deep_view(),
                    enable_bound_inference,
                ),
        decreases generics.len() - i,
    {
        let param = &generics[i];
        let mut bounds = copy_texts(&param.bounds);
        if enable_bound_inference && param.kind == ParamKind::Type {
            let ghost all = fields.deep_view();
            let mut exempt = false;
            let mut read = false;
            let mut f: usize = 0;
            while f < fields.len()
                invariant
                    f <= fields.len(),
                    all == fields.deep_view(),
                    exempt == exists|j: int|
                        0 <= j < f && omits_bound((#[trigger] all[j]).declared_type, param.name@),
                    read == exists|j: int|
                        0 <= j < f && reads((#[trigger] all[j]).declared_type, param.name@),
                decreases fields.len() - f,
            {
                let ghost here = all[f as int].declared_type;
                if omit_bound(&fields[f], param.name.as_str()) {
                    exempt = true;
                    proof {
                        assert(omits_bound(all[f as int].declared_type, param.name@));
                    }
                }
                if reads_parameter(&fields[f], param.name.as_str()) {
                    read = true;
                    proof {
                        assert(reads(all[f as int].declared_type, param.name@));
                    }
                }
                f += 1;
            }
            if !exempt || read {
                let ghost before = bounds.deep_view();
                bounds.push(String::from_str("std::fmt::Debug"));
                proof {
                    assert(bounds.deep_view() =~= before.push(capability()));
                }
            }
        }
        out.push(ParamBounds { name: param.name.clone(), bounds });
        i += 1;
    }
    proof {
        assert(out.deep_view() =~= bounded_params(
            generics.deep_view(),
            fields.deep_view(),
            enable_bound_inference,
        ));
    }
    out
}

/// Adds to `out` what the arguments of `ty` contribute, and before it,
/// where `ty` is itself an argument, `ty` where it is a path of more than
/// one segment.
fn collect_from_type(ty: &TypeExpr, out: &mut Vec<String>, argument: bool)
    ensures
        final(out).deep_view() == old(out).deep_view() + if argument {
            associated_in_type(ty.deep_view())
        } else {
            associated_in_declared(ty.deep_view())
        },
    decreases ty,
{
    let ghost start = out.deep_view();
    proof {
        lemma_type_view(*ty);
        assert(start + Seq::<Seq<char>>::empty() =~= start);
    }
    match &ty.path {
        Some(segments) => {
            let ghost all = segments.deep_view();
            if argument && segments.len() > 1 {
                out.push(ty.text.clone());
            }
            let ghost own = out.deep_view();
            let mut s: usize = 0;
            proof {
                assert(own =~= start + if argument && segments.len() > 1 {
                    seq![ty.text@]
                } else {
                    Seq::<Seq<char>>::empty()
                });
                assert(all.take(0) =~= Seq::<PathSegmentView>::empty());
                assert(own + Seq::<Seq<char>>::empty() =~= own);
            }
            while s < segments.len()
                invariant
                    s <= segments.len(),
                    ty.path == Some(*segments),
                    all == segments.deep_view(),
                    out.deep_view() == own + associated_in_segments(all.take(s as int)),
                decreases segments.len() - s,
            {
                let ghost before = out.deep_view();
                proof {
                    assert(all.take(s + 1).drop_last() =~= all.take(s as int));
                    assert(all.take(s + 1).last() == all[s as int]);
                    assert(ty.path->0 == *segments);
                    assert(decreases_to!(*ty => ty.path->0[s as int]));
                }
                collect_from_segment(&segments[s], out);
                proof {
                    assert(out.deep_view() =~= own + associated_in_segments(all.take(s + 1)));
                }
                s += 1;
            }
            proof {
                assert(all.take(segments.len() as int) =~= all);
                assert(out.deep_view() =~= start + if argument {
                    associated_in_type(ty.deep_view())
                } else {
                    associated_in_declared(ty.deep_view())
                });
            }
        },
        None => {},
    }
}

/// Adds to `out` the associated types in the arguments of a segment.
fn collect_from_segment(segment: &PathSegment, out: &mut Vec<String>)
    ensures
        final(out).deep_view() == old(out).deep_view() + associated_in_segment(
            segment.deep_view(),
        ),
    decreases segment,
{
    let ghost start = out.deep_view();
    proof {
        lemma_segment_view(*segment);
        assert(start + Seq::<Seq<char>>::empty() =~= start);
    }
    match &segment.args {
        PathArguments::AngleBracketed(args) => {
            let ghost all = args.deep_view();
            let mut a: usize = 0;
            proof {
                assert(all.take(0) =~= Seq::<GenericArgView>::empty());
            }
            while a < args.len()
                invariant
                    a <= args.len(),
                    segment.args == PathArguments::AngleBracketed(*args),
                    all == args.deep_view(),
                    out.deep_view() == start + associated_in_arguments(all.take(a as int)),
                decreases args.len() - a,
            {
                let ghost before = out.deep_view();
                proof {
                    assert(all.take(a + 1).drop_last() =~= all.take(a as int));
                    assert(all.take(a + 1).last() == all[a as int]);
                    assert(associated_in_arguments(all.take(a + 1)) == associated_in_arguments(
                        all.take(a as int),
                    ) + associated_in_argument(all[a as int]));
                    assert(associated_in_argument(all[a as int]) == match all[a as int] {
                        GenericArgView::Type(t) => associated_in_type(t),
                        GenericArgView::Other(_) => Seq::<Seq<char>>::empty(),
                    });
                }
                match &args[a] {
                    GenericArg::Type(t) => {
                        proof {
                            assert(all[a as int] == GenericArgView::Type(t.deep_view()));
                            assert(segment.args->AngleBracketed_0 == *args);
                            assert(args[a as int]->Type_0 == *t);
                            assert(decreases_to!(
                                *segment => segment.args->AngleBracketed_0[a as int]->Type_0
                            ));
                        }
                        collect_from_type(t, out, true);
                    },
                    GenericArg::Other(_) => {
                        proof {
                            assert(before + Seq::<Seq<char>>::empty() =~= before);
                        }
                    },
                }
                proof {
                    assert(out.deep_view() =~= start + associated_in_arguments(all.take(a + 1)));
                }
                a += 1;
            }
            proof {
                assert(all.take(args.len() as int) =~= all);
            }
        },
        _ => {},
    }
}

/// The type arguments in the fields' types that are paths of more than one
/// segment, each of which gets a predicate of its own.
pub fn get_assoc_type_where_clause_preds(fields: &Vec<FieldDescriptor<'_>>) -> (r: Vec<String>)
    ensures
        r.deep_view() == associated_types(fields.deep_view()),
{
    let mut out: Vec<String> = Vec::new();
    let mut f: usize = 0;
    proof {
        assert(fields.deep_view().take(0) =~= Seq::empty());
        assert(out.deep_view() =~= Seq::<Seq<char>>::empty());
    }
    while f < fields.len()
        invariant
            f <= fields.len(),
            out.deep_view() == associated_types(fields.deep_view().take(f as int)),
        decreases fields.len() - f,
    {
        let ghost seen = fields.deep_view().take(f as int);
        let ghost next = fields.deep_view().take(f + 1);
        proof {
            assert(next.drop_last() =~= seen);
            assert(next.last() == fields.deep_view()[f as int]);
        }
        collect_from_type(fields[f].declared_type, &mut out, false);
        f += 1;
    }
    proof {
        assert(fields.deep_view().take(fields.len() as int) =~= fields.deep_view());
    }
    out
}

/// What the formatting implementation of a record asks of the types it is
/// generic over.
pub fn infer_bounds(desc: &TypeDescriptor<'_>) -> (r: GeneratedPredicates)
    ensures
        r.deep_view() == inferred(desc.deep_view()),
{
    match &desc.bound {
        Some(path) => {
            let params = add_generic_trait_bounds(desc.generics, &desc.fields, false);
            let mut predicates: Vec<String> = Vec::new();
            predicates.push(join_with_separator(path));
            proof {
                assert(predicates.deep_view() =~= seq![join_path(path.deep_view())]);
            }
            GeneratedPredicates { params, predicates }
        },
        None => {
            let params = add_generic_trait_bounds(desc.generics, &desc.fields, true);
            let predicates = get_assoc_type_where_clause_preds(&desc.fields);
            GeneratedPredicates { params, predicates }
        },
    }
}

/// The argument at position `a` of the segment at position `s` of a path type.
pub open spec fn argument_at(ty: TypeExprView, s: int, a: int) -> Option<GenericArgView> {
    match ty.path {
        Some(segments) => if 0 <= s < segments.len() {
            match segments[s].args {
                PathArgumentsView::AngleBracketed(args) => if 0 <= a < args.len() {
                    Some(args[a])
                } else {
                    None
                },
                _ => None,
            }
        } else {
            None
        },
        None => None,
    }
}

/// An argument that stands where `param` needs no bound is counted.
proof fn lemma_exempt_argument(ty: TypeExprView, s: int, a: int, param: Seq<char>)
    requires
        argument_at(ty, s, a) is Some,
        exempt_in_argument(ty.path->0[s].ident, argument_at(ty, s, a)->0, param) > 0,
    ensures
        omits_bound(ty, param),
{
    let segments = ty.path->0;
    let args = segments[s].args->AngleBracketed_0;
    lemma_exempt_in_arguments(segments[s].ident, args, a, param);
    lemma_exempt_in_segments(segments, s, param);
}

proof fn lemma_exempt_in_arguments(
    head: Seq<char>,
    args: Seq<GenericArgView>,
    a: int,
    param: Seq<char>,
)
    requires
        0 <= a < args.len(),
    ensures
        exempt_in_arguments(head, args, param) >= exempt_in_argument(head, args[a], param),
    decreases args.len(),
{
    if a < args.len() - 1 {
        lemma_exempt_in_arguments(head, args.drop_last(), a, param);
    }
}

proof fn lemma_exempt_in_segments(segments: Seq<PathSegmentView>, s: int, param: Seq<char>)
    requires
        0 <= s < segments.len(),
    ensures
        exempt_in_segments(segments, param) >= exempt_in_segment(segments[s], param),
    decreases segments.len(),
{
    if s < segments.len() - 1 {
        lemma_exempt_in_segments(segments.drop_last(), s, param);
    }
}

/// A type parameter that some field holds inside the phantom marker, and
/// that no field reads, gets no bound: its bounds are those of the declaration.
pub proof fn law_phantom_parameter(d: TypeDescriptorView, p: int, f: int, s: int, a: int)
    requires
        0 <= p < d.generics.len(),
        0 <= f < d.fields.len(),
        argument_at(d.fields[f].declared_type, s, a) matches Some(arg) && is_parameter(
            arg,
            d.generics[p].name,
        ),
        d.fields[f].declared_type.path->0[s].ident == "PhantomData"@,
        !read_somewhere(d.fields, d.generics[p].name),
    ensures
        inferred(d).params[p].bounds == d.generics[p].bounds,
{
    lemma_exempt_argument(d.fields[f].declared_type, s, a, d.generics[p].name);
}

/// A type parameter that a field reaches through an associated type, as in
/// `Vec<T::Value>`, and that no field reads, gets no bound itself; where
/// nothing is bounded explicitly, the associated type is among the
/// predicates, read or not.
pub proof fn law_associated_type(d: TypeDescriptorView, p: int, f: int, s: int, a: int)
    requires
        0 <= p < d.generics.len(),
        0 <= f < d.fields.len(),
        argument_at(d.fields[f].declared_type, s, a) matches Some(arg) && is_associated(arg)
            && arg->Type_0.path->0[0].ident == d.generics[p].name,
    ensures
        !read_somewhere(d.fields, d.generics[p].name) ==> inferred(d).params[p].bounds
            == d.generics[p].bounds,
        d.bound is None ==> inferred(d).predicates.contains(
            argument_at(d.fields[f].declared_type, s, a)->0->Type_0.text,
        ),
{
    let segments = d.fields[f].declared_type.path->0;
    let args = segments[s].args->AngleBracketed_0;
    assert(heads_associated(args[a]->Type_0, d.generics[p].name));
    assert(exempt_in_type(args[a]->Type_0, d.generics[p].name) > 0);
    lemma_exempt_argument(d.fields[f].declared_type, s, a, d.generics[p].name);
    let text = args[a]->Type_0.text;
    assert(associated_in_type(args[a]->Type_0)[0] == text);
    lemma_associated_in_arguments(args, a, text);
    lemma_associated_in_segments(segments, s, text);
    lemma_associated_types(d.fields, f, text);
}

/// A type parameter that some field reads gets the formatting capability,
/// whatever the other fields show, unless a bound is given explicitly.
pub proof fn law_read_parameter(d: TypeDescriptorView, p: int, f: int)
    requires
        0 <= p < d.generics.len(),
        0 <= f < d.fields.len(),
        d.generics[p].kind == ParamKind::Type,
        d.bound is None,
        reads(d.fields[f].declared_type, d.generics[p].name),
    ensures
        inferred(d).params[p].bounds == d.generics[p].bounds.push(capability()),
{
}

/// A field whose type is the parameter itself reads it.
pub proof fn law_field_of_the_parameter(ty: TypeExprView, param: Seq<char>)
    requires
        param.len() > 0,
        ty.text == param,
        ty.path matches Some(segments) && segments.len() == 1 && segments[0].args is Empty,
    ensures
        reads(ty, param),
{
    lemma_count_of_the_word(param);
    let segments = ty.path->0;
    assert(segments.drop_last().len() == 0);
    assert(exempt_in_segments(segments.drop_last(), param) == 0);
    assert(exempt_in_segment(segments.last(), param) == 0);
}

/// Whether a declared type has a type argument: it is a path, and one of
/// its segments carries arguments in angle brackets.
pub open spec fn has_arguments(ty: TypeExprView) -> bool {
    ty.path matches Some(segments) && exists|s: int|
        0 <= s < segments.len() && (#[trigger] segments[s]).args is AngleBracketed
}

proof fn lemma_segments_without_arguments(segments: Seq<PathSegmentView>, param: Seq<char>)
    requires
        forall|s: int|
            0 <= s < segments.len() ==> !((#[trigger] segments[s]).args is AngleBracketed),
    ensures
        associated_in_segments(segments) == Seq::<Seq<char>>::empty(),
        exempt_in_segments(segments, param) == 0,
    decreases segments.len(),
{
    if segments.len() > 0 {
        let shorter = segments.drop_last();
        assert forall|s: int| 0 <= s < shorter.len() implies !((#[trigger] shorter[s]).args
            is AngleBracketed) by {
            assert(shorter[s] == segments[s]);
        }
        lemma_segments_without_arguments(shorter, param);
        let last = segments.last();
        assert(last == segments[segments.len() - 1]);
        assert(associated_in_segment(last) == Seq::<Seq<char>>::empty());
        assert(exempt_in_segment(last, param) == 0);
        assert(associated_in_segments(segments) == associated_in_segments(shorter)
            + associated_in_segment(last));
        assert(exempt_in_segments(segments, param) == exempt_in_segments(shorter, param)
            + exempt_in_segment(last, param));
        assert(associated_in_segments(segments) =~= Seq::<Seq<char>>::empty());
    }
}

/// A declared type without a type argument gives no predicate and shows
/// no parameter exempt, whatever the type itself is: a field of type
/// `a::B` has no predicate on `a::B`, and a field of type `T::Value` reads
/// `T` wherever `T` stands in its text.
pub proof fn law_declared_type_alone(ty: TypeExprView, param: Seq<char>)
    requires
        !has_arguments(ty),
    ensures
        associated_in_declared(ty) == Seq::<Seq<char>>::empty(),
        !omits_bound(ty, param),
        reads(ty, param) <==> count_words(ty.text, param) > 0,
{
    if ty.path is Some {
        lemma_segments_without_arguments(ty.path->0, param);
    }
}

/// Where no field's type has a type argument there is no predicate.
pub proof fn law_no_argument_no_predicate(fields: Seq<FieldDescriptorView>)
    requires
        forall|f: int|
            0 <= f < fields.len() ==> !has_arguments((#[trigger] fields[f]).declared_type),
    ensures
        associated_types(fields) == Seq::<Seq<char>>::empty(),
    decreases fields.len(),
{
    if fields.len() > 0 {
        let shorter = fields.drop_last();
        assert forall|f: int| 0 <= f < shorter.len() implies !has_arguments(
            (#[trigger] shorter[f]).declared_type,
        ) by {
            assert(shorter[f] == fields[f]);
        }
        law_no_argument_no_predicate(shorter);
        law_declared_type_alone(fields[fields.len() - 1].declared_type, Seq::empty());
        assert(associated_types(fields) =~= Seq::<Seq<char>>::empty());
    }
}

proof fn lemma_associated_in_arguments(args: Seq<GenericArgView>, a: int, text: Seq<char>)
    requires
        0 <= a < args.len(),
        associated_in_argument(args[a]).contains(text),
    ensures
        associated_in_arguments(args).contains(text),
    decreases args.len(),
{
    let all = associated_in_arguments(args);
    let shorter = associated_in_arguments(args.drop_last());
    if a == args.len() - 1 {
        let here = associated_in_argument(args[a]);
        let k = choose|k: int| 0 <= k < here.len() && here[k] == text;
        assert(all[shorter.len() + k] == text);
    } else {
        lemma_associated_in_arguments(args.drop_last(), a, text);
        let k = choose|k: int| 0 <= k < shorter.len() && shorter[k] == text;
        assert(all[k] == text);
    }
}

proof fn lemma_associated_in_segments(segments: Seq<PathSegmentView>, s: int, text: Seq<char>)
    requires
        0 <= s < segments.len(),
        associated_in_segment(segments[s]).contains(text),
    ensures
        associated_in_segments(segments).contains(text),
    decreases segments.len(),
{
    let all = associated_in_segments(segments);
    let shorter = associated_in_segments(segments.drop_last());
    if s == segments.len() - 1 {
        let here = associated_in_segment(segments[s]);
        let k = choose|k: int| 0 <= k < here.len() && here[k] == text;
        assert(all[shorter.len() + k] == text);
    } else {
        lemma_associated_in_segments(segments.drop_last(), s, text);
        let k = choose|k: int| 0 <= k < shorter.len() && shorter[k] == text;
        assert(all[k] == text);
    }
}

proof fn lemma_associated_types(fields: Seq<FieldDescriptorView>, f: int, text: Seq<char>)
    requires
        0 <= f < fields.len(),
        associated_in_declared(fields[f].declared_type).contains(text),
    ensures
        associated_types(fields).contains(text),
    decreases fields.len(),
{
    let all = associated_types(fields);
    let shorter = associated_types(fields.drop_last());
    if f == fields.len() - 1 {
        let here = associated_in_declared(fields[f].declared_type);
        let k = choose|k: int| 0 <= k < here.len() && here[k] == text;
        assert(all[shorter.len() + k] == text);
    } else {
        lemma_associated_types(fields.drop_last(), f, text);
        let k = choose|k: int| 0 <= k < shorter.len() && shorter[k] == text;
        assert(all[k] == text);
    }
}

/// An explicit bound suppresses inference: every parameter keeps its
/// declared bounds, and the one predicate is on the given path.
pub proof fn law_bound_override(d: TypeDescriptorView)
    requires
        d.bound is Some,
    ensures
        inferred(d).predicates == seq![join_path(d.bound->0)],
        inferred(d).params.len() == d.generics.len(),
        forall|p: int|
            0 <= p < d.generics.len() ==> (#[trigger] inferred(d).params[p]).bounds
                == d.generics[p].bounds,
{
}

} // verus!
