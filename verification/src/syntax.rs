//! The syntax that the generators and the order checks read: declarations,
//! their fields, types, attributes and the tokens inside an attribute, and
//! the match expressions of a function.
//!
//! Every type has a view (`deep_view`) in which text is a `Seq<char>` and a
//! list is a `Seq`; the contracts of the crate are stated over these views.

use crate::text::str_eq;
use vstd::prelude::*;

verus! {

broadcast use vstd::std_specs::vec::axiom_vec_index_decreases;

/// One token of an attribute's argument.
#[derive(Debug, PartialEq, Eq)]
pub enum Token {
    /// An identifier or keyword, with its spelling.
    Ident(String),
    /// A single punctuation character.
    Punct(char),
    /// A literal, as written in the source (a string literal keeps its quotes).
    Literal(String),
    /// A delimited group; nothing here looks inside one.
    Group,
}

/// The view of [`Token`].
pub ghost enum TokenView {
    Ident(Seq<char>),
    Punct(char),
    Literal(Seq<char>),
    Group,
}

impl DeepView for Token {
    type V = TokenView;

    open spec fn deep_view(&self) -> TokenView {
        match self {
            Token::Ident(s) => TokenView::Ident(s@),
            Token::Punct(c) => TokenView::Punct(*c),
            Token::Literal(s) => TokenView::Literal(s@),
            Token::Group => TokenView::Group,
        }
    }
}

impl Token {
    /// Whether the token is the identifier `name`.
    pub fn is_ident(&self, name: &str) -> (r: bool)
        ensures
            r == (self.deep_view() == TokenView::Ident(name@)),
    {
        match self {
            Token::Ident(s) => str_eq(s.as_str(), name),
            _ => false,
        }
    }

    /// Whether the token is the punctuation character `c`.
    pub fn is_punct(&self, c: char) -> (r: bool)
        ensures
            r == (self.deep_view() == TokenView::Punct(c)),
    {
        match self {
            Token::Punct(p) => *p == c,
            _ => false,
        }
    }

    /// The source text of the token where it is a literal.
    pub fn literal(&self) -> (r: Option<&String>)
        ensures
            match r {
                Some(text) => self.deep_view() == TokenView::Literal(text@),
                None => !(self.deep_view() is Literal),
            },
    {
        match self {
            Token::Literal(s) => Some(s),
            _ => None,
        }
    }
}

/// The three forms of an attribute: `#[path]`, `#[path(tokens)]`, `#[path = value]`.
#[derive(Debug, Clone, Copy, PartialEq, Eq, Structural)]
pub enum MetaStyle {
    Path,
    List,
    NameValue,
}

/// An attribute on a declaration, a field or a match expression.
#[derive(Debug, PartialEq, Eq)]
pub struct Attribute {
    /// The segments of the attribute's path, outermost first. A path that
    /// is written with a leading `::` begins with an empty segment.
    pub path: Vec<String>,
    pub style: MetaStyle,
    /// For a list, the tokens between the parentheses; for a name and value,
    /// the tokens of the value; otherwise empty.
    pub tokens: Vec<Token>,
}

/// The view of [`Attribute`].
pub ghost struct AttributeView {
    pub path: Seq<Seq<char>>,
    pub style: MetaStyle,
    pub tokens: Seq<TokenView>,
}

impl DeepView for Attribute {
    type V = AttributeView;

    open spec fn deep_view(&self) -> AttributeView {
        AttributeView {
            path: self.path.deep_view(),
            style: self.style,
            tokens: self.tokens.deep_view(),
        }
    }
}

impl Attribute {
    /// Whether the attribute's path is the single segment `name`.
    pub fn is_named(&self, name: &str) -> (r: bool)
        ensures
            r == self.deep_view().is_named(name@),
    {
        self.path.len() == 1 && str_eq(self.path[0].as_str(), name)
    }

    /// Whether the attribute's path begins with the segment `name`.
    pub fn begins_with(&self, name: &str) -> (r: bool)
        ensures
            r == self.deep_view().begins_with(name@),
    {
        self.path.len() >= 1 && str_eq(self.path[0].as_str(), name)
    }
}

impl AttributeView {
    /// Whether the attribute's path is the single segment `name`.
    pub open spec fn is_named(self, name: Seq<char>) -> bool {
        self.path.len() == 1 && self.path[0] == name
    }

    /// Whether the attribute's path begins with the segment `name`.
    pub open spec fn begins_with(self, name: Seq<char>) -> bool {
        self.path.len() >= 1 && self.path[0] == name
    }
}

/// A type as written in a declaration.
#[derive(Debug, PartialEq, Eq)]
pub struct TypeExpr {
    /// The type's source text.
    pub text: String,
    /// The segments of the type where it is a path such as `Vec<T>` or
    /// `a::B`, and `None` for every other kind of type.
    pub path: Option<Vec<PathSegment>>,
}

/// One segment of a path type: a name and what follows it.
#[derive(Debug, PartialEq, Eq)]
pub struct PathSegment {
    pub ident: String,
    pub args: PathArguments,
}

/// What follows the name in a segment of a path type.
#[derive(Debug, PartialEq, Eq)]
pub enum PathArguments {
    /// Nothing, as in `String`.
    Empty,
    /// Arguments in angle brackets, as in `Vec<T>`.
    AngleBracketed(Vec<GenericArg>),
    /// Arguments in parentheses, as in `Fn(A) -> B`; nothing here looks inside them.
    Parenthesized,
}

/// One argument between angle brackets.
#[derive(Debug, PartialEq, Eq)]
pub enum GenericArg {
    /// A type argument.
    Type(TypeExpr),
    /// A lifetime, a constant or a binding, as written.
    Other(String),
}

/// The view of [`TypeExpr`].
pub ghost struct TypeExprView {
    pub text: Seq<char>,
    pub path: Option<Seq<PathSegmentView>>,
}

/// The view of [`PathSegment`].
pub ghost struct PathSegmentView {
    pub ident: Seq<char>,
    pub args: PathArgumentsView,
}

/// The view of [`PathArguments`].
pub ghost enum PathArgumentsView {
    Empty,
    AngleBracketed(Seq<GenericArgView>),
    Parenthesized,
}

/// The view of [`GenericArg`].
pub ghost enum GenericArgView {
    Type(TypeExprView),
    Other(Seq<char>),
}

/// The view of a type, taken level by level.
pub open spec fn type_view(t: TypeExpr) -> TypeExprView
    decreases t,
{
    TypeExprView {
        text: t.text@,
        path: match t.path {
            Some(segments) => Some(
                Seq::new(
                    segments.len() as nat,
                    |i: int|
                        if 0 <= i < segments.len() {
                            segment_view(segments[i])
                        } else {
                            arbitrary()
                        },
                ),
            ),
            None => None,
        },
    }
}

/// The view of one segment of a path type.
pub open spec fn segment_view(s: PathSegment) -> PathSegmentView
    decreases s,
{
    PathSegmentView {
        ident: s.ident@,
        args: match s.args {
            PathArguments::AngleBracketed(args) => PathArgumentsView::AngleBracketed(
                Seq::new(
                    args.len() as nat,
                    |i: int|
                        if 0 <= i < args.len() {
                            argument_view(args[i])
                        } else {
                            arbitrary()
                        },
                ),
            ),
            PathArguments::Empty => PathArgumentsView::Empty,
            PathArguments::Parenthesized => PathArgumentsView::Parenthesized,
        },
    }
}

/// The view of one generic argument.
pub open spec fn argument_view(a: GenericArg) -> GenericArgView
    decreases a,
{
    match a {
        GenericArg::Type(t) => GenericArgView::Type(type_view(t)),
        GenericArg::Other(s) => GenericArgView::Other(s@),
    }
}

impl DeepView for TypeExpr {
    type V = TypeExprView;

    open spec fn deep_view(&self) -> TypeExprView {
        type_view(*self)
    }
}

impl DeepView for PathSegment {
    type V = PathSegmentView;

    open spec fn deep_view(&self) -> PathSegmentView {
        segment_view(*self)
    }
}

impl DeepView for GenericArg {
    type V = GenericArgView;

    open spec fn deep_view(&self) -> GenericArgView {
        argument_view(*self)
    }
}

/// The view of a type holds the views of its segments, in order.
pub proof fn lemma_type_view(t: TypeExpr)
    ensures
        t.deep_view().text == t.text@,
        t.deep_view().path == t.path.deep_view(),
{
    match t.path {
        Some(segments) => {
            assert(t.deep_view().path->0 =~= segments.deep_view());
        },
        None => {},
    }
}

impl DeepView for PathArguments {
    type V = PathArgumentsView;

    open spec fn deep_view(&self) -> PathArgumentsView {
        match self {
            PathArguments::AngleBracketed(args) => PathArgumentsView::AngleBracketed(
                args.deep_view(),
            ),
            PathArguments::Empty => PathArgumentsView::Empty,
            PathArguments::Parenthesized => PathArgumentsView::Parenthesized,
        }
    }
}

/// The view of a segment holds the views of its arguments, in order.
pub proof fn lemma_segment_view(s: PathSegment)
    ensures
        s.deep_view().ident == s.ident@,
        s.deep_view().args == s.args.deep_view(),
{
    match s.args {
        PathArguments::AngleBracketed(args) => {
            assert(s.deep_view().args->AngleBracketed_0 =~= args.deep_view());
        },
        _ => {},
    }
}

/// A field of a declaration.
#[derive(Debug, PartialEq, Eq)]
pub struct FieldDecl {
    /// `None` for a field of a tuple-style record.
    pub name: Option<String>,
    pub ty: TypeExpr,
    pub attrs: Vec<Attribute>,
}

/// The view of [`FieldDecl`].
pub ghost struct FieldDeclView {
    pub name: Option<Seq<char>>,
    pub ty: TypeExprView,
    pub attrs: Seq<AttributeView>,
}

impl DeepView for FieldDecl {
    type V = FieldDeclView;

    open spec fn deep_view(&self) -> FieldDeclView {
        FieldDeclView {
            name: self.name.deep_view(),
            ty: self.ty.deep_view(),
            attrs: self.attrs.deep_view(),
        }
    }
}

/// What a generic parameter stands for.
#[derive(Debug, Clone, Copy, PartialEq, Eq, Structural)]
pub enum ParamKind {
    Type,
    Lifetime,
    Const,
}

/// A generic parameter of a declaration.
#[derive(Debug, PartialEq, Eq)]
pub struct GenericParam {
    pub kind: ParamKind,
    pub name: String,
    /// The bounds written on the parameter, each as source text.
    pub bounds: Vec<String>,
}

/// The view of [`GenericParam`].
pub ghost struct GenericParamView {
    pub kind: ParamKind,
    pub name: Seq<char>,
    pub bounds: Seq<Seq<char>>,
}

impl DeepView for GenericParam {
    type V = GenericParamView;

    open spec fn deep_view(&self) -> GenericParamView {
        GenericParamView {
            kind: self.kind,
            name: self.name@,
            bounds: self.bounds.deep_view(),
        }
    }
}

/// The body of a declaration.
#[derive(Debug, PartialEq, Eq)]
pub enum Data {
    /// A record, with its fields in declaration order.
    Struct(Vec<FieldDecl>),
    /// A sum type.
    Enum,
    /// A union.
    Union,
}

/// The view of [`Data`].
pub ghost enum DataView {
    Struct(Seq<FieldDeclView>),
    Enum,
    Union,
}

impl DeepView for Data {
    type V = DataView;

    open spec fn deep_view(&self) -> DataView {
        match self {
            Data::Struct(fields) => DataView::Struct(fields.deep_view()),
            Data::Enum => DataView::Enum,
            Data::Union => DataView::Union,
        }
    }
}

/// A type declaration as a derive receives it.
#[derive(Debug, PartialEq, Eq)]
pub struct Declaration {
    pub name: String,
    pub attrs: Vec<Attribute>,
    pub generics: Vec<GenericParam>,
    pub data: Data,
}

/// The view of [`Declaration`].
pub ghost struct DeclarationView {
    pub name: Seq<char>,
    pub attrs: Seq<AttributeView>,
    pub generics: Seq<GenericParamView>,
    pub data: DataView,
}

impl DeepView for Declaration {
    type V = DeclarationView;

    open spec fn deep_view(&self) -> DeclarationView {
        DeclarationView {
            name: self.name@,
            attrs: self.attrs.deep_view(),
            generics: self.generics.deep_view(),
            data: self.data.deep_view(),
        }
    }
}

/// The pattern of a match arm, as far as the order of arms depends on it.
#[derive(Debug, PartialEq, Eq)]
pub enum Pattern {
    /// `Path(..)`, with the segments of the path.
    TupleStruct(Vec<String>),
    /// `Path`, with its segments.
    Path(Vec<String>),
    /// A binding, with its name.
    Ident(String),
    /// `_`
    Wild,
    /// Any other pattern.
    Other,
}

/// The view of [`Pattern`].
pub ghost enum PatternView {
    TupleStruct(Seq<Seq<char>>),
    Path(Seq<Seq<char>>),
    Ident(Seq<char>),
    Wild,
    Other,
}

impl DeepView for Pattern {
    type V = PatternView;

    open spec fn deep_view(&self) -> PatternView {
        match self {
            Pattern::TupleStruct(p) => PatternView::TupleStruct(p.deep_view()),
            Pattern::Path(p) => PatternView::Path(p.deep_view()),
            Pattern::Ident(s) => PatternView::Ident(s@),
            Pattern::Wild => PatternView::Wild,
            Pattern::Other => PatternView::Other,
        }
    }
}

/// A match expression: its attributes and the patterns of its arms, in textual order.
#[derive(Debug, PartialEq, Eq)]
pub struct MatchExpr {
    pub attrs: Vec<Attribute>,
    pub arms: Vec<Pattern>,
}

/// The view of [`MatchExpr`].
pub ghost struct MatchExprView {
    pub attrs: Seq<AttributeView>,
    pub arms: Seq<PatternView>,
}

impl DeepView for MatchExpr {
    type V = MatchExprView;

    open spec fn deep_view(&self) -> MatchExprView {
        MatchExprView { attrs: self.attrs.deep_view(), arms: self.arms.deep_view() }
    }
}

/// An item that the `sorted` attribute is applied to.
#[derive(Debug, PartialEq, Eq)]
pub enum Item {
    /// A sum type, with the names of its variants in declaration order.
    Enum(Vec<String>),
    /// A function, with every match expression of its body in the order in
    /// which a walk of the body comes to them: an outer one before those
    /// that are nested in it.
    Fn(Vec<MatchExpr>),
    /// Any other item.
    Other,
}

/// The view of [`Item`].
pub ghost enum ItemView {
    Enum(Seq<Seq<char>>),
    Fn(Seq<MatchExprView>),
    Other,
}

impl DeepView for Item {
    type V = ItemView;

    open spec fn deep_view(&self) -> ItemView {
        match self {
            Item::Enum(v) => ItemView::Enum(v.deep_view()),
            Item::Fn(m) => ItemView::Fn(m.deep_view()),
            Item::Other => ItemView::Other,
        }
    }
}

} // verus!
