//! The directives that attributes carry: the name of a per-element
//! accessor (`#[builder(each = "name")]`), a display template
//! (`#[debug = "template"]`) and an explicit bound (`#[debug(bound = "A::B")]`).

use crate::lexical::{bracket_free, is_bracket, parse_identifier, parse_string_literal};
use crate::scan::{
    first_index, is_first, lemma_first_index_absent, lemma_first_index_found, none_of,
};
use crate::syntax::{Attribute, AttributeView, MetaStyle, Token, TokenView};
use crate::text::{
    join_path, lemma_split_then_join, split_on_separator, split_path, str_eq, strip_quotes,
    trim_quotes,
};
use vstd::prelude::*;
use vstd::string::*;

verus! {

/// What is wrong with a directive.
#[derive(Debug, Clone, Copy, PartialEq, Eq, Structural)]
pub enum DirectiveSyntaxError {
    /// The directive does not begin with the keyword `each`.
    ExpectedEach,
    /// No `=` follows the keyword.
    ExpectedAssign,
    /// What follows the `=` is not a string literal that holds an identifier.
    ExpectedName,
    /// Something follows the name.
    UnexpectedToken,
    /// A field carries more than one display template.
    RepeatedFormat,
    /// A display template is not a string literal.
    ExpectedFormatString,
}

impl DirectiveSyntaxError {
    /// The text of the diagnostic.
    pub open spec fn text(self) -> Seq<char> {
        match self {
            DirectiveSyntaxError::ExpectedEach => "expected `each`"@,
            DirectiveSyntaxError::ExpectedAssign => "expected `=`"@,
            DirectiveSyntaxError::ExpectedName => "expected a string literal that names an identifier"@,
            DirectiveSyntaxError::UnexpectedToken => "unexpected token"@,
            DirectiveSyntaxError::RepeatedFormat => "debug attribute can only be applied once"@,
            DirectiveSyntaxError::ExpectedFormatString => "rhs of debug should be a string literal"@,
        }
    }

    /// The text of the diagnostic.
    pub fn message(&self) -> (r: String)
        ensures
            r@ == self.text(),
    {
        match self {
            DirectiveSyntaxError::ExpectedEach => String::from_str("expected `each`"),
            DirectiveSyntaxError::ExpectedAssign => String::from_str("expected `=`"),
            DirectiveSyntaxError::ExpectedName => String::from_str(
                "expected a string literal that names an identifier",
            ),
            DirectiveSyntaxError::UnexpectedToken => String::from_str("unexpected token"),
            DirectiveSyntaxError::RepeatedFormat => String::from_str(
                "debug attribute can only be applied once",
            ),
            DirectiveSyntaxError::ExpectedFormatString => String::from_str(
                "rhs of debug should be a string literal",
            ),
        }
    }
}

/// The literal of `each = <literal>`: the tokens are the keyword, the `=`,
/// one literal and nothing more, and each fault is named in that order.
pub open spec fn each_literal(tokens: Seq<TokenView>) -> Result<Seq<char>, DirectiveSyntaxError> {
    if tokens.len() < 1 || tokens[0] != TokenView::Ident("each"@) {
        Err(DirectiveSyntaxError::ExpectedEach)
    } else if tokens.len() < 2 || tokens[1] != TokenView::Punct('=') {
        Err(DirectiveSyntaxError::ExpectedAssign)
    } else if tokens.len() < 3 || !(tokens[2] is Literal) {
        Err(DirectiveSyntaxError::ExpectedName)
    } else if tokens.len() > 3 {
        Err(DirectiveSyntaxError::UnexpectedToken)
    } else {
        Ok(tokens[2]->Literal_0)
    }
}

/// What stands between the quotes of a plain string literal.
pub open spec fn quoted(text: Seq<char>) -> Option<Seq<char>> {
    if text.len() >= 2 && text[0] == '"' && text.last() == '"' {
        Some(text.subrange(1, text.len() - 1))
    } else {
        None
    }
}

/// `name` where the lexer spells it back letter for letter, and otherwise the fault.
pub open spec fn confirmed_name(name: Seq<char>, spelling: Option<Seq<char>>) -> Result<
    Seq<char>,
    DirectiveSyntaxError,
> {
    if spelling == Some(name) {
        Ok(name)
    } else {
        Err(DirectiveSyntaxError::ExpectedName)
    }
}

/// The accessor name that `each = "name"` gives, where `spelling` is what
/// the lexer makes of the name: the name is refused where it holds a
/// bracket, and otherwise taken where the lexer spells it back.
pub open spec fn each_directive(tokens: Seq<TokenView>, spelling: Option<Seq<char>>) -> Result<
    Seq<char>,
    DirectiveSyntaxError,
> {
    match each_literal(tokens) {
        Err(e) => Err(e),
        Ok(text) => match quoted(text) {
            None => Err(DirectiveSyntaxError::ExpectedName),
            Some(name) => if bracket_free(name) {
                confirmed_name(name, spelling)
            } else {
                Err(DirectiveSyntaxError::ExpectedName)
            },
        },
    }
}

/// The view of a result that holds text.
pub open spec fn text_result(r: Result<String, DirectiveSyntaxError>) -> Result<
    Seq<char>,
    DirectiveSyntaxError,
> {
    match r {
        Ok(s) => Ok(s@),
        Err(e) => Err(e),
    }
}

/// The view of a result that may hold text.
pub open spec fn optional_text_result(r: Result<Option<String>, DirectiveSyntaxError>) -> Result<
    Option<Seq<char>>,
    DirectiveSyntaxError,
> {
    match r {
        Ok(s) => Ok(s.deep_view()),
        Err(e) => Err(e),
    }
}

/// The literal of `each = <literal>`, as written.
pub fn read_each_literal(tokens: &Vec<Token>) -> (r: Result<&String, DirectiveSyntaxError>)
    ensures
        match r {
            Ok(text) => each_literal(tokens.deep_view()) == Ok::<Seq<char>, DirectiveSyntaxError>(
                text@,
            ),
            Err(e) => each_literal(tokens.deep_view()) == Err::<Seq<char>, DirectiveSyntaxError>(e),
        },
{
    if tokens.len() < 1 || !tokens[0].is_ident("each") {
        return Err(DirectiveSyntaxError::ExpectedEach);
    }
    if tokens.len() < 2 || !tokens[1].is_punct('=') {
        return Err(DirectiveSyntaxError::ExpectedAssign);
    }
    if tokens.len() < 3 {
        return Err(DirectiveSyntaxError::ExpectedName);
    }
    match tokens[2].literal() {
        None => Err(DirectiveSyntaxError::ExpectedName),
        Some(text) => {
            if tokens.len() > 3 {
                Err(DirectiveSyntaxError::UnexpectedToken)
            } else {
                Ok(text)
            }
        },
    }
}

/// What stands between the quotes of `text`, where it begins and ends with one.
pub fn unquote(text: &str) -> (r: Option<String>)
    ensures
        r.deep_view() == quoted(text@),
{
    let n = text.unicode_len();
    if n >= 2 && text.get_char(0) == '"' && text.get_char(n - 1) == '"' {
        Some(String::from_str(text.substring_char(1, n - 1)))
    } else {
        None
    }
}

/// Accepts `name` where `spelling`, what the lexer made of it, is the same text.
pub fn confirm_name(name: String, spelling: Option<String>) -> (r: Result<
    String,
    DirectiveSyntaxError,
>)
    ensures
        text_result(r) == confirmed_name(name@, spelling.deep_view()),
{
    match spelling {
        Some(s) => {
            if str_eq(s.as_str(), name.as_str()) {
                Ok(name)
            } else {
                Err(DirectiveSyntaxError::ExpectedName)
            }
        },
        None => Err(DirectiveSyntaxError::ExpectedName),
    }
}

/// The directive `each = "name"`.
#[derive(Debug, PartialEq, Eq)]
pub struct Each {
    pub name: String,
}

impl Each {
    /// Reads the directive from the tokens of an attribute's argument. The
    /// lexer is asked once, about the name between the quotes, and only
    /// where the tokens are `each`, `=` and one quoted literal without a
    /// bracket; the result is what [`each_directive`] gives for its answer.
    pub fn parse(tokens: &Vec<Token>) -> (r: Result<Each, DirectiveSyntaxError>)
        ensures
            exists|spelling: Option<Seq<char>>|
                each_result(r) == #[trigger] each_directive(tokens.deep_view(), spelling),
    {
        let ghost nothing: Option<Seq<char>> = None;
        let text = match read_each_literal(tokens) {
            Ok(text) => text,
            Err(e) => {
                proof {
                    assert(each_result(Err(e)) == each_directive(tokens.deep_view(), nothing));
                }
                return Err(e);
            },
        };
        let name = match unquote(text.as_str()) {
            Some(name) => name,
            None => {
                proof {
                    assert(each_result(Err(DirectiveSyntaxError::ExpectedName)) == each_directive(
                        tokens.deep_view(),
                        nothing,
                    ));
                }
                return Err(DirectiveSyntaxError::ExpectedName);
            },
        };
        if !has_no_bracket(name.as_str()) {
            proof {
                assert(each_result(Err(DirectiveSyntaxError::ExpectedName)) == each_directive(
                    tokens.deep_view(),
                    nothing,
                ));
            }
            return Err(DirectiveSyntaxError::ExpectedName);
        }
        let spelling = parse_identifier(name.as_str());
        let ghost answer = spelling.deep_view();
        let r = match confirm_name(name, spelling) {
            Ok(name) => Ok(Each { name }),
            Err(e) => Err(e),
        };
        proof {
            assert(each_result(r) == each_directive(tokens.deep_view(), answer));
        }
        r
    }
}

/// The view of what [`Each::parse`] returns.
pub open spec fn each_result(r: Result<Each, DirectiveSyntaxError>) -> Result<
    Seq<char>,
    DirectiveSyntaxError,
> {
    match r {
        Ok(each) => Ok(each.name@),
        Err(e) => Err(e),
    }
}

/// Whether no character of `text` is a bracket.
pub fn has_no_bracket(text: &str) -> (r: bool)
    ensures
        r == bracket_free(text@),
{
    let n = text.unicode_len();
    let mut i: usize = 0;
    while i < n
        invariant
            i <= n,
            n == text@.len(),
            forall|j: int| 0 <= j < i ==> !is_bracket(#[trigger] text@[j]),
        decreases n - i,
    {
        let c = text.get_char(i);
        if c == '(' || c == ')' || c == '[' || c == ']' || c == '{' || c == '}' {
            return false;
        }
        i += 1;
    }
    true
}

/// Whether an attribute is a `builder` list, the form that carries `each`.
pub open spec fn is_builder_list(a: AttributeView) -> bool {
    a.style == MetaStyle::List && a.is_named("builder"@)
}

/// The predicate form of [`is_builder_list`].
pub open spec fn builder_lists() -> spec_fn(AttributeView) -> bool {
    |a: AttributeView| is_builder_list(a)
}

/// The accessor name that a field's attributes ask for: that of the first
/// `builder` list among them, or none where there is no such attribute.
/// `spelling` is what the lexer makes of the name in that list.
pub open spec fn singular_name(attrs: Seq<AttributeView>, spelling: Option<Seq<char>>) -> Result<
    Option<Seq<char>>,
    DirectiveSyntaxError,
> {
    match first_index(attrs, builder_lists()) {
        None => Ok(None),
        Some(i) => match each_directive(attrs[i].tokens, spelling) {
            Ok(name) => Ok(Some(name)),
            Err(e) => Err(e),
        },
    }
}

/// The accessor name that a field's attributes ask for. The lexer is asked
/// at most once, about the name in the first `builder` list; the result is
/// what [`singular_name`] gives for its answer.
pub fn get_singular_name(attrs: &Vec<Attribute>) -> (r: Result<
    Option<String>,
    DirectiveSyntaxError,
>)
    ensures
        exists|spelling: Option<Seq<char>>|
            optional_text_result(r) == #[trigger] singular_name(attrs.deep_view(), spelling),
{
    let mut i: usize = 0;
    while i < attrs.len()
        invariant
            i <= attrs.len(),
            forall|j: int| 0 <= j < i ==> !is_builder_list(#[trigger] attrs.deep_view()[j]),
        decreases attrs.len() - i,
    {
        let attr = &attrs[i];
        if attr.is_named("builder") && attr.style == MetaStyle::List {
            proof {
                assert(is_first(attrs.deep_view(), builder_lists(), i as int));
                lemma_first_index_found(attrs.deep_view(), builder_lists(), i as int);
            }
            let parsed = Each::parse(&attr.tokens);
            let ghost spelling = choose|spelling: Option<Seq<char>>|
                each_result(parsed) == #[trigger] each_directive(attr.tokens.deep_view(), spelling);
            let r = match parsed {
                Ok(each) => Ok(Some(each.name)),
                Err(e) => Err(e),
            };
            proof {
                assert(optional_text_result(r) == singular_name(attrs.deep_view(), spelling));
            }
            return r;
        }
        i += 1;
    }
    proof {
        assert(none_of(attrs.deep_view(), builder_lists()));
        lemma_first_index_absent(attrs.deep_view(), builder_lists());
        let nothing: Option<Seq<char>> = None;
        assert(optional_text_result(Ok(None)) == singular_name(attrs.deep_view(), nothing));
    }
    Ok(None)
}

/// Whether an attribute is `debug = value`, the form that carries a display template.
pub open spec fn is_format_attr(a: AttributeView) -> bool {
    a.style == MetaStyle::NameValue && a.is_named("debug"@)
}

/// The predicate form of [`is_format_attr`].
pub open spec fn format_attrs() -> spec_fn(AttributeView) -> bool {
    |a: AttributeView| is_format_attr(a)
}

/// The literal that is the whole of `tokens`, as written.
pub open spec fn sole_literal(tokens: Seq<TokenView>) -> Option<Seq<char>> {
    if tokens.len() == 1 && tokens[0] is Literal {
        Some(tokens[0]->Literal_0)
    } else {
        None
    }
}

/// The template that the value of a `debug = value` attribute denotes: none
/// unless the value is one literal, and then `value`, what the lexer makes
/// of that literal.
pub open spec fn template_of(tokens: Seq<TokenView>, value: Option<Seq<char>>) -> Option<
    Seq<char>,
> {
    match sole_literal(tokens) {
        Some(_) => value,
        None => None,
    }
}

/// The template of a field, from what its first `debug = value` attribute
/// denotes and whether another such attribute follows it.
pub open spec fn format_choice(template: Option<Seq<char>>, repeated: bool) -> Result<
    Option<Seq<char>>,
    DirectiveSyntaxError,
> {
    match template {
        None => Err(DirectiveSyntaxError::ExpectedFormatString),
        Some(t) => if repeated {
            Err(DirectiveSyntaxError::RepeatedFormat)
        } else {
            Ok(Some(t))
        },
    }
}

/// Whether a `debug = value` attribute stands after position `i`.
pub open spec fn format_repeated(attrs: Seq<AttributeView>, i: int) -> bool {
    exists|j: int| i < j < attrs.len() && is_format_attr(#[trigger] attrs[j])
}

/// The display template that a field's attributes give it: none without a
/// `debug = value` attribute; a fault where the value of the first is not
/// one literal, or not one that the lexer takes for a string literal, or
/// where a second such attribute follows. `value` is what the lexer makes
/// of the literal of the first.
pub open spec fn format_override(attrs: Seq<AttributeView>, value: Option<Seq<char>>) -> Result<
    Option<Seq<char>>,
    DirectiveSyntaxError,
> {
    match first_index(attrs, format_attrs()) {
        None => Ok(None),
        Some(i) => format_choice(template_of(attrs[i].tokens, value), format_repeated(attrs, i)),
    }
}

/// The literal that is the whole of `tokens`, as written.
pub fn read_sole_literal(tokens: &Vec<Token>) -> (r: Option<&String>)
    ensures
        match r {
            Some(text) => sole_literal(tokens.deep_view()) == Some(text@),
            None => sole_literal(tokens.deep_view()) is None,
        },
{
    if tokens.len() == 1 {
        tokens[0].literal()
    } else {
        None
    }
}

/// Decides a field's template from what its first `debug = value` attribute
/// denotes and whether another one follows.
pub fn choose_format(template: Option<String>, repeated: bool) -> (r: Result<
    Option<String>,
    DirectiveSyntaxError,
>)
    ensures
        optional_text_result(r) == format_choice(template.deep_view(), repeated),
{
    match template {
        None => Err(DirectiveSyntaxError::ExpectedFormatString),
        Some(t) => {
            if repeated {
                Err(DirectiveSyntaxError::RepeatedFormat)
            } else {
                Ok(Some(t))
            }
        },
    }
}

/// The display template that a field's attributes give it. The lexer is
/// asked at most once, about the literal of the first `debug = value`
/// attribute; the result is what [`format_override`] gives for its answer.
pub fn get_format_str(attrs: &Vec<Attribute>) -> (r: Result<Option<String>, DirectiveSyntaxError>)
    ensures
        exists|value: Option<Seq<char>>|
            optional_text_result(r) == #[trigger] format_override(attrs.deep_view(), value),
{
    let mut first: Option<usize> = None;
    let mut repeated = false;
    let mut i: usize = 0;
    while i < attrs.len()
        invariant
            i <= attrs.len(),
            match first {
                None => !repeated && forall|j: int|
                    0 <= j < i ==> !is_format_attr(#[trigger] attrs.deep_view()[j]),
                Some(k) => {
                    &&& k < i
                    &&& is_first(attrs.deep_view(), format_attrs(), k as int)
                    &&& repeated == exists|j: int|
                        k < j < i && is_format_attr(#[trigger] attrs.deep_view()[j])
                },
            },
        decreases attrs.len() - i,
    {
        let attr = &attrs[i];
        let ghost seen = attrs.deep_view()[i as int];
        if attr.is_named("debug") && attr.style == MetaStyle::NameValue {
            match first {
                None => {
                    first = Some(i);
                    proof {
                        assert(format_attrs()(seen));
                    }
                },
                Some(_) => {
                    repeated = true;
                    proof {
                        assert(is_format_attr(seen));
                    }
                },
            }
        } else {
            proof {
                assert(!is_format_attr(seen));
            }
        }
        i += 1;
    }
    match first {
        None => {
            proof {
                assert(none_of(attrs.deep_view(), format_attrs()));
                lemma_first_index_absent(attrs.deep_view(), format_attrs());
                let nothing: Option<Seq<char>> = None;
                assert(optional_text_result(Ok(None)) == format_override(
                    attrs.deep_view(),
                    nothing,
                ));
            }
            Ok(None)
        },
        Some(k) => {
            proof {
                lemma_first_index_found(attrs.deep_view(), format_attrs(), k as int);
            }
            let value = match read_sole_literal(&attrs[k].tokens) {
                Some(text) => parse_string_literal(text.as_str()),
                None => None,
            };
            let ghost answer = value.deep_view();
            let r = choose_format(value, repeated);
            proof {
                assert(optional_text_result(r) == format_override(attrs.deep_view(), answer));
            }
            r
        },
    }
}

/// The literal of `bound = <literal>` in a `debug` list, as written. Only
/// the first three tokens of the list are read.
pub open spec fn bound_literal(a: AttributeView) -> Option<Seq<char>> {
    if a.style == MetaStyle::List && a.begins_with("debug"@) && a.tokens.len() >= 3 && a.tokens[0]
        == TokenView::Ident("bound"@) && a.tokens[1] == TokenView::Punct('=')
        && a.tokens[2] is Literal {
        Some(a.tokens[2]->Literal_0)
    } else {
        None
    }
}

/// The attributes that carry `bound = <literal>`.
pub open spec fn bound_attrs() -> spec_fn(AttributeView) -> bool {
    |a: AttributeView| bound_literal(a) is Some
}

/// The type path that a declaration's attributes bound explicitly: the
/// segments of the first `bound = "A::B"`, its quotes removed, or none.
pub open spec fn bound_override(attrs: Seq<AttributeView>) -> Option<Seq<Seq<char>>> {
    match first_index(attrs, bound_attrs()) {
        None => None,
        Some(i) => Some(split_path(trim_quotes(bound_literal(attrs[i])->0))),
    }
}

/// The literal of `bound = <literal>` in a `debug` list, as written.
pub fn read_bound_literal(attr: &Attribute) -> (r: Option<&String>)
    ensures
        match r {
            Some(text) => bound_literal(attr.deep_view()) == Some(text@),
            None => bound_literal(attr.deep_view()) is None,
        },
{
    if attr.style == MetaStyle::List && attr.begins_with("debug") && attr.tokens.len() >= 3
        && attr.tokens[0].is_ident("bound") && attr.tokens[1].is_punct('=') {
        attr.tokens[2].literal()
    } else {
        None
    }
}

/// The type path that a declaration's attributes bound explicitly.
pub fn get_escape_hatch_bound(attrs: &Vec<Attribute>) -> (r: Option<Vec<String>>)
    ensures
        r.deep_view() == bound_override(attrs.deep_view()),
{
    let mut i: usize = 0;
    while i < attrs.len()
        invariant
            i <= attrs.len(),
            forall|j: int| 0 <= j < i ==> bound_literal(#[trigger] attrs.deep_view()[j]) is None,
        decreases attrs.len() - i,
    {
        match read_bound_literal(&attrs[i]) {
            Some(text) => {
                proof {
                    assert(is_first(attrs.deep_view(), bound_attrs(), i as int));
                    lemma_first_index_found(attrs.deep_view(), bound_attrs(), i as int);
                }
                let path = strip_quotes(text.as_str());
                return Some(split_on_separator(path.as_str()));
            },
            None => {},
        }
        i += 1;
    }
    proof {
        assert(none_of(attrs.deep_view(), bound_attrs()));
        lemma_first_index_absent(attrs.deep_view(), bound_attrs());
    }
    None
}

/// The segments of an explicit bound, joined again, are the path as it is
/// written between the quotes.
pub proof fn law_bound_as_written(attrs: Seq<AttributeView>)
    ensures
        match first_index(attrs, bound_attrs()) {
            Some(i) => bound_override(attrs) matches Some(path) && path.len() > 0 && join_path(path)
                == trim_quotes(bound_literal(attrs[i])->0),
            None => bound_override(attrs) is None,
        },
{
    if let Some(i) = first_index(attrs, bound_attrs()) {
        lemma_split_then_join(trim_quotes(bound_literal(attrs[i])->0));
    }
}

/// Whatever the lexer makes of the name: a fault of the tokens is reported
/// as it is, and otherwise the result is either the text between the quotes
/// or the fault of the name.
pub proof fn law_each_whatever_the_lexer(tokens: Seq<TokenView>, spelling: Option<Seq<char>>)
    ensures
        each_literal(tokens) is Err ==> each_directive(tokens, spelling) == Err::<
            Seq<char>,
            DirectiveSyntaxError,
        >(each_literal(tokens)->Err_0),
        each_literal(tokens) is Ok && each_directive(tokens, spelling) is Ok ==> quoted(
            each_literal(tokens)->Ok_0,
        ) == Some(each_directive(tokens, spelling)->Ok_0),
        each_literal(tokens) is Ok && each_directive(tokens, spelling) is Err ==> each_directive(
            tokens,
            spelling,
        )->Err_0 == DirectiveSyntaxError::ExpectedName,
        each_literal(tokens) is Ok && (quoted(each_literal(tokens)->Ok_0) is None || !bracket_free(
            quoted(each_literal(tokens)->Ok_0)->0,
        )) ==> each_directive(tokens, spelling) == Err::<Seq<char>, DirectiveSyntaxError>(
            DirectiveSyntaxError::ExpectedName,
        ),
{
}

/// Whatever the lexer makes of the template: there is none exactly where
/// no `debug = value` attribute stands; a value that is not one literal is
/// a fault; a template that is given is the lexer's answer, with no second
/// attribute after the first; and a repetition is reported only where a
/// second one follows.
pub proof fn law_format_whatever_the_lexer(attrs: Seq<AttributeView>, value: Option<Seq<char>>)
    ensures
        format_override(attrs, value) == Ok::<Option<Seq<char>>, DirectiveSyntaxError>(None)
            <==> first_index(attrs, format_attrs()) is None,
        first_index(attrs, format_attrs()) is Some && sole_literal(
            attrs[first_index(attrs, format_attrs())->0].tokens,
        ) is None ==> format_override(attrs, value) == Err::<
            Option<Seq<char>>,
            DirectiveSyntaxError,
        >(DirectiveSyntaxError::ExpectedFormatString),
        format_override(attrs, value) is Ok && format_override(attrs, value)->Ok_0 is Some ==> {
            &&& format_override(attrs, value)->Ok_0 == value
            &&& !format_repeated(attrs, first_index(attrs, format_attrs())->0)
        },
        format_override(attrs, value) == Err::<Option<Seq<char>>, DirectiveSyntaxError>(
            DirectiveSyntaxError::RepeatedFormat,
        ) ==> format_repeated(attrs, first_index(attrs, format_attrs())->0),
{
}

} // verus!
