//! The two questions that are put to the Rust lexer: what a string literal
//! denotes, and how an identifier is spelled.
//!
//! Which lexer answers depends on where the code runs: inside a
//! procedural-macro host it is the compiler's, elsewhere the one that comes
//! with `proc_macro2`, and the two need not agree on every text. So nothing
//! is stated of either answer, and what the callers promise holds whatever
//! the answer is.

use vstd::prelude::*;

verus! {

/// Whether a character opens or closes a delimited group.
pub open spec fn is_bracket(c: char) -> bool {
    c == '(' || c == ')' || c == '[' || c == ']' || c == '{' || c == '}'
}

/// Whether no character of `text` is a bracket.
pub open spec fn bracket_free(text: Seq<char>) -> bool {
    forall|i: int| 0 <= i < text.len() ==> !is_bracket(#[trigger] text[i])
}

/// Calls `proc_macro2::Literal::from_str`, `syn::Lit::new` and
/// `syn::LitStr::value`: the value of `text` where the lexer takes it for
/// one string literal, plain or raw, and `None` where it does not. Trusted
/// only to return: nothing is stated of the result.
#[verifier::external_body]
pub(crate) fn parse_string_literal(text: &str) -> Option<String> {
    match <proc_macro2::Literal as std::str::FromStr>::from_str(text) {
        Ok(literal) => match syn::Lit::new(literal) {
            syn::Lit::Str(string) => Some(string.value()),
            _ => None,
        },
        Err(_) => None,
    }
}

/// Calls `syn::ext::IdentExt::parse_any` through
/// `syn::parse::Parser::parse_str`, and then `Ident::to_string`: the
/// spelling of `text` where the lexer takes it for one identifier, keywords
/// included, and `None` where it does not. Trusted only to return: nothing
/// is stated of the result. Text with a bracket is left out, because the
/// parser descends once for each level of nested brackets.
#[verifier::external_body]
pub(crate) fn parse_identifier(text: &str) -> Option<String>
    requires
        bracket_free(text@),
{
    match syn::parse::Parser::parse_str(<syn::Ident as syn::ext::IdentExt>::parse_any, text) {
        Ok(ident) => Some(ident.to_string()),
        Err(_) => None,
    }
}

} // verus!
