//! The debug-formatting generator: from the descriptor of a record and the
//! predicates inferred for it to the formatting implementation, which prints
//! the record's name and then every field in declaration order.

use crate::bounds::{
    infer_bounds, inferred, GeneratedPredicates, GeneratedPredicatesView, ParamBounds,
    ParamBoundsView,
};
use crate::descriptor::{
    extract, extract_result, extraction, ExtractError, FieldDescriptorView, Lexed, TypeDescriptor,
    TypeDescriptorView,
};
use crate::syntax::{Declaration, DeclarationView};
use vstd::prelude::*;

verus! {

/// How one field is printed.
#[derive(Debug, PartialEq, Eq)]
pub struct FieldFormat {
    pub name: String,
    /// The display template that the field's value is put into, a template
    /// of one argument; `None` for the default formatting.
    pub template: Option<String>,
}

/// The view of [`FieldFormat`].
pub ghost struct FieldFormatView {
    pub name: Seq<char>,
    pub template: Option<Seq<char>>,
}

impl DeepView for FieldFormat {
    type V = FieldFormatView;

    open spec fn deep_view(&self) -> FieldFormatView {
        FieldFormatView { name: self.name@, template: self.template.deep_view() }
    }
}

/// The formatting implementation of a record.
#[derive(Debug, PartialEq, Eq)]
pub struct CompanionImplementation {
    /// The name of the record, which is printed first.
    pub target: String,
    /// The generic parameters of the implementation, with their bounds.
    pub params: Vec<ParamBounds>,
    /// The types that the `where` clause gives the formatting capability.
    pub predicates: Vec<String>,
    /// The fields that are printed, in the order in which they are printed.
    pub fields: Vec<FieldFormat>,
}

/// The view of [`CompanionImplementation`].
pub ghost struct CompanionImplementationView {
    pub target: Seq<char>,
    pub params: Seq<ParamBoundsView>,
    pub predicates: Seq<Seq<char>>,
    pub fields: Seq<FieldFormatView>,
}

impl DeepView for CompanionImplementation {
    type V = CompanionImplementationView;

    open spec fn deep_view(&self) -> CompanionImplementationView {
        CompanionImplementationView {
            target: self.target@,
            params: self.params.deep_view(),
            predicates: self.predicates.deep_view(),
            fields: self.fields.deep_view(),
        }
    }
}

/// How a field is printed: under its own name, through its template where it has one.
pub open spec fn format_of(f: FieldDescriptorView) -> FieldFormatView {
    FieldFormatView { name: f.name, template: f.format }
}

/// The formatting implementation of a record under the given predicates:
/// every field of the record, in declaration order.
pub open spec fn formatter_of(
    d: TypeDescriptorView,
    predicates: GeneratedPredicatesView,
) -> CompanionImplementationView {
    CompanionImplementationView {
        target: d.name,
        params: predicates.params,
        predicates: predicates.predicates,
        fields: d.fields.map_values(|f: FieldDescriptorView| format_of(f)),
    }
}

/// What the debug derive makes of a declaration, where `lexed` holds,
/// field by field, what the lexer made of the directives.
pub open spec fn derivation(d: DeclarationView, lexed: Seq<Lexed>) -> Result<
    CompanionImplementationView,
    ExtractError,
> {
    match extraction(d, lexed) {
        Ok(desc) => Ok(formatter_of(desc, inferred(desc))),
        Err(e) => Err(e),
    }
}

/// The view of what [`generate_code`] and [`derive`] return.
pub open spec fn derive_result(r: Result<CompanionImplementation, ExtractError>) -> Result<
    CompanionImplementationView,
    ExtractError,
> {
    match r {
        Ok(code) => Ok(code.deep_view()),
        Err(e) => Err(e),
    }
}

/// The formatting implementation of a record under the given predicates.
pub fn generate_formatter(desc: &TypeDescriptor<'_>, predicates: GeneratedPredicates) -> (r:
    CompanionImplementation)
    ensures
        r.deep_view() == formatter_of(desc.deep_view(), predicates.deep_view()),
{
    let mut fields: Vec<FieldFormat> = Vec::new();
    let mut i: usize = 0;
    while i < desc.fields.len()
        invariant
            i <= desc.fields.len(),
            fields.len() == i,
            forall|j: int|
                0 <= j < i ==> (#[trigger] fields[j]).deep_view() == format_of(
                    desc.fields[j].deep_view(),
                ),
        decreases desc.fields.len() - i,
    {
        let field = &desc.fields[i];
        let template = match &field.format {
            Some(t) => Some(t.clone()),
            None => None,
        };
        fields.push(FieldFormat { name: field.name.clone(), template });
        i += 1;
    }
    proof {
        assert(fields.deep_view() =~= desc.deep_view().fields.map_values(
            |f: FieldDescriptorView| format_of(f),
        ));
    }
    CompanionImplementation {
        target: desc.name.clone(),
        params: predicates.params,
        predicates: predicates.predicates,
        fields,
    }
}

/// The formatting implementation of a declared record, or why the
/// declaration is refused.
pub fn generate_code(input: &Declaration) -> (r: Result<CompanionImplementation, ExtractError>)
    ensures
        exists|lexed: Seq<Lexed>|
            derive_result(r) == #[trigger] derivation(input.deep_view(), lexed),
{
    let extracted = extract(input);
    let ghost lexed = choose|lexed: Seq<Lexed>|
        extract_result(extracted) == #[trigger] extraction(input.deep_view(), lexed);
    let r = match extracted {
        Ok(desc) => {
            let predicates = infer_bounds(&desc);
            Ok(generate_formatter(&desc, predicates))
        },
        Err(e) => Err(e),
    };
    proof {
        assert(derive_result(r) == derivation(input.deep_view(), lexed));
    }
    r
}

/// The debug derive: the formatting implementation of a declared record, or
/// why the declaration is refused.
pub fn derive(input: &Declaration) -> (r: Result<CompanionImplementation, ExtractError>)
    ensures
        exists|lexed: Seq<Lexed>|
            derive_result(r) == #[trigger] derivation(input.deep_view(), lexed),
{
    generate_code(input)
}

/// The fields are printed in declaration order: the implementation lists as
/// many fields as the record has, each at its own position and under its own name.
pub proof fn law_declaration_order(d: TypeDescriptorView, predicates: GeneratedPredicatesView)
    ensures
        formatter_of(d, predicates).fields.len() == d.fields.len(),
        forall|i: int|
            0 <= i < d.fields.len() ==> (#[trigger] formatter_of(d, predicates).fields[i]).name
                == d.fields[i].name,
{
}

} // verus!
