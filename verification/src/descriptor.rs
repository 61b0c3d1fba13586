//! From a declaration to its descriptor: the record's name, its generic
//! parameters, its fields in declaration order and the directives that the
//! attributes carry, read once and checked.

use crate::directive::{
    bound_override, format_override, get_escape_hatch_bound, get_format_str, get_singular_name,
    optional_text_result, singular_name, DirectiveSyntaxError,
};
use crate::scan::{
    first_index, is_first, lemma_first_index, lemma_first_index_absent, lemma_first_index_found,
    none_of,
};
use crate::syntax::{
    Data, DataView, Declaration, DeclarationView, FieldDecl, FieldDeclView, GenericParam,
    GenericParamView, TypeExpr, TypeExprView,
};
use vstd::prelude::*;

verus! {

/// A declaration of the wrong kind.
#[derive(Debug, Clone, Copy, PartialEq, Eq, Structural)]
pub enum StructuralError {
    /// A record with a field that has no name.
    TupleRecord,
    /// A sum type or a union where a record is needed.
    UnsupportedKind,
}

/// Why no descriptor could be extracted.
#[derive(Debug, Clone, Copy, PartialEq, Eq, Structural)]
pub enum ExtractError {
    /// The declaration is of the wrong kind.
    Declaration(StructuralError),
    /// A fault in a directive of the field at position `field`.
    Directive { field: usize, error: DirectiveSyntaxError },
}

/// A field of a record, with its directives.
#[derive(Debug, PartialEq, Eq)]
pub struct FieldDescriptor<'a> {
    pub name: &'a String,
    pub declared_type: &'a TypeExpr,
    /// The name of the per-element accessor that the field asks for.
    pub each: Option<String>,
    /// The display template that the field asks for.
    pub format: Option<String>,
}

/// The view of [`FieldDescriptor`].
pub ghost struct FieldDescriptorView {
    pub name: Seq<char>,
    pub declared_type: TypeExprView,
    pub each: Option<Seq<char>>,
    pub format: Option<Seq<char>>,
}

impl<'a> DeepView for FieldDescriptor<'a> {
    type V = FieldDescriptorView;

    open spec fn deep_view(&self) -> FieldDescriptorView {
        FieldDescriptorView {
            name: self.name@,
            declared_type: self.declared_type.deep_view(),
            each: self.each.deep_view(),
            format: self.format.deep_view(),
        }
    }
}

/// A record type, ready for the generators.
#[derive(Debug, PartialEq, Eq)]
pub struct TypeDescriptor<'a> {
    pub name: &'a String,
    pub generics: &'a Vec<GenericParam>,
    /// The fields, in declaration order.
    pub fields: Vec<FieldDescriptor<'a>>,
    /// The type path that the declaration bounds explicitly, in segments.
    pub bound: Option<Vec<String>>,
}

/// The view of [`TypeDescriptor`].
pub ghost struct TypeDescriptorView {
    pub name: Seq<char>,
    pub generics: Seq<GenericParamView>,
    pub fields: Seq<FieldDescriptorView>,
    pub bound: Option<Seq<Seq<char>>>,
}

impl<'a> DeepView for TypeDescriptor<'a> {
    type V = TypeDescriptorView;

    open spec fn deep_view(&self) -> TypeDescriptorView {
        TypeDescriptorView {
            name: self.name@,
            generics: self.generics.deep_view(),
            fields: self.fields.deep_view(),
            bound: self.bound.deep_view(),
        }
    }
}

/// Whether a field has no name.
pub open spec fn unnamed() -> spec_fn(FieldDeclView) -> bool {
    |f: FieldDeclView| f.name is None
}

/// The fields of a declaration that is a record with named fields only.
pub open spec fn record_fields(data: DataView) -> Result<Seq<FieldDeclView>, StructuralError> {
    match data {
        DataView::Struct(fields) => if first_index(fields, unnamed()) is Some {
            Err(StructuralError::TupleRecord)
        } else {
            Ok(fields)
        },
        DataView::Enum => Err(StructuralError::UnsupportedKind),
        DataView::Union => Err(StructuralError::UnsupportedKind),
    }
}

/// What the lexer made of the directives of one field: the spelling of the
/// accessor name, and the value of the display template.
pub ghost struct Lexed {
    pub spelling: Option<Seq<char>>,
    pub template: Option<Seq<char>>,
}

/// The first fault among a field's directives: the accessor name is read
/// before the display template.
pub open spec fn directive_fault(f: FieldDeclView, lexed: Lexed) -> Option<DirectiveSyntaxError> {
    match singular_name(f.attrs, lexed.spelling) {
        Err(e) => Some(e),
        Ok(_) => match format_override(f.attrs, lexed.template) {
            Err(e) => Some(e),
            Ok(_) => None,
        },
    }
}

/// Each field beside what the lexer made of its directives.
pub open spec fn fields_lexed(fields: Seq<FieldDeclView>, lexed: Seq<Lexed>) -> Seq<
    (FieldDeclView, Lexed),
> {
    Seq::new(fields.len(), |i: int| (fields[i], lexed[i]))
}

/// Whether a field carries a faulty directive.
pub open spec fn faulty() -> spec_fn((FieldDeclView, Lexed)) -> bool {
    |x: (FieldDeclView, Lexed)| directive_fault(x.0, x.1) is Some
}

/// The descriptor of a named field whose directives are sound.
pub open spec fn described(f: FieldDeclView, lexed: Lexed) -> FieldDescriptorView {
    FieldDescriptorView {
        name: f.name->0,
        declared_type: f.ty,
        each: singular_name(f.attrs, lexed.spelling)->Ok_0,
        format: format_override(f.attrs, lexed.template)->Ok_0,
    }
}

/// The descriptor of a declaration, where `lexed` holds, field by field,
/// what the lexer made of the directives. A declaration of the wrong kind
/// is refused first; then the first field, in declaration order, that
/// carries a faulty directive.
pub open spec fn extraction(d: DeclarationView, lexed: Seq<Lexed>) -> Result<
    TypeDescriptorView,
    ExtractError,
> {
    match record_fields(d.data) {
        Err(e) => Err(ExtractError::Declaration(e)),
        Ok(fields) => match first_index(fields_lexed(fields, lexed), faulty()) {
            Some(i) => Err(
                ExtractError::Directive {
                    field: i as usize,
                    error: directive_fault(fields[i], lexed[i])->0,
                },
            ),
            None => Ok(
                TypeDescriptorView {
                    name: d.name,
                    generics: d.generics,
                    fields: Seq::new(fields.len(), |i: int| described(fields[i], lexed[i])),
                    bound: bound_override(d.attrs),
                },
            ),
        },
    }
}

/// The view of what [`get_data_struct`] returns.
pub open spec fn fields_result(r: Result<&Vec<FieldDecl>, StructuralError>) -> Result<
    Seq<FieldDeclView>,
    StructuralError,
> {
    match r {
        Ok(fields) => Ok(fields.deep_view()),
        Err(e) => Err(e),
    }
}

/// The view of what [`extract`] returns.
pub open spec fn extract_result(r: Result<TypeDescriptor<'_>, ExtractError>) -> Result<
    TypeDescriptorView,
    ExtractError,
> {
    match r {
        Ok(d) => Ok(d.deep_view()),
        Err(e) => Err(e),
    }
}

/// The fields of a declaration that is a record with named fields only.
pub fn get_data_struct(data: &Data) -> (r: Result<&Vec<FieldDecl>, StructuralError>)
    ensures
        fields_result(r) == record_fields(data.deep_view()),
{
    match data {
        Data::Struct(fields) => {
            let mut i: usize = 0;
            while i < fields.len()
                invariant
                    i <= fields.len(),
                    data.deep_view() == DataView::Struct(fields.deep_view()),
                    forall|j: int| 0 <= j < i ==> (#[trigger] fields.deep_view()[j]).name is Some,
                decreases fields.len() - i,
            {
                if fields[i].name.is_none() {
                    proof {
                        assert(is_first(fields.deep_view(), unnamed(), i as int));
                        lemma_first_index_found(fields.deep_view(), unnamed(), i as int);
                    }
                    return Err(StructuralError::TupleRecord);
                }
                i += 1;
            }
            proof {
                assert(none_of(fields.deep_view(), unnamed()));
                lemma_first_index_absent(fields.deep_view(), unnamed());
            }
            Ok(fields)
        },
        Data::Enum => Err(StructuralError::UnsupportedKind),
        Data::Union => Err(StructuralError::UnsupportedKind),
    }
}

/// The descriptor of a declaration. The lexer is asked about the
/// directives of the fields, in declaration order and up to the first
/// fault; the result is what [`extraction`] gives for its answers.
pub fn extract(decl: &Declaration) -> (r: Result<TypeDescriptor<'_>, ExtractError>)
    ensures
        exists|lexed: Seq<Lexed>|
            extract_result(r) == #[trigger] extraction(decl.deep_view(), lexed),
{
    let fields = match get_data_struct(&decl.data) {
        Ok(fields) => fields,
        Err(e) => {
            proof {
                assert(extract_result(Err(ExtractError::Declaration(e))) == extraction(
                    decl.deep_view(),
                    Seq::<Lexed>::empty(),
                ));
            }
            return Err(ExtractError::Declaration(e));
        },
    };
    let ghost all = fields.deep_view();
    let ghost mut lexed: Seq<Lexed> = Seq::empty();
    proof {
        lemma_first_index(all, unnamed());
    }
    let mut out: Vec<FieldDescriptor<'_>> = Vec::new();
    let mut i: usize = 0;
    while i < fields.len()
        invariant
            i <= fields.len(),
            all == fields.deep_view(),
            record_fields(decl.data.deep_view()) == Ok::<Seq<FieldDeclView>, StructuralError>(all),
            forall|j: int| 0 <= j < all.len() ==> (#[trigger] all[j]).name is Some,
            lexed.len() == i,
            forall|j: int| 0 <= j < i ==> directive_fault(all[j], #[trigger] lexed[j]) is None,
            out.len() == i,
            forall|j: int| 0 <= j < i ==> (#[trigger] out[j]).deep_view() == described(
                all[j],
                lexed[j],
            ),
        decreases fields.len() - i,
    {
        let field = &fields[i];
        let ghost attrs = field.attrs.deep_view();
        let named = get_singular_name(&field.attrs);
        let ghost spelling = choose|spelling: Option<Seq<char>>|
            optional_text_result(named) == #[trigger] singular_name(attrs, spelling);
        let each = match named {
            Ok(each) => each,
            Err(error) => {
                proof {
                    let here = Lexed { spelling, template: None };
                    lemma_fault_found(decl.deep_view(), all, lexed, here, error);
                }
                return Err(ExtractError::Directive { field: i, error });
            },
        };
        let formatted = get_format_str(&field.attrs);
        let ghost template = choose|template: Option<Seq<char>>|
            optional_text_result(formatted) == #[trigger] format_override(attrs, template);
        let format = match formatted {
            Ok(format) => format,
            Err(error) => {
                proof {
                    let here = Lexed { spelling, template };
                    lemma_fault_found(decl.deep_view(), all, lexed, here, error);
                }
                return Err(ExtractError::Directive { field: i, error });
            },
        };
        match &field.name {
            Some(name) => {
                out.push(FieldDescriptor { name, declared_type: &field.ty, each, format });
            },
            None => {
                proof {
                    assert(all[i as int].name is Some);
                }
            },
        }
        proof {
            lexed = lexed.push(Lexed { spelling, template });
        }
        i += 1;
    }
    let r = Ok(
        TypeDescriptor {
            name: &decl.name,
            generics: &decl.generics,
            fields: out,
            bound: get_escape_hatch_bound(&decl.attrs),
        },
    );
    proof {
        let pairs = fields_lexed(all, lexed);
        assert(none_of(pairs, faulty()));
        lemma_first_index_absent(pairs, faulty());
        assert(out.deep_view() =~= Seq::new(all.len(), |j: int| described(all[j], lexed[j])));
        assert(extract_result(r) == extraction(decl.deep_view(), lexed));
    }
    r
}

/// Where the fields before position `seen.len()` are sound and the field
/// at that position has the fault `error`, the extraction fails with it.
proof fn lemma_fault_found(
    d: DeclarationView,
    all: Seq<FieldDeclView>,
    seen: Seq<Lexed>,
    here: Lexed,
    error: DirectiveSyntaxError,
)
    requires
        record_fields(d.data) == Ok::<Seq<FieldDeclView>, StructuralError>(all),
        seen.len() < all.len(),
        all.len() <= usize::MAX,
        forall|j: int| 0 <= j < seen.len() ==> directive_fault(all[j], #[trigger] seen[j]) is None,
        directive_fault(all[seen.len() as int], here) == Some(error),
    ensures
        extraction(d, seen.push(here)) == Err::<TypeDescriptorView, ExtractError>(
            ExtractError::Directive { field: seen.len() as usize, error },
        ),
{
    let lexed = seen.push(here);
    let i = seen.len() as int;
    let pairs = fields_lexed(all, lexed);
    assert(faulty()(pairs[i]));
    assert forall|j: int| 0 <= j < i implies !faulty()(#[trigger] pairs[j]) by {
        assert(lexed[j] == seen[j]);
    }
    assert(is_first(pairs, faulty(), i));
    lemma_first_index_found(pairs, faulty(), i);
}

} // verus!
