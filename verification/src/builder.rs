//! The builder generator: from the descriptor of a record to its companion
//! type, which stores one slot per field and offers one accessor per field,
//! and to the operation that assembles the record from the slots.

use crate::descriptor::{
    extract, extract_result, extraction, ExtractError, FieldDescriptorView, Lexed, TypeDescriptor,
    TypeDescriptorView,
};
use crate::shape::{classification, classify, Shape};
use crate::syntax::{lemma_type_view, Declaration, DeclarationView};
use crate::text::followed_by;
use vstd::prelude::*;
use vstd::string::*;

verus! {

/// What a slot holds before any accessor is called.
#[derive(Debug, Clone, Copy, PartialEq, Eq, Structural)]
pub enum Initial {
    /// No value.
    Absent,
    /// The empty sequence.
    Empty,
}

/// What an accessor does with its argument.
#[derive(Debug, Clone, Copy, PartialEq, Eq, Structural)]
pub enum Action {
    /// Stores the value as present.
    Store,
    /// Appends the element to the sequence in the slot.
    Append,
    /// Puts the given sequence in the place of the one in the slot.
    Replace,
}

/// How the assembly operation hands a slot over to the record.
#[derive(Debug, Clone, Copy, PartialEq, Eq, Structural)]
pub enum Transfer {
    /// The slot must hold a value; the record gets the value itself.
    Unwrap,
    /// The record gets what the slot holds, as it is.
    Through,
}

/// A storage slot of the companion type.
#[derive(Debug, PartialEq, Eq)]
pub struct Slot {
    pub name: String,
    /// The type of the slot, as source text.
    pub storage: String,
    pub initial: Initial,
}

/// The view of [`Slot`].
pub ghost struct SlotView {
    pub name: Seq<char>,
    pub storage: Seq<char>,
    pub initial: Initial,
}

impl DeepView for Slot {
    type V = SlotView;

    open spec fn deep_view(&self) -> SlotView {
        SlotView { name: self.name@, storage: self.storage@, initial: self.initial }
    }
}

/// An accessor of the companion type.
#[derive(Debug, PartialEq, Eq)]
pub struct Accessor {
    pub name: String,
    /// The position of the slot that the accessor writes.
    pub slot: usize,
    /// The type of the accessor's argument, as source text.
    pub parameter: String,
    pub action: Action,
}

/// The view of [`Accessor`].
pub ghost struct AccessorView {
    pub name: Seq<char>,
    pub slot: int,
    pub parameter: Seq<char>,
    pub action: Action,
}

impl DeepView for Accessor {
    type V = AccessorView;

    open spec fn deep_view(&self) -> AccessorView {
        AccessorView {
            name: self.name@,
            slot: self.slot as int,
            parameter: self.parameter@,
            action: self.action,
        }
    }
}

/// The companion type of a record: its slots and accessors, one of each per
/// field, in declaration order.
#[derive(Debug, PartialEq, Eq)]
pub struct CompanionType {
    pub name: String,
    /// The name of the record.
    pub target: String,
    pub slots: Vec<Slot>,
    pub accessors: Vec<Accessor>,
}

/// The view of [`CompanionType`].
pub ghost struct CompanionTypeView {
    pub name: Seq<char>,
    pub target: Seq<char>,
    pub slots: Seq<SlotView>,
    pub accessors: Seq<AccessorView>,
}

impl DeepView for CompanionType {
    type V = CompanionTypeView;

    open spec fn deep_view(&self) -> CompanionTypeView {
        CompanionTypeView {
            name: self.name@,
            target: self.target@,
            slots: self.slots.deep_view(),
            accessors: self.accessors.deep_view(),
        }
    }
}

/// One step of the assembly operation: the field it fills, from the slot at
/// the same position.
#[derive(Debug, PartialEq, Eq)]
pub struct AssemblyStep {
    pub field: String,
    pub transfer: Transfer,
}

/// The view of [`AssemblyStep`].
pub ghost struct AssemblyStepView {
    pub field: Seq<char>,
    pub transfer: Transfer,
}

impl DeepView for AssemblyStep {
    type V = AssemblyStepView;

    open spec fn deep_view(&self) -> AssemblyStepView {
        AssemblyStepView { field: self.field@, transfer: self.transfer }
    }
}

/// The assembly operation (`build`): one step per field, in declaration order.
#[derive(Debug, PartialEq, Eq)]
pub struct AssemblyOperation {
    /// The name of the record.
    pub target: String,
    pub steps: Vec<AssemblyStep>,
}

/// The view of [`AssemblyOperation`].
pub ghost struct AssemblyOperationView {
    pub target: Seq<char>,
    pub steps: Seq<AssemblyStepView>,
}

impl DeepView for AssemblyOperation {
    type V = AssemblyOperationView;

    open spec fn deep_view(&self) -> AssemblyOperationView {
        AssemblyOperationView { target: self.target@, steps: self.steps.deep_view() }
    }
}

/// The shape of a field's declared type.
pub open spec fn shape_of(f: FieldDescriptorView) -> Shape {
    classification(f.declared_type).shape()
}

/// The slot of a field. A bare field is stored in an `Option` of its type
/// and starts absent; an optional field is stored as declared and starts
/// absent; a repeated field is stored as declared and starts empty.
pub open spec fn slot_of(f: FieldDescriptorView) -> SlotView {
    SlotView {
        name: f.name,
        storage: if shape_of(f) == Shape::Bare {
            "std::option::Option<"@ + f.declared_type.text + ">"@
        } else {
            f.declared_type.text
        },
        initial: if shape_of(f) == Shape::Repeated {
            Initial::Empty
        } else {
            Initial::Absent
        },
    }
}

/// The accessor of the field at position `slot`. A bare field gets a setter
/// for a value of its type; an optional field a setter for a value of the
/// wrapped type, whatever directive it carries; a repeated field with an
/// accessor name gets an accessor of that name which appends one element,
/// and one without gets a setter for the whole sequence.
pub open spec fn accessor_of(f: FieldDescriptorView, slot: int) -> AccessorView {
    let c = classification(f.declared_type);
    match c.shape() {
        Shape::Bare => AccessorView {
            name: f.name,
            slot: slot,
            parameter: f.declared_type.text,
            action: Action::Store,
        },
        Shape::Optional => AccessorView {
            name: f.name,
            slot: slot,
            parameter: c.element().text,
            action: Action::Store,
        },
        Shape::Repeated => match f.each {
            Some(name) => AccessorView {
                name: name,
                slot: slot,
                parameter: c.element().text,
                action: Action::Append,
            },
            None => AccessorView {
                name: f.name,
                slot: slot,
                parameter: f.declared_type.text,
                action: Action::Replace,
            },
        },
    }
}

/// The assembly step of a field: a bare field must be set and is unwrapped,
/// any other is handed over as it is.
pub open spec fn step_of(f: FieldDescriptorView) -> AssemblyStepView {
    AssemblyStepView {
        field: f.name,
        transfer: if shape_of(f) == Shape::Bare {
            Transfer::Unwrap
        } else {
            Transfer::Through
        },
    }
}

/// The slots of a record's companion type.
pub open spec fn slots_of(d: TypeDescriptorView) -> Seq<SlotView> {
    d.fields.map_values(|f: FieldDescriptorView| slot_of(f))
}

/// The accessors of a record's companion type.
pub open spec fn accessors_of(d: TypeDescriptorView) -> Seq<AccessorView> {
    Seq::new(d.fields.len(), |i: int| accessor_of(d.fields[i], i))
}

/// The companion type of a record, named after it.
pub open spec fn companion_of(d: TypeDescriptorView) -> CompanionTypeView {
    CompanionTypeView {
        name: d.name + "Builder"@,
        target: d.name,
        slots: slots_of(d),
        accessors: accessors_of(d),
    }
}

/// The assembly operation of a record.
pub open spec fn assembly_of(d: TypeDescriptorView) -> AssemblyOperationView {
    AssemblyOperationView {
        target: d.name,
        steps: d.fields.map_values(|f: FieldDescriptorView| step_of(f)),
    }
}

/// The slots of the companion type, with what each holds at the start.
pub fn generate_struct_impl(desc: &TypeDescriptor<'_>) -> (r: Vec<Slot>)
    ensures
        r.deep_view() == slots_of(desc.deep_view()),
{
    let mut slots: Vec<Slot> = Vec::new();
    let mut i: usize = 0;
    while i < desc.fields.len()
        invariant
            i <= desc.fields.len(),
            slots.len() == i,
            forall|j: int|
                0 <= j < i ==> (#[trigger] slots[j]).deep_view() == slot_of(
                    desc.fields[j].deep_view(),
                ),
        decreases desc.fields.len() - i,
    {
        let field = &desc.fields[i];
        let shape = classify(field.declared_type).shape();
        let storage = match shape {
            Shape::Bare => {
                let mut s = followed_by("std::option::Option<", field.declared_type.text.as_str());
                s.append(">");
                s
            },
            _ => field.declared_type.text.clone(),
        };
        let initial = match shape {
            Shape::Repeated => Initial::Empty,
            _ => Initial::Absent,
        };
        proof {
            lemma_type_view(*field.declared_type);
        }
        slots.push(Slot { name: field.name.clone(), storage, initial });
        i += 1;
    }
    proof {
        assert(slots.deep_view() =~= slots_of(desc.deep_view()));
    }
    slots
}

/// The accessors of the companion type and the assembly operation.
pub fn generate_builder_struct(desc: &TypeDescriptor<'_>) -> (r: (Vec<Accessor>, AssemblyOperation))
    ensures
        r.0.deep_view() == accessors_of(desc.deep_view()),
        r.1.deep_view() == assembly_of(desc.deep_view()),
{
    let mut accessors: Vec<Accessor> = Vec::new();
    let mut steps: Vec<AssemblyStep> = Vec::new();
    let mut i: usize = 0;
    while i < desc.fields.len()
        invariant
            i <= desc.fields.len(),
            accessors.len() == i,
            steps.len() == i,
            forall|j: int|
                0 <= j < i ==> (#[trigger] accessors[j]).deep_view() == accessor_of(
                    desc.fields[j].deep_view(),
                    j,
                ),
            forall|j: int|
                0 <= j < i ==> (#[trigger] steps[j]).deep_view() == step_of(
                    desc.fields[j].deep_view(),
                ),
        decreases desc.fields.len() - i,
    {
        let field = &desc.fields[i];
        let class = classify(field.declared_type);
        let shape = class.shape();
        let element = class.element();
        proof {
            lemma_type_view(*field.declared_type);
            lemma_type_view(*element);
        }
        let accessor = match shape {
            Shape::Bare => Accessor {
                name: field.name.clone(),
                slot: i,
                parameter: field.declared_type.text.clone(),
                action: Action::Store,
            },
            Shape::Optional => Accessor {
                name: field.name.clone(),
                slot: i,
                parameter: element.text.clone(),
                action: Action::Store,
            },
            Shape::Repeated => match &field.each {
                Some(name) => Accessor {
                    name: name.clone(),
                    slot: i,
                    parameter: element.text.clone(),
                    action: Action::Append,
                },
                None => Accessor {
                    name: field.name.clone(),
                    slot: i,
                    parameter: field.declared_type.text.clone(),
                    action: Action::Replace,
                },
            },
        };
        let transfer = match shape {
            Shape::Bare => Transfer::Unwrap,
            _ => Transfer::Through,
        };
        accessors.push(accessor);
        steps.push(AssemblyStep { field: field.name.clone(), transfer });
        i += 1;
    }
    proof {
        assert(accessors.deep_view() =~= accessors_of(desc.deep_view()));
        assert(steps.deep_view() =~= assembly_of(desc.deep_view()).steps);
    }
    (accessors, AssemblyOperation { target: desc.name.clone(), steps })
}

/// The companion type of a record and its assembly operation.
pub fn generate_builder(desc: &TypeDescriptor<'_>) -> (r: (CompanionType, AssemblyOperation))
    ensures
        r.0.deep_view() == companion_of(desc.deep_view()),
        r.1.deep_view() == assembly_of(desc.deep_view()),
{
    let slots = generate_struct_impl(desc);
    let (accessors, assembly) = generate_builder_struct(desc);
    let name = followed_by(desc.name.as_str(), "Builder");
    (CompanionType { name, target: desc.name.clone(), slots, accessors }, assembly)
}

/// What the builder derive makes of a declaration, where `lexed` holds,
/// field by field, what the lexer made of the directives.
pub open spec fn derivation(d: DeclarationView, lexed: Seq<Lexed>) -> Result<
    (CompanionTypeView, AssemblyOperationView),
    ExtractError,
> {
    match extraction(d, lexed) {
        Ok(desc) => Ok((companion_of(desc), assembly_of(desc))),
        Err(e) => Err(e),
    }
}

/// The view of what [`generate_code`] and [`derive`] return.
pub open spec fn derive_result(r: Result<(CompanionType, AssemblyOperation), ExtractError>) -> Result<
    (CompanionTypeView, AssemblyOperationView),
    ExtractError,
> {
    match r {
        Ok(code) => Ok((code.0.deep_view(), code.1.deep_view())),
        Err(e) => Err(e),
    }
}

/// The companion type and assembly operation of a declared record, or why
/// the declaration is refused.
pub fn generate_code(input: &Declaration) -> (r: Result<
    (CompanionType, AssemblyOperation),
    ExtractError,
>)
    ensures
        exists|lexed: Seq<Lexed>|
            derive_result(r) == #[trigger] derivation(input.deep_view(), lexed),
{
    let extracted = extract(input);
    let ghost lexed = choose|lexed: Seq<Lexed>|
        extract_result(extracted) == #[trigger] extraction(input.deep_view(), lexed);
    let r = match extracted {
        Ok(desc) => Ok(generate_builder(&desc)),
        Err(e) => Err(e),
    };
    proof {
        assert(derive_result(r) == derivation(input.deep_view(), lexed));
    }
    r
}

/// The builder derive: the companion type and assembly operation of a
/// declared record, or why the declaration is refused.
pub fn derive(input: &Declaration) -> (r: Result<(CompanionType, AssemblyOperation), ExtractError>)
    ensures
        exists|lexed: Seq<Lexed>|
            derive_result(r) == #[trigger] derivation(input.deep_view(), lexed),
{
    generate_code(input)
}

} // verus!
