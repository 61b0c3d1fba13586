//! What a generated companion type does when it runs: the state of its
//! slots, the effect of an accessor call, and the assembly of the record.
//!
//! A value of a field is of any type `V`; nothing here looks inside one.

use crate::builder::{
    Action, AssemblyOperation, AssemblyOperationView, CompanionType, CompanionTypeView, Initial,
    SlotView, Transfer,
};
use crate::scan::{first_index, is_first, lemma_first_index_absent, lemma_first_index_found, none_of};
use crate::text::followed_by;
use vstd::prelude::*;

verus! {

/// What a slot holds.
#[derive(Debug, PartialEq, Eq)]
pub enum Stored<V> {
    /// No value.
    Absent,
    /// One value.
    Present(V),
    /// A sequence of elements.
    Items(Vec<V>),
}

/// The view of [`Stored`].
pub ghost enum StoredView<V> {
    Absent,
    Present(V),
    Items(Seq<V>),
}

impl<V> View for Stored<V> {
    type V = StoredView<V>;

    open spec fn view(&self) -> StoredView<V> {
        match self {
            Stored::Absent => StoredView::Absent,
            Stored::Present(v) => StoredView::Present(*v),
            Stored::Items(items) => StoredView::Items(items@),
        }
    }
}

/// What is handed to an accessor.
#[derive(Debug, PartialEq, Eq)]
pub enum Argument<V> {
    /// One value or one element.
    One(V),
    /// A whole sequence.
    Many(Vec<V>),
}

/// The view of [`Argument`].
pub ghost enum ArgumentView<V> {
    One(V),
    Many(Seq<V>),
}

impl<V> View for Argument<V> {
    type V = ArgumentView<V>;

    open spec fn view(&self) -> ArgumentView<V> {
        match self {
            Argument::One(v) => ArgumentView::One(*v),
            Argument::Many(items) => ArgumentView::Many(items@),
        }
    }
}

/// A field of the assembled record.
#[derive(Debug, PartialEq, Eq)]
pub enum FieldValue<V> {
    /// A bare field, with its value.
    Value(V),
    /// An optional field.
    Optional(Option<V>),
    /// A repeated field, with its elements in order.
    Repeated(Vec<V>),
}

/// The view of [`FieldValue`].
pub ghost enum FieldValueView<V> {
    Value(V),
    Optional(Option<V>),
    Repeated(Seq<V>),
}

impl<V> View for FieldValue<V> {
    type V = FieldValueView<V>;

    open spec fn view(&self) -> FieldValueView<V> {
        match self {
            FieldValue::Value(v) => FieldValueView::Value(*v),
            FieldValue::Optional(v) => FieldValueView::Optional(*v),
            FieldValue::Repeated(items) => FieldValueView::Repeated(items@),
        }
    }
}

/// The assembly failed: a field that must be set holds no value.
#[derive(Debug, PartialEq, Eq)]
pub struct AssemblyError {
    /// The name of the field.
    pub field: String,
}

impl AssemblyError {
    /// The text of the failure: the field's name and ` must be set`.
    pub fn message(&self) -> (r: String)
        ensures
            r@ == self.field@ + " must be set"@,
    {
        followed_by(self.field.as_str(), " must be set")
    }
}

/// The views of the slots of a state.
pub open spec fn state_view<V>(slots: Seq<Stored<V>>) -> Seq<StoredView<V>> {
    slots.map_values(|s: Stored<V>| s@)
}

/// The views of the fields of a record.
pub open spec fn record_view<V>(fields: Seq<FieldValue<V>>) -> Seq<FieldValueView<V>> {
    fields.map_values(|f: FieldValue<V>| f@)
}

/// What a slot holds at the start.
pub open spec fn initially<V>(initial: Initial) -> StoredView<V> {
    match initial {
        Initial::Absent => StoredView::Absent,
        Initial::Empty => StoredView::Items(Seq::empty()),
    }
}

/// The state of a companion on which no accessor was called.
pub open spec fn initial_state<V>(c: CompanionTypeView) -> Seq<StoredView<V>> {
    c.slots.map_values(|s: SlotView| initially::<V>(s.initial))
}

/// What a slot holds after an accessor wrote to it, and `None` where the
/// argument does not fit the accessor: a setter stores the one value, an
/// appending accessor adds the one element to the sequence in the slot, and
/// a replacing setter puts the given sequence in its place.
pub open spec fn written<V>(action: Action, before: StoredView<V>, arg: ArgumentView<V>) -> Option<
    StoredView<V>,
> {
    match (action, arg) {
        (Action::Store, ArgumentView::One(v)) => Some(StoredView::Present(v)),
        (Action::Append, ArgumentView::One(v)) => match before {
            StoredView::Items(items) => Some(StoredView::Items(items.push(v))),
            _ => None,
        },
        (Action::Replace, ArgumentView::Many(items)) => Some(StoredView::Items(items)),
        _ => None,
    }
}

/// The state after a call of the accessor at position `accessor`, and `None`
/// where there is no such accessor, it has no slot, or the argument does not fit.
pub open spec fn after_call<V>(
    c: CompanionTypeView,
    state: Seq<StoredView<V>>,
    accessor: int,
    arg: ArgumentView<V>,
) -> Option<Seq<StoredView<V>>> {
    if 0 <= accessor < c.accessors.len() && 0 <= c.accessors[accessor].slot < state.len() {
        let slot = c.accessors[accessor].slot;
        match written(c.accessors[accessor].action, state[slot], arg) {
            Some(stored) => Some(state.update(slot, stored)),
            None => None,
        }
    } else {
        None
    }
}

/// What the slot at position `i` holds; a state without such a slot holds nothing there.
pub open spec fn stored_at<V>(state: Seq<StoredView<V>>, i: int) -> StoredView<V> {
    if 0 <= i < state.len() {
        state[i]
    } else {
        StoredView::Absent
    }
}

/// Each step of the operation beside what its slot holds.
pub open spec fn steps_with_slots<V>(op: AssemblyOperationView, state: Seq<StoredView<V>>) -> Seq<
    (Transfer, StoredView<V>),
> {
    Seq::new(op.steps.len(), |i: int| (op.steps[i].transfer, stored_at(state, i)))
}

/// A step that asks for a value which its slot does not hold.
pub open spec fn unset<V>() -> spec_fn((Transfer, StoredView<V>)) -> bool {
    |x: (Transfer, StoredView<V>)| x.0 == Transfer::Unwrap && !(x.1 is Present)
}

/// What a step hands to the record.
pub open spec fn handed_over<V>(transfer: Transfer, stored: StoredView<V>) -> FieldValueView<V> {
    match stored {
        StoredView::Present(v) => match transfer {
            Transfer::Unwrap => FieldValueView::Value(v),
            Transfer::Through => FieldValueView::Optional(Some(v)),
        },
        StoredView::Absent => FieldValueView::Optional(None),
        StoredView::Items(items) => FieldValueView::Repeated(items),
    }
}

/// The outcome of the assembly operation on a state: the name of the first
/// field, in declaration order, that must be set and is not; or, where there
/// is none, the record, field by field.
pub open spec fn assembled<V>(op: AssemblyOperationView, state: Seq<StoredView<V>>) -> Result<
    Seq<FieldValueView<V>>,
    Seq<char>,
> {
    match first_index(steps_with_slots(op, state), unset()) {
        Some(i) => Err(op.steps[i].field),
        None => Ok(
            Seq::new(
                op.steps.len(),
                |i: int| handed_over(op.steps[i].transfer, stored_at(state, i)),
            ),
        ),
    }
}

/// The view of a field that holds references to its values.
pub open spec fn borrowed_view<V>(f: FieldValue<&V>) -> FieldValueView<V> {
    match f {
        FieldValue::Value(v) => FieldValueView::Value(*v),
        FieldValue::Optional(v) => FieldValueView::Optional(
            match v {
                Some(r) => Some(*r),
                None => None,
            },
        ),
        FieldValue::Repeated(items) => FieldValueView::Repeated(items@.map_values(|r: &V| *r)),
    }
}

/// The view of what [`Companion::build`] returns.
pub open spec fn borrowed_result<V>(r: Result<Vec<FieldValue<&V>>, AssemblyError>) -> Result<
    Seq<FieldValueView<V>>,
    Seq<char>,
> {
    match r {
        Ok(fields) => Ok(fields@.map_values(|f: FieldValue<&V>| borrowed_view(f))),
        Err(e) => Err(e.field@),
    }
}

/// A reference to each of the items, in order.
pub fn borrow_each<V>(items: &Vec<V>) -> (r: Vec<&V>)
    ensures
        r@.map_values(|x: &V| *x) == items@,
{
    let mut out: Vec<&V> = Vec::new();
    let mut i: usize = 0;
    while i < items.len()
        invariant
            i <= items.len(),
            out.len() == i,
            forall|j: int| 0 <= j < i ==> *(#[trigger] out[j]) == items[j],
        decreases items.len() - i,
    {
        out.push(&items[i]);
        i += 1;
    }
    proof {
        assert(out@.map_values(|x: &V| *x) =~= items@);
    }
    out
}

/// The view of what [`Companion::into_record`] returns.
pub open spec fn build_result<V>(r: Result<Vec<FieldValue<V>>, AssemblyError>) -> Result<
    Seq<FieldValueView<V>>,
    Seq<char>,
> {
    match r {
        Ok(fields) => Ok(record_view(fields@)),
        Err(e) => Err(e.field@),
    }
}

/// The state of a companion type at run time: what each slot holds.
#[derive(Debug, PartialEq, Eq)]
pub struct Companion<V> {
    pub slots: Vec<Stored<V>>,
}

impl<V> View for Companion<V> {
    type V = Seq<StoredView<V>>;

    open spec fn view(&self) -> Seq<StoredView<V>> {
        state_view(self.slots@)
    }
}

impl<V> Companion<V> {
    /// The companion on which no accessor was called yet.
    pub fn new(c: &CompanionType) -> (r: Companion<V>)
        ensures
            r@ == initial_state::<V>(c.deep_view()),
    {
        let mut slots: Vec<Stored<V>> = Vec::new();
        let mut i: usize = 0;
        while i < c.slots.len()
            invariant
                i <= c.slots.len(),
                slots.len() == i,
                forall|j: int|
                    0 <= j < i ==> (#[trigger] slots[j])@ == initially::<V>(c.slots[j].initial),
            decreases c.slots.len() - i,
        {
            match c.slots[i].initial {
                Initial::Absent => slots.push(Stored::Absent),
                Initial::Empty => slots.push(Stored::Items(Vec::new())),
            }
            i += 1;
        }
        let r = Companion { slots };
        proof {
            assert(r@ =~= initial_state::<V>(c.deep_view()));
        }
        r
    }

    /// Calls the accessor at position `accessor` of `c` with `arg`. Returns
    /// whether there is such a call; where there is none, nothing changes.
    pub fn call(&mut self, c: &CompanionType, accessor: usize, arg: Argument<V>) -> (done: bool)
        ensures
            match after_call(c.deep_view(), old(self)@, accessor as int, arg@) {
                Some(state) => done && final(self)@ == state,
                None => !done && final(self)@ == old(self)@,
            },
    {
        if accessor >= c.accessors.len() {
            return false;
        }
        let slot = c.accessors[accessor].slot;
        if slot >= self.slots.len() {
            return false;
        }
        let ghost before = self@;
        match (c.accessors[accessor].action, arg) {
            (Action::Store, Argument::One(v)) => {
                self.slots[slot] = Stored::Present(v);
                proof {
                    assert(self@ =~= before.update(slot as int, StoredView::Present(v)));
                }
                true
            },
            (Action::Append, Argument::One(v)) => {
                let mut taken = Stored::Absent;
                core::mem::swap(&mut self.slots[slot], &mut taken);
                match taken {
                    Stored::Items(mut items) => {
                        let ghost old_items = items@;
                        items.push(v);
                        self.slots[slot] = Stored::Items(items);
                        proof {
                            assert(self@ =~= before.update(
                                slot as int,
                                StoredView::Items(old_items.push(v)),
                            ));
                        }
                        true
                    },
                    other => {
                        self.slots[slot] = other;
                        proof {
                            assert(self@ =~= before);
                        }
                        false
                    },
                }
            },
            (Action::Replace, Argument::Many(items)) => {
                let ghost new_items = items@;
                self.slots[slot] = Stored::Items(items);
                proof {
                    assert(self@ =~= before.update(slot as int, StoredView::Items(new_items)));
                }
                true
            },
            _ => false,
        }
    }

    /// Assembles the record as it stands: fails with the first field that
    /// must be set and is not, and otherwise gives every field what its slot
    /// holds. The slots are left as they were, so that the same assembly
    /// can be made again, and gives the same.
    pub fn build<'a>(&'a self, op: &AssemblyOperation) -> (r: Result<
        Vec<FieldValue<&'a V>>,
        AssemblyError,
    >)
        ensures
            borrowed_result(r) == assembled(op.deep_view(), self@),
    {
        let ghost state = self@;
        let ghost pairs = steps_with_slots(op.deep_view(), state);
        let mut i: usize = 0;
        while i < op.steps.len()
            invariant
                i <= op.steps.len(),
                state == self@,
                pairs == steps_with_slots(op.deep_view(), state),
                forall|j: int| 0 <= j < i ==> !unset::<V>()(#[trigger] pairs[j]),
            decreases op.steps.len() - i,
        {
            let holds = i < self.slots.len() && match &self.slots[i] {
                Stored::Present(_) => true,
                _ => false,
            };
            match op.steps[i].transfer {
                Transfer::Unwrap => {
                    if !holds {
                        proof {
                            assert(unset::<V>()(pairs[i as int]));
                            assert(is_first(pairs, unset::<V>(), i as int));
                            lemma_first_index_found(pairs, unset::<V>(), i as int);
                            assert(op.deep_view().steps[i as int].field == op.steps[i as int].field@);
                        }
                        return Err(AssemblyError { field: op.steps[i].field.clone() });
                    }
                },
                Transfer::Through => {},
            }
            i += 1;
        }
        proof {
            assert(none_of(pairs, unset::<V>()));
            lemma_first_index_absent(pairs, unset::<V>());
        }
        let mut fields: Vec<FieldValue<&'a V>> = Vec::new();
        let mut k: usize = 0;
        while k < op.steps.len()
            invariant
                k <= op.steps.len(),
                state == self@,
                fields.len() == k,
                forall|j: int|
                    0 <= j < k ==> borrowed_view(#[trigger] fields[j]) == handed_over(
                        op.steps[j].transfer,
                        stored_at(state, j),
                    ),
            decreases op.steps.len() - k,
        {
            let field = if k < self.slots.len() {
                match &self.slots[k] {
                    Stored::Present(v) => match op.steps[k].transfer {
                        Transfer::Unwrap => FieldValue::Value(v),
                        Transfer::Through => FieldValue::Optional(Some(v)),
                    },
                    Stored::Absent => FieldValue::Optional(None),
                    Stored::Items(items) => FieldValue::Repeated(borrow_each(items)),
                }
            } else {
                FieldValue::Optional(None)
            };
            fields.push(field);
            k += 1;
        }
        proof {
            assert(fields@.map_values(|f: FieldValue<&V>| borrowed_view(f)) =~= Seq::new(
                op.deep_view().steps.len(),
                |i: int| handed_over(op.deep_view().steps[i].transfer, stored_at(state, i)),
            ));
        }
        Ok(fields)
    }

    /// Assembles the record and gives the slots up to it: fails with the
    /// first field that must be set and is not, and otherwise hands every
    /// slot over to its field. It gives what [`Companion::build`] gives,
    /// with the values themselves in the place of references to them.
    pub fn into_record(self, op: &AssemblyOperation) -> (r: Result<
        Vec<FieldValue<V>>,
        AssemblyError,
    >)
        ensures
            build_result(r) == assembled(op.deep_view(), self@),
    {
        let ghost state = self@;
        let ghost pairs = steps_with_slots(op.deep_view(), state);
        let mut slots = self.slots;
        let mut i: usize = 0;
        while i < op.steps.len()
            invariant
                i <= op.steps.len(),
                state == state_view(slots@),
                state == self@,
                pairs == steps_with_slots(op.deep_view(), state),
                forall|j: int| 0 <= j < i ==> !unset::<V>()(#[trigger] pairs[j]),
            decreases op.steps.len() - i,
        {
            let holds = i < slots.len() && match &slots[i] {
                Stored::Present(_) => true,
                _ => false,
            };
            match op.steps[i].transfer {
                Transfer::Unwrap => {
                    if !holds {
                        proof {
                            assert(unset::<V>()(pairs[i as int]));
                            assert(is_first(pairs, unset::<V>(), i as int));
                            lemma_first_index_found(pairs, unset::<V>(), i as int);
                            assert(op.deep_view().steps[i as int].field == op.steps[i as int].field@);
                        }
                        return Err(AssemblyError { field: op.steps[i].field.clone() });
                    }
                },
                Transfer::Through => {},
            }
            i += 1;
        }
        proof {
            assert(none_of(pairs, unset::<V>()));
            lemma_first_index_absent(pairs, unset::<V>());
        }
        let mut fields: Vec<FieldValue<V>> = Vec::new();
        let mut k: usize = 0;
        while k < op.steps.len()
            invariant
                k <= op.steps.len(),
                slots.len() == state.len(),
                fields.len() == k,
                forall|j: int| k <= j < slots.len() ==> (#[trigger] slots[j])@ == state[j],
                forall|j: int|
                    0 <= j < k ==> (#[trigger] fields[j])@ == handed_over(
                        op.steps[j].transfer,
                        stored_at(state, j),
                    ),
            decreases op.steps.len() - k,
        {
            let mut taken = Stored::Absent;
            if k < slots.len() {
                core::mem::swap(&mut slots[k], &mut taken);
            }
            let field = match taken {
                Stored::Present(v) => match op.steps[k].transfer {
                    Transfer::Unwrap => FieldValue::Value(v),
                    Transfer::Through => FieldValue::Optional(Some(v)),
                },
                Stored::Absent => FieldValue::Optional(None),
                Stored::Items(items) => FieldValue::Repeated(items),
            };
            fields.push(field);
            k += 1;
        }
        proof {
            assert(record_view(fields@) =~= Seq::new(
                op.deep_view().steps.len(),
                |i: int| handed_over(op.deep_view().steps[i].transfer, stored_at(state, i)),
            ));
        }
        Ok(fields)
    }
}

} // verus!
