//! Runs of accessor calls on a generated companion type, and what holds of
//! every run: which slots end up set, what a repeated field accumulates, and
//! when the assembly succeeds.

use crate::builder::{
    accessor_of, assembly_of, companion_of, shape_of, slot_of, step_of, Action, CompanionTypeView,
};
use crate::companion::{
    after_call, assembled, handed_over, initial_state, initially, steps_with_slots, stored_at,
    unset, ArgumentView, FieldValueView, StoredView,
};
use crate::descriptor::TypeDescriptorView;
use crate::scan::{
    first_index, is_first, lemma_first_index, lemma_first_index_absent, lemma_first_index_found,
    none_of,
};
use crate::shape::Shape;
use vstd::prelude::*;

verus! {

/// One call: the position of the accessor and what it is handed.
pub ghost struct Call<V> {
    pub accessor: int,
    pub arg: ArgumentView<V>,
}

/// Whether an argument is of the kind that an accessor takes.
pub open spec fn fits<V>(action: Action, arg: ArgumentView<V>) -> bool {
    match action {
        Action::Store => arg is One,
        Action::Append => arg is One,
        Action::Replace => arg is Many,
    }
}

/// The state after one call; a call that cannot be made changes nothing.
pub open spec fn step<V>(c: CompanionTypeView, state: Seq<StoredView<V>>, call: Call<V>) -> Seq<
    StoredView<V>,
> {
    match after_call(c, state, call.accessor, call.arg) {
        Some(next) => next,
        None => state,
    }
}

/// The state after the calls, made in order on a fresh companion.
pub open spec fn run<V>(c: CompanionTypeView, calls: Seq<Call<V>>) -> Seq<StoredView<V>>
    decreases calls.len(),
{
    if calls.len() == 0 {
        initial_state(c)
    } else {
        step(c, run(c, calls.drop_last()), calls.last())
    }
}

/// Whether one of the calls is a call of the accessor at position `i` with
/// an argument of its kind.
pub open spec fn was_set<V>(c: CompanionTypeView, calls: Seq<Call<V>>, i: int) -> bool {
    exists|k: int|
        0 <= k < calls.len() && (#[trigger] calls[k]).accessor == i && fits(
            c.accessors[i].action,
            calls[k].arg,
        )
}

/// What the accessor at position `i` was handed, call by call.
pub open spec fn arguments_for<V>(c: CompanionTypeView, calls: Seq<Call<V>>, i: int) -> Seq<
    ArgumentView<V>,
>
    decreases calls.len(),
{
    if calls.len() == 0 {
        Seq::empty()
    } else {
        let before = arguments_for(c, calls.drop_last(), i);
        if calls.last().accessor == i && fits(c.accessors[i].action, calls.last().arg) {
            before.push(calls.last().arg)
        } else {
            before
        }
    }
}

/// The elements among arguments that hold one each.
pub open spec fn elements<V>(args: Seq<ArgumentView<V>>) -> Seq<V> {
    args.map_values(|a: ArgumentView<V>| a->One_0)
}

/// What a slot holds after its accessor was handed `args`, one call each:
/// a setter leaves the last value, an appending accessor every element in
/// call order, a replacing setter the last sequence.
pub open spec fn outcome<V>(action: Action, args: Seq<ArgumentView<V>>) -> StoredView<V> {
    match action {
        Action::Store => if args.len() == 0 {
            StoredView::Absent
        } else {
            StoredView::Present(args.last()->One_0)
        },
        Action::Append => StoredView::Items(elements(args)),
        Action::Replace => if args.len() == 0 {
            StoredView::Items(Seq::empty())
        } else {
            StoredView::Items(args.last()->Many_0)
        },
    }
}

/// A field was set exactly where its accessor was handed something.
pub proof fn lemma_was_set<V>(c: CompanionTypeView, calls: Seq<Call<V>>, i: int)
    ensures
        was_set(c, calls, i) <==> arguments_for(c, calls, i).len() > 0,
    decreases calls.len(),
{
    if calls.len() > 0 {
        let shorter = calls.drop_last();
        lemma_was_set(c, shorter, i);
        let last = calls.len() - 1;
        if was_set(c, calls, i) {
            let k = choose|k: int|
                0 <= k < calls.len() && (#[trigger] calls[k]).accessor == i && fits(
                    c.accessors[i].action,
                    calls[k].arg,
                );
            if k < last {
                assert(shorter[k] == calls[k]);
            }
        }
        if was_set(c, shorter, i) {
            let k = choose|k: int|
                0 <= k < shorter.len() && (#[trigger] shorter[k]).accessor == i && fits(
                    c.accessors[i].action,
                    shorter[k].arg,
                );
            assert(calls[k] == shorter[k]);
        }
        if calls.last().accessor == i && fits(c.accessors[i].action, calls.last().arg) {
            assert(calls[last] == calls.last());
        }
    }
}

/// After any run on the companion of a record, every slot holds the outcome
/// of the calls of its own accessor, whatever was called in between.
pub proof fn lemma_run<V>(d: TypeDescriptorView, calls: Seq<Call<V>>)
    ensures
        run(companion_of(d), calls).len() == d.fields.len(),
        forall|i: int|
            0 <= i < d.fields.len() ==> #[trigger] run(companion_of(d), calls)[i] == outcome(
                accessor_of(d.fields[i], i).action,
                arguments_for(companion_of(d), calls, i),
            ),
    decreases calls.len(),
{
    let c = companion_of(d);
    let n = d.fields.len() as int;
    if calls.len() == 0 {
        assert forall|i: int| 0 <= i < n implies #[trigger] run(c, calls)[i] == outcome(
            accessor_of(d.fields[i], i).action,
            arguments_for(c, calls, i),
        ) by {
            assert(run(c, calls)[i] == initially::<V>(slot_of(d.fields[i]).initial));
            assert(elements(Seq::<ArgumentView<V>>::empty()) =~= Seq::<V>::empty());
        }
    } else {
        let shorter = calls.drop_last();
        let call = calls.last();
        lemma_run(d, shorter);
        let before = run(c, shorter);
        assert forall|i: int| 0 <= i < n implies #[trigger] run(c, calls)[i] == outcome(
            accessor_of(d.fields[i], i).action,
            arguments_for(c, calls, i),
        ) by {
            let action = accessor_of(d.fields[i], i).action;
            let args = arguments_for(c, shorter, i);
            assert(before[i] == outcome(action, args));
            if 0 <= call.accessor < n {
                let a = call.accessor;
                assert(c.accessors[a] == accessor_of(d.fields[a], a));
                assert(c.accessors[a].slot == a);
                assert(before[a] == outcome(c.accessors[a].action, arguments_for(c, shorter, a)));
                if a == i && fits(action, call.arg) {
                    assert(elements(args.push(call.arg)) =~= elements(args).push(call.arg->One_0));
                }
            }
        }
    }
}

/// The field at position `i` is bare and was never set, and every bare
/// field before it was set.
pub open spec fn first_unset_bare<V>(d: TypeDescriptorView, calls: Seq<Call<V>>, i: int) -> bool {
    &&& 0 <= i < d.fields.len()
    &&& shape_of(d.fields[i]) == Shape::Bare
    &&& !was_set(companion_of(d), calls, i)
    &&& forall|j: int|
        0 <= j < i && shape_of(#[trigger] d.fields[j]) == Shape::Bare ==> was_set(
            companion_of(d),
            calls,
            j,
        )
}

/// What a field that is not bare is in the record where it was never set:
/// absent where it is optional, empty where it is repeated.
pub open spec fn left_out<V>(shape: Shape) -> FieldValueView<V> {
    match shape {
        Shape::Repeated => FieldValueView::Repeated(Seq::empty()),
        _ => FieldValueView::Optional(None),
    }
}

/// The outcome of the assembly after a run.
pub open spec fn built<V>(d: TypeDescriptorView, calls: Seq<Call<V>>) -> Result<
    Seq<FieldValueView<V>>,
    Seq<char>,
> {
    assembled(assembly_of(d), run(companion_of(d), calls))
}

/// Where every field of a record is bare, the assembly fails exactly where
/// some field was never set, and the failure names the first such field in
/// declaration order.
pub proof fn law_bare_record<V>(d: TypeDescriptorView, calls: Seq<Call<V>>)
    requires
        forall|i: int| 0 <= i < d.fields.len() ==> shape_of(#[trigger] d.fields[i]) == Shape::Bare,
    ensures
        built(d, calls) is Err <==> exists|i: int|
            0 <= i < d.fields.len() && !#[trigger] was_set(companion_of(d), calls, i),
        forall|i: int|
            0 <= i < d.fields.len() && !was_set(companion_of(d), calls, i) && (forall|j: int|
                0 <= j < i ==> #[trigger] was_set(companion_of(d), calls, j)) ==> built(d, calls)
                == Err::<Seq<FieldValueView<V>>, Seq<char>>((#[trigger] d.fields[i]).name),
{
    law_assembly(d, calls);
    assert forall|i: int|
        0 <= i < d.fields.len() && !was_set(companion_of(d), calls, i) && (forall|j: int|
            0 <= j < i ==> #[trigger] was_set(companion_of(d), calls, j)) implies built(d, calls)
        == Err::<Seq<FieldValueView<V>>, Seq<char>>((#[trigger] d.fields[i]).name) by {
        assert(first_unset_bare(d, calls, i));
    }
    if built(d, calls) is Err {
        let i = choose|i: int|
            0 <= i < d.fields.len() && shape_of(#[trigger] d.fields[i]) == Shape::Bare && !was_set(
                companion_of(d),
                calls,
                i,
            );
        assert(!was_set(companion_of(d), calls, i));
    }
    if exists|i: int| 0 <= i < d.fields.len() && !#[trigger] was_set(companion_of(d), calls, i) {
        let i = choose|i: int|
            0 <= i < d.fields.len() && !#[trigger] was_set(companion_of(d), calls, i);
        assert(shape_of(d.fields[i]) == Shape::Bare);
    }
}

/// The assembly fails exactly where some bare field was never set, and then
/// names the first such field in declaration order. A field that is not
/// bare never makes it fail; one that was never set reaches the record
/// absent, where it is optional, and empty, where it is repeated.
pub proof fn law_assembly<V>(d: TypeDescriptorView, calls: Seq<Call<V>>)
    ensures
        built(d, calls) is Err <==> exists|i: int|
            0 <= i < d.fields.len() && shape_of(#[trigger] d.fields[i]) == Shape::Bare && !was_set(
                companion_of(d),
                calls,
                i,
            ),
        forall|i: int| #[trigger]
            first_unset_bare(d, calls, i) ==> built(d, calls) == Err::<
                Seq<FieldValueView<V>>,
                Seq<char>,
            >(d.fields[i].name),
        built(d, calls) is Ok ==> built(d, calls)->Ok_0.len() == d.fields.len(),
        forall|i: int|
            0 <= i < d.fields.len() && built(d, calls) is Ok && shape_of(#[trigger] d.fields[i])
                != Shape::Bare && !was_set(companion_of(d), calls, i) ==> built(d, calls)->Ok_0[i]
                == left_out::<V>(shape_of(d.fields[i])),
{
    let c = companion_of(d);
    let op = assembly_of(d);
    let state = run(c, calls);
    let pairs = steps_with_slots(op, state);
    let n = d.fields.len() as int;
    lemma_run(d, calls);
    assert forall|i: int| 0 <= i < n implies (unset::<V>()(#[trigger] pairs[i]) <==> (shape_of(
        d.fields[i],
    ) == Shape::Bare && !was_set(c, calls, i))) by {
        lemma_was_set(c, calls, i);
        assert(op.steps[i] == step_of(d.fields[i]));
        assert(c.accessors[i] == accessor_of(d.fields[i], i));
        assert(state[i] == outcome(c.accessors[i].action, arguments_for(c, calls, i)));
    }
    lemma_first_index(pairs, unset::<V>());
    assert forall|i: int| #[trigger] first_unset_bare(d, calls, i) implies built(d, calls) == Err::<
        Seq<FieldValueView<V>>,
        Seq<char>,
    >(d.fields[i].name) by {
        assert(unset::<V>()(pairs[i]));
        assert forall|j: int| 0 <= j < i implies !unset::<V>()(#[trigger] pairs[j]) by {
            if shape_of(d.fields[j]) == Shape::Bare {
                assert(was_set(c, calls, j));
            }
        }
        assert(is_first(pairs, unset::<V>(), i));
        lemma_first_index_found(pairs, unset::<V>(), i);
        assert(op.steps[i] == step_of(d.fields[i]));
    }
    match first_index(pairs, unset::<V>()) {
        Some(m) => {
            assert(unset::<V>()(pairs[m]));
            assert(shape_of(d.fields[m]) == Shape::Bare && !was_set(c, calls, m));
        },
        None => {
            assert forall|i: int|
                0 <= i < n && shape_of(#[trigger] d.fields[i]) == Shape::Bare implies was_set(
                c,
                calls,
                i,
            ) by {
                assert(!unset::<V>()(pairs[i]));
            }
            let record = built(d, calls)->Ok_0;
            assert forall|i: int|
                0 <= i < n && shape_of(#[trigger] d.fields[i]) != Shape::Bare && !was_set(
                    c,
                    calls,
                    i,
                ) implies record[i] == left_out::<V>(shape_of(d.fields[i])) by {
                lemma_was_set(c, calls, i);
                assert(op.steps[i] == step_of(d.fields[i]));
                assert(c.accessors[i] == accessor_of(d.fields[i], i));
                assert(state[i] == outcome(c.accessors[i].action, arguments_for(c, calls, i)));
                assert(arguments_for(c, calls, i) =~= Seq::<ArgumentView<V>>::empty());
                assert(elements(Seq::<ArgumentView<V>>::empty()) =~= Seq::<V>::empty());
                assert(record[i] == handed_over(op.steps[i].transfer, stored_at(state, i)));
            }
        },
    }
}

/// What a field of the record is after its accessor was called once with `arg`.
pub open spec fn set_to<V>(shape: Shape, arg: ArgumentView<V>) -> FieldValueView<V> {
    match arg {
        ArgumentView::One(v) => match shape {
            Shape::Bare => FieldValueView::Value(v),
            Shape::Optional => FieldValueView::Optional(Some(v)),
            Shape::Repeated => FieldValueView::Repeated(seq![v]),
        },
        ArgumentView::Many(items) => FieldValueView::Repeated(items),
    }
}

/// The calls that set every field once, in declaration order.
pub open spec fn set_each<V>(args: Seq<ArgumentView<V>>) -> Seq<Call<V>> {
    Seq::new(args.len(), |i: int| Call { accessor: i, arg: args[i] })
}

/// Round trip: after every field was set once, each with an argument of the
/// kind its accessor takes, the assembly succeeds and every field of the
/// record holds what it was set to, whatever the shapes of the fields.
pub proof fn law_round_trip<V>(d: TypeDescriptorView, args: Seq<ArgumentView<V>>)
    requires
        args.len() == d.fields.len(),
        forall|i: int|
            0 <= i < d.fields.len() ==> fits(accessor_of(d.fields[i], i).action, #[trigger] args[i]),
    ensures
        built(d, set_each(args)) == Ok::<Seq<FieldValueView<V>>, Seq<char>>(
            Seq::new(d.fields.len(), |i: int| set_to(shape_of(d.fields[i]), args[i])),
        ),
{
    let c = companion_of(d);
    let op = assembly_of(d);
    let calls = set_each(args);
    let state = run(c, calls);
    let pairs = steps_with_slots(op, state);
    let n = d.fields.len() as int;
    lemma_run(d, calls);
    assert forall|i: int| 0 <= i < n implies arguments_for(c, calls, i) == seq![args[i]] by {
        assert(c.accessors[i] == accessor_of(d.fields[i], i));
        lemma_arguments_of_set_each(c, args, i, n);
        assert(calls.take(n) =~= calls);
    }
    assert forall|i: int| 0 <= i < n implies !unset::<V>()(#[trigger] pairs[i]) by {
        assert(op.steps[i] == step_of(d.fields[i]));
        assert(state[i] == outcome(
            accessor_of(d.fields[i], i).action,
            arguments_for(c, calls, i),
        ));
    }
    assert(none_of(pairs, unset::<V>()));
    lemma_first_index_absent(pairs, unset::<V>());
    let record = assembled(op, state)->Ok_0;
    let expected = Seq::new(d.fields.len(), |i: int| set_to(shape_of(d.fields[i]), args[i]));
    assert forall|i: int| 0 <= i < n implies record[i] == expected[i] by {
        assert(op.steps[i] == step_of(d.fields[i]));
        assert(state[i] == outcome(
            accessor_of(d.fields[i], i).action,
            arguments_for(c, calls, i),
        ));
        assert(elements(seq![args[i]]) =~= seq![args[i]->One_0]);
    }
    assert(record =~= expected);
}

/// Among the first `k` calls of `set_each`, the accessor at position `i` is
/// handed its own argument once, as soon as the calls reach it.
proof fn lemma_arguments_of_set_each<V>(
    c: CompanionTypeView,
    args: Seq<ArgumentView<V>>,
    i: int,
    k: int,
)
    requires
        0 <= i < args.len(),
        0 <= k <= args.len(),
        fits(c.accessors[i].action, args[i]),
    ensures
        arguments_for(c, set_each(args).take(k), i) == if i < k {
            seq![args[i]]
        } else {
            Seq::<ArgumentView<V>>::empty()
        },
    decreases k,
{
    let calls = set_each(args).take(k);
    if k > 0 {
        lemma_arguments_of_set_each(c, args, i, k - 1);
        assert(calls.drop_last() =~= set_each(args).take(k - 1));
        assert(calls.last() == Call { accessor: k - 1, arg: args[k - 1] });
        if i == k - 1 {
            assert(Seq::<ArgumentView<V>>::empty().push(args[i]) =~= seq![args[i]]);
        }
    }
}

/// Accumulation: a repeated field with a per-element accessor holds, after
/// any run, exactly the elements that the accessor was handed, in call order.
pub proof fn law_accumulation<V>(d: TypeDescriptorView, calls: Seq<Call<V>>, i: int)
    requires
        0 <= i < d.fields.len(),
        shape_of(d.fields[i]) == Shape::Repeated,
        d.fields[i].each is Some,
    ensures
        run(companion_of(d), calls)[i] == StoredView::Items(
            elements(arguments_for(companion_of(d), calls, i)),
        ),
{
    lemma_run(d, calls);
}

/// The calls that hand the elements to the accessor at position `i`, one each.
pub open spec fn append_each<V>(i: int, items: Seq<V>) -> Seq<Call<V>> {
    Seq::new(items.len(), |k: int| Call { accessor: i, arg: ArgumentView::One(items[k]) })
}

/// Calling the per-element accessor of a repeated field once for each of
/// `items` leaves exactly `items` in the field, in call order.
pub proof fn law_accumulation_in_order<V>(d: TypeDescriptorView, i: int, items: Seq<V>)
    requires
        0 <= i < d.fields.len(),
        shape_of(d.fields[i]) == Shape::Repeated,
        d.fields[i].each is Some,
    ensures
        run(companion_of(d), append_each(i, items))[i] == StoredView::Items(items),
{
    let c = companion_of(d);
    lemma_run(d, append_each(i, items));
    lemma_arguments_of_append_each(c, i, items, items.len() as int);
    assert(append_each(i, items).take(items.len() as int) =~= append_each(i, items));
    assert(items.take(items.len() as int) =~= items);
    assert(c.accessors[i] == accessor_of(d.fields[i], i));
}

proof fn lemma_arguments_of_append_each<V>(c: CompanionTypeView, i: int, items: Seq<V>, k: int)
    requires
        0 <= k <= items.len(),
        c.accessors[i].action == Action::Append,
    ensures
        elements(arguments_for(c, append_each(i, items).take(k), i)) == items.take(k),
    decreases k,
{
    let calls = append_each(i, items).take(k);
    if k > 0 {
        lemma_arguments_of_append_each(c, i, items, k - 1);
        assert(calls.drop_last() =~= append_each(i, items).take(k - 1));
        assert(calls.last() == Call { accessor: i, arg: ArgumentView::One(items[k - 1]) });
        let before = arguments_for(c, calls.drop_last(), i);
        assert(elements(before.push(calls.last().arg)) =~= elements(before).push(items[k - 1]));
        assert(items.take(k) =~= items.take(k - 1).push(items[k - 1]));
    } else {
        assert(elements(arguments_for(c, calls, i)) =~= items.take(k));
    }
}

/// Replacement: the setter of a repeated field without a per-element
/// accessor leaves exactly the sequence it was handed, whatever the field
/// held before.
pub proof fn law_replacement<V>(
    d: TypeDescriptorView,
    state: Seq<StoredView<V>>,
    i: int,
    items: Seq<V>,
)
    requires
        0 <= i < d.fields.len(),
        state.len() == d.fields.len(),
        shape_of(d.fields[i]) == Shape::Repeated,
        d.fields[i].each is None,
    ensures
        step(companion_of(d), state, Call { accessor: i, arg: ArgumentView::Many(items) })
            == state.update(i, StoredView::Items(items)),
{
    let c = companion_of(d);
    assert(c.accessors[i] == accessor_of(d.fields[i], i));
}

} // verus!
