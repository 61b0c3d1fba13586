//! The order of the variants of a sum type: their names must stand in
//! ascending order, and the first one that does not is reported.

use crate::scan::{
    first_index, is_first, lemma_first_index, lemma_first_index_absent, lemma_first_index_found,
    none_of,
};
use crate::syntax::{Item, ItemView};
use crate::text::{
    followed_by, lemma_bytes_lt_transitive, lemma_bytes_trichotomy, str_lt, text_lt,
};
use vstd::utf8::encode_utf8;
use vstd::prelude::*;
use vstd::string::*;

verus! {

/// A name that stands after a name it sorts before.
#[derive(Debug, PartialEq, Eq)]
pub struct Violation {
    /// The position of the offending name.
    pub index: usize,
    pub offending: String,
    /// The first of the earlier names that the offending name sorts before.
    pub must_precede: String,
}

/// The view of [`Violation`].
pub ghost struct ViolationView {
    pub index: int,
    pub offending: Seq<char>,
    pub must_precede: Seq<char>,
}

impl DeepView for Violation {
    type V = ViolationView;

    open spec fn deep_view(&self) -> ViolationView {
        ViolationView {
            index: self.index as int,
            offending: self.offending@,
            must_precede: self.must_precede@,
        }
    }
}

impl ViolationView {
    /// The text of the diagnostic.
    pub open spec fn text(self) -> Seq<char> {
        self.offending + " should sort before "@ + self.must_precede
    }
}

impl Violation {
    /// The text of the diagnostic: `<name> should sort before <other>`.
    pub fn message(&self) -> (r: String)
        ensures
            r@ == self.deep_view().text(),
    {
        let mut out = followed_by(self.offending.as_str(), " should sort before ");
        out.append(self.must_precede.as_str());
        out
    }
}

/// The outcome of an order check.
#[derive(Debug, PartialEq, Eq)]
pub enum OrderingVerdict {
    /// Every name is in order.
    InOrder,
    Violation(Violation),
}

/// The view of [`OrderingVerdict`].
pub ghost enum OrderingVerdictView {
    InOrder,
    Violation(ViolationView),
}

impl DeepView for OrderingVerdict {
    type V = OrderingVerdictView;

    open spec fn deep_view(&self) -> OrderingVerdictView {
        match self {
            OrderingVerdict::InOrder => OrderingVerdictView::InOrder,
            OrderingVerdict::Violation(v) => OrderingVerdictView::Violation(v.deep_view()),
        }
    }
}

/// The names that `name` sorts strictly before.
pub open spec fn greater_than(name: Seq<char>) -> spec_fn(Seq<char>) -> bool {
    |other: Seq<char>| text_lt(name, other)
}

/// The position of the first name before position `i` that the name at `i`
/// sorts strictly before, if there is one.
pub open spec fn fault_at(names: Seq<Seq<char>>, i: int) -> Option<int> {
    first_index(names.take(i), greater_than(names[i]))
}

/// For each name, what [`fault_at`] finds.
pub open spec fn faults(names: Seq<Seq<char>>) -> Seq<Option<int>> {
    Seq::new(names.len(), |i: int| fault_at(names, i))
}

/// The positions at which something was found.
pub open spec fn found() -> spec_fn(Option<int>) -> bool {
    |f: Option<int>| f is Some
}

/// The verdict on a list of names: the first name, from the left, that
/// sorts strictly before a name that stands before it, together with the
/// first such earlier name. Equal names are in order.
pub open spec fn verdict(names: Seq<Seq<char>>) -> OrderingVerdictView {
    match first_index(faults(names), found()) {
        Some(i) => OrderingVerdictView::Violation(
            ViolationView {
                index: i,
                offending: names[i],
                must_precede: names[fault_at(names, i)->0],
            },
        ),
        None => OrderingVerdictView::InOrder,
    }
}

/// The verdict on the names of the variants of a sum type.
pub fn check_sorting(variants: &Vec<String>) -> (r: OrderingVerdict)
    ensures
        r.deep_view() == verdict(variants.deep_view()),
{
    let ghost names = variants.deep_view();
    let mut i: usize = 0;
    while i < variants.len()
        invariant
            i <= variants.len(),
            names == variants.deep_view(),
            forall|k: int| 0 <= k < i ==> (#[trigger] faults(names)[k]) is None,
        decreases variants.len() - i,
    {
        let ghost before = names.take(i as int);
        let ghost p = greater_than(names[i as int]);
        let mut j: usize = 0;
        while j < i
            invariant
                j <= i,
                i < variants.len(),
                names == variants.deep_view(),
                before == names.take(i as int),
                p == greater_than(names[i as int]),
                forall|k: int| 0 <= k < i ==> (#[trigger] faults(names)[k]) is None,
                forall|k: int| 0 <= k < j ==> !p(#[trigger] before[k]),
            decreases i - j,
        {
            if str_lt(variants[i].as_str(), variants[j].as_str()) {
                proof {
                    assert(before[j as int] == names[j as int]);
                    assert(p(before[j as int]));
                    assert(is_first(before, p, j as int));
                    lemma_first_index_found(before, p, j as int);
                    assert(faults(names)[i as int] == Some(j as int));
                    assert(found()(faults(names)[i as int]));
                    assert(is_first(faults(names), found(), i as int));
                    lemma_first_index_found(faults(names), found(), i as int);
                }
                return OrderingVerdict::Violation(
                    Violation {
                        index: i,
                        offending: variants[i].clone(),
                        must_precede: variants[j].clone(),
                    },
                );
            }
            proof {
                assert(before[j as int] == names[j as int]);
            }
            j += 1;
        }
        proof {
            assert(none_of(before, p));
            lemma_first_index_absent(before, p);
        }
        i += 1;
    }
    proof {
        assert(none_of(faults(names), found()));
        lemma_first_index_absent(faults(names), found());
    }
    OrderingVerdict::InOrder
}

/// Why the attribute refused an item.
#[derive(Debug, PartialEq, Eq)]
pub enum SortedError {
    /// The item is not a sum type.
    ExpectedEnum,
    /// A variant is out of order.
    OutOfOrder(Violation),
}

/// The view of [`SortedError`].
pub ghost enum SortedErrorView {
    ExpectedEnum,
    OutOfOrder(ViolationView),
}

impl DeepView for SortedError {
    type V = SortedErrorView;

    open spec fn deep_view(&self) -> SortedErrorView {
        match self {
            SortedError::ExpectedEnum => SortedErrorView::ExpectedEnum,
            SortedError::OutOfOrder(v) => SortedErrorView::OutOfOrder(v.deep_view()),
        }
    }
}

impl SortedErrorView {
    /// The text of the diagnostic.
    pub open spec fn text(self) -> Seq<char> {
        match self {
            SortedErrorView::ExpectedEnum => "expected enum or match expression"@,
            SortedErrorView::OutOfOrder(v) => v.text(),
        }
    }
}

impl SortedError {
    /// The text of the diagnostic.
    pub fn message(&self) -> (r: String)
        ensures
            r@ == self.deep_view().text(),
    {
        match self {
            SortedError::ExpectedEnum => String::from_str("expected enum or match expression"),
            SortedError::OutOfOrder(v) => v.message(),
        }
    }
}

/// The names of the variants of an item that is a sum type.
pub open spec fn parsed(item: ItemView) -> Result<Seq<Seq<char>>, SortedErrorView> {
    match item {
        ItemView::Enum(variants) => Ok(variants),
        _ => Err(SortedErrorView::ExpectedEnum),
    }
}

/// What the attribute says of a sum type with these variants.
pub open spec fn analysis(variants: Seq<Seq<char>>) -> Result<(), SortedErrorView> {
    match verdict(variants) {
        OrderingVerdictView::InOrder => Ok(()),
        OrderingVerdictView::Violation(v) => Err(SortedErrorView::OutOfOrder(v)),
    }
}

/// What the attribute says of an item: an item that is no sum type is
/// refused, and a sum type is held to the order of its variants.
pub open spec fn checked(item: ItemView) -> Result<(), SortedErrorView> {
    match parsed(item) {
        Ok(variants) => analysis(variants),
        Err(e) => Err(e),
    }
}

/// The names of the variants of an item that is a sum type.
pub fn parse(input: &Item) -> (r: Result<&Vec<String>, SortedError>)
    ensures
        match r {
            Ok(variants) => parsed(input.deep_view()) == Ok::<Seq<Seq<char>>, SortedErrorView>(
                variants.deep_view(),
            ),
            Err(e) => parsed(input.deep_view()) == Err::<Seq<Seq<char>>, SortedErrorView>(
                e.deep_view(),
            ),
        },
{
    match input {
        Item::Enum(variants) => Ok(variants),
        _ => Err(SortedError::ExpectedEnum),
    }
}

/// Holds a sum type to the order of its variants.
pub fn analyze(variants: &Vec<String>) -> (r: Result<(), SortedError>)
    ensures
        match r {
            Ok(_) => analysis(variants.deep_view()) is Ok,
            Err(e) => analysis(variants.deep_view()) == Err::<(), SortedErrorView>(e.deep_view()),
        },
{
    match check_sorting(variants) {
        OrderingVerdict::InOrder => Ok(()),
        OrderingVerdict::Violation(v) => Err(SortedError::OutOfOrder(v)),
    }
}

/// Applies the attribute to an item: `Ok` for a sum type whose variants are
/// in order, and otherwise the reason.
pub fn sorted_impl(input: &Item) -> (r: Result<(), SortedError>)
    ensures
        match r {
            Ok(_) => checked(input.deep_view()) is Ok,
            Err(e) => checked(input.deep_view()) == Err::<(), SortedErrorView>(e.deep_view()),
        },
{
    let variants = match parse(input) {
        Ok(variants) => variants,
        Err(e) => {
            return Err(e);
        },
    };
    analyze(variants)
}

/// What the attribute puts in the place of the item.
#[derive(Debug, PartialEq, Eq)]
pub struct Expansion {
    /// Whether the item is emitted again. A sum type always is, in order or
    /// not; an item of another kind is not.
    pub item_emitted: bool,
    /// The diagnostic that is emitted, if any.
    pub diagnostic: Option<SortedError>,
}

/// The view of [`Expansion`].
pub ghost struct ExpansionView {
    pub item_emitted: bool,
    pub diagnostic: Option<SortedErrorView>,
}

impl DeepView for Expansion {
    type V = ExpansionView;

    open spec fn deep_view(&self) -> ExpansionView {
        ExpansionView {
            item_emitted: self.item_emitted,
            diagnostic: self.diagnostic.deep_view(),
        }
    }
}

/// The expansion of the attribute on an item.
pub open spec fn expansion(item: ItemView) -> ExpansionView {
    ExpansionView {
        item_emitted: item is Enum,
        diagnostic: match checked(item) {
            Ok(_) => None,
            Err(e) => Some(e),
        },
    }
}

/// The attribute: the item is emitted again where it is a sum type, with a
/// diagnostic where its variants are out of order or it is no sum type.
pub fn sorted(input: &Item) -> (r: Expansion)
    ensures
        r.deep_view() == expansion(input.deep_view()),
{
    let item_emitted = match input {
        Item::Enum(_) => true,
        _ => false,
    };
    let diagnostic = match sorted_impl(input) {
        Ok(_) => None,
        Err(e) => Some(e),
    };
    Expansion { item_emitted, diagnostic }
}

/// The verdict is `InOrder` exactly where no name sorts strictly before a name
/// that stands before it; equal names never make a violation.
pub proof fn law_in_order(names: Seq<Seq<char>>)
    ensures
        verdict(names) is InOrder <==> forall|i: int, j: int|
            0 <= j < i < names.len() ==> !text_lt(#[trigger] names[i], #[trigger] names[j]),
{
    let fs = faults(names);
    lemma_first_index(fs, found());
    if verdict(names) is InOrder {
        assert forall|i: int, j: int| 0 <= j < i < names.len() implies !text_lt(
            #[trigger] names[i],
            #[trigger] names[j],
        ) by {
            assert(!found()(fs[i]));
            lemma_first_index(names.take(i), greater_than(names[i]));
            assert(!greater_than(names[i])(names.take(i)[j]));
        }
    } else {
        let i = first_index(fs, found())->0;
        assert(found()(fs[i]));
        lemma_first_index(names.take(i), greater_than(names[i]));
        let j = fault_at(names, i)->0;
        assert(greater_than(names[i])(names.take(i)[j]));
        assert(text_lt(names[i], names[j]));
    }
}

/// The name at position `i` is the leftmost that sorts strictly before an
/// earlier name, and the name at position `j` is the leftmost that it sorts
/// strictly before.
pub open spec fn first_violation(names: Seq<Seq<char>>, i: int, j: int) -> bool {
    &&& 0 <= j < i < names.len()
    &&& text_lt(names[i], names[j])
    &&& forall|k: int| 0 <= k < j ==> !text_lt(names[i], #[trigger] names[k])
    &&& forall|a: int, b: int|
        0 <= b < a < i ==> !text_lt(#[trigger] names[a], #[trigger] names[b])
}

/// A violation names the leftmost offending name and, among the names
/// before it, the leftmost that it sorts before.
pub proof fn law_first_violation(names: Seq<Seq<char>>, i: int, j: int)
    requires
        first_violation(names, i, j),
    ensures
        verdict(names) == OrderingVerdictView::Violation(
            ViolationView { index: i, offending: names[i], must_precede: names[j] },
        ),
{
    let fs = faults(names);
    let before = names.take(i);
    assert forall|k: int| 0 <= k < j implies !greater_than(names[i])(#[trigger] before[k]) by {
        assert(before[k] == names[k]);
    }
    assert(before[j] == names[j]);
    assert(is_first(before, greater_than(names[i]), j));
    lemma_first_index_found(before, greater_than(names[i]), j);
    assert forall|a: int| 0 <= a < i implies !found()(#[trigger] fs[a]) by {
        let earlier = names.take(a);
        assert forall|b: int| 0 <= b < earlier.len() implies !greater_than(names[a])(
            #[trigger] earlier[b],
        ) by {
            assert(earlier[b] == names[b]);
        }
        lemma_first_index_absent(earlier, greater_than(names[a]));
    }
    assert(found()(fs[i]));
    assert(is_first(fs, found(), i));
    lemma_first_index_found(fs, found(), i);
}

/// Whether the name at position `i` does not sort strictly before its left neighbour.
pub open spec fn in_order_at(names: Seq<Seq<char>>, i: int) -> bool {
    0 < i < names.len() ==> !text_lt(names[i], names[i - 1])
}

/// Whether the names ascend: none sorts strictly before its left neighbour.
pub open spec fn ascending(names: Seq<Seq<char>>) -> bool {
    forall|i: int| in_order_at(names, i)
}

proof fn lemma_ascending_pair(names: Seq<Seq<char>>, j: int, i: int)
    requires
        ascending(names),
        0 <= j < i < names.len(),
    ensures
        !text_lt(names[i], names[j]),
    decreases i - j,
{
    assert(in_order_at(names, i));
    if j < i - 1 {
        lemma_ascending_pair(names, j, i - 1);
        let a = encode_utf8(names[j]);
        let b = encode_utf8(names[i - 1]);
        let c = encode_utf8(names[i]);
        lemma_bytes_trichotomy(a, b);
        if text_lt(names[i], names[j]) {
            if a != b {
                lemma_bytes_lt_transitive(c, a, b);
            }
        }
    }
}

/// The verdict is `InOrder` exactly where the names ascend from each one
/// to the next.
pub proof fn law_ascending(names: Seq<Seq<char>>)
    ensures
        verdict(names) is InOrder <==> ascending(names),
{
    law_in_order(names);
    if ascending(names) {
        assert forall|i: int, j: int| 0 <= j < i < names.len() implies !text_lt(
            #[trigger] names[i],
            #[trigger] names[j],
        ) by {
            lemma_ascending_pair(names, j, i);
        }
    }
    if verdict(names) is InOrder {
        assert forall|i: int| in_order_at(names, i) by {
            if 0 < i < names.len() {
                assert(!text_lt(names[i], names[i - 1]));
            }
        }
    }
}

} // verus!
