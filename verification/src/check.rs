//! The order of the arms of match expressions: in a function, every match
//! expression that carries the marker `#[sorted]` has its arms held to
//! ascending order, with a wildcard allowed as the last arm only. The first
//! fault of the function is reported, and the marker is stripped either way.

use crate::scan::{
    first_index, is_first, lemma_first_index, lemma_first_index_absent, lemma_first_index_found,
    lemma_first_index_step, none_of,
};
use crate::syntax::{
    Attribute, AttributeView, Item, ItemView, MatchExpr, MatchExprView, Pattern, PatternView,
};
use crate::text::{copy_texts, followed_by, join_path, join_with_separator, str_lt, text_lt};
use vstd::prelude::*;
use vstd::string::*;

verus! {

/// What is wrong with an arm.
#[derive(Debug, PartialEq, Eq)]
pub enum Fault {
    /// The arm's name sorts before the name of an earlier arm.
    OutOfOrder { offending: String, must_precede: String },
    /// A wildcard that is not the last arm.
    MisplacedWildcard,
    /// A pattern that has no name to sort by.
    UnsupportedPattern,
}

/// The view of [`Fault`].
pub ghost enum FaultView {
    OutOfOrder { offending: Seq<char>, must_precede: Seq<char> },
    MisplacedWildcard,
    UnsupportedPattern,
}

impl DeepView for Fault {
    type V = FaultView;

    open spec fn deep_view(&self) -> FaultView {
        match self {
            Fault::OutOfOrder { offending, must_precede } => FaultView::OutOfOrder {
                offending: offending@,
                must_precede: must_precede@,
            },
            Fault::MisplacedWildcard => FaultView::MisplacedWildcard,
            Fault::UnsupportedPattern => FaultView::UnsupportedPattern,
        }
    }
}

impl FaultView {
    /// The text of the diagnostic.
    pub open spec fn text(self) -> Seq<char> {
        match self {
            FaultView::OutOfOrder { offending, must_precede } => offending
                + " should sort before "@ + must_precede,
            FaultView::MisplacedWildcard => "_ should sort at the end"@,
            FaultView::UnsupportedPattern => "unsupported by #[sorted]"@,
        }
    }
}

impl Fault {
    /// The text of the diagnostic.
    pub fn message(&self) -> (r: String)
        ensures
            r@ == self.deep_view().text(),
    {
        match self {
            Fault::OutOfOrder { offending, must_precede } => {
                let mut out = followed_by(offending.as_str(), " should sort before ");
                out.append(must_precede.as_str());
                out
            },
            Fault::MisplacedWildcard => String::from_str("_ should sort at the end"),
            Fault::UnsupportedPattern => String::from_str("unsupported by #[sorted]"),
        }
    }
}

/// A fault and where it is: the position of the match expression in the
/// function and that of the arm in the match expression.
#[derive(Debug, PartialEq, Eq)]
pub struct OrderError {
    pub expr: usize,
    pub arm: usize,
    pub fault: Fault,
}

/// The view of [`OrderError`].
pub ghost struct OrderErrorView {
    pub expr: int,
    pub arm: int,
    pub fault: FaultView,
}

impl DeepView for OrderError {
    type V = OrderErrorView;

    open spec fn deep_view(&self) -> OrderErrorView {
        OrderErrorView {
            expr: self.expr as int,
            arm: self.arm as int,
            fault: self.fault.deep_view(),
        }
    }
}

/// Whether an attribute is the marker: its path is `sorted`.
pub open spec fn sorted_attr(a: AttributeView) -> bool {
    a.is_named("sorted"@)
}

/// The attributes that are the marker.
pub open spec fn sorted_attrs() -> spec_fn(AttributeView) -> bool {
    |a: AttributeView| sorted_attr(a)
}

/// The attributes that are not the marker.
pub open spec fn other_attrs() -> spec_fn(AttributeView) -> bool {
    |a: AttributeView| !sorted_attr(a)
}

/// Whether a match expression carries the marker.
pub open spec fn marked(attrs: Seq<AttributeView>) -> bool {
    first_index(attrs, sorted_attrs()) is Some
}

/// The attributes without the marker, the others in their order.
pub open spec fn stripped(attrs: Seq<AttributeView>) -> Seq<AttributeView> {
    attrs.filter(other_attrs())
}

/// Whether an attribute is the marker.
pub fn is_sorted_attr(attr: &Attribute) -> (r: bool)
    ensures
        r == sorted_attr(attr.deep_view()),
{
    attr.is_named("sorted")
}

/// Whether an attribute is not the marker.
pub fn is_not_sorted_attr(attr: &Attribute) -> (r: bool)
    ensures
        r == !sorted_attr(attr.deep_view()),
{
    !is_sorted_attr(attr)
}

/// Whether the arm is a wildcard, and the path it is sorted by: that of a
/// path or tuple-struct pattern, the name of a binding, none for any other.
pub open spec fn arm_path(p: PatternView) -> (bool, Option<Seq<Seq<char>>>) {
    match p {
        PatternView::TupleStruct(path) => (false, Some(path)),
        PatternView::Path(path) => (false, Some(path)),
        PatternView::Ident(name) => (false, Some(seq![name])),
        PatternView::Wild => (true, None),
        PatternView::Other => (false, None),
    }
}

/// The name an arm is sorted by: the segments of its path, joined by `::`.
pub open spec fn arm_name(p: PatternView) -> Option<Seq<char>> {
    match arm_path(p).1 {
        Some(path) => Some(join_path(path)),
        None => None,
    }
}

/// The arms with a name that `name` sorts strictly before.
pub open spec fn named_after(name: Seq<char>) -> spec_fn(PatternView) -> bool {
    |p: PatternView| arm_name(p) matches Some(other) && text_lt(name, other)
}

/// What is wrong with the arm at position `i`. A wildcard is in order as
/// the last arm only; an arm without a name is unsupported; a named arm is
/// out of order where its name sorts strictly before the name of an earlier
/// arm, and the first such arm is the one it must precede.
pub open spec fn arm_fault(arms: Seq<PatternView>, i: int) -> Option<FaultView> {
    if arm_path(arms[i]).0 {
        if i == arms.len() - 1 {
            None
        } else {
            Some(FaultView::MisplacedWildcard)
        }
    } else {
        match arm_name(arms[i]) {
            None => Some(FaultView::UnsupportedPattern),
            Some(name) => match first_index(arms.take(i), named_after(name)) {
                Some(j) => Some(
                    FaultView::OutOfOrder { offending: name, must_precede: arm_name(arms[j])->0 },
                ),
                None => None,
            },
        }
    }
}

/// For each arm, what is wrong with it.
pub open spec fn arm_faults(arms: Seq<PatternView>) -> Seq<Option<FaultView>> {
    Seq::new(arms.len(), |i: int| arm_fault(arms, i))
}

/// The arms with something wrong.
pub open spec fn faulty() -> spec_fn(Option<FaultView>) -> bool {
    |f: Option<FaultView>| f is Some
}

/// The first fault of the match expression at position `expr`: none where
/// it does not carry the marker, and otherwise that of its first faulty arm.
pub open spec fn match_fault(node: MatchExprView, expr: int) -> Option<OrderErrorView> {
    if marked(node.attrs) {
        match first_index(arm_faults(node.arms), faulty()) {
            Some(i) => Some(OrderErrorView { expr: expr, arm: i, fault: arm_fault(node.arms, i)->0 }),
            None => None,
        }
    } else {
        None
    }
}

/// The error that is kept when `new` is reported after `old`: the first one.
pub open spec fn latched(old: Option<OrderErrorView>, new: Option<OrderErrorView>) -> Option<
    OrderErrorView,
> {
    if old is Some {
        old
    } else {
        new
    }
}

/// Whether the arm is a wildcard, and the path it is sorted by.
pub fn get_arm_path(arm: &Pattern) -> (r: (bool, Option<Vec<String>>))
    ensures
        (r.0, r.1.deep_view()) == arm_path(arm.deep_view()),
{
    match arm {
        Pattern::TupleStruct(path) => (false, Some(copy_texts(path))),
        Pattern::Path(path) => (false, Some(copy_texts(path))),
        Pattern::Ident(name) => {
            let mut path: Vec<String> = Vec::new();
            path.push(name.clone());
            proof {
                assert(path.deep_view() =~= seq![name@]);
            }
            (false, Some(path))
        },
        Pattern::Wild => (true, None),
        Pattern::Other => (false, None),
    }
}

/// The name of a path: its segments, joined by `::`.
pub fn arm_path_to_string(path: &Vec<String>) -> (r: String)
    ensures
        r@ == join_path(path.deep_view()),
{
    join_with_separator(path)
}

/// Whether an arm is a wildcard, and the name it is sorted by.
pub open spec fn arm_key(p: PatternView) -> (bool, Option<Seq<char>>) {
    (arm_path(p).0, arm_name(p))
}

/// Whether `keys` holds the key of each of `arms`.
spec fn keys_of(arms: Seq<PatternView>, keys: Seq<(bool, Option<String>)>) -> bool {
    &&& keys.len() == arms.len()
    &&& forall|i: int|
        0 <= i < arms.len() ==> ((#[trigger] keys[i]).0, keys[i].1.deep_view()) == arm_key(arms[i])
}

/// The key of each arm.
fn arm_keys(arms: &Vec<Pattern>) -> (r: Vec<(bool, Option<String>)>)
    ensures
        keys_of(arms.deep_view(), r@),
{
    let mut keys: Vec<(bool, Option<String>)> = Vec::new();
    let mut i: usize = 0;
    while i < arms.len()
        invariant
            i <= arms.len(),
            keys.len() == i,
            forall|k: int|
                0 <= k < i ==> ((#[trigger] keys[k]).0, keys[k].1.deep_view()) == arm_key(
                    arms[k].deep_view(),
                ),
        decreases arms.len() - i,
    {
        let (is_wild, path) = get_arm_path(&arms[i]);
        let name = match path {
            Some(path) => Some(arm_path_to_string(&path)),
            None => None,
        };
        keys.push((is_wild, name));
        i += 1;
    }
    keys
}

/// The first of the arms before position `i` with a name that `name` sorts
/// strictly before.
fn first_named_after(keys: &Vec<(bool, Option<String>)>, i: usize, name: &str, Ghost(arms): Ghost<
    Seq<PatternView>,
>) -> (r: Option<usize>)
    requires
        keys_of(arms, keys@),
        i <= keys.len(),
    ensures
        match r {
            Some(j) => first_index(arms.take(i as int), named_after(name@)) == Some(j as int),
            None => first_index(arms.take(i as int), named_after(name@)) is None,
        },
{
    let ghost before = arms.take(i as int);
    let ghost p = named_after(name@);
    let mut j: usize = 0;
    while j < i
        invariant
            j <= i <= keys.len(),
            keys_of(arms, keys@),
            before == arms.take(i as int),
            p == named_after(name@),
            forall|k: int| 0 <= k < j ==> !p(#[trigger] before[k]),
        decreases i - j,
    {
        proof {
            assert(before[j as int] == arms[j as int]);
            assert((keys[j as int].0, keys[j as int].1.deep_view()) == arm_key(arms[j as int]));
        }
        let sorts_before = match &keys[j].1 {
            Some(other) => str_lt(name, other.as_str()),
            None => false,
        };
        if sorts_before {
            proof {
                assert(p(before[j as int]));
                assert(is_first(before, p, j as int));
                lemma_first_index_found(before, p, j as int);
            }
            return Some(j);
        }
        j += 1;
    }
    proof {
        assert(none_of(before, p));
        lemma_first_index_absent(before, p);
    }
    None
}

/// What is wrong with the arm at position `i`.
fn find_arm_fault(keys: &Vec<(bool, Option<String>)>, i: usize, Ghost(arms): Ghost<
    Seq<PatternView>,
>) -> (r: Option<Fault>)
    requires
        keys_of(arms, keys@),
        i < keys.len(),
    ensures
        r.deep_view() == arm_fault(arms, i as int),
{
    proof {
        assert((keys[i as int].0, keys[i as int].1.deep_view()) == arm_key(arms[i as int]));
    }
    if keys[i].0 {
        if i == keys.len() - 1 {
            None
        } else {
            Some(Fault::MisplacedWildcard)
        }
    } else {
        match &keys[i].1 {
            None => Some(Fault::UnsupportedPattern),
            Some(name) => match first_named_after(keys, i, name.as_str(), Ghost(arms)) {
                Some(j) => {
                    proof {
                        assert((keys[j as int].0, keys[j as int].1.deep_view()) == arm_key(
                            arms[j as int],
                        ));
                        lemma_first_index(arms.take(i as int), named_after(name@));
                        assert(arms.take(i as int)[j as int] == arms[j as int]);
                    }
                    match &keys[j].1 {
                        Some(other) => Some(
                            Fault::OutOfOrder {
                                offending: name.clone(),
                                must_precede: other.clone(),
                            },
                        ),
                        None => None,
                    }
                },
                None => None,
            },
        }
    }
}

/// Whether one of the attributes is the marker.
fn is_marked(attrs: &Vec<Attribute>) -> (r: bool)
    ensures
        r == marked(attrs.deep_view()),
{
    let mut m: usize = 0;
    while m < attrs.len()
        invariant
            m <= attrs.len(),
            forall|k: int| 0 <= k < m ==> !sorted_attr(#[trigger] attrs.deep_view()[k]),
        decreases attrs.len() - m,
    {
        if is_sorted_attr(&attrs[m]) {
            proof {
                assert(sorted_attrs()(attrs.deep_view()[m as int]));
                assert(is_first(attrs.deep_view(), sorted_attrs(), m as int));
                lemma_first_index_found(attrs.deep_view(), sorted_attrs(), m as int);
            }
            return true;
        }
        m += 1;
    }
    proof {
        assert(none_of(attrs.deep_view(), sorted_attrs()));
        lemma_first_index_absent(attrs.deep_view(), sorted_attrs());
    }
    false
}

/// Walks the match expressions of a function and keeps the first fault.
#[derive(Debug, PartialEq, Eq)]
pub struct SortedAnalyzer {
    /// The first fault that was reported.
    pub error: Option<OrderError>,
    /// How many match expressions were visited.
    pub visited: usize,
}

impl SortedAnalyzer {
    /// An analyzer that has seen nothing.
    pub fn new() -> (r: SortedAnalyzer)
        ensures
            r.error is None,
            r.visited == 0,
    {
        SortedAnalyzer { error: None, visited: 0 }
    }

    /// Reports a fault. Only the first report is kept.
    pub fn report_error(&mut self, error: OrderError)
        ensures
            final(self).error.deep_view() == latched(
                old(self).error.deep_view(),
                Some(error.deep_view()),
            ),
            final(self).visited == old(self).visited,
    {
        if self.error.is_none() {
            self.error = Some(error);
        }
    }

    /// Visits the next match expression of the function: where it carries
    /// the marker, every fault of its arms is reported, in the order of the
    /// arms. The count of visited expressions stops at `usize::MAX`.
    pub fn visit_expr_match(&mut self, node: &MatchExpr)
        ensures
            final(self).error.deep_view() == latched(
                old(self).error.deep_view(),
                match_fault(node.deep_view(), old(self).visited as int),
            ),
            final(self).visited == if old(self).visited < usize::MAX {
                old(self).visited + 1
            } else {
                old(self).visited as int
            },
    {
        let expr = self.visited;
        if self.visited < usize::MAX {
            self.visited = self.visited + 1;
        }
        if !is_marked(&node.attrs) {
            return;
        }
        let counted = self.visited;
        let ghost entry = old(self).error.deep_view();
        let ghost arms = node.arms.deep_view();
        let keys = arm_keys(&node.arms);
        let mut i: usize = 0;
        proof {
            assert(arm_faults(arms).take(0) =~= Seq::empty());
            lemma_first_index(arm_faults(arms).take(0), faulty());
        }
        while i < node.arms.len()
            invariant
                i <= node.arms.len(),
                arms == node.arms.deep_view(),
                keys_of(arms, keys@),
                self.visited == counted,
                self.error.deep_view() == latched(
                    entry,
                    match first_index(arm_faults(arms).take(i as int), faulty()) {
                        Some(k) => Some(
                            OrderErrorView { expr: expr as int, arm: k, fault: arm_fault(arms, k)->0 },
                        ),
                        None => None,
                    },
                ),
            decreases node.arms.len() - i,
        {
            proof {
                lemma_first_index_step(arm_faults(arms), faulty(), i as int);
            }
            match find_arm_fault(&keys, i, Ghost(arms)) {
                Some(fault) => {
                    self.report_error(OrderError { expr, arm: i, fault });
                },
                None => {},
            }
            i += 1;
        }
        proof {
            assert(arm_faults(arms).take(arms.len() as int) =~= arm_faults(arms));
        }
    }
}

/// Strips the marker from the match expressions of a function.
#[derive(Debug, PartialEq, Eq)]
pub struct SortedAttrStripper;

impl SortedAttrStripper {
    /// Strips the marker from a match expression. Nothing else changes.
    pub fn visit_expr_match_mut(&mut self, node: &mut MatchExpr)
        ensures
            final(node).attrs.deep_view() == stripped(old(node).attrs.deep_view()),
            final(node).arms == old(node).arms,
    {
        let mut attrs: Vec<Attribute> = Vec::new();
        core::mem::swap(&mut node.attrs, &mut attrs);
        let ghost all = attrs.deep_view();
        let ghost elems = attrs@;
        proof {
            assert(all.take(0) =~= Seq::<AttributeView>::empty());
            reveal(Seq::filter);
            assert(stripped(Seq::<AttributeView>::empty()) =~= Seq::<AttributeView>::empty());
            assert(node.attrs.deep_view() =~= Seq::<AttributeView>::empty());
        }
        for attr in it: attrs
            invariant
                it.seq() == elems,
                all.len() == elems.len(),
                forall|k: int| 0 <= k < elems.len() ==> (#[trigger] elems[k]).deep_view() == all[k],
                node.attrs.deep_view() == stripped(all.take(it.index() as int)),
                node.arms == old(node).arms,
        {
            let ghost i = it.index() as int;
            let ghost before = node.attrs.deep_view();
            proof {
                assert(all.take(i + 1) =~= all.take(i).push(all[i]));
                all.take(i).lemma_filter_push(all[i], other_attrs());
                assert(attr.deep_view() == all[i]);
            }
            if is_not_sorted_attr(&attr) {
                node.attrs.push(attr);
                proof {
                    assert(node.attrs.deep_view() =~= before.push(all[i]));
                }
            }
        }
        proof {
            assert(all.take(all.len() as int) =~= all);
        }
    }
}

/// A sequence in which nothing is the marker is left as it is.
pub proof fn lemma_nothing_to_strip(attrs: Seq<AttributeView>)
    requires
        forall|i: int| 0 <= i < attrs.len() ==> !sorted_attr(#[trigger] attrs[i]),
    ensures
        stripped(attrs) == attrs,
    decreases attrs.len(),
{
    reveal(Seq::filter);
    if attrs.len() > 0 {
        lemma_nothing_to_strip(attrs.drop_last());
        assert(attrs.drop_last().push(attrs.last()) =~= attrs);
    }
}

/// Stripping is idempotent: what was stripped holds no marker, and
/// stripping it again changes nothing.
pub proof fn law_strip_idempotent(attrs: Seq<AttributeView>)
    ensures
        !marked(stripped(attrs)),
        stripped(stripped(attrs)) == stripped(attrs),
{
    let once = stripped(attrs);
    assert forall|i: int| 0 <= i < once.len() implies !sorted_attr(#[trigger] once[i]) by {
        attrs.lemma_filter_pred(other_attrs(), i);
    }
    lemma_nothing_to_strip(once);
    assert(none_of(once, sorted_attrs()));
    lemma_first_index_absent(once, sorted_attrs());
}

/// What the analysis of a function gives: its match expressions with the
/// marker stripped, and the first fault among them.
#[derive(Debug, PartialEq, Eq)]
pub struct Checked {
    pub matches: Vec<MatchExpr>,
    pub error: Option<OrderError>,
}

/// The view of [`Checked`].
pub ghost struct CheckedView {
    pub matches: Seq<MatchExprView>,
    pub error: Option<OrderErrorView>,
}

impl DeepView for Checked {
    type V = CheckedView;

    open spec fn deep_view(&self) -> CheckedView {
        CheckedView { matches: self.matches.deep_view(), error: self.error.deep_view() }
    }
}

/// A match expression without the marker.
pub open spec fn strip_match(node: MatchExprView) -> MatchExprView {
    MatchExprView { attrs: stripped(node.attrs), arms: node.arms }
}

/// For each match expression, its first fault.
pub open spec fn match_faults(matches: Seq<MatchExprView>) -> Seq<Option<OrderErrorView>> {
    Seq::new(matches.len(), |i: int| match_fault(matches[i], i))
}

/// The match expressions with something wrong.
pub open spec fn failed() -> spec_fn(Option<OrderErrorView>) -> bool {
    |e: Option<OrderErrorView>| e is Some
}

/// The first fault of a function: that of its first match expression that has one.
pub open spec fn first_error(matches: Seq<MatchExprView>) -> Option<OrderErrorView> {
    match first_index(match_faults(matches), failed()) {
        Some(i) => match_faults(matches)[i],
        None => None,
    }
}

/// The analysis of a function with these match expressions.
pub open spec fn analysis(matches: Seq<MatchExprView>) -> CheckedView {
    CheckedView {
        matches: matches.map_values(|m: MatchExprView| strip_match(m)),
        error: first_error(matches),
    }
}

/// Why an item is refused.
#[derive(Debug, Clone, Copy, PartialEq, Eq, Structural)]
pub enum CheckError {
    /// The item is not a function.
    ExpectedFn,
}

/// What is made of an item: only a function is taken.
pub open spec fn checked(item: ItemView) -> Result<CheckedView, CheckError> {
    match item {
        ItemView::Fn(matches) => Ok(analysis(matches)),
        _ => Err(CheckError::ExpectedFn),
    }
}

/// The view of what [`check_impl`] returns.
pub open spec fn check_result(r: Result<Checked, CheckError>) -> Result<CheckedView, CheckError> {
    match r {
        Ok(c) => Ok(c.deep_view()),
        Err(e) => Err(e),
    }
}

/// The match expressions of an item that is a function.
pub fn parse(input: Item) -> (r: Result<Vec<MatchExpr>, CheckError>)
    ensures
        match r {
            Ok(matches) => input.deep_view() == ItemView::Fn(matches.deep_view()),
            Err(e) => !(input.deep_view() is Fn) && e == CheckError::ExpectedFn,
        },
{
    match input {
        Item::Fn(matches) => Ok(matches),
        _ => Err(CheckError::ExpectedFn),
    }
}

/// Analyzes the match expressions of a function, in order: finds the first
/// fault, and strips the marker from every one of them, fault or no fault.
pub fn analyze(matches: Vec<MatchExpr>) -> (r: Checked)
    ensures
        r.deep_view() == analysis(matches.deep_view()),
{
    let ghost all = matches.deep_view();
    let ghost elems = matches@;
    let mut analyzer = SortedAnalyzer::new();
    let mut stripper = SortedAttrStripper;
    let mut out: Vec<MatchExpr> = Vec::new();
    let count = matches.len();
    proof {
        assert(match_faults(all).take(0) =~= Seq::empty());
        lemma_first_index(match_faults(all).take(0), failed());
    }
    for node in it: matches
        invariant
            it.seq() == elems,
            all.len() == elems.len(),
            count == elems.len(),
            forall|k: int| 0 <= k < elems.len() ==> (#[trigger] elems[k]).deep_view() == all[k],
            analyzer.visited == it.index(),
            out.len() == it.index(),
            forall|k: int| 0 <= k < it.index() ==> (#[trigger] out[k]).deep_view() == strip_match(
                all[k],
            ),
            match first_index(match_faults(all).take(it.index() as int), failed()) {
                Some(k) => analyzer.error.deep_view() == match_faults(all)[k],
                None => analyzer.error is None,
            },
    {
        let ghost i = it.index() as int;
        let mut node = node;
        proof {
            assert(node.deep_view() == all[i]);
        }
        analyzer.visit_expr_match(&node);
        let ghost node_view = node.deep_view();
        stripper.visit_expr_match_mut(&mut node);
        proof {
            assert(node.arms.deep_view() == node_view.arms);
            assert(node.deep_view() == strip_match(all[i]));
            lemma_first_index_step(match_faults(all), failed(), i);
        }
        out.push(node);
    }
    proof {
        assert(match_faults(all).take(all.len() as int) =~= match_faults(all));
        assert(out.deep_view() =~= all.map_values(|m: MatchExprView| strip_match(m)));
    }
    Checked { matches: out, error: analyzer.error }
}

/// Applied to an item: an item that is no function is refused; of a
/// function, the match expressions come back without the marker, together
/// with the first fault among them.
pub fn check_impl(input: Item) -> (r: Result<Checked, CheckError>)
    ensures
        check_result(r) == checked(input.deep_view()),
{
    match parse(input) {
        Ok(matches) => Ok(analyze(matches)),
        Err(e) => Err(e),
    }
}

/// Checking what was checked: no match expression carries the marker any
/// more, so nothing is reported and nothing is stripped.
pub proof fn law_check_idempotent(matches: Seq<MatchExprView>)
    ensures
        analysis(analysis(matches).matches).matches == analysis(matches).matches,
        analysis(analysis(matches).matches).error is None,
{
    let once = analysis(matches).matches;
    let twice = analysis(once).matches;
    assert forall|i: int| 0 <= i < once.len() implies #[trigger] twice[i] == once[i] by {
        law_strip_idempotent(matches[i].attrs);
    }
    assert(twice =~= once);
    assert forall|i: int| 0 <= i < once.len() implies !failed()(
        #[trigger] match_faults(once)[i],
    ) by {
        law_strip_idempotent(matches[i].attrs);
    }
    lemma_first_index_absent(match_faults(once), failed());
}

} // verus!
