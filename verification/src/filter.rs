use vstd::prelude::*;
use crate::values::PrismaValue;

verus! {

/// Whether string comparisons of a scalar filter ignore case.
#[derive(Debug, Clone, Copy, PartialEq, Eq, Hash, Structural)]
pub enum QueryMode {
    Default,
    Insensitive,
}

/// The right-hand side of a scalar condition: a literal or a field of the same container.
#[derive(Debug, PartialEq, Eq, Hash)]
pub enum ConditionValue {
    Value(PrismaValue),
    FieldRef(String),
}

/// The right-hand side of a list condition: literal values or a list field of the same container.
#[derive(Debug, PartialEq, Eq, Hash)]
pub enum ConditionListValue {
    List(Vec<PrismaValue>),
    FieldRef(String),
}

/// Where inside a JSON value a JSON filter looks.
#[derive(Debug, PartialEq, Eq, Hash)]
pub enum JsonFilterPath {
    String(String),
    Array(Vec<String>),
}

/// The kind of JSON value a JSON string or array filter expects at its path.
#[derive(Debug, Clone, Copy, PartialEq, Eq, Hash, Structural)]
pub enum JsonTargetType {
    String,
    Array,
}

/// The comparison of a JSON filter.
#[derive(Debug, Clone, Copy, PartialEq, Eq, Hash, Structural)]
pub enum JsonOp {
    Equals,
    NotEquals,
    LessThan,
    LessThanOrEquals,
    GreaterThan,
    GreaterThanOrEquals,
    Contains,
    NotContains,
    StartsWith,
    NotStartsWith,
    EndsWith,
    NotEndsWith,
}

/// A condition on a single scalar field.
#[derive(Debug, PartialEq, Eq, Hash)]
pub enum ScalarCondition {
    Equals(ConditionValue),
    NotEquals(ConditionValue),
    Contains(ConditionValue),
    NotContains(ConditionValue),
    StartsWith(ConditionValue),
    NotStartsWith(ConditionValue),
    EndsWith(ConditionValue),
    NotEndsWith(ConditionValue),
    LessThan(ConditionValue),
    LessThanOrEquals(ConditionValue),
    GreaterThan(ConditionValue),
    GreaterThanOrEquals(ConditionValue),
    In(ConditionListValue),
    NotIn(ConditionListValue),
    Search(ConditionValue),
    NotSearch(ConditionValue),
    IsSet(bool),
    GeometryWithin(ConditionValue),
    GeometryNotWithin(ConditionValue),
    GeometryIntersects(ConditionValue),
    GeometryNotIntersects(ConditionValue),
    Json(JsonOp, ConditionValue, Option<JsonFilterPath>, Option<JsonTargetType>),
}

/// A filter on one scalar field.
#[derive(Debug, PartialEq, Eq, Hash)]
pub struct ScalarFilter {
    pub field: String,
    pub condition: ScalarCondition,
    pub mode: QueryMode,
}

/// A condition on a scalar list field.
#[derive(Debug, PartialEq, Eq, Hash)]
pub enum ScalarListCondition {
    ContainsElement(ConditionValue),
    ContainsEvery(ConditionListValue),
    ContainsSome(ConditionListValue),
    IsEmpty(bool),
}

/// How the records related through a relation field must match a nested filter.
#[derive(Debug, Clone, Copy, PartialEq, Eq, Hash, Structural)]
pub enum RelationCondition {
    EveryRelatedRecord,
    AtLeastOneRelatedRecord,
    NoRelatedRecord,
    ToOneRelatedRecord,
}

/// A condition on a composite field.
#[derive(Debug, PartialEq, Eq, Hash)]
pub enum CompositeCondition {
    EveryElement(Box<Filter>),
    SomeElement(Box<Filter>),
    NoElement(Box<Filter>),
    Is(Box<Filter>),
    IsNot(Box<Filter>),
    Empty(bool),
    IsSet(bool),
    Equals(PrismaValue),
}

/// The aggregation that an aggregation filter compares.
#[derive(Debug, Clone, Copy, PartialEq, Eq, Hash, Structural)]
pub enum AggregationKind {
    Count,
    Average,
    Sum,
    Min,
    Max,
}

/// A record filter: a boolean tree of field conditions.
#[derive(Debug, PartialEq, Eq, Hash)]
pub enum Filter {
    And(Vec<Filter>),
    Or(Vec<Filter>),
    Not(Vec<Filter>),
    Scalar(ScalarFilter),
    ScalarList(String, ScalarListCondition),
    OneRelationIsNull(String),
    Relation(String, RelationCondition, Box<Filter>),
    Composite(String, CompositeCondition),
    Aggregation(AggregationKind, Box<Filter>),
    BoolFilter(bool),
    Empty,
}

/// The shape of a filter as the boolean connectives see it: groups of sub-filters,
/// and atoms (every filter that is not a group).
pub enum FilterTree {
    And(Seq<FilterTree>),
    Or(Seq<FilterTree>),
    Not(Seq<FilterTree>),
    Atom(Filter),
}

/// The tree of a filter.
pub open spec fn tree(f: Filter) -> FilterTree
    decreases f,
{
    match f {
        Filter::And(v) => FilterTree::And(trees(v@)),
        Filter::Or(v) => FilterTree::Or(trees(v@)),
        Filter::Not(v) => FilterTree::Not(trees(v@)),
        _ => FilterTree::Atom(f),
    }
}

/// The trees of a sequence of filters, element by element.
pub open spec fn trees(s: Seq<Filter>) -> Seq<FilterTree>
    decreases s,
{
    if s.len() == 0 {
        Seq::empty()
    } else {
        trees(s.drop_last()).push(tree(s.last()))
    }
}


/// The truth value of an atom, given the truth values of field conditions:
/// `Empty` holds, `BoolFilter(b)` is `b`, and every other atom is what `condition` says of it.
pub open spec fn atom_holds(f: Filter, condition: spec_fn(Filter) -> bool) -> bool {
    match f {
        Filter::Empty => true,
        Filter::BoolFilter(b) => b,
        _ => condition(f),
    }
}

/// The truth value of a filter tree: `And` holds when all members hold, `Or` when one
/// does, and `Not` when none does.
pub open spec fn holds(t: FilterTree, condition: spec_fn(Filter) -> bool) -> bool
    decreases t, 1int,
{
    match t {
        FilterTree::And(s) => all_hold(s, condition),
        FilterTree::Or(s) => any_holds(s, condition),
        FilterTree::Not(s) => !any_holds(s, condition),
        FilterTree::Atom(f) => atom_holds(f, condition),
    }
}

/// Every tree of `s` holds.
pub open spec fn all_hold(s: Seq<FilterTree>, condition: spec_fn(Filter) -> bool) -> bool
    decreases s, 0int,
{
    if s.len() == 0 {
        true
    } else {
        all_hold(s.drop_last(), condition) && holds(s.last(), condition)
    }
}

/// Some tree of `s` holds.
pub open spec fn any_holds(s: Seq<FilterTree>, condition: spec_fn(Filter) -> bool) -> bool
    decreases s, 0int,
{
    if s.len() == 0 {
        false
    } else {
        any_holds(s.drop_last(), condition) || holds(s.last(), condition)
    }
}

pub proof fn lemma_all_hold_append(a: Seq<FilterTree>, b: Seq<FilterTree>, condition: spec_fn(Filter) -> bool)
    ensures
        all_hold(a + b, condition) == (all_hold(a, condition) && all_hold(b, condition)),
        any_holds(a + b, condition) == (any_holds(a, condition) || any_holds(b, condition)),
    decreases b.len(),
{
    if b.len() == 0 {
        assert(a + b =~= a);
    } else {
        lemma_all_hold_append(a, b.drop_last(), condition);
        assert((a + b).drop_last() =~= a + b.drop_last());
    }
}

/// The atoms of a filter tree, left to right.
pub open spec fn atoms(t: FilterTree) -> Seq<Filter>
    decreases t, 1int,
{
    match t {
        FilterTree::And(s) => all_atoms(s),
        FilterTree::Or(s) => all_atoms(s),
        FilterTree::Not(s) => all_atoms(s),
        FilterTree::Atom(f) => seq![f],
    }
}

/// The atoms of the trees of `s`, left to right.
pub open spec fn all_atoms(s: Seq<FilterTree>) -> Seq<Filter>
    decreases s, 0int,
{
    if s.len() == 0 {
        Seq::empty()
    } else {
        all_atoms(s.drop_last()) + atoms(s.last())
    }
}

pub proof fn lemma_all_atoms_append(a: Seq<FilterTree>, b: Seq<FilterTree>)
    ensures
        all_atoms(a + b) == all_atoms(a) + all_atoms(b),
    decreases b.len(),
{
    if b.len() == 0 {
        assert(a + b =~= a);
        assert(all_atoms(a) + all_atoms(b) =~= all_atoms(a));
    } else {
        lemma_all_atoms_append(a, b.drop_last());
        assert((a + b).drop_last() =~= a + b.drop_last());
        assert(all_atoms(a) + all_atoms(b) =~= all_atoms(a) + all_atoms(b.drop_last()) + atoms(b.last()));
    }
}

pub proof fn lemma_all_atoms_push(a: Seq<FilterTree>, t: FilterTree)
    ensures
        all_atoms(a.push(t)) == all_atoms(a) + atoms(t),
{
    assert(a.push(t).drop_last() =~= a);
}

pub proof fn lemma_all_atoms_single(t: FilterTree)
    ensures
        all_atoms(seq![t]) == atoms(t),
{
    let e = Seq::<FilterTree>::empty();
    assert(seq![t] =~= e.push(t));
    lemma_all_atoms_push(e, t);
    assert(all_atoms(e) == Seq::<Filter>::empty());
    assert(Seq::<Filter>::empty() + atoms(t) =~= atoms(t));
}

pub proof fn lemma_hold_single(t: FilterTree, condition: spec_fn(Filter) -> bool)
    ensures
        all_hold(seq![t], condition) == holds(t, condition),
        any_holds(seq![t], condition) == holds(t, condition),
{
    assert(seq![t].drop_last() =~= Seq::<FilterTree>::empty());
    assert(all_hold(Seq::<FilterTree>::empty(), condition));
    assert(!any_holds(Seq::<FilterTree>::empty(), condition));
}

pub proof fn lemma_trees_push(s: Seq<Filter>, f: Filter)
    ensures
        trees(s.push(f)) == trees(s).push(tree(f)),
{
    assert(s.push(f).drop_last() =~= s);
}

pub proof fn lemma_trees_take_next(s: Seq<Filter>, i: int)
    requires
        0 <= i < s.len(),
    ensures
        trees(s.take(i + 1)) == trees(s.take(i)).push(tree(s[i])),
{
    assert(s.take(i + 1) =~= s.take(i).push(s[i]));
    lemma_trees_push(s.take(i), s[i]);
}

pub proof fn lemma_trees_len(s: Seq<Filter>)
    ensures
        trees(s).len() == s.len(),
        forall|i: int| 0 <= i < s.len() ==> #[trigger] trees(s)[i] == tree(s[i]),
    decreases s.len(),
{
    if s.len() > 0 {
        lemma_trees_len(s.drop_last());
    }
}

pub proof fn lemma_trees_append(a: Seq<Filter>, b: Seq<Filter>)
    ensures
        trees(a + b) == trees(a) + trees(b),
    decreases b.len(),
{
    if b.len() == 0 {
        assert(a + b =~= a);
        assert(trees(a) + trees(b) =~= trees(a));
    } else {
        lemma_trees_append(a, b.drop_last());
        assert((a + b).drop_last() =~= a + b.drop_last());
        assert(trees(a) + trees(b) =~= (trees(a) + trees(b.drop_last())).push(tree(b.last())));
    }
}

/// The number of conditions of a filter: those of a group, none for the empty filter, one
/// otherwise.
pub open spec fn filter_size(f: Filter) -> nat {
    match f {
        Filter::And(v) => v@.len(),
        Filter::Or(v) => v@.len(),
        Filter::Not(v) => v@.len(),
        Filter::Empty => 0,
        _ => 1,
    }
}

impl Filter {
    /// The number of conditions of the filter.
    pub fn size(&self) -> (n: usize)
        ensures
            n == filter_size(*self),
    {
        match self {
            Filter::And(v) => v.len(),
            Filter::Or(v) => v.len(),
            Filter::Not(v) => v.len(),
            Filter::Empty => 0,
            _ => 1,
        }
    }
}

} // verus!
