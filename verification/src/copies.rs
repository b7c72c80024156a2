use vstd::prelude::*;
use crate::equality::{
    same_clv, same_composite, same_cond, same_cv, same_filter, same_filters, same_list_cond, same_path, same_value,
    same_value_entries, same_values,
};
use crate::filter::{
    CompositeCondition, ConditionListValue, ConditionValue, Filter, JsonFilterPath, ScalarCondition, ScalarFilter,
    ScalarListCondition,
};
use crate::query_graph::names;
use crate::query_graph::WriteOperation;
use crate::values::PrismaValue;
use crate::write_utils::copy_names;

verus! {

/// A copy of a value.
pub fn copy_value(p: &PrismaValue) -> (r: PrismaValue)
    ensures
        same_value(r, *p),
    decreases *p, 1int,
{
    match p {
        PrismaValue::Null => PrismaValue::Null,
        PrismaValue::Boolean(b) => PrismaValue::Boolean(*b),
        PrismaValue::Int(i) => PrismaValue::Int(*i),
        PrismaValue::BigInt(i) => PrismaValue::BigInt(*i),
        PrismaValue::String(s) => PrismaValue::String(s.clone()),
        PrismaValue::Enum(s) => PrismaValue::Enum(s.clone()),
        PrismaValue::Json(s) => PrismaValue::Json(s.clone()),
        PrismaValue::Bytes(b) => PrismaValue::Bytes(b.clone()),
        PrismaValue::List(v) => PrismaValue::List(copy_values(v)),
        PrismaValue::Object(v) => PrismaValue::Object(copy_value_entries(v)),
    }
}

fn copy_values(v: &Vec<PrismaValue>) -> (r: Vec<PrismaValue>)
    ensures
        same_values(r@, v@),
    decreases v@, 0int,
{
    let mut out: Vec<PrismaValue> = Vec::new();
    let n = v.len();
    let mut i: usize = 0;
    assert(v@.take(0) =~= Seq::<PrismaValue>::empty());
    while i < n
        invariant
            n == v@.len(),
            i <= n,
            same_values(out@, v@.take(i as int)),
        decreases n - i,
    {
        assert(decreases_to!(v@ => v@[i as int]));
        let c = copy_value(&v[i]);
        let ghost before = out@;
        out.push(c);
        assert(out@.drop_last() =~= before);
        assert(v@.take(i + 1).drop_last() =~= v@.take(i as int));
        i = i + 1;
    }
    assert(v@.take(n as int) =~= v@);
    out
}

fn copy_value_entries(v: &Vec<(String, PrismaValue)>) -> (r: Vec<(String, PrismaValue)>)
    ensures
        same_value_entries(r@, v@),
    decreases v@, 0int,
{
    let mut out: Vec<(String, PrismaValue)> = Vec::new();
    let n = v.len();
    let mut i: usize = 0;
    assert(v@.take(0) =~= Seq::<(String, PrismaValue)>::empty());
    while i < n
        invariant
            n == v@.len(),
            i <= n,
            same_value_entries(out@, v@.take(i as int)),
        decreases n - i,
    {
        assert(decreases_to!(v@ => v@[i as int]));
        assert(decreases_to!(v@[i as int] => v@[i as int].1));
        let c = copy_value(&v[i].1);
        let ghost before = out@;
        out.push((v[i].0.clone(), c));
        assert(out@.drop_last() =~= before);
        assert(v@.take(i + 1).drop_last() =~= v@.take(i as int));
        i = i + 1;
    }
    assert(v@.take(n as int) =~= v@);
    out
}

/// Two writes are equal: of the same kind, with equal values and equal nested writes.
pub open spec fn same_write(a: WriteOperation, b: WriteOperation) -> bool
    decreases a, 1int,
{
    match (a, b) {
        (WriteOperation::ScalarSet(x), WriteOperation::ScalarSet(y)) => same_value(x, y),
        (WriteOperation::ScalarAdd(x), WriteOperation::ScalarAdd(y)) => same_value(x, y),
        (WriteOperation::ScalarSubtract(x), WriteOperation::ScalarSubtract(y)) => same_value(x, y),
        (WriteOperation::ScalarMultiply(x), WriteOperation::ScalarMultiply(y)) => same_value(x, y),
        (WriteOperation::ScalarDivide(x), WriteOperation::ScalarDivide(y)) => same_value(x, y),
        (WriteOperation::CompositeSet(x), WriteOperation::CompositeSet(y)) => same_value(x, y),
        (WriteOperation::CompositeUnset(x), WriteOperation::CompositeUnset(y)) => x == y,
        (WriteOperation::CompositeUpdate(x), WriteOperation::CompositeUpdate(y)) => same_writes(x@, y@),
        _ => false,
    }
}

/// Entry by entry, the field names and the writes are equal.
pub open spec fn same_writes(s: Seq<(String, WriteOperation)>, t: Seq<(String, WriteOperation)>) -> bool
    decreases s, 0int,
{
    s.len() == t.len() && (s.len() > 0 ==> same_writes(s.drop_last(), t.drop_last()) && s.last().0@
        == t.last().0@ && same_write(s.last().1, t.last().1))
}

/// A copy of a write.
pub fn copy_write(op: &WriteOperation) -> (r: WriteOperation)
    ensures
        same_write(r, *op),
    decreases *op, 1int,
{
    match op {
        WriteOperation::ScalarSet(p) => WriteOperation::ScalarSet(copy_value(p)),
        WriteOperation::ScalarAdd(p) => WriteOperation::ScalarAdd(copy_value(p)),
        WriteOperation::ScalarSubtract(p) => WriteOperation::ScalarSubtract(copy_value(p)),
        WriteOperation::ScalarMultiply(p) => WriteOperation::ScalarMultiply(copy_value(p)),
        WriteOperation::ScalarDivide(p) => WriteOperation::ScalarDivide(copy_value(p)),
        WriteOperation::CompositeSet(p) => WriteOperation::CompositeSet(copy_value(p)),
        WriteOperation::CompositeUnset(b) => WriteOperation::CompositeUnset(*b),
        WriteOperation::CompositeUpdate(v) => WriteOperation::CompositeUpdate(copy_writes(v)),
    }
}

fn copy_writes(v: &Vec<(String, WriteOperation)>) -> (r: Vec<(String, WriteOperation)>)
    ensures
        same_writes(r@, v@),
    decreases v@, 0int,
{
    let mut out: Vec<(String, WriteOperation)> = Vec::new();
    let n = v.len();
    let mut i: usize = 0;
    assert(v@.take(0) =~= Seq::<(String, WriteOperation)>::empty());
    while i < n
        invariant
            n == v@.len(),
            i <= n,
            same_writes(out@, v@.take(i as int)),
        decreases n - i,
    {
        assert(decreases_to!(v@ => v@[i as int]));
        assert(decreases_to!(v@[i as int] => v@[i as int].1));
        let c = copy_write(&v[i].1);
        let ghost before = out@;
        out.push((v[i].0.clone(), c));
        assert(out@.drop_last() =~= before);
        assert(v@.take(i + 1).drop_last() =~= v@.take(i as int));
        i = i + 1;
    }
    assert(v@.take(n as int) =~= v@);
    out
}

fn copy_cv(c: &ConditionValue) -> (r: ConditionValue)
    ensures
        same_cv(r, *c),
{
    match c {
        ConditionValue::Value(v) => ConditionValue::Value(copy_value(v)),
        ConditionValue::FieldRef(n) => ConditionValue::FieldRef(n.clone()),
    }
}

fn copy_clv(c: &ConditionListValue) -> (r: ConditionListValue)
    ensures
        same_clv(r, *c),
{
    match c {
        ConditionListValue::List(v) => ConditionListValue::List(copy_values(v)),
        ConditionListValue::FieldRef(n) => ConditionListValue::FieldRef(n.clone()),
    }
}

fn copy_path(p: &Option<JsonFilterPath>) -> (r: Option<JsonFilterPath>)
    ensures
        same_path(r, *p),
{
    match p {
        Option::None => Option::None,
        Option::Some(JsonFilterPath::String(s)) => Option::Some(JsonFilterPath::String(s.clone())),
        Option::Some(JsonFilterPath::Array(v)) => Option::Some(JsonFilterPath::Array(copy_names(v))),
    }
}

fn copy_cond(c: &ScalarCondition) -> (r: ScalarCondition)
    ensures
        same_cond(r, *c),
{
    match c {
        ScalarCondition::Equals(v) => ScalarCondition::Equals(copy_cv(v)),
        ScalarCondition::NotEquals(v) => ScalarCondition::NotEquals(copy_cv(v)),
        ScalarCondition::Contains(v) => ScalarCondition::Contains(copy_cv(v)),
        ScalarCondition::NotContains(v) => ScalarCondition::NotContains(copy_cv(v)),
        ScalarCondition::StartsWith(v) => ScalarCondition::StartsWith(copy_cv(v)),
        ScalarCondition::NotStartsWith(v) => ScalarCondition::NotStartsWith(copy_cv(v)),
        ScalarCondition::EndsWith(v) => ScalarCondition::EndsWith(copy_cv(v)),
        ScalarCondition::NotEndsWith(v) => ScalarCondition::NotEndsWith(copy_cv(v)),
        ScalarCondition::LessThan(v) => ScalarCondition::LessThan(copy_cv(v)),
        ScalarCondition::LessThanOrEquals(v) => ScalarCondition::LessThanOrEquals(copy_cv(v)),
        ScalarCondition::GreaterThan(v) => ScalarCondition::GreaterThan(copy_cv(v)),
        ScalarCondition::GreaterThanOrEquals(v) => ScalarCondition::GreaterThanOrEquals(copy_cv(v)),
        ScalarCondition::In(v) => ScalarCondition::In(copy_clv(v)),
        ScalarCondition::NotIn(v) => ScalarCondition::NotIn(copy_clv(v)),
        ScalarCondition::Search(v) => ScalarCondition::Search(copy_cv(v)),
        ScalarCondition::NotSearch(v) => ScalarCondition::NotSearch(copy_cv(v)),
        ScalarCondition::IsSet(b) => ScalarCondition::IsSet(*b),
        ScalarCondition::GeometryWithin(v) => ScalarCondition::GeometryWithin(copy_cv(v)),
        ScalarCondition::GeometryNotWithin(v) => ScalarCondition::GeometryNotWithin(copy_cv(v)),
        ScalarCondition::GeometryIntersects(v) => ScalarCondition::GeometryIntersects(copy_cv(v)),
        ScalarCondition::GeometryNotIntersects(v) => ScalarCondition::GeometryNotIntersects(copy_cv(v)),
        ScalarCondition::Json(op, v, p, t) => ScalarCondition::Json(*op, copy_cv(v), copy_path(p), *t),
    }
}

fn copy_list_cond(c: &ScalarListCondition) -> (r: ScalarListCondition)
    ensures
        same_list_cond(r, *c),
{
    match c {
        ScalarListCondition::ContainsElement(v) => ScalarListCondition::ContainsElement(copy_cv(v)),
        ScalarListCondition::ContainsEvery(v) => ScalarListCondition::ContainsEvery(copy_clv(v)),
        ScalarListCondition::ContainsSome(v) => ScalarListCondition::ContainsSome(copy_clv(v)),
        ScalarListCondition::IsEmpty(b) => ScalarListCondition::IsEmpty(*b),
    }
}

/// A copy of a filter.
pub fn copy_filter(f: &Filter) -> (r: Filter)
    ensures
        same_filter(r, *f),
    decreases *f, 2int,
{
    match f {
        Filter::And(v) => Filter::And(copy_filters(v)),
        Filter::Or(v) => Filter::Or(copy_filters(v)),
        Filter::Not(v) => Filter::Not(copy_filters(v)),
        Filter::Scalar(sf) => Filter::Scalar(
            ScalarFilter { field: sf.field.clone(), condition: copy_cond(&sf.condition), mode: sf.mode },
        ),
        Filter::ScalarList(n, c) => Filter::ScalarList(n.clone(), copy_list_cond(c)),
        Filter::OneRelationIsNull(n) => Filter::OneRelationIsNull(n.clone()),
        Filter::Relation(n, c, inner) => Filter::Relation(n.clone(), *c, Box::new(copy_filter(inner))),
        Filter::Composite(n, c) => Filter::Composite(n.clone(), copy_composite(c)),
        Filter::Aggregation(k, inner) => Filter::Aggregation(*k, Box::new(copy_filter(inner))),
        Filter::BoolFilter(b) => Filter::BoolFilter(*b),
        Filter::Empty => Filter::Empty,
    }
}

fn copy_composite(c: &CompositeCondition) -> (r: CompositeCondition)
    ensures
        same_composite(r, *c),
    decreases *c, 1int,
{
    match c {
        CompositeCondition::EveryElement(f) => CompositeCondition::EveryElement(Box::new(copy_filter(f))),
        CompositeCondition::SomeElement(f) => CompositeCondition::SomeElement(Box::new(copy_filter(f))),
        CompositeCondition::NoElement(f) => CompositeCondition::NoElement(Box::new(copy_filter(f))),
        CompositeCondition::Is(f) => CompositeCondition::Is(Box::new(copy_filter(f))),
        CompositeCondition::IsNot(f) => CompositeCondition::IsNot(Box::new(copy_filter(f))),
        CompositeCondition::Empty(b) => CompositeCondition::Empty(*b),
        CompositeCondition::IsSet(b) => CompositeCondition::IsSet(*b),
        CompositeCondition::Equals(v) => CompositeCondition::Equals(copy_value(v)),
    }
}

fn copy_filters(v: &Vec<Filter>) -> (r: Vec<Filter>)
    ensures
        same_filters(r@, v@),
    decreases v@, 1int,
{
    let mut out: Vec<Filter> = Vec::new();
    let n = v.len();
    let mut i: usize = 0;
    assert(v@.take(0) =~= Seq::<Filter>::empty());
    while i < n
        invariant
            n == v@.len(),
            i <= n,
            same_filters(out@, v@.take(i as int)),
        decreases n - i,
    {
        assert(decreases_to!(v@ => v@[i as int]));
        let c = copy_filter(&v[i]);
        let ghost before = out@;
        out.push(c);
        assert(out@.drop_last() =~= before);
        assert(v@.take(i + 1).drop_last() =~= v@.take(i as int));
        i = i + 1;
    }
    assert(v@.take(n as int) =~= v@);
    out
}

} // verus!
