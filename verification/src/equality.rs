use vstd::prelude::*;
use crate::filter::{
    CompositeCondition, ConditionListValue, ConditionValue, Filter, JsonFilterPath, ScalarCondition,
    ScalarListCondition,
};
use crate::text::str_eq;
use crate::scalar::ScalarOp;
use crate::query_graph::names;
use crate::values::{ObjectTag, ParsedInputMap, ParsedInputValue, PrismaValue};

verus! {

/// Two values are equal: of the same kind, with equal texts, numbers and bytes, and equal
/// elements and entries, as the derived `==` compares them.
pub open spec fn same_value(a: PrismaValue, b: PrismaValue) -> bool
    decreases a, 1int,
{
    match (a, b) {
        (PrismaValue::Null, PrismaValue::Null) => true,
        (PrismaValue::Boolean(x), PrismaValue::Boolean(y)) => x == y,
        (PrismaValue::Int(x), PrismaValue::Int(y)) => x == y,
        (PrismaValue::BigInt(x), PrismaValue::BigInt(y)) => x == y,
        (PrismaValue::String(x), PrismaValue::String(y)) => x@ == y@,
        (PrismaValue::Enum(x), PrismaValue::Enum(y)) => x@ == y@,
        (PrismaValue::Json(x), PrismaValue::Json(y)) => x@ == y@,
        (PrismaValue::Bytes(x), PrismaValue::Bytes(y)) => x@ == y@,
        (PrismaValue::List(x), PrismaValue::List(y)) => same_values(x@, y@),
        (PrismaValue::Object(x), PrismaValue::Object(y)) => same_value_entries(x@, y@),
        _ => false,
    }
}

/// Element by element, the values are equal.
pub open spec fn same_values(s: Seq<PrismaValue>, t: Seq<PrismaValue>) -> bool
    decreases s, 0int,
{
    s.len() == t.len() && (s.len() > 0 ==> same_values(s.drop_last(), t.drop_last()) && same_value(s.last(), t.last()))
}

/// Entry by entry, the keys and values are equal.
pub open spec fn same_value_entries(s: Seq<(String, PrismaValue)>, t: Seq<(String, PrismaValue)>) -> bool
    decreases s, 0int,
{
    s.len() == t.len() && (s.len() > 0 ==> same_value_entries(s.drop_last(), t.drop_last()) && s.last().0@
        == t.last().0@ && same_value(s.last().1, t.last().1))
}

fn bytes_eq(a: &Vec<u8>, b: &Vec<u8>) -> (r: bool)
    ensures
        r == (a@ == b@),
{
    if a.len() != b.len() {
        return false;
    }
    let n = a.len();
    let mut i: usize = 0;
    while i < n
        invariant
            n == a@.len(),
            n == b@.len(),
            i <= n,
            forall|j: int| 0 <= j < i ==> a@[j] == b@[j],
        decreases n - i,
    {
        if a[i] != b[i] {
            return false;
        }
        i = i + 1;
    }
    assert(a@ =~= b@);
    true
}

/// Whether two values are equal.
pub fn value_eq(a: &PrismaValue, b: &PrismaValue) -> (r: bool)
    ensures
        r == same_value(*a, *b),
    decreases *a, 2int,
{
    match (a, b) {
        (PrismaValue::Null, PrismaValue::Null) => true,
        (PrismaValue::Boolean(x), PrismaValue::Boolean(y)) => *x == *y,
        (PrismaValue::Int(x), PrismaValue::Int(y)) => *x == *y,
        (PrismaValue::BigInt(x), PrismaValue::BigInt(y)) => *x == *y,
        (PrismaValue::String(x), PrismaValue::String(y)) => str_eq(x.as_str(), y.as_str()),
        (PrismaValue::Enum(x), PrismaValue::Enum(y)) => str_eq(x.as_str(), y.as_str()),
        (PrismaValue::Json(x), PrismaValue::Json(y)) => str_eq(x.as_str(), y.as_str()),
        (PrismaValue::Bytes(x), PrismaValue::Bytes(y)) => bytes_eq(x, y),
        (PrismaValue::List(x), PrismaValue::List(y)) => values_eq(x, y),
        (PrismaValue::Object(x), PrismaValue::Object(y)) => value_entries_eq(x, y),
        _ => false,
    }
}

/// Whether two lists of values are equal.
fn values_eq(a: &Vec<PrismaValue>, b: &Vec<PrismaValue>) -> (r: bool)
    ensures
        r == same_values(a@, b@),
    decreases a@, 1int,
{
    if a.len() != b.len() {
        return false;
    }
    let n = a.len();
    let mut i: usize = 0;
    assert(a@.take(0) =~= Seq::<PrismaValue>::empty());
    assert(b@.take(0) =~= Seq::<PrismaValue>::empty());
    while i < n
        invariant
            n == a@.len(),
            n == b@.len(),
            i <= n,
            same_values(a@.take(i as int), b@.take(i as int)),
        decreases n - i,
    {
        assert(decreases_to!(a@ => a@[i as int]));
        let same = value_eq(&a[i], &b[i]);
        if !same {
            proof { lemma_same_values_from(a@, b@, i as int); }
            return false;
        }
        proof {
            assert(a@.take(i as int + 1).drop_last() =~= a@.take(i as int));
            assert(b@.take(i as int + 1).drop_last() =~= b@.take(i as int));
        }
        i = i + 1;
    }
    assert(a@.take(n as int) =~= a@);
    assert(b@.take(n as int) =~= b@);
    true
}

/// Once a position differs, the lists differ.
proof fn lemma_same_values_from(s: Seq<PrismaValue>, t: Seq<PrismaValue>, k: int)
    requires
        0 <= k < s.len(),
        s.len() == t.len(),
        !same_value(s[k], t[k]),
    ensures
        !same_values(s, t),
    decreases s.len(),
{
    if k < s.len() - 1 {
        lemma_same_values_from(s.drop_last(), t.drop_last(), k);
    }
}

/// Once an entry differs, the lists of entries differ.
proof fn lemma_same_entries_from(s: Seq<(String, PrismaValue)>, t: Seq<(String, PrismaValue)>, k: int)
    requires
        0 <= k < s.len(),
        s.len() == t.len(),
        !(s[k].0@ == t[k].0@ && same_value(s[k].1, t[k].1)),
    ensures
        !same_value_entries(s, t),
    decreases s.len(),
{
    if k < s.len() - 1 {
        lemma_same_entries_from(s.drop_last(), t.drop_last(), k);
    }
}

/// Whether two lists of entries are equal.
fn value_entries_eq(a: &Vec<(String, PrismaValue)>, b: &Vec<(String, PrismaValue)>) -> (r: bool)
    ensures
        r == same_value_entries(a@, b@),
    decreases a@, 1int,
{
    if a.len() != b.len() {
        return false;
    }
    let n = a.len();
    let mut i: usize = 0;
    assert(a@.take(0) =~= Seq::<(String, PrismaValue)>::empty());
    assert(b@.take(0) =~= Seq::<(String, PrismaValue)>::empty());
    while i < n
        invariant
            n == a@.len(),
            n == b@.len(),
            i <= n,
            same_value_entries(a@.take(i as int), b@.take(i as int)),
        decreases n - i,
    {
        assert(decreases_to!(a@ => a@[i as int]));
        assert(decreases_to!(a@[i as int] => a@[i as int].1));
        let same = str_eq(a[i].0.as_str(), b[i].0.as_str()) && value_eq(&a[i].1, &b[i].1);
        if !same {
            proof { lemma_same_entries_from(a@, b@, i as int); }
            return false;
        }
        proof {
            assert(a@.take(i as int + 1).drop_last() =~= a@.take(i as int));
            assert(b@.take(i as int + 1).drop_last() =~= b@.take(i as int));
        }
        i = i + 1;
    }
    assert(a@.take(n as int) =~= a@);
    assert(b@.take(n as int) =~= b@);
    true
}

/// Two object tags are equal.
pub open spec fn same_tag(a: Option<ObjectTag>, b: Option<ObjectTag>) -> bool {
    match (a, b) {
        (Option::None, Option::None) => true,
        (Option::Some(ObjectTag::CompositeEnvelope), Option::Some(ObjectTag::CompositeEnvelope)) => true,
        (Option::Some(ObjectTag::Other), Option::Some(ObjectTag::Other)) => true,
        (Option::Some(ObjectTag::FieldRefType(x)), Option::Some(ObjectTag::FieldRefType(y))) => x@ == y@,
        _ => false,
    }
}

/// Two input values are equal, as the derived `==` compares them.
pub open spec fn same_input(a: ParsedInputValue, b: ParsedInputValue) -> bool
    decreases a, 1int,
{
    match (a, b) {
        (ParsedInputValue::Single(x), ParsedInputValue::Single(y)) => same_value(x, y),
        (ParsedInputValue::List(x), ParsedInputValue::List(y)) => same_inputs(x@, y@),
        (ParsedInputValue::Object(x), ParsedInputValue::Object(y)) => same_tag(x.tag, y.tag) && same_input_entries(
            x.entries@,
            y.entries@,
        ),
        _ => false,
    }
}

/// Element by element, the input values are equal.
pub open spec fn same_inputs(s: Seq<ParsedInputValue>, t: Seq<ParsedInputValue>) -> bool
    decreases s, 0int,
{
    s.len() == t.len() && (s.len() > 0 ==> same_inputs(s.drop_last(), t.drop_last()) && same_input(s.last(), t.last()))
}

/// Entry by entry, the keys and input values are equal.
pub open spec fn same_input_entries(s: Seq<(String, ParsedInputValue)>, t: Seq<(String, ParsedInputValue)>) -> bool
    decreases s, 0int,
{
    s.len() == t.len() && (s.len() > 0 ==> same_input_entries(s.drop_last(), t.drop_last()) && s.last().0@
        == t.last().0@ && same_input(s.last().1, t.last().1))
}

fn tag_eq(a: &Option<ObjectTag>, b: &Option<ObjectTag>) -> (r: bool)
    ensures
        r == same_tag(*a, *b),
{
    match (a, b) {
        (Option::None, Option::None) => true,
        (Option::Some(ObjectTag::CompositeEnvelope), Option::Some(ObjectTag::CompositeEnvelope)) => true,
        (Option::Some(ObjectTag::Other), Option::Some(ObjectTag::Other)) => true,
        (Option::Some(ObjectTag::FieldRefType(x)), Option::Some(ObjectTag::FieldRefType(y))) => str_eq(
            x.as_str(),
            y.as_str(),
        ),
        _ => false,
    }
}

proof fn lemma_same_inputs_from(s: Seq<ParsedInputValue>, t: Seq<ParsedInputValue>, k: int)
    requires
        0 <= k < s.len(),
        s.len() == t.len(),
        !same_input(s[k], t[k]),
    ensures
        !same_inputs(s, t),
    decreases s.len(),
{
    if k < s.len() - 1 {
        lemma_same_inputs_from(s.drop_last(), t.drop_last(), k);
    }
}

proof fn lemma_same_input_entries_from(s: Seq<(String, ParsedInputValue)>, t: Seq<(String, ParsedInputValue)>, k: int)
    requires
        0 <= k < s.len(),
        s.len() == t.len(),
        !(s[k].0@ == t[k].0@ && same_input(s[k].1, t[k].1)),
    ensures
        !same_input_entries(s, t),
    decreases s.len(),
{
    if k < s.len() - 1 {
        lemma_same_input_entries_from(s.drop_last(), t.drop_last(), k);
    }
}

/// Whether two input values are equal.
pub fn input_eq(a: &ParsedInputValue, b: &ParsedInputValue) -> (r: bool)
    ensures
        r == same_input(*a, *b),
    decreases *a, 2int,
{
    match (a, b) {
        (ParsedInputValue::Single(x), ParsedInputValue::Single(y)) => value_eq(x, y),
        (ParsedInputValue::List(x), ParsedInputValue::List(y)) => inputs_eq(x, y),
        (ParsedInputValue::Object(x), ParsedInputValue::Object(y)) => tag_eq(&x.tag, &y.tag) && input_entries_eq(
            &x.entries,
            &y.entries,
        ),
        _ => false,
    }
}

fn inputs_eq(a: &Vec<ParsedInputValue>, b: &Vec<ParsedInputValue>) -> (r: bool)
    ensures
        r == same_inputs(a@, b@),
    decreases a@, 1int,
{
    if a.len() != b.len() {
        return false;
    }
    let n = a.len();
    let mut i: usize = 0;
    assert(a@.take(0) =~= Seq::<ParsedInputValue>::empty());
    assert(b@.take(0) =~= Seq::<ParsedInputValue>::empty());
    while i < n
        invariant
            n == a@.len(),
            n == b@.len(),
            i <= n,
            same_inputs(a@.take(i as int), b@.take(i as int)),
        decreases n - i,
    {
        assert(decreases_to!(a@ => a@[i as int]));
        if !input_eq(&a[i], &b[i]) {
            proof { lemma_same_inputs_from(a@, b@, i as int); }
            return false;
        }
        proof {
            assert(a@.take(i as int + 1).drop_last() =~= a@.take(i as int));
            assert(b@.take(i as int + 1).drop_last() =~= b@.take(i as int));
        }
        i = i + 1;
    }
    assert(a@.take(n as int) =~= a@);
    assert(b@.take(n as int) =~= b@);
    true
}

fn input_entries_eq(a: &Vec<(String, ParsedInputValue)>, b: &Vec<(String, ParsedInputValue)>) -> (r: bool)
    ensures
        r == same_input_entries(a@, b@),
    decreases a@, 1int,
{
    if a.len() != b.len() {
        return false;
    }
    let n = a.len();
    let mut i: usize = 0;
    assert(a@.take(0) =~= Seq::<(String, ParsedInputValue)>::empty());
    assert(b@.take(0) =~= Seq::<(String, ParsedInputValue)>::empty());
    while i < n
        invariant
            n == a@.len(),
            n == b@.len(),
            i <= n,
            same_input_entries(a@.take(i as int), b@.take(i as int)),
        decreases n - i,
    {
        assert(decreases_to!(a@ => a@[i as int]));
        assert(decreases_to!(a@[i as int] => a@[i as int].1));
        let same = str_eq(a[i].0.as_str(), b[i].0.as_str()) && input_eq(&a[i].1, &b[i].1);
        if !same {
            proof { lemma_same_input_entries_from(a@, b@, i as int); }
            return false;
        }
        proof {
            assert(a@.take(i as int + 1).drop_last() =~= a@.take(i as int));
            assert(b@.take(i as int + 1).drop_last() =~= b@.take(i as int));
        }
        i = i + 1;
    }
    assert(a@.take(n as int) =~= a@);
    assert(b@.take(n as int) =~= b@);
    true
}

/// The comparison and right-hand side of a scalar condition that compares with one value.
pub open spec fn cond_parts(c: ScalarCondition) -> Option<(ScalarOp, ConditionValue)> {
    match c {
        ScalarCondition::Equals(cv) => Option::Some((ScalarOp::Equals, cv)),
        ScalarCondition::NotEquals(cv) => Option::Some((ScalarOp::NotEquals, cv)),
        ScalarCondition::Contains(cv) => Option::Some((ScalarOp::Contains, cv)),
        ScalarCondition::NotContains(cv) => Option::Some((ScalarOp::NotContains, cv)),
        ScalarCondition::StartsWith(cv) => Option::Some((ScalarOp::StartsWith, cv)),
        ScalarCondition::NotStartsWith(cv) => Option::Some((ScalarOp::NotStartsWith, cv)),
        ScalarCondition::EndsWith(cv) => Option::Some((ScalarOp::EndsWith, cv)),
        ScalarCondition::NotEndsWith(cv) => Option::Some((ScalarOp::NotEndsWith, cv)),
        ScalarCondition::LessThan(cv) => Option::Some((ScalarOp::LessThan, cv)),
        ScalarCondition::LessThanOrEquals(cv) => Option::Some((ScalarOp::LessThanOrEquals, cv)),
        ScalarCondition::GreaterThan(cv) => Option::Some((ScalarOp::GreaterThan, cv)),
        ScalarCondition::GreaterThanOrEquals(cv) => Option::Some((ScalarOp::GreaterThanOrEquals, cv)),
        ScalarCondition::Search(cv) => Option::Some((ScalarOp::Search, cv)),
        ScalarCondition::NotSearch(cv) => Option::Some((ScalarOp::NotSearch, cv)),
        ScalarCondition::GeometryWithin(cv) => Option::Some((ScalarOp::GeometryWithin, cv)),
        ScalarCondition::GeometryNotWithin(cv) => Option::Some((ScalarOp::GeometryNotWithin, cv)),
        ScalarCondition::GeometryIntersects(cv) => Option::Some((ScalarOp::GeometryIntersects, cv)),
        ScalarCondition::GeometryNotIntersects(cv) => Option::Some((ScalarOp::GeometryNotIntersects, cv)),
        _ => Option::None,
    }
}

fn split_cond(c: &ScalarCondition) -> (r: Option<(ScalarOp, &ConditionValue)>)
    ensures
        match cond_parts(*c) {
            Option::Some((op, cv)) => r matches Option::Some((o, v)) && o == op && *v == cv,
            Option::None => r is None,
        },
{
    match c {
        ScalarCondition::Equals(cv) => Option::Some((ScalarOp::Equals, cv)),
        ScalarCondition::NotEquals(cv) => Option::Some((ScalarOp::NotEquals, cv)),
        ScalarCondition::Contains(cv) => Option::Some((ScalarOp::Contains, cv)),
        ScalarCondition::NotContains(cv) => Option::Some((ScalarOp::NotContains, cv)),
        ScalarCondition::StartsWith(cv) => Option::Some((ScalarOp::StartsWith, cv)),
        ScalarCondition::NotStartsWith(cv) => Option::Some((ScalarOp::NotStartsWith, cv)),
        ScalarCondition::EndsWith(cv) => Option::Some((ScalarOp::EndsWith, cv)),
        ScalarCondition::NotEndsWith(cv) => Option::Some((ScalarOp::NotEndsWith, cv)),
        ScalarCondition::LessThan(cv) => Option::Some((ScalarOp::LessThan, cv)),
        ScalarCondition::LessThanOrEquals(cv) => Option::Some((ScalarOp::LessThanOrEquals, cv)),
        ScalarCondition::GreaterThan(cv) => Option::Some((ScalarOp::GreaterThan, cv)),
        ScalarCondition::GreaterThanOrEquals(cv) => Option::Some((ScalarOp::GreaterThanOrEquals, cv)),
        ScalarCondition::Search(cv) => Option::Some((ScalarOp::Search, cv)),
        ScalarCondition::NotSearch(cv) => Option::Some((ScalarOp::NotSearch, cv)),
        ScalarCondition::GeometryWithin(cv) => Option::Some((ScalarOp::GeometryWithin, cv)),
        ScalarCondition::GeometryNotWithin(cv) => Option::Some((ScalarOp::GeometryNotWithin, cv)),
        ScalarCondition::GeometryIntersects(cv) => Option::Some((ScalarOp::GeometryIntersects, cv)),
        ScalarCondition::GeometryNotIntersects(cv) => Option::Some((ScalarOp::GeometryNotIntersects, cv)),
        _ => Option::None,
    }
}

/// Two right-hand sides are equal.
pub open spec fn same_cv(a: ConditionValue, b: ConditionValue) -> bool {
    match (a, b) {
        (ConditionValue::Value(x), ConditionValue::Value(y)) => same_value(x, y),
        (ConditionValue::FieldRef(x), ConditionValue::FieldRef(y)) => x@ == y@,
        _ => false,
    }
}

fn cv_eq(a: &ConditionValue, b: &ConditionValue) -> (r: bool)
    ensures
        r == same_cv(*a, *b),
{
    match (a, b) {
        (ConditionValue::Value(x), ConditionValue::Value(y)) => value_eq(x, y),
        (ConditionValue::FieldRef(x), ConditionValue::FieldRef(y)) => str_eq(x.as_str(), y.as_str()),
        _ => false,
    }
}

/// Two list right-hand sides are equal.
pub open spec fn same_clv(a: ConditionListValue, b: ConditionListValue) -> bool {
    match (a, b) {
        (ConditionListValue::List(x), ConditionListValue::List(y)) => same_values(x@, y@),
        (ConditionListValue::FieldRef(x), ConditionListValue::FieldRef(y)) => x@ == y@,
        _ => false,
    }
}

fn clv_eq(a: &ConditionListValue, b: &ConditionListValue) -> (r: bool)
    ensures
        r == same_clv(*a, *b),
{
    match (a, b) {
        (ConditionListValue::List(x), ConditionListValue::List(y)) => values_eq(x, y),
        (ConditionListValue::FieldRef(x), ConditionListValue::FieldRef(y)) => str_eq(x.as_str(), y.as_str()),
        _ => false,
    }
}

fn names_eq(a: &Vec<String>, b: &Vec<String>) -> (r: bool)
    ensures
        r == (names(a@) == names(b@)),
{
    if a.len() != b.len() {
        assert(names(a@).len() != names(b@).len());
        return false;
    }
    let n = a.len();
    let mut i: usize = 0;
    while i < n
        invariant
            n == a@.len(),
            n == b@.len(),
            i <= n,
            forall|j: int| 0 <= j < i ==> a@[j]@ == b@[j]@,
        decreases n - i,
    {
        if !str_eq(a[i].as_str(), b[i].as_str()) {
            assert(names(a@)[i as int] != names(b@)[i as int]);
            return false;
        }
        i = i + 1;
    }
    assert(names(a@) =~= names(b@));
    true
}

/// Two JSON paths are equal.
pub open spec fn same_path(a: Option<JsonFilterPath>, b: Option<JsonFilterPath>) -> bool {
    match (a, b) {
        (Option::None, Option::None) => true,
        (Option::Some(JsonFilterPath::String(x)), Option::Some(JsonFilterPath::String(y))) => x@ == y@,
        (Option::Some(JsonFilterPath::Array(x)), Option::Some(JsonFilterPath::Array(y))) => names(x@) == names(y@),
        _ => false,
    }
}

fn path_eq(a: &Option<JsonFilterPath>, b: &Option<JsonFilterPath>) -> (r: bool)
    ensures
        r == same_path(*a, *b),
{
    match (a, b) {
        (Option::None, Option::None) => true,
        (Option::Some(JsonFilterPath::String(x)), Option::Some(JsonFilterPath::String(y))) => str_eq(
            x.as_str(),
            y.as_str(),
        ),
        (Option::Some(JsonFilterPath::Array(x)), Option::Some(JsonFilterPath::Array(y))) => names_eq(x, y),
        _ => false,
    }
}

/// Two scalar conditions are equal.
pub open spec fn same_cond(a: ScalarCondition, b: ScalarCondition) -> bool {
    match (cond_parts(a), cond_parts(b)) {
        (Option::Some((o1, v1)), Option::Some((o2, v2))) => o1 == o2 && same_cv(v1, v2),
        (Option::None, Option::None) => match (a, b) {
            (ScalarCondition::In(x), ScalarCondition::In(y)) => same_clv(x, y),
            (ScalarCondition::NotIn(x), ScalarCondition::NotIn(y)) => same_clv(x, y),
            (ScalarCondition::IsSet(x), ScalarCondition::IsSet(y)) => x == y,
            (ScalarCondition::Json(o1, v1, p1, t1), ScalarCondition::Json(o2, v2, p2, t2)) => o1 == o2 && same_cv(
                v1,
                v2,
            ) && same_path(p1, p2) && t1 == t2,
            _ => false,
        },
        _ => false,
    }
}

fn cond_eq(a: &ScalarCondition, b: &ScalarCondition) -> (r: bool)
    ensures
        r == same_cond(*a, *b),
{
    match (split_cond(a), split_cond(b)) {
        (Option::Some((o1, v1)), Option::Some((o2, v2))) => o1 == o2 && cv_eq(v1, v2),
        (Option::None, Option::None) => match (a, b) {
            (ScalarCondition::In(x), ScalarCondition::In(y)) => clv_eq(x, y),
            (ScalarCondition::NotIn(x), ScalarCondition::NotIn(y)) => clv_eq(x, y),
            (ScalarCondition::IsSet(x), ScalarCondition::IsSet(y)) => *x == *y,
            (ScalarCondition::Json(o1, v1, p1, t1), ScalarCondition::Json(o2, v2, p2, t2)) => *o1 == *o2 && cv_eq(
                v1,
                v2,
            ) && path_eq(p1, p2) && *t1 == *t2,
            _ => false,
        },
        _ => false,
    }
}

/// Two scalar list conditions are equal.
pub open spec fn same_list_cond(a: ScalarListCondition, b: ScalarListCondition) -> bool {
    match (a, b) {
        (ScalarListCondition::ContainsElement(x), ScalarListCondition::ContainsElement(y)) => same_cv(x, y),
        (ScalarListCondition::ContainsEvery(x), ScalarListCondition::ContainsEvery(y)) => same_clv(x, y),
        (ScalarListCondition::ContainsSome(x), ScalarListCondition::ContainsSome(y)) => same_clv(x, y),
        (ScalarListCondition::IsEmpty(x), ScalarListCondition::IsEmpty(y)) => x == y,
        _ => false,
    }
}

fn list_cond_eq(a: &ScalarListCondition, b: &ScalarListCondition) -> (r: bool)
    ensures
        r == same_list_cond(*a, *b),
{
    match (a, b) {
        (ScalarListCondition::ContainsElement(x), ScalarListCondition::ContainsElement(y)) => cv_eq(x, y),
        (ScalarListCondition::ContainsEvery(x), ScalarListCondition::ContainsEvery(y)) => clv_eq(x, y),
        (ScalarListCondition::ContainsSome(x), ScalarListCondition::ContainsSome(y)) => clv_eq(x, y),
        (ScalarListCondition::IsEmpty(x), ScalarListCondition::IsEmpty(y)) => *x == *y,
        _ => false,
    }
}

/// Two filters are equal, as the derived `==` compares them.
pub open spec fn same_filter(a: Filter, b: Filter) -> bool
    decreases a, 1int,
{
    match (a, b) {
        (Filter::And(x), Filter::And(y)) => same_filters(x@, y@),
        (Filter::Or(x), Filter::Or(y)) => same_filters(x@, y@),
        (Filter::Not(x), Filter::Not(y)) => same_filters(x@, y@),
        (Filter::Scalar(x), Filter::Scalar(y)) => x.field@ == y.field@ && x.mode == y.mode && same_cond(
            x.condition,
            y.condition,
        ),
        (Filter::ScalarList(n, c), Filter::ScalarList(m, d)) => n@ == m@ && same_list_cond(c, d),
        (Filter::OneRelationIsNull(n), Filter::OneRelationIsNull(m)) => n@ == m@,
        (Filter::Relation(n, c, f), Filter::Relation(m, d, g)) => n@ == m@ && c == d && same_filter(*f, *g),
        (Filter::Composite(n, c), Filter::Composite(m, d)) => n@ == m@ && same_composite(c, d),
        (Filter::Aggregation(k, f), Filter::Aggregation(l, g)) => k == l && same_filter(*f, *g),
        (Filter::BoolFilter(x), Filter::BoolFilter(y)) => x == y,
        (Filter::Empty, Filter::Empty) => true,
        _ => false,
    }
}

/// Two composite conditions are equal.
pub open spec fn same_composite(a: CompositeCondition, b: CompositeCondition) -> bool
    decreases a, 0int,
{
    match (a, b) {
        (CompositeCondition::EveryElement(f), CompositeCondition::EveryElement(g)) => same_filter(*f, *g),
        (CompositeCondition::SomeElement(f), CompositeCondition::SomeElement(g)) => same_filter(*f, *g),
        (CompositeCondition::NoElement(f), CompositeCondition::NoElement(g)) => same_filter(*f, *g),
        (CompositeCondition::Is(f), CompositeCondition::Is(g)) => same_filter(*f, *g),
        (CompositeCondition::IsNot(f), CompositeCondition::IsNot(g)) => same_filter(*f, *g),
        (CompositeCondition::Empty(x), CompositeCondition::Empty(y)) => x == y,
        (CompositeCondition::IsSet(x), CompositeCondition::IsSet(y)) => x == y,
        (CompositeCondition::Equals(x), CompositeCondition::Equals(y)) => same_value(x, y),
        _ => false,
    }
}

/// Element by element, the filters are equal.
pub open spec fn same_filters(s: Seq<Filter>, t: Seq<Filter>) -> bool
    decreases s, 0int,
{
    s.len() == t.len() && (s.len() > 0 ==> same_filters(s.drop_last(), t.drop_last()) && same_filter(s.last(), t.last()))
}

proof fn lemma_same_filters_from(s: Seq<Filter>, t: Seq<Filter>, k: int)
    requires
        0 <= k < s.len(),
        s.len() == t.len(),
        !same_filter(s[k], t[k]),
    ensures
        !same_filters(s, t),
    decreases s.len(),
{
    if k < s.len() - 1 {
        lemma_same_filters_from(s.drop_last(), t.drop_last(), k);
    }
}

/// Whether two filters are equal.
pub fn filter_eq(a: &Filter, b: &Filter) -> (r: bool)
    ensures
        r == same_filter(*a, *b),
    decreases *a, 2int,
{
    match (a, b) {
        (Filter::And(x), Filter::And(y)) => filters_eq(x, y),
        (Filter::Or(x), Filter::Or(y)) => filters_eq(x, y),
        (Filter::Not(x), Filter::Not(y)) => filters_eq(x, y),
        (Filter::Scalar(x), Filter::Scalar(y)) => str_eq(x.field.as_str(), y.field.as_str()) && x.mode == y.mode
            && cond_eq(&x.condition, &y.condition),
        (Filter::ScalarList(n, c), Filter::ScalarList(m, d)) => str_eq(n.as_str(), m.as_str()) && list_cond_eq(c, d),
        (Filter::OneRelationIsNull(n), Filter::OneRelationIsNull(m)) => str_eq(n.as_str(), m.as_str()),
        (Filter::Relation(n, c, f), Filter::Relation(m, d, g)) => str_eq(n.as_str(), m.as_str()) && *c == *d
            && filter_eq(f, g),
        (Filter::Composite(n, c), Filter::Composite(m, d)) => str_eq(n.as_str(), m.as_str()) && composite_eq(c, d),
        (Filter::Aggregation(k, f), Filter::Aggregation(l, g)) => *k == *l && filter_eq(f, g),
        (Filter::BoolFilter(x), Filter::BoolFilter(y)) => *x == *y,
        (Filter::Empty, Filter::Empty) => true,
        _ => false,
    }
}

fn composite_eq(a: &CompositeCondition, b: &CompositeCondition) -> (r: bool)
    ensures
        r == same_composite(*a, *b),
    decreases *a, 1int,
{
    match (a, b) {
        (CompositeCondition::EveryElement(f), CompositeCondition::EveryElement(g)) => filter_eq(f, g),
        (CompositeCondition::SomeElement(f), CompositeCondition::SomeElement(g)) => filter_eq(f, g),
        (CompositeCondition::NoElement(f), CompositeCondition::NoElement(g)) => filter_eq(f, g),
        (CompositeCondition::Is(f), CompositeCondition::Is(g)) => filter_eq(f, g),
        (CompositeCondition::IsNot(f), CompositeCondition::IsNot(g)) => filter_eq(f, g),
        (CompositeCondition::Empty(x), CompositeCondition::Empty(y)) => *x == *y,
        (CompositeCondition::IsSet(x), CompositeCondition::IsSet(y)) => *x == *y,
        (CompositeCondition::Equals(x), CompositeCondition::Equals(y)) => value_eq(x, y),
        _ => false,
    }
}

fn filters_eq(a: &Vec<Filter>, b: &Vec<Filter>) -> (r: bool)
    ensures
        r == same_filters(a@, b@),
    decreases a@, 1int,
{
    if a.len() != b.len() {
        return false;
    }
    let n = a.len();
    let mut i: usize = 0;
    assert(a@.take(0) =~= Seq::<Filter>::empty());
    assert(b@.take(0) =~= Seq::<Filter>::empty());
    while i < n
        invariant
            n == a@.len(),
            n == b@.len(),
            i <= n,
            same_filters(a@.take(i as int), b@.take(i as int)),
        decreases n - i,
    {
        assert(decreases_to!(a@ => a@[i as int]));
        if !filter_eq(&a[i], &b[i]) {
            proof { lemma_same_filters_from(a@, b@, i as int); }
            return false;
        }
        proof {
            assert(a@.take(i as int + 1).drop_last() =~= a@.take(i as int));
            assert(b@.take(i as int + 1).drop_last() =~= b@.take(i as int));
        }
        i = i + 1;
    }
    assert(a@.take(n as int) =~= a@);
    assert(b@.take(n as int) =~= b@);
    true
}

/// The filters of `s`, each kept unless it equals one kept before it, in order: the first
/// occurrence of each filter stays where it was.
pub open spec fn unique_filters_spec(s: Seq<Filter>) -> Seq<Filter>
    decreases s.len(),
{
    if s.len() == 0 {
        s
    } else {
        let d = unique_filters_spec(s.drop_last());
        if exists|k: int| 0 <= k < d.len() && same_filter(#[trigger] d[k], s.last()) {
            d
        } else {
            d.push(s.last())
        }
    }
}

/// The filters of `v` without repetitions: each is kept unless it equals one kept before it.
pub fn unique_filters(v: Vec<Filter>) -> (r: Vec<Filter>)
    ensures
        r@ == unique_filters_spec(v@),
{
    let ghost s = v@;
    let mut out: Vec<Filter> = Vec::new();
    for f in it: v.into_iter()
        invariant
            it.seq() == s,
            out@ == unique_filters_spec(s.take(it.index() as int)),
    {
        let ghost i = it.index() as int;
        let n = out.len();
        let mut k: usize = 0;
        let mut seen = false;
        while k < n
            invariant
                n == out@.len(),
                k <= n,
                seen == exists|j: int| 0 <= j < k && same_filter(#[trigger] out@[j], f),
            decreases n - k,
        {
            if filter_eq(&out[k], &f) {
                seen = true;
            }
            proof {
                if seen {
                    if !(exists|j: int| 0 <= j < k && same_filter(#[trigger] out@[j], f)) {
                        assert(same_filter(out@[k as int], f));
                    }
                }
            }
            k = k + 1;
        }
        proof {
            assert(s.take(i + 1).drop_last() =~= s.take(i));
            assert(s.take(i + 1).last() == f);
        }
        if !seen {
            out.push(f);
        }
    }
    proof { assert(s.take(s.len() as int) =~= s); }
    out
}

/// Dropping repeated filters keeps the first occurrence of each: every filter kept is one of
/// the input, every filter of the input is kept or equals one kept, and no filter kept equals
/// one kept before it.
pub proof fn lemma_unique_filters(s: Seq<Filter>)
    ensures
        forall|k: int|
            0 <= k < unique_filters_spec(s).len() ==> s.contains(#[trigger] unique_filters_spec(s)[k]),
        forall|i: int|
            0 <= i < s.len() ==> exists|k: int|
                0 <= k < unique_filters_spec(s).len() && (#[trigger] unique_filters_spec(s)[k] == #[trigger] s[i]
                    || same_filter(unique_filters_spec(s)[k], s[i])),
        forall|j: int, k: int|
            0 <= j < k < unique_filters_spec(s).len() ==> !same_filter(
                #[trigger] unique_filters_spec(s)[j],
                #[trigger] unique_filters_spec(s)[k],
            ),
    decreases s.len(),
{
    if s.len() > 0 {
        let p = s.drop_last();
        lemma_unique_filters(p);
        let d = unique_filters_spec(p);
        let r = unique_filters_spec(s);
        assert forall|k: int| 0 <= k < r.len() implies s.contains(#[trigger] r[k]) by {
            if k < d.len() {
                assert(r[k] == d[k]);
                let m = choose|m: int| 0 <= m < p.len() && p[m] == d[k];
                assert(s[m] == d[k]);
            } else {
                assert(r[k] == s.last());
                assert(s[s.len() - 1] == r[k]);
            }
        }
        assert forall|i: int| 0 <= i < s.len() implies exists|k: int|
            0 <= k < r.len() && (#[trigger] r[k] == #[trigger] s[i] || same_filter(r[k], s[i])) by {
            if i < s.len() - 1 {
                assert(s[i] == p[i]);
                let k = choose|k: int| 0 <= k < d.len() && (#[trigger] d[k] == #[trigger] p[i] || same_filter(d[k], p[i]));
                assert(r[k] == d[k]);
            } else if exists|k: int| 0 <= k < d.len() && same_filter(#[trigger] d[k], s.last()) {
                let k = choose|k: int| 0 <= k < d.len() && same_filter(#[trigger] d[k], s.last());
                assert(r[k] == d[k]);
                assert(same_filter(r[k], s[i]));
            } else {
                assert(r[d.len() as int] == s.last());
            }
        }
        assert forall|j: int, k: int| 0 <= j < k < r.len() implies !same_filter(#[trigger] r[j], #[trigger] r[k]) by {
            if k < d.len() {
                assert(r[j] == d[j] && r[k] == d[k]);
            } else {
                assert(r[j] == d[j]);
            }
        }
    }
}

} // verus!
