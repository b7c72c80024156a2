use vstd::prelude::*;
use crate::constants;
use crate::error::QueryGraphBuilderError;
use crate::filter::{
    AggregationKind, ConditionListValue, ConditionValue, Filter, JsonFilterPath, JsonOp, JsonTargetType,
    QueryMode, ScalarCondition, ScalarFilter, ScalarListCondition,
};
use crate::schema::{Container, ContainerKind, DataModel, Field, ScalarField, TypeIdentifier, container_index,
    field_index};
use crate::text::{str_eq, text};
use crate::values::{
    ParsedInputMap, ParsedInputValue, PrismaValue, converts, converts_all, input_text, key_index,
    lemma_converts_text, value_text,
};

verus! {

/// The name of a type as `{:?}` prints it.
pub open spec fn type_label(t: TypeIdentifier) -> Seq<char> {
    match t {
        TypeIdentifier::String => "String"@,
        TypeIdentifier::Int => "Int"@,
        TypeIdentifier::BigInt => "BigInt"@,
        TypeIdentifier::Float => "Float"@,
        TypeIdentifier::Decimal => "Decimal"@,
        TypeIdentifier::Boolean => "Boolean"@,
        TypeIdentifier::Enum => "Enum"@,
        TypeIdentifier::UUID => "UUID"@,
        TypeIdentifier::Json => "Json"@,
        TypeIdentifier::DateTime => "DateTime"@,
        TypeIdentifier::Bytes => "Bytes"@,
        TypeIdentifier::Geometry => "Geometry"@,
        TypeIdentifier::Unsupported => "Unsupported"@,
    }
}

pub fn type_name_str(t: TypeIdentifier) -> (s: &'static str)
    ensures
        s@ == type_label(t),
{
    match t {
        TypeIdentifier::String => "String",
        TypeIdentifier::Int => "Int",
        TypeIdentifier::BigInt => "BigInt",
        TypeIdentifier::Float => "Float",
        TypeIdentifier::Decimal => "Decimal",
        TypeIdentifier::Boolean => "Boolean",
        TypeIdentifier::Enum => "Enum",
        TypeIdentifier::UUID => "UUID",
        TypeIdentifier::Json => "Json",
        TypeIdentifier::DateTime => "DateTime",
        TypeIdentifier::Bytes => "Bytes",
        TypeIdentifier::Geometry => "Geometry",
        TypeIdentifier::Unsupported => "Unsupported",
    }
}

/// `"[]"` for a list field, nothing otherwise.
pub open spec fn list_marker(is_list: bool) -> Seq<char> {
    if is_list { "[]"@ } else { Seq::empty() }
}

/// How a container kind is named in messages.
pub open spec fn container_kind_name(k: ContainerKind) -> Seq<char> {
    match k {
        ContainerKind::Model => "model"@,
        ContainerKind::CompositeType => "composite type"@,
    }
}

pub fn container_kind_str(k: ContainerKind) -> (s: &'static str)
    ensures
        s@ == container_kind_name(k),
{
    match k {
        ContainerKind::Model => "model",
        ContainerKind::CompositeType => "composite type",
    }
}

/// The comparison of a scalar condition.
#[derive(Debug, Clone, Copy, PartialEq, Eq, Structural)]
pub enum ScalarOp {
    Equals,
    NotEquals,
    Contains,
    NotContains,
    StartsWith,
    NotStartsWith,
    EndsWith,
    NotEndsWith,
    LessThan,
    LessThanOrEquals,
    GreaterThan,
    GreaterThanOrEquals,
    Search,
    NotSearch,
    GeometryWithin,
    GeometryNotWithin,
    GeometryIntersects,
    GeometryNotIntersects,
}

/// The condition of comparison `op` against `cv`.
pub open spec fn op_condition(op: ScalarOp, cv: ConditionValue) -> ScalarCondition {
    match op {
        ScalarOp::Equals => ScalarCondition::Equals(cv),
        ScalarOp::NotEquals => ScalarCondition::NotEquals(cv),
        ScalarOp::Contains => ScalarCondition::Contains(cv),
        ScalarOp::NotContains => ScalarCondition::NotContains(cv),
        ScalarOp::StartsWith => ScalarCondition::StartsWith(cv),
        ScalarOp::NotStartsWith => ScalarCondition::NotStartsWith(cv),
        ScalarOp::EndsWith => ScalarCondition::EndsWith(cv),
        ScalarOp::NotEndsWith => ScalarCondition::NotEndsWith(cv),
        ScalarOp::LessThan => ScalarCondition::LessThan(cv),
        ScalarOp::LessThanOrEquals => ScalarCondition::LessThanOrEquals(cv),
        ScalarOp::GreaterThan => ScalarCondition::GreaterThan(cv),
        ScalarOp::GreaterThanOrEquals => ScalarCondition::GreaterThanOrEquals(cv),
        ScalarOp::Search => ScalarCondition::Search(cv),
        ScalarOp::NotSearch => ScalarCondition::NotSearch(cv),
        ScalarOp::GeometryWithin => ScalarCondition::GeometryWithin(cv),
        ScalarOp::GeometryNotWithin => ScalarCondition::GeometryNotWithin(cv),
        ScalarOp::GeometryIntersects => ScalarCondition::GeometryIntersects(cv),
        ScalarOp::GeometryNotIntersects => ScalarCondition::GeometryNotIntersects(cv),
    }
}

pub fn make_condition(op: ScalarOp, cv: ConditionValue) -> (c: ScalarCondition)
    ensures
        c == op_condition(op, cv),
{
    match op {
        ScalarOp::Equals => ScalarCondition::Equals(cv),
        ScalarOp::NotEquals => ScalarCondition::NotEquals(cv),
        ScalarOp::Contains => ScalarCondition::Contains(cv),
        ScalarOp::NotContains => ScalarCondition::NotContains(cv),
        ScalarOp::StartsWith => ScalarCondition::StartsWith(cv),
        ScalarOp::NotStartsWith => ScalarCondition::NotStartsWith(cv),
        ScalarOp::EndsWith => ScalarCondition::EndsWith(cv),
        ScalarOp::NotEndsWith => ScalarCondition::NotEndsWith(cv),
        ScalarOp::LessThan => ScalarCondition::LessThan(cv),
        ScalarOp::LessThanOrEquals => ScalarCondition::LessThanOrEquals(cv),
        ScalarOp::GreaterThan => ScalarCondition::GreaterThan(cv),
        ScalarOp::GreaterThanOrEquals => ScalarCondition::GreaterThanOrEquals(cv),
        ScalarOp::Search => ScalarCondition::Search(cv),
        ScalarOp::NotSearch => ScalarCondition::NotSearch(cv),
        ScalarOp::GeometryWithin => ScalarCondition::GeometryWithin(cv),
        ScalarOp::GeometryNotWithin => ScalarCondition::GeometryNotWithin(cv),
        ScalarOp::GeometryIntersects => ScalarCondition::GeometryIntersects(cv),
        ScalarOp::GeometryNotIntersects => ScalarCondition::GeometryNotIntersects(cv),
    }
}

/// Where the right-hand side of a produced condition comes from.
pub enum CondShape {
    /// A reference to the field of the container with this name.
    FieldRef(Seq<char>),
    /// The value that this input converts to.
    Input(ParsedInputValue),
    /// The null value.
    Null,
    /// The JSON value `null`.
    JsonNull,
}

/// Where the right-hand side of a produced list condition comes from.
pub enum ListShape {
    FieldRef(Seq<char>),
    /// The list of values that this input converts to.
    Input(ParsedInputValue),
}

/// A JSON path as the input gives it: one text, or a list of keys.
pub enum PathShape {
    Text(Seq<char>),
    Keys(Seq<Seq<char>>),
}

/// What a filter produced by the scalar filter parser is, field aside (it is always the
/// parser's field).
pub enum FilterShape {
    Scalar(ScalarOp, CondShape),
    In(ListShape),
    NotIn(ListShape),
    IsSet(bool),
    Json(JsonOp, CondShape, Option<PathShape>, Option<JsonTargetType>),
    ListContains(CondShape),
    ListContainsEvery(ListShape),
    ListContainsSome(ListShape),
    ListIsEmpty(bool),
    Aggregation(AggregationKind, Box<FilterShape>),
    And(Seq<FilterShape>),
    Or(Seq<FilterShape>),
}

/// `cv` is the right-hand side that `shape` describes.
pub open spec fn cond_shaped(cv: ConditionValue, shape: CondShape) -> bool {
    match shape {
        CondShape::FieldRef(n) => cv matches ConditionValue::FieldRef(m) && m@ == n,
        CondShape::Input(i) => cv matches ConditionValue::Value(p) && converts(i, p),
        CondShape::Null => cv == ConditionValue::Value(PrismaValue::Null),
        CondShape::JsonNull => cv matches ConditionValue::Value(PrismaValue::Json(t)) && t@ == "null"@,
    }
}

/// `lv` is the list right-hand side that `shape` describes.
pub open spec fn list_shaped(lv: ConditionListValue, shape: ListShape) -> bool {
    match shape {
        ListShape::FieldRef(n) => lv matches ConditionListValue::FieldRef(m) && m@ == n,
        ListShape::Input(i) => lv matches ConditionListValue::List(vs) && match i {
            ParsedInputValue::List(l) => converts_all(l@, vs@),
            ParsedInputValue::Single(PrismaValue::List(x)) => vs == x,
            _ => false,
        },
    }
}

/// `p` is the JSON path that `shape` describes.
pub open spec fn path_shaped(p: Option<JsonFilterPath>, shape: Option<PathShape>) -> bool {
    match shape {
        Option::None => p is None,
        Option::Some(PathShape::Text(t)) => p matches Option::Some(JsonFilterPath::String(s)) && s@ == t,
        Option::Some(PathShape::Keys(ks)) => p matches Option::Some(JsonFilterPath::Array(v)) && v@.len()
            == ks.len() && forall|i: int| 0 <= i < ks.len() ==> #[trigger] v@[i]@ == ks[i],
    }
}

/// `f` is a default-mode scalar filter on the field named `field` whose condition satisfies `c`.
pub open spec fn scalar_on(f: Filter, field: Seq<char>, c: spec_fn(ScalarCondition) -> bool) -> bool {
    match f {
        Filter::Scalar(sf) => sf.field@ == field && sf.mode == QueryMode::Default && c(sf.condition),
        _ => false,
    }
}

/// `f` is a scalar list filter on the field named `field` whose condition satisfies `c`.
pub open spec fn list_on(f: Filter, field: Seq<char>, c: spec_fn(ScalarListCondition) -> bool) -> bool {
    match f {
        Filter::ScalarList(n, cond) => n@ == field && c(cond),
        _ => false,
    }
}

/// `f` is the filter on the field named `field` that `shape` describes.
pub open spec fn shaped(f: Filter, shape: FilterShape, field: Seq<char>) -> bool
    decreases shape, 0int,
{
    match shape {
        FilterShape::Scalar(op, c) => scalar_on(
            f,
            field,
            |cond: ScalarCondition| exists|cv: ConditionValue| #[trigger] cond_shaped(cv, c) && cond == op_condition(op, cv),
        ),
        FilterShape::In(l) => scalar_on(
            f,
            field,
            |cond: ScalarCondition|
                match cond {
                    ScalarCondition::In(lv) => list_shaped(lv, l),
                    _ => false,
                },
        ),
        FilterShape::NotIn(l) => scalar_on(
            f,
            field,
            |cond: ScalarCondition|
                match cond {
                    ScalarCondition::NotIn(lv) => list_shaped(lv, l),
                    _ => false,
                },
        ),
        FilterShape::IsSet(b) => scalar_on(f, field, |cond: ScalarCondition| cond == ScalarCondition::IsSet(b)),
        FilterShape::Json(op, c, path, target) => scalar_on(
            f,
            field,
            |cond: ScalarCondition|
                match cond {
                    ScalarCondition::Json(op2, cv, p, t) => op2 == op && cond_shaped(cv, c) && path_shaped(p, path)
                        && t == target,
                    _ => false,
                },
        ),
        FilterShape::ListContains(c) => list_on(
            f,
            field,
            |cond: ScalarListCondition|
                match cond {
                    ScalarListCondition::ContainsElement(cv) => cond_shaped(cv, c),
                    _ => false,
                },
        ),
        FilterShape::ListContainsEvery(l) => list_on(
            f,
            field,
            |cond: ScalarListCondition|
                match cond {
                    ScalarListCondition::ContainsEvery(lv) => list_shaped(lv, l),
                    _ => false,
                },
        ),
        FilterShape::ListContainsSome(l) => list_on(
            f,
            field,
            |cond: ScalarListCondition|
                match cond {
                    ScalarListCondition::ContainsSome(lv) => list_shaped(lv, l),
                    _ => false,
                },
        ),
        FilterShape::ListIsEmpty(b) => list_on(
            f,
            field,
            |cond: ScalarListCondition| cond == ScalarListCondition::IsEmpty(b),
        ),
        FilterShape::Aggregation(k, inner) => match f {
            Filter::Aggregation(k2, b) => k2 == k && shaped(*b, *inner, field),
            _ => false,
        },
        FilterShape::And(s) => match f {
            Filter::And(v) => all_shaped(v@, s, field),
            _ => false,
        },
        FilterShape::Or(s) => match f {
            Filter::Or(v) => all_shaped(v@, s, field),
            _ => false,
        },
    }
}

/// Element by element, the filters of `fs` are what the shapes of `s` describe.
pub open spec fn all_shaped(fs: Seq<Filter>, s: Seq<FilterShape>, field: Seq<char>) -> bool
    decreases s, 1int,
{
    fs.len() == s.len() && (s.len() > 0 ==> all_shaped(fs.drop_last(), s.drop_last(), field) && shaped(
        fs.last(),
        s.last(),
        field,
    ))
}

pub proof fn lemma_all_shaped_append(
    fs1: Seq<Filter>,
    s1: Seq<FilterShape>,
    fs2: Seq<Filter>,
    s2: Seq<FilterShape>,
    field: Seq<char>,
)
    requires
        all_shaped(fs1, s1, field),
        all_shaped(fs2, s2, field),
    ensures
        all_shaped(fs1 + fs2, s1 + s2, field),
    decreases s2.len(),
{
    if s2.len() == 0 {
        assert(fs2.len() == 0);
        assert(fs1 + fs2 =~= fs1);
        assert(s1 + s2 =~= s1);
    } else {
        lemma_all_shaped_append(fs1, s1, fs2.drop_last(), s2.drop_last(), field);
        assert((fs1 + fs2).drop_last() =~= fs1 + fs2.drop_last());
        assert((s1 + s2).drop_last() =~= s1 + s2.drop_last());
    }
}

pub proof fn lemma_all_shaped_single(f: Filter, s: FilterShape, field: Seq<char>)
    requires
        shaped(f, s, field),
    ensures
        all_shaped(seq![f], seq![s], field),
{
    assert(seq![f].drop_last() =~= Seq::<Filter>::empty());
    assert(seq![s].drop_last() =~= Seq::<FilterShape>::empty());
    assert(all_shaped(Seq::<Filter>::empty(), Seq::<FilterShape>::empty(), field));
}


/// Parses the filter object on one scalar field into filters on that field.
pub struct ScalarFilterParser<'a> {
    /// The field on which the filters are applied.
    pub field: &'a ScalarField,
    /// The model or composite type that holds the field.
    pub container: &'a Container,
    /// The data model, to name the containers that field references point to.
    pub data_model: &'a DataModel,
    /// Whether it should extract inverted filters.
    pub reverse: bool,
    /// Whether the parser parses the filter object of a `_count` filter.
    pub is_count_filter: bool,
}

/// The entries of a map with the entry at `i` removed and the last entry moved into its place.
pub open spec fn swap_removed<A>(s: Seq<A>, i: int) -> Seq<A> {
    s.update(i, s.last()).drop_last()
}

/// The texts of a list of input values, if every one of them converts to a text.
pub open spec fn input_texts(l: Seq<ParsedInputValue>) -> Option<Seq<Seq<char>>> {
    if forall|i: int| 0 <= i < l.len() ==> (#[trigger] input_text(l[i])) is Some {
        Option::Some(Seq::new(l.len(), |i: int| input_text(l[i]).unwrap()))
    } else {
        Option::None
    }
}

/// The texts of a list of values, if every one of them is a text.
pub open spec fn value_texts(l: Seq<PrismaValue>) -> Option<Seq<Seq<char>>> {
    if forall|i: int| 0 <= i < l.len() ==> (#[trigger] value_text(l[i])) is Some {
        Option::Some(Seq::new(l.len(), |i: int| value_text(l[i]).unwrap()))
    } else {
        Option::None
    }
}

/// The JSON path that an input gives: a text, or a list of texts.
pub open spec fn path_spec(v: ParsedInputValue) -> Result<PathShape, Seq<char>> {
    match v {
        ParsedInputValue::Single(PrismaValue::String(s)) => Ok(PathShape::Text(s@)),
        ParsedInputValue::List(l) => match input_texts(l@) {
            Option::Some(ks) => Ok(PathShape::Keys(ks)),
            Option::None => Err("Json filtering array path elements must all be of type string"@),
        },
        ParsedInputValue::Single(PrismaValue::List(vs)) => match value_texts(vs@) {
            Option::Some(ks) => Ok(PathShape::Keys(ks)),
            Option::None => Err("Json filtering array path elements must all be of type string"@),
        },
        _ => Err("A JSON path must be a string or a list of strings."@),
    }
}

/// The input converts to a list of values.
pub open spec fn is_list_input(i: ParsedInputValue) -> bool {
    i is List || i matches ParsedInputValue::Single(PrismaValue::List(_))
}

/// The comparison that a scalar filter key names, if it names one, with the inversion applied.
pub open spec fn scalar_value_op(name: Seq<char>, reverse: bool) -> Option<ScalarOp> {
    if name == constants::EQUALS@ {
        Option::Some(if reverse { ScalarOp::NotEquals } else { ScalarOp::Equals })
    } else if name == constants::CONTAINS@ {
        Option::Some(if reverse { ScalarOp::NotContains } else { ScalarOp::Contains })
    } else if name == constants::STARTS_WITH@ {
        Option::Some(if reverse { ScalarOp::NotStartsWith } else { ScalarOp::StartsWith })
    } else if name == constants::ENDS_WITH@ {
        Option::Some(if reverse { ScalarOp::NotEndsWith } else { ScalarOp::EndsWith })
    } else if name == constants::LOWER_THAN@ {
        Option::Some(if reverse { ScalarOp::GreaterThanOrEquals } else { ScalarOp::LessThan })
    } else if name == constants::GREATER_THAN@ {
        Option::Some(if reverse { ScalarOp::LessThanOrEquals } else { ScalarOp::GreaterThan })
    } else if name == constants::LOWER_THAN_OR_EQUAL@ {
        Option::Some(if reverse { ScalarOp::GreaterThan } else { ScalarOp::LessThanOrEquals })
    } else if name == constants::GREATER_THAN_OR_EQUAL@ {
        Option::Some(if reverse { ScalarOp::LessThan } else { ScalarOp::GreaterThanOrEquals })
    } else if name == constants::SEARCH@ {
        Option::Some(if reverse { ScalarOp::NotSearch } else { ScalarOp::Search })
    } else if name == constants::GEO_WITHIN@ {
        Option::Some(if reverse { ScalarOp::GeometryNotWithin } else { ScalarOp::GeometryWithin })
    } else if name == constants::GEO_INTERSECTS@ {
        Option::Some(if reverse { ScalarOp::GeometryNotIntersects } else { ScalarOp::GeometryIntersects })
    } else {
        Option::None
    }
}

/// The aggregation that a filter key names, if it names one.
pub open spec fn aggregation_of(name: Seq<char>) -> Option<AggregationKind> {
    if name == constants::UNDERSCORE_COUNT@ {
        Option::Some(AggregationKind::Count)
    } else if name == constants::UNDERSCORE_AVG@ {
        Option::Some(AggregationKind::Average)
    } else if name == constants::UNDERSCORE_SUM@ {
        Option::Some(AggregationKind::Sum)
    } else if name == constants::UNDERSCORE_MIN@ {
        Option::Some(AggregationKind::Min)
    } else if name == constants::UNDERSCORE_MAX@ {
        Option::Some(AggregationKind::Max)
    } else {
        Option::None
    }
}

/// The JSON comparison that an ordering key names, with the inversion applied.
pub open spec fn json_order_op(name: Seq<char>, reverse: bool) -> Option<JsonOp> {
    if name == constants::LOWER_THAN@ {
        Option::Some(if reverse { JsonOp::GreaterThanOrEquals } else { JsonOp::LessThan })
    } else if name == constants::GREATER_THAN@ {
        Option::Some(if reverse { JsonOp::LessThanOrEquals } else { JsonOp::GreaterThan })
    } else if name == constants::LOWER_THAN_OR_EQUAL@ {
        Option::Some(if reverse { JsonOp::GreaterThan } else { JsonOp::LessThanOrEquals })
    } else if name == constants::GREATER_THAN_OR_EQUAL@ {
        Option::Some(if reverse { JsonOp::LessThan } else { JsonOp::GreaterThanOrEquals })
    } else {
        Option::None
    }
}

/// The comparison that holds exactly where `op` does not.
pub open spec fn negated_op(op: ScalarOp) -> ScalarOp {
    match op {
        ScalarOp::Equals => ScalarOp::NotEquals,
        ScalarOp::NotEquals => ScalarOp::Equals,
        ScalarOp::Contains => ScalarOp::NotContains,
        ScalarOp::NotContains => ScalarOp::Contains,
        ScalarOp::StartsWith => ScalarOp::NotStartsWith,
        ScalarOp::NotStartsWith => ScalarOp::StartsWith,
        ScalarOp::EndsWith => ScalarOp::NotEndsWith,
        ScalarOp::NotEndsWith => ScalarOp::EndsWith,
        ScalarOp::LessThan => ScalarOp::GreaterThanOrEquals,
        ScalarOp::GreaterThanOrEquals => ScalarOp::LessThan,
        ScalarOp::GreaterThan => ScalarOp::LessThanOrEquals,
        ScalarOp::LessThanOrEquals => ScalarOp::GreaterThan,
        ScalarOp::Search => ScalarOp::NotSearch,
        ScalarOp::NotSearch => ScalarOp::Search,
        ScalarOp::GeometryWithin => ScalarOp::GeometryNotWithin,
        ScalarOp::GeometryNotWithin => ScalarOp::GeometryWithin,
        ScalarOp::GeometryIntersects => ScalarOp::GeometryNotIntersects,
        ScalarOp::GeometryNotIntersects => ScalarOp::GeometryIntersects,
    }
}

/// The JSON ordering that holds exactly where `op` does not.
pub open spec fn negated_order(op: JsonOp) -> JsonOp {
    match op {
        JsonOp::LessThan => JsonOp::GreaterThanOrEquals,
        JsonOp::GreaterThanOrEquals => JsonOp::LessThan,
        JsonOp::GreaterThan => JsonOp::LessThanOrEquals,
        JsonOp::LessThanOrEquals => JsonOp::GreaterThan,
        _ => op,
    }
}

/// Inverting a scalar comparison negates it: under `not`, each key names the comparison that
/// holds exactly where the one it names otherwise does not, for plain and JSON orderings
/// alike, and negating twice gives the comparison back.
pub proof fn lemma_inversion_negates(name: Seq<char>, op: ScalarOp)
    ensures
        scalar_value_op(name, true) == match scalar_value_op(name, false) {
            Option::Some(o) => Option::Some(negated_op(o)),
            Option::None => Option::None,
        },
        json_order_op(name, true) == match json_order_op(name, false) {
            Option::Some(o) => Option::Some(negated_order(o)),
            Option::None => Option::None,
        },
        negated_op(negated_op(op)) == op,
{
}

/// The message of the error for an unknown scalar filter key.
pub open spec fn invalid_op_message(name: Seq<char>) -> Seq<char> {
    name + " is not a valid scalar filter operation"@
}

/// The message of the error for a filter key whose value must be an object.
pub open spec fn not_an_object_message(name: Seq<char>) -> Seq<char> {
    "The filter "@ + name + " expects an object."@
}

/// The message of the error for a filter key whose value must be a boolean.
pub open spec fn not_a_bool_message(name: Seq<char>) -> Seq<char> {
    "The filter "@ + name + " expects a boolean."@
}

/// The message of the error for a filter key whose value must be a list.
pub open spec fn not_a_list_message(name: Seq<char>) -> Seq<char> {
    "The filter "@ + name + " expects a list."@
}

/// The filter for a comparison on a JSON value whose right-hand side may be one of the
/// JSON null enum values: `DbNull` compares with the database null, `JsonNull` with the
/// JSON `null`, and `AnyNull` with both (all of them when `reverse`, any of them otherwise).
pub open spec fn json_null_shape(
    c: CondShape,
    op: JsonOp,
    path: Option<PathShape>,
    target: Option<JsonTargetType>,
    reverse: bool,
) -> FilterShape {
    match c {
        CondShape::Input(ParsedInputValue::Single(PrismaValue::Enum(e))) => if e@ == constants::DB_NULL@ {
            FilterShape::Json(op, CondShape::Null, path, target)
        } else if e@ == constants::JSON_NULL@ {
            FilterShape::Json(op, CondShape::JsonNull, path, target)
        } else if e@ == constants::ANY_NULL@ {
            let both = seq![
                FilterShape::Json(op, CondShape::JsonNull, path, target),
                FilterShape::Json(op, CondShape::Null, path, target),
            ];
            if reverse {
                FilterShape::And(both)
            } else {
                FilterShape::Or(both)
            }
        } else {
            FilterShape::Json(op, c, path, target)
        },
        _ => FilterShape::Json(op, c, path, target),
    }
}

/// A right-hand side where a null value stands for the JSON `null`.
pub open spec fn coerce_json_null_shape(c: CondShape) -> CondShape {
    match c {
        CondShape::Null => CondShape::JsonNull,
        CondShape::Input(ParsedInputValue::Single(PrismaValue::Null)) => CondShape::JsonNull,
        _ => c,
    }
}

/// The comparison of a JSON array or string key, without inversion, and its target type.
pub open spec fn json_target_op(name: Seq<char>) -> Option<(JsonOp, JsonTargetType)> {
    if name == constants::ARRAY_CONTAINS@ {
        Option::Some((JsonOp::Contains, JsonTargetType::Array))
    } else if name == constants::ARRAY_STARTS_WITH@ {
        Option::Some((JsonOp::StartsWith, JsonTargetType::Array))
    } else if name == constants::ARRAY_ENDS_WITH@ {
        Option::Some((JsonOp::EndsWith, JsonTargetType::Array))
    } else if name == constants::STRING_CONTAINS@ {
        Option::Some((JsonOp::Contains, JsonTargetType::String))
    } else if name == constants::STRING_STARTS_WITH@ {
        Option::Some((JsonOp::StartsWith, JsonTargetType::String))
    } else if name == constants::STRING_ENDS_WITH@ {
        Option::Some((JsonOp::EndsWith, JsonTargetType::String))
    } else {
        Option::None
    }
}

/// The inverted JSON comparison.
pub open spec fn json_negated(op: JsonOp) -> JsonOp {
    match op {
        JsonOp::Contains => JsonOp::NotContains,
        JsonOp::StartsWith => JsonOp::NotStartsWith,
        JsonOp::EndsWith => JsonOp::NotEndsWith,
        _ => op,
    }
}

/// The display name of a field of a container in messages: `container.field`.
pub open spec fn field_display(container: Seq<char>, field: Seq<char>) -> Seq<char> {
    container + "."@ + field
}

impl<'a> ScalarFilterParser<'a> {
    /// The parser for the same field with the inversion flipped, as a nested `not` object uses.
    pub open spec fn flipped(&self) -> ScalarFilterParser<'a> {
        ScalarFilterParser {
            field: self.field,
            container: self.container,
            data_model: self.data_model,
            reverse: !self.reverse,
            is_count_filter: false,
        }
    }

    /// The parser for the same field and inversion, for the filter object of an aggregation.
    pub open spec fn for_aggregation(&self, is_count_filter: bool) -> ScalarFilterParser<'a> {
        ScalarFilterParser {
            field: self.field,
            container: self.container,
            data_model: self.data_model,
            reverse: self.reverse,
            is_count_filter,
        }
    }

    /// The type that a referenced field must have: `Int` in a `_count` filter, the type of
    /// the field otherwise.
    pub open spec fn expected_type(&self) -> TypeIdentifier {
        if self.is_count_filter {
            TypeIdentifier::Int
        } else {
            self.field.type_identifier
        }
    }

    /// The name that a field reference object gives in its key `key`, and the entries that
    /// remain once it is taken out.
    pub open spec fn ref_entry(
        entries: Seq<(String, ParsedInputValue)>,
        key: Seq<char>,
    ) -> Result<(Seq<char>, Seq<(String, ParsedInputValue)>), Seq<char>> {
        match key_index(entries, key) {
            Option::Some(i) => match input_text(entries[i].1) {
                Option::Some(t) => Ok((t, swap_removed(entries, i))),
                Option::None => Err("A field reference names its field and container with texts."@),
            },
            Option::None => Err("A field reference names its field and container."@),
        }
    }

    /// The field that a field reference object refers to, checked against the kind and type
    /// that the filter expects.
    pub open spec fn field_ref_spec(
        &self,
        m: ParsedInputMap,
        expect_list: bool,
        expected: TypeIdentifier,
    ) -> Result<Seq<char>, Seq<char>> {
        match Self::ref_entry(m.entries@, constants::UNDERSCORE_REF@) {
            Err(e) => Err(e),
            Ok((r, rest)) => match Self::ref_entry(rest, constants::UNDERSCORE_CONTAINER@) {
                Err(e) => Err(e),
                Ok((c, _)) => if c != self.container.name@ {
                    match container_index(self.data_model.containers@, c) {
                        Option::None => Err("Model or composite type "@ + c + " used for field ref "@ + r
                            + " does not exist."@),
                        Option::Some(k) => Err("Expected a referenced scalar field of "@ + container_kind_name(
                            self.container.kind,
                        ) + " "@ + self.container.name@ + ", but found a field of "@ + container_kind_name(
                            self.data_model.containers@[k].kind,
                        ) + " "@ + c + "."@),
                    }
                } else {
                    match field_index(self.container.fields@, r) {
                        Option::Some(k) => match self.container.fields@[k] {
                            Field::Scalar(fr) => if fr.is_list == expect_list && fr.type_identifier == expected {
                                Ok(r)
                            } else {
                                Err("Expected a referenced scalar field of type "@ + type_label(expected)
                                    + list_marker(self.field.is_list) + " but found "@ + field_display(
                                    self.container.name@,
                                    fr.name@,
                                ) + " of type "@ + type_label(fr.type_identifier) + list_marker(fr.is_list)
                                    + "."@)
                            },
                            Field::Relation(rf) => Err("Expected a referenced scalar field "@ + field_display(
                                self.container.name@,
                                rf.name@,
                            ) + " but found a relation field."@),
                            Field::Composite(cf) => Err("Expected a referenced scalar field "@ + field_display(
                                self.container.name@,
                                cf.name@,
                            ) + " but found a composite field."@),
                        },
                        Option::None => Err("The referenced scalar field "@ + field_display(
                            self.container.name@,
                            r,
                        ) + " does not exist."@),
                    }
                },
            },
        }
    }

    /// The right-hand side of a condition: a field reference for an object, the converted
    /// value otherwise.
    pub open spec fn cond_value_spec(
        &self,
        input: ParsedInputValue,
        expect_list: bool,
        expected: TypeIdentifier,
    ) -> Result<CondShape, Seq<char>> {
        match input {
            ParsedInputValue::Object(m) => match self.field_ref_spec(m, expect_list, expected) {
                Ok(r) => Ok(CondShape::FieldRef(r)),
                Err(e) => Err(e),
            },
            _ => Ok(CondShape::Input(input)),
        }
    }

    /// The right-hand side of a list condition: a reference to a list field of the same type
    /// for an object, the converted list otherwise.
    pub open spec fn list_value_spec(&self, name: Seq<char>, input: ParsedInputValue) -> Result<ListShape, Seq<char>> {
        match input {
            ParsedInputValue::Object(m) => match Self::ref_entry(m.entries@, constants::UNDERSCORE_REF@) {
                Err(e) => Err(e),
                Ok((r, _)) => match field_index(self.container.fields@, r) {
                    Option::Some(k) => match self.container.fields@[k] {
                        Field::Scalar(fr) => if fr.is_list && fr.type_identifier == self.field.type_identifier {
                            Ok(ListShape::FieldRef(r))
                        } else {
                            Err("Expected a referenced scalar field of type "@ + type_label(
                                self.field.type_identifier,
                            ) + list_marker(self.field.is_list) + " but found "@ + field_display(
                                self.container.name@,
                                fr.name@,
                            ) + " of type "@ + type_label(fr.type_identifier) + list_marker(fr.is_list) + "."@)
                        },
                        Field::Relation(rf) => Err("Expected a referenced scalar list field "@ + field_display(
                            self.container.name@,
                            rf.name@,
                        ) + " but found a relation field."@),
                        Field::Composite(cf) => Err("Expected a referenced scalar list field "@ + field_display(
                            self.container.name@,
                            cf.name@,
                        ) + " but found a composite field."@),
                    },
                    Option::None => Err("The referenced scalar list field "@ + field_display(
                        self.container.name@,
                        r,
                    ) + " does not exist."@),
                },
            },
            _ => if is_list_input(input) {
                Ok(ListShape::Input(input))
            } else {
                Err(not_a_list_message(name))
            },
        }
    }
}


/// The position of the `j`-th entry that is processed once the entry at `path` (if any)
/// is swap-removed from a map with `len` entries.
pub open spec fn processing_order(path: Option<int>, j: int, len: int) -> int {
    match path {
        Option::Some(i) => if j == i { len - 1 } else { j },
        Option::None => j,
    }
}

/// Fails when a JSON path was given and no filter came out.
pub open spec fn check_path_used(r: Result<Seq<FilterShape>, Seq<char>>, path: Option<PathShape>) -> Result<
    Seq<FilterShape>,
    Seq<char>,
> {
    match r {
        Ok(fs) => if path is Some && fs.len() == 0 {
            Err("A JSON path cannot be set without a scalar filter."@)
        } else {
            Ok(fs)
        },
        Err(e) => Err(e),
    }
}

/// The shapes of `fs`, each wrapped in an aggregation filter of kind `k`.
pub open spec fn wrap_aggregation(fs: Seq<FilterShape>, k: AggregationKind) -> Seq<FilterShape> {
    fs.map_values(|f: FilterShape| FilterShape::Aggregation(k, Box::new(f)))
}

impl<'a> ScalarFilterParser<'a> {
    /// What parsing the filter object `m` gives: the JSON path (key `path`) is taken out
    /// first, then the remaining entries are parsed in turn (the last entry takes the place
    /// of the path) and their filters concatenated; the first failing entry decides the error.
    pub open spec fn parse_spec(&self, es: Seq<(String, ParsedInputValue)>) -> Result<Seq<FilterShape>, Seq<char>>
        decreases es, 1int, 0int,
    {
        let len = es.len() as int;
        match key_index(es, constants::PATH@) {
            Option::Some(i) => match path_spec(es[i].1) {
                Err(e) => Err(e),
                Ok(p) => check_path_used(
                    self.entries_spec(es, Option::Some(i), (len - 1) as nat, Option::Some(p)),
                    Option::Some(p),
                ),
            },
            Option::None => self.entries_spec(es, Option::None, len as nat, Option::None),
        }
    }

    /// The filters of the first `k` entries in processing order.
    pub open spec fn entries_spec(
        &self,
        es: Seq<(String, ParsedInputValue)>,
        path_index: Option<int>,
        k: nat,
        path: Option<PathShape>,
    ) -> Result<Seq<FilterShape>, Seq<char>>
        decreases es, 0int, k,
    {
        if k == 0 {
            Ok(Seq::empty())
        } else {
            match self.entries_spec(es, path_index, (k - 1) as nat, path) {
                Err(e) => Err(e),
                Ok(prev) => {
                    let idx = processing_order(path_index, k - 1, es.len() as int);
                    if 0 <= idx < es.len() {
                        match self.entry_spec(es[idx].0@, es[idx].1, path) {
                            Err(e) => Err(e),
                            Ok(x) => Ok(prev + x),
                        }
                    } else {
                        Err(Seq::empty())
                    }
                },
            }
        }
    }

    /// The filters of one entry: JSON fields have their own set of filter keys.
    pub open spec fn entry_spec(&self, name: Seq<char>, input: ParsedInputValue, path: Option<PathShape>) -> Result<
        Seq<FilterShape>,
        Seq<char>,
    >
        decreases input, 3int, 0int,
    {
        if self.field.type_identifier == TypeIdentifier::Json {
            self.json_entry_spec(name, input, path)
        } else {
            self.scalar_entry_spec(name, input)
        }
    }

    /// The filters of an aggregation entry: the filters of its object, each wrapped.
    pub open spec fn aggregation_spec(&self, name: Seq<char>, input: ParsedInputValue, k: AggregationKind) -> Result<
        Seq<FilterShape>,
        Seq<char>,
    >
        decreases input, 1int, 0int,
    {
        match input {
            ParsedInputValue::Object(m) => match self.for_aggregation(k == AggregationKind::Count).parse_spec(m.entries@) {
                Ok(fs) => Ok(wrap_aggregation(fs, k)),
                Err(e) => Err(e),
            },
            _ => Err(not_an_object_message(name)),
        }
    }

    /// The filters of one entry on a field that is not JSON.
    pub open spec fn scalar_entry_spec(&self, name: Seq<char>, input: ParsedInputValue) -> Result<
        Seq<FilterShape>,
        Seq<char>,
    >
        decreases input, 2int, 0int,
    {
        let reverse = self.reverse;
        if name == constants::NOT_LOWERCASE@ {
            match input {
                ParsedInputValue::Single(_) => Ok(seq![
                    FilterShape::Scalar(
                        if reverse { ScalarOp::Equals } else { ScalarOp::NotEquals },
                        CondShape::Input(input),
                    ),
                ]),
                ParsedInputValue::Object(m) => self.flipped().parse_spec(m.entries@),
                _ => Err(not_an_object_message(name)),
            }
        } else if name == constants::IN@ || name == constants::NOT_IN@ {
            let negated = (name == constants::IN@) == reverse;
            match self.cond_value_spec(input, true, self.expected_type()) {
                Err(e) => Err(e),
                Ok(CondShape::FieldRef(r)) => Ok(seq![
                    if negated { FilterShape::NotIn(ListShape::FieldRef(r)) } else { FilterShape::In(ListShape::FieldRef(r)) },
                ]),
                Ok(_) => if input == ParsedInputValue::Single(PrismaValue::Null) {
                    Ok(seq![
                        FilterShape::Scalar(if negated { ScalarOp::NotEquals } else { ScalarOp::Equals }, CondShape::Null),
                    ])
                } else if is_list_input(input) {
                    Ok(seq![
                        if negated { FilterShape::NotIn(ListShape::Input(input)) } else { FilterShape::In(ListShape::Input(input)) },
                    ])
                } else {
                    Err(not_a_list_message(name))
                },
            }
        } else if scalar_value_op(name, reverse) is Some {
            match self.cond_value_spec(input, false, self.expected_type()) {
                Err(e) => Err(e),
                Ok(c) => Ok(seq![FilterShape::Scalar(scalar_value_op(name, reverse).unwrap(), c)]),
            }
        } else if name == constants::IS_SET@ {
            match input {
                ParsedInputValue::Single(PrismaValue::Boolean(b)) => Ok(seq![FilterShape::IsSet(if reverse { !b } else { b })]),
                _ => Err(not_a_bool_message(name)),
            }
        } else if name == constants::HAS@ || name == constants::HAS_EVERY@ || name == constants::HAS_SOME@
            || name == constants::IS_EMPTY@ {
            self.list_entry_spec(name, input)
        } else if aggregation_of(name) is Some {
            self.aggregation_spec(name, input, aggregation_of(name).unwrap())
        } else {
            Err(invalid_op_message(name))
        }
    }

    /// The filters of one entry with a scalar list key: `has`, `hasEvery`, `hasSome`, `isEmpty`.
    pub open spec fn list_entry_spec(&self, name: Seq<char>, input: ParsedInputValue) -> Result<
        Seq<FilterShape>,
        Seq<char>,
    > {
        if name == constants::HAS@ {
            match self.cond_value_spec(input, false, self.expected_type()) {
                Err(e) => Err(e),
                Ok(c) => Ok(seq![FilterShape::ListContains(c)]),
            }
        } else if name == constants::HAS_EVERY@ {
            match self.list_value_spec(name, input) {
                Err(e) => Err(e),
                Ok(l) => Ok(seq![FilterShape::ListContainsEvery(l)]),
            }
        } else if name == constants::HAS_SOME@ {
            match self.list_value_spec(name, input) {
                Err(e) => Err(e),
                Ok(l) => Ok(seq![FilterShape::ListContainsSome(l)]),
            }
        } else {
            match input {
                ParsedInputValue::Single(PrismaValue::Boolean(b)) => Ok(seq![FilterShape::ListIsEmpty(b)]),
                _ => Err(not_a_bool_message(name)),
            }
        }
    }

    /// The filters of one entry on a JSON field.
    pub open spec fn json_entry_spec(&self, name: Seq<char>, input: ParsedInputValue, path: Option<PathShape>) -> Result<
        Seq<FilterShape>,
        Seq<char>,
    >
        decreases input, 2int, 0int,
    {
        let reverse = self.reverse;
        if name == constants::NOT_LOWERCASE@ {
            match input {
                ParsedInputValue::Single(_) => Ok(seq![
                    json_null_shape(
                        CondShape::Input(input),
                        if reverse { JsonOp::Equals } else { JsonOp::NotEquals },
                        path,
                        Option::None,
                        !reverse,
                    ),
                ]),
                ParsedInputValue::Object(m) => if m.tag matches Option::Some(
                    crate::values::ObjectTag::FieldRefType(_),
                ) {
                    match self.cond_value_spec(input, false, self.expected_type()) {
                        Err(e) => Err(e),
                        Ok(c) => Ok(seq![
                            FilterShape::Json(
                                if reverse { JsonOp::Equals } else { JsonOp::NotEquals },
                                c,
                                path,
                                Option::None,
                            ),
                        ]),
                    }
                } else {
                    self.flipped().parse_spec(m.entries@)
                },
                _ => Err(not_an_object_message(name)),
            }
        } else if name == constants::EQUALS@ {
            match self.cond_value_spec(input, false, self.expected_type()) {
                Err(e) => Err(e),
                Ok(c) => Ok(seq![
                    json_null_shape(c, if reverse { JsonOp::NotEquals } else { JsonOp::Equals }, path, Option::None, reverse),
                ]),
            }
        } else if json_order_op(name, reverse) is Some {
            match self.cond_value_spec(input, false, self.expected_type()) {
                Err(e) => Err(e),
                Ok(c) => Ok(seq![FilterShape::Json(json_order_op(name, reverse).unwrap(), c, path, Option::None)]),
            }
        } else if name == constants::HAS@ || name == constants::HAS_EVERY@ || name == constants::HAS_SOME@
            || name == constants::IS_EMPTY@ {
            self.list_entry_spec(name, input)
        } else if json_target_op(name) is Some {
            let (op, target) = json_target_op(name).unwrap();
            let op = if reverse { json_negated(op) } else { op };
            if target == JsonTargetType::Array {
                match self.cond_value_spec(input, false, self.expected_type()) {
                    Err(e) => Err(e),
                    Ok(c) => {
                        let c = if name == constants::ARRAY_ENDS_WITH@ && !reverse { c } else { coerce_json_null_shape(c) };
                        Ok(seq![json_null_shape(c, op, path, Option::Some(JsonTargetType::Array), true)])
                    },
                }
            } else {
                match self.cond_value_spec(input, false, TypeIdentifier::String) {
                    Err(e) => Err(e),
                    Ok(c) => Ok(seq![FilterShape::Json(op, c, path, Option::Some(JsonTargetType::String))]),
                }
            }
        } else {
            Err(invalid_op_message(name))
        }
    }
}


/// `q` is the parser `p` with the inversion switched on.
pub open spec fn inverted_of<'a>(q: ScalarFilterParser<'a>, p: ScalarFilterParser<'a>) -> bool {
    &&& q.field == p.field
    &&& q.container == p.container
    &&& q.data_model == p.data_model
    &&& q.is_count_filter == p.is_count_filter
    &&& !p.reverse
    &&& q.reverse
}

/// Inverting a parser negates each comparison key of a scalar filter: where a parser reads
/// the key `name` (such as `equals`, `contains`, `startsWith`, `endsWith`, `lt`, `lte`, `gt`,
/// `gte`) on `input` as the comparison `o` with right-hand side `c`, the inverted parser reads
/// it as the negation of `o` (`lt` becoming `gte`, `gt` becoming `lte`, `lte` becoming `gt`,
/// `gte` becoming `lt`, `equals` becoming not-equals, and so on) with the same `c`; an input
/// that is refused is refused by both.
#[verifier::rlimit(50)]
pub proof fn lemma_inverted_comparison<'a>(
    p: ScalarFilterParser<'a>,
    q: ScalarFilterParser<'a>,
    name: Seq<char>,
    input: ParsedInputValue,
)
    requires
        inverted_of(q, p),
        scalar_value_op(name, false) is Some,
    ensures
        match p.cond_value_spec(input, false, p.expected_type()) {
            Ok(c) => {
                &&& p.scalar_entry_spec(name, input) == Ok::<Seq<FilterShape>, Seq<char>>(
                    seq![FilterShape::Scalar(scalar_value_op(name, false)->0, c)],
                )
                &&& q.scalar_entry_spec(name, input) == Ok::<Seq<FilterShape>, Seq<char>>(
                    seq![FilterShape::Scalar(negated_op(scalar_value_op(name, false)->0), c)],
                )
            },
            Err(e) => p.scalar_entry_spec(name, input) == Err::<Seq<FilterShape>, Seq<char>>(e)
                && q.scalar_entry_spec(name, input) == Err::<Seq<FilterShape>, Seq<char>>(e),
        },
{
    reveal_strlit("not");
    reveal_strlit("in");
    reveal_strlit("notIn");
    lemma_comparison_keys(name);
    lemma_inversion_negates(name, scalar_value_op(name, false)->0);
    assert(q.expected_type() == p.expected_type());
    assert(q.cond_value_spec(input, false, q.expected_type()) == p.cond_value_spec(input, false, p.expected_type()));
}

/// A key that names a comparison is none of `not`, `in` and `notIn`.
proof fn lemma_comparison_keys(name: Seq<char>)
    requires
        scalar_value_op(name, false) is Some,
    ensures
        name != constants::NOT_LOWERCASE@,
        name != constants::IN@,
        name != constants::NOT_IN@,
{
    reveal_strlit("not");
    reveal_strlit("in");
    reveal_strlit("notIn");
    reveal_strlit("equals");
    reveal_strlit("contains");
    reveal_strlit("startsWith");
    reveal_strlit("endsWith");
    reveal_strlit("lt");
    reveal_strlit("gt");
    reveal_strlit("lte");
    reveal_strlit("gte");
    reveal_strlit("search");
    reveal_strlit("geoWithin");
    reveal_strlit("geoIntersects");
    assert(constants::NOT_LOWERCASE@[0] == 'n');
    assert(constants::IN@[0] == 'i');
    assert(constants::LOWER_THAN@[0] == 'l');
    assert(constants::GREATER_THAN@[0] == 'g');
    assert(constants::LOWER_THAN_OR_EQUAL@[0] == 'l');
    assert(constants::GREATER_THAN_OR_EQUAL@[0] == 'g');
    if name == constants::NOT_LOWERCASE@ || name == constants::IN@ || name == constants::NOT_IN@ {
        assert(name[0] == 'n' || name[0] == 'i');
        assert(name != constants::LOWER_THAN@);
        assert(name != constants::GREATER_THAN@);
        assert(name != constants::LOWER_THAN_OR_EQUAL@);
        assert(name != constants::GREATER_THAN_OR_EQUAL@);
        assert(name.len() == 2 || name.len() == 3 || name.len() == 5);
        assert(scalar_value_op(name, false) is None);
    }
}

/// Inverting a parser turns the JSON comparison of a field with `AnyNull` into its De
/// Morgan dual: a parser reads `equals: AnyNull` as either null (the JSON `null` or the
/// database null) and the inverted parser as neither of them.
#[verifier::rlimit(50)]
pub proof fn lemma_inverted_any_null<'a>(
    p: ScalarFilterParser<'a>,
    q: ScalarFilterParser<'a>,
    e: String,
    path: Option<PathShape>,
)
    requires
        inverted_of(q, p),
        e@ == constants::ANY_NULL@,
    ensures
        p.json_entry_spec(constants::EQUALS@, ParsedInputValue::Single(PrismaValue::Enum(e)), path) == Ok::<
            Seq<FilterShape>,
            Seq<char>,
        >(
            seq![
                FilterShape::Or(
                    seq![
                        FilterShape::Json(JsonOp::Equals, CondShape::JsonNull, path, Option::None),
                        FilterShape::Json(JsonOp::Equals, CondShape::Null, path, Option::None),
                    ],
                ),
            ],
        ),
        q.json_entry_spec(constants::EQUALS@, ParsedInputValue::Single(PrismaValue::Enum(e)), path) == Ok::<
            Seq<FilterShape>,
            Seq<char>,
        >(
            seq![
                FilterShape::And(
                    seq![
                        FilterShape::Json(JsonOp::NotEquals, CondShape::JsonNull, path, Option::None),
                        FilterShape::Json(JsonOp::NotEquals, CondShape::Null, path, Option::None),
                    ],
                ),
            ],
        ),
{
    reveal_strlit("not");
    reveal_strlit("equals");
    reveal_strlit("AnyNull");
    reveal_strlit("DbNull");
    reveal_strlit("JsonNull");
    assert(constants::EQUALS@ != constants::NOT_LOWERCASE@) by {
        assert(constants::EQUALS@.len() != constants::NOT_LOWERCASE@.len());
    }
    assert(e@ != constants::DB_NULL@) by {
        assert(constants::ANY_NULL@.len() != constants::DB_NULL@.len());
    }
    assert(e@ != constants::JSON_NULL@) by {
        assert(constants::ANY_NULL@.len() != constants::JSON_NULL@.len());
    }
    let input = ParsedInputValue::Single(PrismaValue::Enum(e));
    assert(p.cond_value_spec(input, false, p.expected_type()) == Ok::<CondShape, Seq<char>>(CondShape::Input(input)));
    assert(q.cond_value_spec(input, false, q.expected_type()) == Ok::<CondShape, Seq<char>>(CondShape::Input(input)));
}

/// A key that names a comparison is not the key of a JSON path.
proof fn lemma_comparison_not_path(name: Seq<char>)
    requires
        scalar_value_op(name, false) is Some,
    ensures
        name != constants::PATH@,
{
    reveal_strlit("path");
    reveal_strlit("equals");
    reveal_strlit("contains");
    reveal_strlit("startsWith");
    reveal_strlit("endsWith");
    reveal_strlit("lt");
    reveal_strlit("gt");
    reveal_strlit("lte");
    reveal_strlit("gte");
    reveal_strlit("search");
    reveal_strlit("geoWithin");
    reveal_strlit("geoIntersects");
    if name == constants::PATH@ {
        assert(name[0] == 'p');
        assert(constants::EQUALS@[0] == 'e');
        assert(constants::CONTAINS@[0] == 'c');
        assert(constants::STARTS_WITH@[0] == 's');
        assert(constants::ENDS_WITH@[0] == 'e');
        assert(constants::LOWER_THAN@[0] == 'l');
        assert(constants::GREATER_THAN@[0] == 'g');
        assert(constants::LOWER_THAN_OR_EQUAL@[0] == 'l');
        assert(constants::GREATER_THAN_OR_EQUAL@[0] == 'g');
        assert(constants::SEARCH@[0] == 's');
        assert(constants::GEO_WITHIN@[0] == 'g');
        assert(constants::GEO_INTERSECTS@[0] == 'g');
        assert(scalar_value_op(name, false) is None);
    }
}

/// What a parser makes of a filter object of one entry that is no JSON path: the filters of
/// that entry.
proof fn lemma_one_entry_parsed<'a>(p: ScalarFilterParser<'a>, key: String, input: ParsedInputValue)
    requires
        key@ != constants::PATH@,
    ensures
        p.parse_spec(seq![(key, input)]) == p.entry_spec(key@, input, Option::None),
{
    let es = seq![(key, input)];
    crate::values::lemma_key_index_valid(es, constants::PATH@);
    assert(key_index(es, constants::PATH@) is None);
    assert(p.entries_spec(es, Option::None, 0, Option::None) == Ok::<Seq<FilterShape>, Seq<char>>(Seq::empty()));
    assert(processing_order(Option::None, 0, 1) == 0);
    match p.entry_spec(key@, input, Option::None) {
        Ok(x) => {
            assert(Seq::<FilterShape>::empty() + x =~= x);
        },
        Err(_) => {},
    }
}

/// Inverting a parser negates each comparison of a filter object: where a parser parses the
/// object `{ key: input }` on a field that is not JSON, `key` naming a comparison (such as
/// `equals`, `contains`, `startsWith`, `endsWith`, `lt`, `lte`, `gt`, `gte`), into that
/// comparison with right-hand side `c`, the inverted parser parses it into its negation
/// (`lt` becoming `gte`, `gt` becoming `lte`, `lte` becoming `gt`, `gte` becoming `lt`,
/// `equals` becoming not-equals, and so on) with the same `c`; an object that one refuses,
/// the other refuses with the same message.
pub proof fn lemma_inverted_filter_object<'a>(
    p: ScalarFilterParser<'a>,
    q: ScalarFilterParser<'a>,
    key: String,
    input: ParsedInputValue,
)
    requires
        inverted_of(q, p),
        p.field.type_identifier != TypeIdentifier::Json,
        scalar_value_op(key@, false) is Some,
    ensures
        match p.cond_value_spec(input, false, p.expected_type()) {
            Ok(c) => {
                &&& p.parse_spec(seq![(key, input)]) == Ok::<Seq<FilterShape>, Seq<char>>(
                    seq![FilterShape::Scalar(scalar_value_op(key@, false)->0, c)],
                )
                &&& q.parse_spec(seq![(key, input)]) == Ok::<Seq<FilterShape>, Seq<char>>(
                    seq![FilterShape::Scalar(negated_op(scalar_value_op(key@, false)->0), c)],
                )
            },
            Err(e) => p.parse_spec(seq![(key, input)]) == Err::<Seq<FilterShape>, Seq<char>>(e)
                && q.parse_spec(seq![(key, input)]) == Err::<Seq<FilterShape>, Seq<char>>(e),
        },
{
    lemma_comparison_not_path(key@);
    lemma_one_entry_parsed(p, key, input);
    lemma_one_entry_parsed(q, key, input);
    lemma_inverted_comparison(p, q, key@, input);
}

/// Inverting a parser turns the filter object `{ equals: AnyNull }` on a JSON field into its
/// De Morgan dual: a parser parses it into either null (the JSON `null` or the database
/// null), the inverted parser into neither of them.
pub proof fn lemma_inverted_any_null_object<'a>(
    p: ScalarFilterParser<'a>,
    q: ScalarFilterParser<'a>,
    key: String,
    e: String,
)
    requires
        inverted_of(q, p),
        p.field.type_identifier == TypeIdentifier::Json,
        key@ == constants::EQUALS@,
        e@ == constants::ANY_NULL@,
    ensures
        p.parse_spec(seq![(key, ParsedInputValue::Single(PrismaValue::Enum(e)))]) == Ok::<Seq<FilterShape>, Seq<char>>(
            seq![
                FilterShape::Or(
                    seq![
                        FilterShape::Json(JsonOp::Equals, CondShape::JsonNull, Option::None, Option::None),
                        FilterShape::Json(JsonOp::Equals, CondShape::Null, Option::None, Option::None),
                    ],
                ),
            ],
        ),
        q.parse_spec(seq![(key, ParsedInputValue::Single(PrismaValue::Enum(e)))]) == Ok::<Seq<FilterShape>, Seq<char>>(
            seq![
                FilterShape::And(
                    seq![
                        FilterShape::Json(JsonOp::NotEquals, CondShape::JsonNull, Option::None, Option::None),
                        FilterShape::Json(JsonOp::NotEquals, CondShape::Null, Option::None, Option::None),
                    ],
                ),
            ],
        ),
{
    reveal_strlit("equals");
    reveal_strlit("path");
    assert(key@ != constants::PATH@) by {
        assert(constants::EQUALS@.len() != constants::PATH@.len());
    }
    let input = ParsedInputValue::Single(PrismaValue::Enum(e));
    lemma_one_entry_parsed(p, key, input);
    lemma_one_entry_parsed(q, key, input);
    lemma_inverted_any_null(p, q, e, Option::None);
}

/// Each filter key names the comparison it reads as: `equals`, `contains`, `startsWith`,
/// `endsWith`, `lt`, `gt`, `lte`, `gte`, `search`, `geoWithin` and `geoIntersects` read as
/// the condition of that name, and only they do; read by an inverted parser, each reads as
/// its complement (`lt` as greater-or-equal, `gt` as less-or-equal, `lte` as greater, `gte`
/// as less, the others as their negation), and only it does.
pub proof fn lemma_comparison_names(name: Seq<char>, cv: ConditionValue)
    ensures
        (scalar_value_op(name, false) matches Option::Some(o) && op_condition(o, cv) == ScalarCondition::Equals(cv))
            <==> name == "equals"@,
        (scalar_value_op(name, true) matches Option::Some(o) && op_condition(o, cv) == ScalarCondition::NotEquals(cv))
            <==> name == "equals"@,
        (scalar_value_op(name, false) matches Option::Some(o) && op_condition(o, cv) == ScalarCondition::Contains(cv))
            <==> name == "contains"@,
        (scalar_value_op(name, true) matches Option::Some(o) && op_condition(o, cv) == ScalarCondition::NotContains(cv))
            <==> name == "contains"@,
        (scalar_value_op(name, false) matches Option::Some(o) && op_condition(o, cv) == ScalarCondition::StartsWith(cv))
            <==> name == "startsWith"@,
        (scalar_value_op(name, true) matches Option::Some(o) && op_condition(o, cv) == ScalarCondition::NotStartsWith(cv))
            <==> name == "startsWith"@,
        (scalar_value_op(name, false) matches Option::Some(o) && op_condition(o, cv) == ScalarCondition::EndsWith(cv))
            <==> name == "endsWith"@,
        (scalar_value_op(name, true) matches Option::Some(o) && op_condition(o, cv) == ScalarCondition::NotEndsWith(cv))
            <==> name == "endsWith"@,
        (scalar_value_op(name, false) matches Option::Some(o) && op_condition(o, cv) == ScalarCondition::LessThan(cv))
            <==> name == "lt"@,
        (scalar_value_op(name, true) matches Option::Some(o) && op_condition(o, cv) == ScalarCondition::GreaterThanOrEquals(cv))
            <==> name == "lt"@,
        (scalar_value_op(name, false) matches Option::Some(o) && op_condition(o, cv) == ScalarCondition::GreaterThan(cv))
            <==> name == "gt"@,
        (scalar_value_op(name, true) matches Option::Some(o) && op_condition(o, cv) == ScalarCondition::LessThanOrEquals(cv))
            <==> name == "gt"@,
        (scalar_value_op(name, false) matches Option::Some(o) && op_condition(o, cv) == ScalarCondition::LessThanOrEquals(cv))
            <==> name == "lte"@,
        (scalar_value_op(name, true) matches Option::Some(o) && op_condition(o, cv) == ScalarCondition::GreaterThan(cv))
            <==> name == "lte"@,
        (scalar_value_op(name, false) matches Option::Some(o) && op_condition(o, cv) == ScalarCondition::GreaterThanOrEquals(cv))
            <==> name == "gte"@,
        (scalar_value_op(name, true) matches Option::Some(o) && op_condition(o, cv) == ScalarCondition::LessThan(cv))
            <==> name == "gte"@,
        (scalar_value_op(name, false) matches Option::Some(o) && op_condition(o, cv) == ScalarCondition::Search(cv))
            <==> name == "search"@,
        (scalar_value_op(name, true) matches Option::Some(o) && op_condition(o, cv) == ScalarCondition::NotSearch(cv))
            <==> name == "search"@,
        (scalar_value_op(name, false) matches Option::Some(o) && op_condition(o, cv) == ScalarCondition::GeometryWithin(cv))
            <==> name == "geoWithin"@,
        (scalar_value_op(name, true) matches Option::Some(o) && op_condition(o, cv) == ScalarCondition::GeometryNotWithin(cv))
            <==> name == "geoWithin"@,
        (scalar_value_op(name, false) matches Option::Some(o) && op_condition(o, cv) == ScalarCondition::GeometryIntersects(cv))
            <==> name == "geoIntersects"@,
        (scalar_value_op(name, true) matches Option::Some(o) && op_condition(o, cv) == ScalarCondition::GeometryNotIntersects(cv))
            <==> name == "geoIntersects"@,
{
    reveal_strlit("equals");
    reveal_strlit("contains");
    reveal_strlit("startsWith");
    reveal_strlit("endsWith");
    reveal_strlit("lt");
    reveal_strlit("gt");
    reveal_strlit("lte");
    reveal_strlit("gte");
    reveal_strlit("search");
    reveal_strlit("geoWithin");
    reveal_strlit("geoIntersects");
    assert("equals"@.len() == 6 && "equals"@[0] == 'e');
    assert("contains"@.len() == 8 && "contains"@[0] == 'c');
    assert("startsWith"@.len() == 10 && "startsWith"@[0] == 's');
    assert("endsWith"@.len() == 8 && "endsWith"@[0] == 'e');
    assert("lt"@.len() == 2 && "lt"@[0] == 'l');
    assert("gt"@.len() == 2 && "gt"@[0] == 'g');
    assert("lte"@.len() == 3 && "lte"@[0] == 'l');
    assert("gte"@.len() == 3 && "gte"@[0] == 'g');
    assert("search"@.len() == 6 && "search"@[0] == 's');
    assert("geoWithin"@.len() == 9 && "geoWithin"@[0] == 'g');
    assert("geoIntersects"@.len() == 13 && "geoIntersects"@[0] == 'g');
}

/// The other filter keys name what they read as: `_count`, `_avg`, `_sum`, `_min` and `_max`
/// the aggregation of that name; `lt`, `gt`, `lte` and `gte` on a JSON value the ordering of
/// that name (its complement when inverted); the `array_` and `string_` keys the containment
/// or prefix or suffix test on a JSON array or string; and only they do.
pub proof fn lemma_filter_key_names(name: Seq<char>)
    ensures
        aggregation_of(name) == Option::Some(AggregationKind::Count) <==> name == "_count"@,
        aggregation_of(name) == Option::Some(AggregationKind::Average) <==> name == "_avg"@,
        aggregation_of(name) == Option::Some(AggregationKind::Sum) <==> name == "_sum"@,
        aggregation_of(name) == Option::Some(AggregationKind::Min) <==> name == "_min"@,
        aggregation_of(name) == Option::Some(AggregationKind::Max) <==> name == "_max"@,
        json_order_op(name, false) == Option::Some(JsonOp::LessThan) <==> name == "lt"@,
        json_order_op(name, true) == Option::Some(JsonOp::GreaterThanOrEquals) <==> name == "lt"@,
        json_order_op(name, false) == Option::Some(JsonOp::GreaterThan) <==> name == "gt"@,
        json_order_op(name, true) == Option::Some(JsonOp::LessThanOrEquals) <==> name == "gt"@,
        json_order_op(name, false) == Option::Some(JsonOp::LessThanOrEquals) <==> name == "lte"@,
        json_order_op(name, true) == Option::Some(JsonOp::GreaterThan) <==> name == "lte"@,
        json_order_op(name, false) == Option::Some(JsonOp::GreaterThanOrEquals) <==> name == "gte"@,
        json_order_op(name, true) == Option::Some(JsonOp::LessThan) <==> name == "gte"@,
        json_target_op(name) == Option::Some((JsonOp::Contains, JsonTargetType::Array)) <==> name == "array_contains"@,
        json_target_op(name) == Option::Some((JsonOp::StartsWith, JsonTargetType::Array)) <==> name == "array_starts_with"@,
        json_target_op(name) == Option::Some((JsonOp::EndsWith, JsonTargetType::Array)) <==> name == "array_ends_with"@,
        json_target_op(name) == Option::Some((JsonOp::Contains, JsonTargetType::String)) <==> name == "string_contains"@,
        json_target_op(name) == Option::Some((JsonOp::StartsWith, JsonTargetType::String)) <==> name == "string_starts_with"@,
        json_target_op(name) == Option::Some((JsonOp::EndsWith, JsonTargetType::String)) <==> name == "string_ends_with"@,
{
    reveal_strlit("_count");
    reveal_strlit("_avg");
    reveal_strlit("_sum");
    reveal_strlit("_min");
    reveal_strlit("_max");
    reveal_strlit("lt");
    reveal_strlit("gt");
    reveal_strlit("lte");
    reveal_strlit("gte");
    reveal_strlit("array_contains");
    reveal_strlit("array_starts_with");
    reveal_strlit("array_ends_with");
    reveal_strlit("string_contains");
    reveal_strlit("string_starts_with");
    reveal_strlit("string_ends_with");
    assert("_count"@.len() == 6);
    assert("_count"@[0] == '_');
    assert("_count"@[1] == 'c');
    assert("_count"@[2] == 'o');
    assert("_count"@[3] == 'u');
    assert("_count"@[4] == 'n');
    assert("_count"@[5] == 't');
    assert("_avg"@.len() == 4);
    assert("_avg"@[0] == '_');
    assert("_avg"@[1] == 'a');
    assert("_avg"@[2] == 'v');
    assert("_avg"@[3] == 'g');
    assert("_sum"@.len() == 4);
    assert("_sum"@[0] == '_');
    assert("_sum"@[1] == 's');
    assert("_sum"@[2] == 'u');
    assert("_sum"@[3] == 'm');
    assert("_min"@.len() == 4);
    assert("_min"@[0] == '_');
    assert("_min"@[1] == 'm');
    assert("_min"@[2] == 'i');
    assert("_min"@[3] == 'n');
    assert("_max"@.len() == 4);
    assert("_max"@[0] == '_');
    assert("_max"@[1] == 'm');
    assert("_max"@[2] == 'a');
    assert("_max"@[3] == 'x');
    assert("lt"@.len() == 2);
    assert("lt"@[0] == 'l');
    assert("lt"@[1] == 't');
    assert("gt"@.len() == 2);
    assert("gt"@[0] == 'g');
    assert("gt"@[1] == 't');
    assert("lte"@.len() == 3);
    assert("lte"@[0] == 'l');
    assert("lte"@[1] == 't');
    assert("lte"@[2] == 'e');
    assert("gte"@.len() == 3);
    assert("gte"@[0] == 'g');
    assert("gte"@[1] == 't');
    assert("gte"@[2] == 'e');
    assert("array_contains"@.len() == 14);
    assert("array_contains"@[0] == 'a');
    assert("array_contains"@[1] == 'r');
    assert("array_contains"@[2] == 'r');
    assert("array_contains"@[3] == 'a');
    assert("array_contains"@[4] == 'y');
    assert("array_contains"@[5] == '_');
    assert("array_contains"@[6] == 'c');
    assert("array_contains"@[7] == 'o');
    assert("array_contains"@[8] == 'n');
    assert("array_contains"@[9] == 't');
    assert("array_contains"@[10] == 'a');
    assert("array_contains"@[11] == 'i');
    assert("array_contains"@[12] == 'n');
    assert("array_contains"@[13] == 's');
    assert("array_starts_with"@.len() == 17);
    assert("array_starts_with"@[0] == 'a');
    assert("array_starts_with"@[1] == 'r');
    assert("array_starts_with"@[2] == 'r');
    assert("array_starts_with"@[3] == 'a');
    assert("array_starts_with"@[4] == 'y');
    assert("array_starts_with"@[5] == '_');
    assert("array_starts_with"@[6] == 's');
    assert("array_starts_with"@[7] == 't');
    assert("array_starts_with"@[8] == 'a');
    assert("array_starts_with"@[9] == 'r');
    assert("array_starts_with"@[10] == 't');
    assert("array_starts_with"@[11] == 's');
    assert("array_starts_with"@[12] == '_');
    assert("array_starts_with"@[13] == 'w');
    assert("array_starts_with"@[14] == 'i');
    assert("array_starts_with"@[15] == 't');
    assert("array_starts_with"@[16] == 'h');
    assert("array_ends_with"@.len() == 15);
    assert("array_ends_with"@[0] == 'a');
    assert("array_ends_with"@[1] == 'r');
    assert("array_ends_with"@[2] == 'r');
    assert("array_ends_with"@[3] == 'a');
    assert("array_ends_with"@[4] == 'y');
    assert("array_ends_with"@[5] == '_');
    assert("array_ends_with"@[6] == 'e');
    assert("array_ends_with"@[7] == 'n');
    assert("array_ends_with"@[8] == 'd');
    assert("array_ends_with"@[9] == 's');
    assert("array_ends_with"@[10] == '_');
    assert("array_ends_with"@[11] == 'w');
    assert("array_ends_with"@[12] == 'i');
    assert("array_ends_with"@[13] == 't');
    assert("array_ends_with"@[14] == 'h');
    assert("string_contains"@.len() == 15);
    assert("string_contains"@[0] == 's');
    assert("string_contains"@[1] == 't');
    assert("string_contains"@[2] == 'r');
    assert("string_contains"@[3] == 'i');
    assert("string_contains"@[4] == 'n');
    assert("string_contains"@[5] == 'g');
    assert("string_contains"@[6] == '_');
    assert("string_contains"@[7] == 'c');
    assert("string_contains"@[8] == 'o');
    assert("string_contains"@[9] == 'n');
    assert("string_contains"@[10] == 't');
    assert("string_contains"@[11] == 'a');
    assert("string_contains"@[12] == 'i');
    assert("string_contains"@[13] == 'n');
    assert("string_contains"@[14] == 's');
    assert("string_starts_with"@.len() == 18);
    assert("string_starts_with"@[0] == 's');
    assert("string_starts_with"@[1] == 't');
    assert("string_starts_with"@[2] == 'r');
    assert("string_starts_with"@[3] == 'i');
    assert("string_starts_with"@[4] == 'n');
    assert("string_starts_with"@[5] == 'g');
    assert("string_starts_with"@[6] == '_');
    assert("string_starts_with"@[7] == 's');
    assert("string_starts_with"@[8] == 't');
    assert("string_starts_with"@[9] == 'a');
    assert("string_starts_with"@[10] == 'r');
    assert("string_starts_with"@[11] == 't');
    assert("string_starts_with"@[12] == 's');
    assert("string_starts_with"@[13] == '_');
    assert("string_starts_with"@[14] == 'w');
    assert("string_starts_with"@[15] == 'i');
    assert("string_starts_with"@[16] == 't');
    assert("string_starts_with"@[17] == 'h');
    assert("string_ends_with"@.len() == 16);
    assert("string_ends_with"@[0] == 's');
    assert("string_ends_with"@[1] == 't');
    assert("string_ends_with"@[2] == 'r');
    assert("string_ends_with"@[3] == 'i');
    assert("string_ends_with"@[4] == 'n');
    assert("string_ends_with"@[5] == 'g');
    assert("string_ends_with"@[6] == '_');
    assert("string_ends_with"@[7] == 'e');
    assert("string_ends_with"@[8] == 'n');
    assert("string_ends_with"@[9] == 'd');
    assert("string_ends_with"@[10] == 's');
    assert("string_ends_with"@[11] == '_');
    assert("string_ends_with"@[12] == 'w');
    assert("string_ends_with"@[13] == 'i');
    assert("string_ends_with"@[14] == 't');
    assert("string_ends_with"@[15] == 'h');
}

/// A JSON comparison with one of the null enum values compares with the database null for
/// `DbNull` and with the JSON `null` for `JsonNull`, whatever the comparison and path.
pub proof fn lemma_json_null_names(
    e: String,
    op: JsonOp,
    path: Option<PathShape>,
    target: Option<JsonTargetType>,
    reverse: bool,
)
    ensures
        e@ == "DbNull"@ ==> json_null_shape(
            CondShape::Input(ParsedInputValue::Single(PrismaValue::Enum(e))),
            op,
            path,
            target,
            reverse,
        ) == FilterShape::Json(op, CondShape::Null, path, target),
        e@ == "JsonNull"@ ==> json_null_shape(
            CondShape::Input(ParsedInputValue::Single(PrismaValue::Enum(e))),
            op,
            path,
            target,
            reverse,
        ) == FilterShape::Json(op, CondShape::JsonNull, path, target),
{
    reveal_strlit("DbNull");
    reveal_strlit("JsonNull");
    assert("DbNull"@.len() == 6);
    assert("DbNull"@[0] == 'D');
    assert("DbNull"@[1] == 'b');
    assert("DbNull"@[2] == 'N');
    assert("DbNull"@[3] == 'u');
    assert("DbNull"@[4] == 'l');
    assert("DbNull"@[5] == 'l');
    assert("JsonNull"@.len() == 8);
    assert("JsonNull"@[0] == 'J');
    assert("JsonNull"@[1] == 's');
    assert("JsonNull"@[2] == 'o');
    assert("JsonNull"@[3] == 'n');
    assert("JsonNull"@[4] == 'N');
    assert("JsonNull"@[5] == 'u');
    assert("JsonNull"@[6] == 'l');
    assert("JsonNull"@[7] == 'l');
}

/// The membership, negation and presence keys of a filter object on a field that is not JSON
/// read as they are named: `in` with a list as membership in it, `notIn` as its absence
/// (the two swap under an inverted parser); `not` with a plain value as inequality (equality
/// under an inverted parser); `isSet` with a boolean as presence (its opposite under an
/// inverted parser).
pub proof fn lemma_membership_keys<'a>(p: ScalarFilterParser<'a>, key: String, input: ParsedInputValue)
    requires
        p.field.type_identifier != TypeIdentifier::Json,
    ensures
        key@ == "in"@ && input is List ==> p.parse_spec(seq![(key, input)]) == Ok::<Seq<FilterShape>, Seq<char>>(
            seq![if p.reverse { FilterShape::NotIn(ListShape::Input(input)) } else { FilterShape::In(ListShape::Input(input)) }],
        ),
        key@ == "notIn"@ && input is List ==> p.parse_spec(seq![(key, input)]) == Ok::<Seq<FilterShape>, Seq<char>>(
            seq![if p.reverse { FilterShape::In(ListShape::Input(input)) } else { FilterShape::NotIn(ListShape::Input(input)) }],
        ),
        key@ == "not"@ && input is Single ==> p.parse_spec(seq![(key, input)]) == Ok::<Seq<FilterShape>, Seq<char>>(
            seq![FilterShape::Scalar(if p.reverse { ScalarOp::Equals } else { ScalarOp::NotEquals }, CondShape::Input(input))],
        ),
        input matches ParsedInputValue::Single(PrismaValue::Boolean(b)) ==> (key@ == "isSet"@ ==> p.parse_spec(
            seq![(key, input)],
        ) == Ok::<Seq<FilterShape>, Seq<char>>(seq![FilterShape::IsSet(b != p.reverse)])),
{
    reveal_strlit("not");
    reveal_strlit("in");
    reveal_strlit("notIn");
    reveal_strlit("isSet");
    reveal_strlit("path");
    reveal_strlit("equals");
    reveal_strlit("contains");
    reveal_strlit("startsWith");
    reveal_strlit("endsWith");
    reveal_strlit("lt");
    reveal_strlit("gt");
    reveal_strlit("lte");
    reveal_strlit("gte");
    reveal_strlit("search");
    reveal_strlit("geoWithin");
    reveal_strlit("geoIntersects");
    assert("not"@.len() == 3);
    assert("not"@[0] == 'n');
    assert("not"@[1] == 'o');
    assert("not"@[2] == 't');
    assert("in"@.len() == 2);
    assert("in"@[0] == 'i');
    assert("in"@[1] == 'n');
    assert("notIn"@.len() == 5);
    assert("notIn"@[0] == 'n');
    assert("notIn"@[1] == 'o');
    assert("notIn"@[2] == 't');
    assert("notIn"@[3] == 'I');
    assert("notIn"@[4] == 'n');
    assert("isSet"@.len() == 5);
    assert("isSet"@[0] == 'i');
    assert("isSet"@[1] == 's');
    assert("isSet"@[2] == 'S');
    assert("isSet"@[3] == 'e');
    assert("isSet"@[4] == 't');
    assert("path"@.len() == 4);
    assert("path"@[0] == 'p');
    assert("path"@[1] == 'a');
    assert("path"@[2] == 't');
    assert("path"@[3] == 'h');
    assert("equals"@.len() == 6);
    assert("equals"@[0] == 'e');
    assert("equals"@[1] == 'q');
    assert("equals"@[2] == 'u');
    assert("equals"@[3] == 'a');
    assert("equals"@[4] == 'l');
    assert("equals"@[5] == 's');
    assert("contains"@.len() == 8);
    assert("contains"@[0] == 'c');
    assert("contains"@[1] == 'o');
    assert("contains"@[2] == 'n');
    assert("contains"@[3] == 't');
    assert("contains"@[4] == 'a');
    assert("contains"@[5] == 'i');
    assert("contains"@[6] == 'n');
    assert("contains"@[7] == 's');
    assert("startsWith"@.len() == 10);
    assert("startsWith"@[0] == 's');
    assert("startsWith"@[1] == 't');
    assert("startsWith"@[2] == 'a');
    assert("startsWith"@[3] == 'r');
    assert("startsWith"@[4] == 't');
    assert("startsWith"@[5] == 's');
    assert("startsWith"@[6] == 'W');
    assert("startsWith"@[7] == 'i');
    assert("startsWith"@[8] == 't');
    assert("startsWith"@[9] == 'h');
    assert("endsWith"@.len() == 8);
    assert("endsWith"@[0] == 'e');
    assert("endsWith"@[1] == 'n');
    assert("endsWith"@[2] == 'd');
    assert("endsWith"@[3] == 's');
    assert("endsWith"@[4] == 'W');
    assert("endsWith"@[5] == 'i');
    assert("endsWith"@[6] == 't');
    assert("endsWith"@[7] == 'h');
    assert("lt"@.len() == 2);
    assert("lt"@[0] == 'l');
    assert("lt"@[1] == 't');
    assert("gt"@.len() == 2);
    assert("gt"@[0] == 'g');
    assert("gt"@[1] == 't');
    assert("lte"@.len() == 3);
    assert("lte"@[0] == 'l');
    assert("lte"@[1] == 't');
    assert("lte"@[2] == 'e');
    assert("gte"@.len() == 3);
    assert("gte"@[0] == 'g');
    assert("gte"@[1] == 't');
    assert("gte"@[2] == 'e');
    assert("search"@.len() == 6);
    assert("search"@[0] == 's');
    assert("search"@[1] == 'e');
    assert("search"@[2] == 'a');
    assert("search"@[3] == 'r');
    assert("search"@[4] == 'c');
    assert("search"@[5] == 'h');
    assert("geoWithin"@.len() == 9);
    assert("geoWithin"@[0] == 'g');
    assert("geoWithin"@[1] == 'e');
    assert("geoWithin"@[2] == 'o');
    assert("geoWithin"@[3] == 'W');
    assert("geoWithin"@[4] == 'i');
    assert("geoWithin"@[5] == 't');
    assert("geoWithin"@[6] == 'h');
    assert("geoWithin"@[7] == 'i');
    assert("geoWithin"@[8] == 'n');
    assert("geoIntersects"@.len() == 13);
    assert("geoIntersects"@[0] == 'g');
    assert("geoIntersects"@[1] == 'e');
    assert("geoIntersects"@[2] == 'o');
    assert("geoIntersects"@[3] == 'I');
    assert("geoIntersects"@[4] == 'n');
    assert("geoIntersects"@[5] == 't');
    assert("geoIntersects"@[6] == 'e');
    assert("geoIntersects"@[7] == 'r');
    assert("geoIntersects"@[8] == 's');
    assert("geoIntersects"@[9] == 'e');
    assert("geoIntersects"@[10] == 'c');
    assert("geoIntersects"@[11] == 't');
    assert("geoIntersects"@[12] == 's');
    if key@ == "in"@ || key@ == "notIn"@ || key@ == "not"@ || key@ == "isSet"@ {
        lemma_one_entry_parsed(p, key, input);
    }
}

} // verus!
