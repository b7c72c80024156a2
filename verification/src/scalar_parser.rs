use vstd::prelude::*;
use crate::constants;
use crate::error::QueryGraphBuilderError;
use crate::filter::{
    AggregationKind, ConditionListValue, ConditionValue, Filter, JsonFilterPath, JsonOp, JsonTargetType, QueryMode,
    ScalarCondition, ScalarFilter, ScalarListCondition,
};
use crate::scalar::{lemma_all_shaped_append, lemma_all_shaped_single};
use crate::values::{key_index, lemma_key_index_valid, ObjectTag};
use crate::scalar::{
    container_kind_str, type_name_str, make_condition,
    CondShape, FilterShape, ListShape, PathShape, ScalarFilterParser, check_path_used, ScalarOp, aggregation_of, all_shaped,
    coerce_json_null_shape, cond_shaped, container_kind_name, field_display, input_texts, invalid_op_message,
    is_list_input, json_negated, json_null_shape, json_order_op, json_target_op, list_marker, list_shaped,
    not_a_bool_message, not_a_list_message, not_an_object_message, op_condition, path_shaped, path_spec,
    processing_order, scalar_value_op, shaped, swap_removed, type_label, value_texts, wrap_aggregation,
};
use crate::schema::{ContainerKind, Field, TypeIdentifier};
use crate::text::{str_eq, text};
use crate::values::{ParsedInputMap, ParsedInputValue, PrismaValue, converts, input_text, value_text};

verus! {

/// `r` is the outcome that `s` describes: the filters that the shapes describe, or an input
/// error with the message of `s`.
pub open spec fn parsed_as(
    r: Result<Vec<Filter>, QueryGraphBuilderError>,
    s: Result<Seq<FilterShape>, Seq<char>>,
    field: Seq<char>,
) -> bool {
    match s {
        Ok(fs) => r matches Ok(v) && all_shaped(v@, fs, field),
        Err(e) => r matches Err(QueryGraphBuilderError::InputError(m)) && m@ == e,
    }
}

/// `r` is the value that `s` describes, or an input error with the message of `s`.
pub open spec fn outcome_as<T, S>(r: Result<T, QueryGraphBuilderError>, s: Result<S, Seq<char>>, ok: spec_fn(T, S) -> bool) -> bool {
    match s {
        Ok(x) => r matches Ok(v) && ok(v, x),
        Err(e) => r matches Err(QueryGraphBuilderError::InputError(m)) && m@ == e,
    }
}

/// The shape of a JSON path value.
pub open spec fn path_view(p: Option<JsonFilterPath>) -> Option<PathShape> {
    match p {
        Option::Some(JsonFilterPath::String(s)) => Option::Some(PathShape::Text(s@)),
        Option::Some(JsonFilterPath::Array(v)) => Option::Some(PathShape::Keys(v@.map_values(|s: String| s@))),
        Option::None => Option::None,
    }
}

pub proof fn lemma_path_view(p: Option<JsonFilterPath>)
    ensures
        path_shaped(p, path_view(p)),
{
}

pub proof fn lemma_all_shaped_forall(fs: Seq<Filter>, s: Seq<FilterShape>, field: Seq<char>)
    ensures
        all_shaped(fs, s, field) <==> (fs.len() == s.len() && forall|i: int|
            0 <= i < s.len() ==> #[trigger] shaped(fs[i], s[i], field)),
    decreases s.len(),
{
    if s.len() > 0 && fs.len() == s.len() {
        lemma_all_shaped_forall(fs.drop_last(), s.drop_last(), field);
        if forall|i: int| 0 <= i < s.len() ==> #[trigger] shaped(fs[i], s[i], field) {
            assert forall|i: int| 0 <= i < s.drop_last().len() implies #[trigger] shaped(
                fs.drop_last()[i],
                s.drop_last()[i],
                field,
            ) by {
                assert(shaped(fs[i], s[i], field));
            }
            assert(shaped(fs[s.len() - 1], s[s.len() - 1], field));
            assert(all_shaped(fs, s, field));
        }
        if all_shaped(fs, s, field) {
            assert forall|i: int| 0 <= i < s.len() implies #[trigger] shaped(fs[i], s[i], field) by {
                if i < s.len() - 1 {
                    assert(shaped(fs.drop_last()[i], s.drop_last()[i], field));
                }
            }
        }
    }
}

fn input_error(message: String) -> (e: QueryGraphBuilderError)
    ensures
        e matches QueryGraphBuilderError::InputError(m) && m@ == message@,
{
    QueryGraphBuilderError::InputError(message)
}

/// `prefix` + `middle` + `suffix`.
fn joined(prefix: &str, middle: &str, suffix: &str) -> (s: String)
    ensures
        s@ == prefix@ + middle@ + suffix@,
{
    let mut s = text(prefix);
    s.append(middle);
    s.append(suffix);
    s
}

fn invalid_op(name: &str) -> (s: String)
    ensures
        s@ == invalid_op_message(name@),
{
    let mut s = text(name);
    s.append(" is not a valid scalar filter operation");
    s
}

fn not_an_object(name: &str) -> (s: String)
    ensures
        s@ == not_an_object_message(name@),
{
    joined("The filter ", name, " expects an object.")
}

fn not_a_bool(name: &str) -> (s: String)
    ensures
        s@ == not_a_bool_message(name@),
{
    joined("The filter ", name, " expects a boolean.")
}

fn not_a_list(name: &str) -> (s: String)
    ensures
        s@ == not_a_list_message(name@),
{
    joined("The filter ", name, " expects a list.")
}

fn list_marker_str(is_list: bool) -> (s: &'static str)
    ensures
        s@ == list_marker(is_list),
{
    if is_list {
        "[]"
    } else {
        proof { reveal_strlit(""); }
        ""
    }
}

/// The texts of the input values of a list, if every one of them is a text.
fn input_list_texts(l: Vec<ParsedInputValue>) -> (r: Option<Vec<String>>)
    ensures
        match input_texts(l@) {
            Option::Some(ks) => r matches Option::Some(v) && v@.map_values(|s: String| s@) == ks,
            Option::None => r is None,
        },
{
    let ghost s = l@;
    let mut out: Vec<String> = Vec::new();
    for v in it: l.into_iter()
        invariant
            it.seq() == s,
            out@.len() == it.index(),
            forall|j: int| 0 <= j < it.index() ==> (#[trigger] input_text(s[j])) == Option::Some(out@[j]@),
    {
        let ghost i = it.index() as int;
        match v.into_text() {
            Option::Some(t) => {
                out.push(t);
            },
            Option::None => {
                assert(input_text(s[i]) is None);
                return Option::None;
            },
        }
    }
    assert(out@.map_values(|s: String| s@) =~= Seq::new(s.len(), |i: int| input_text(s[i]).unwrap()));
    Option::Some(out)
}

/// The texts of a list of values, if every one of them is a text.
fn value_list_texts(l: Vec<PrismaValue>) -> (r: Option<Vec<String>>)
    ensures
        match value_texts(l@) {
            Option::Some(ks) => r matches Option::Some(v) && v@.map_values(|s: String| s@) == ks,
            Option::None => r is None,
        },
{
    let ghost s = l@;
    let mut out: Vec<String> = Vec::new();
    for v in it: l.into_iter()
        invariant
            it.seq() == s,
            out@.len() == it.index(),
            forall|j: int| 0 <= j < it.index() ==> (#[trigger] value_text(s[j])) == Option::Some(out@[j]@),
    {
        let ghost i = it.index() as int;
        match v.into_string() {
            Option::Some(t) => {
                out.push(t);
            },
            Option::None => {
                assert(value_text(s[i]) is None);
                return Option::None;
            },
        }
    }
    assert(out@.map_values(|s: String| s@) =~= Seq::new(s.len(), |i: int| value_text(s[i]).unwrap()));
    Option::Some(out)
}

/// Parses the JSON path of a filter object: a text, or a list of texts.
pub fn parse_json_path(input: ParsedInputValue) -> (r: Result<JsonFilterPath, QueryGraphBuilderError>)
    ensures
        match path_spec(input) {
            Ok(p) => r matches Ok(v) && path_view(Option::Some(v)) == Option::Some(p),
            Err(e) => r matches Err(QueryGraphBuilderError::InputError(m)) && m@ == e,
        },
{
    match input {
        ParsedInputValue::Single(PrismaValue::String(s)) => Ok(JsonFilterPath::String(s)),
        ParsedInputValue::List(l) => match input_list_texts(l) {
            Option::Some(keys) => Ok(JsonFilterPath::Array(keys)),
            Option::None => Err(input_error(text("Json filtering array path elements must all be of type string"))),
        },
        ParsedInputValue::Single(PrismaValue::List(vs)) => match value_list_texts(vs) {
            Option::Some(keys) => Ok(JsonFilterPath::Array(keys)),
            Option::None => Err(input_error(text("Json filtering array path elements must all be of type string"))),
        },
        _ => Err(input_error(text("A JSON path must be a string or a list of strings."))),
    }
}

/// A copy of a JSON path.
fn copy_path(p: &Option<JsonFilterPath>) -> (r: Option<JsonFilterPath>)
    ensures
        path_view(r) == path_view(*p),
{
    match p {
        Option::Some(JsonFilterPath::String(s)) => Option::Some(JsonFilterPath::String(s.clone())),
        Option::Some(JsonFilterPath::Array(v)) => {
            let mut out: Vec<String> = Vec::new();
            let n = v.len();
            let mut i: usize = 0;
            while i < n
                invariant
                    n == v@.len(),
                    i <= n,
                    out@.len() == i,
                    forall|j: int| 0 <= j < i ==> (#[trigger] out@[j])@ == v@[j]@,
                decreases n - i,
            {
                out.push(v[i].clone());
                i = i + 1;
            }
            assert(out@.map_values(|s: String| s@) =~= v@.map_values(|s: String| s@));
            Option::Some(JsonFilterPath::Array(out))
        },
        Option::None => Option::None,
    }
}

/// The right-hand side where a null value stands for the JSON `null`.
fn coerce_json_null(cv: ConditionValue, Ghost(c): Ghost<CondShape>) -> (r: ConditionValue)
    requires
        cond_shaped(cv, c),
    ensures
        cond_shaped(r, coerce_json_null_shape(c)),
{
    match cv {
        ConditionValue::Value(PrismaValue::Null) => {
            proof { reveal_strlit("null"); }
            ConditionValue::Value(PrismaValue::Json(text("null")))
        },
        _ => cv,
    }
}

impl<'a> ScalarFilterParser<'a> {
    /// A parser for the filters on `field` of `container`.
    pub fn new(
        field: &'a crate::schema::ScalarField,
        container: &'a crate::schema::Container,
        data_model: &'a crate::schema::DataModel,
        reverse: bool,
    ) -> (p: Self)
        ensures
            p.field == field,
            p.container == container,
            p.data_model == data_model,
            p.reverse == reverse,
            !p.is_count_filter,
    {
        ScalarFilterParser { field, container, data_model, reverse, is_count_filter: false }
    }

    /// The same parser, set to parse (or not) the filter object of a `_count` filter, where a
    /// referenced field must be of type `Int` whatever the type of the filtered field.
    pub fn set_is_count_filter(self, is_count_filter: bool) -> (p: Self)
        ensures
            p == (ScalarFilterParser { is_count_filter, ..self }),
    {
        ScalarFilterParser { is_count_filter, ..self }
    }

    fn expected_type_exec(&self) -> (t: TypeIdentifier)
        ensures
            t == self.expected_type(),
    {
        if self.is_count_filter {
            TypeIdentifier::Int
        } else {
            self.field.type_identifier
        }
    }

    /// Takes the text entry `key` out of a field reference object.
    fn take_ref_entry(m: ParsedInputMap, key: &str) -> (r: Result<(String, ParsedInputMap), QueryGraphBuilderError>)
        ensures
            match Self::ref_entry(m.entries@, key@) {
                Ok((t, rest)) => r matches Ok((s, m2)) && s@ == t && m2.entries@ == rest,
                Err(e) => r matches Err(QueryGraphBuilderError::InputError(x)) && x@ == e,
            },
    {
        let mut m = m;
        match m.swap_remove(key) {
            Option::Some(v) => match v.into_text() {
                Option::Some(t) => Ok((t, m)),
                Option::None => Err(input_error(text("A field reference names its field and container with texts."))),
            },
            Option::None => Err(input_error(text("A field reference names its field and container."))),
        }
    }

    /// The message for a referenced scalar field of the wrong kind or type.
    fn mismatch_message(&self, expected: TypeIdentifier, found: &crate::schema::ScalarField) -> (s: String)
        ensures
            s@ == "Expected a referenced scalar field of type "@ + type_label(expected) + list_marker(
                self.field.is_list,
            ) + " but found "@ + field_display(self.container.name@, found.name@) + " of type "@ + type_label(
                found.type_identifier,
            ) + list_marker(found.is_list) + "."@,
    {
        let mut s = text("Expected a referenced scalar field of type ");
        s.append(type_name_str(expected));
        s.append(list_marker_str(self.field.is_list));
        s.append(" but found ");
        s.append(self.container.name.as_str());
        s.append(".");
        s.append(found.name.as_str());
        s.append(" of type ");
        s.append(type_name_str(found.type_identifier));
        s.append(list_marker_str(found.is_list));
        s.append(".");
        s
    }

    /// `prefix` + the display name of the field `name` + `suffix`.
    fn field_message(&self, prefix: &str, name: &str, suffix: &str) -> (s: String)
        ensures
            s@ == prefix@ + field_display(self.container.name@, name@) + suffix@,
    {
        let mut s = text(prefix);
        s.append(self.container.name.as_str());
        s.append(".");
        s.append(name);
        s.append(suffix);
        s
    }

    /// The name of the field that a field reference object refers to, checked against the
    /// container, kind and type that the filter expects.
    fn field_ref(&self, m: ParsedInputMap, expect_list: bool, expected: TypeIdentifier) -> (r: Result<
        String,
        QueryGraphBuilderError,
    >)
        ensures
            match self.field_ref_spec(m, expect_list, expected) {
                Ok(n) => r matches Ok(s) && s@ == n,
                Err(e) => r matches Err(QueryGraphBuilderError::InputError(x)) && x@ == e,
            },
    {
        let (r, rest) = match Self::take_ref_entry(m, constants::UNDERSCORE_REF) {
            Ok(x) => x,
            Err(e) => return Err(e),
        };
        let (c, _) = match Self::take_ref_entry(rest, constants::UNDERSCORE_CONTAINER) {
            Ok(x) => x,
            Err(e) => return Err(e),
        };
        if !str_eq(c.as_str(), self.container.name.as_str()) {
            match self.data_model.find_container(c.as_str()) {
                Option::None => {
                    let mut s = text("Model or composite type ");
                    s.append(c.as_str());
                    s.append(" used for field ref ");
                    s.append(r.as_str());
                    s.append(" does not exist.");
                    return Err(input_error(s));
                },
                Option::Some(found) => {
                    let mut s = text("Expected a referenced scalar field of ");
                    s.append(container_kind_str(self.container.kind));
                    s.append(" ");
                    s.append(self.container.name.as_str());
                    s.append(", but found a field of ");
                    s.append(container_kind_str(found.kind));
                    s.append(" ");
                    s.append(c.as_str());
                    s.append(".");
                    return Err(input_error(s));
                },
            }
        }
        match self.container.find_field(r.as_str()) {
            Option::Some(Field::Scalar(fr)) => {
                if fr.is_list == expect_list && fr.type_identifier == expected {
                    Ok(r)
                } else {
                    Err(input_error(self.mismatch_message(expected, fr)))
                }
            },
            Option::Some(Field::Relation(rf)) => Err(
                input_error(
                    self.field_message(
                        "Expected a referenced scalar field ",
                        rf.name.as_str(),
                        " but found a relation field.",
                    ),
                ),
            ),
            Option::Some(Field::Composite(cf)) => Err(
                input_error(
                    self.field_message(
                        "Expected a referenced scalar field ",
                        cf.name.as_str(),
                        " but found a composite field.",
                    ),
                ),
            ),
            Option::None => Err(
                input_error(self.field_message("The referenced scalar field ", r.as_str(), " does not exist.")),
            ),
        }
    }

    /// The right-hand side of a condition: a field reference for an object, the converted
    /// value otherwise.
    fn as_condition_value(&self, input: ParsedInputValue, expect_list: bool, expected: TypeIdentifier) -> (r: Result<
        ConditionValue,
        QueryGraphBuilderError,
    >)
        ensures
            match self.cond_value_spec(input, expect_list, expected) {
                Ok(c) => r matches Ok(cv) && cond_shaped(cv, c),
                Err(e) => r matches Err(QueryGraphBuilderError::InputError(x)) && x@ == e,
            },
    {
        match input {
            ParsedInputValue::Object(m) => match self.field_ref(m, expect_list, expected) {
                Ok(n) => Ok(ConditionValue::FieldRef(n)),
                Err(e) => Err(e),
            },
            other => Ok(ConditionValue::Value(other.into_prisma_value())),
        }
    }

    /// The right-hand side of a list condition: a reference to a list field of the type of
    /// the filtered field for an object, the converted list otherwise.
    fn as_condition_list_value(&self, name: &str, input: ParsedInputValue) -> (r: Result<
        ConditionListValue,
        QueryGraphBuilderError,
    >)
        ensures
            match self.list_value_spec(name@, input) {
                Ok(l) => r matches Ok(lv) && list_shaped(lv, l),
                Err(e) => r matches Err(QueryGraphBuilderError::InputError(x)) && x@ == e,
            },
    {
        match input {
            ParsedInputValue::Object(m) => {
                let (r, _) = match Self::take_ref_entry(m, constants::UNDERSCORE_REF) {
                    Ok(x) => x,
                    Err(e) => return Err(e),
                };
                match self.container.find_field(r.as_str()) {
                    Option::Some(Field::Scalar(fr)) => {
                        if fr.is_list && fr.type_identifier == self.field.type_identifier {
                            Ok(ConditionListValue::FieldRef(r))
                        } else {
                            Err(input_error(self.mismatch_message(self.field.type_identifier, fr)))
                        }
                    },
                    Option::Some(Field::Relation(rf)) => Err(
                        input_error(
                            self.field_message(
                                "Expected a referenced scalar list field ",
                                rf.name.as_str(),
                                " but found a relation field.",
                            ),
                        ),
                    ),
                    Option::Some(Field::Composite(cf)) => Err(
                        input_error(
                            self.field_message(
                                "Expected a referenced scalar list field ",
                                cf.name.as_str(),
                                " but found a composite field.",
                            ),
                        ),
                    ),
                    Option::None => Err(
                        input_error(
                            self.field_message("The referenced scalar list field ", r.as_str(), " does not exist."),
                        ),
                    ),
                }
            },
            other => match other.into_list() {
                Option::Some(vs) => Ok(ConditionListValue::List(vs)),
                Option::None => Err(input_error(not_a_list(name))),
            },
        }
    }
}

/// The comparison that a scalar filter key names, with the inversion applied.
fn scalar_value_op_exec(name: &str, reverse: bool) -> (r: Option<ScalarOp>)
    ensures
        r == scalar_value_op(name@, reverse),
{
    if str_eq(name, constants::EQUALS) {
        Option::Some(if reverse { ScalarOp::NotEquals } else { ScalarOp::Equals })
    } else if str_eq(name, constants::CONTAINS) {
        Option::Some(if reverse { ScalarOp::NotContains } else { ScalarOp::Contains })
    } else if str_eq(name, constants::STARTS_WITH) {
        Option::Some(if reverse { ScalarOp::NotStartsWith } else { ScalarOp::StartsWith })
    } else if str_eq(name, constants::ENDS_WITH) {
        Option::Some(if reverse { ScalarOp::NotEndsWith } else { ScalarOp::EndsWith })
    } else if str_eq(name, constants::LOWER_THAN) {
        Option::Some(if reverse { ScalarOp::GreaterThanOrEquals } else { ScalarOp::LessThan })
    } else if str_eq(name, constants::GREATER_THAN) {
        Option::Some(if reverse { ScalarOp::LessThanOrEquals } else { ScalarOp::GreaterThan })
    } else if str_eq(name, constants::LOWER_THAN_OR_EQUAL) {
        Option::Some(if reverse { ScalarOp::GreaterThan } else { ScalarOp::LessThanOrEquals })
    } else if str_eq(name, constants::GREATER_THAN_OR_EQUAL) {
        Option::Some(if reverse { ScalarOp::LessThan } else { ScalarOp::GreaterThanOrEquals })
    } else if str_eq(name, constants::SEARCH) {
        Option::Some(if reverse { ScalarOp::NotSearch } else { ScalarOp::Search })
    } else if str_eq(name, constants::GEO_WITHIN) {
        Option::Some(if reverse { ScalarOp::GeometryNotWithin } else { ScalarOp::GeometryWithin })
    } else if str_eq(name, constants::GEO_INTERSECTS) {
        Option::Some(if reverse { ScalarOp::GeometryNotIntersects } else { ScalarOp::GeometryIntersects })
    } else {
        Option::None
    }
}

/// The aggregation that a filter key names.
fn aggregation_of_exec(name: &str) -> (r: Option<AggregationKind>)
    ensures
        r == aggregation_of(name@),
{
    if str_eq(name, constants::UNDERSCORE_COUNT) {
        Option::Some(AggregationKind::Count)
    } else if str_eq(name, constants::UNDERSCORE_AVG) {
        Option::Some(AggregationKind::Average)
    } else if str_eq(name, constants::UNDERSCORE_SUM) {
        Option::Some(AggregationKind::Sum)
    } else if str_eq(name, constants::UNDERSCORE_MIN) {
        Option::Some(AggregationKind::Min)
    } else if str_eq(name, constants::UNDERSCORE_MAX) {
        Option::Some(AggregationKind::Max)
    } else {
        Option::None
    }
}

/// The JSON comparison that an ordering key names, with the inversion applied.
fn json_order_op_exec(name: &str, reverse: bool) -> (r: Option<JsonOp>)
    ensures
        r == json_order_op(name@, reverse),
{
    if str_eq(name, constants::LOWER_THAN) {
        Option::Some(if reverse { JsonOp::GreaterThanOrEquals } else { JsonOp::LessThan })
    } else if str_eq(name, constants::GREATER_THAN) {
        Option::Some(if reverse { JsonOp::LessThanOrEquals } else { JsonOp::GreaterThan })
    } else if str_eq(name, constants::LOWER_THAN_OR_EQUAL) {
        Option::Some(if reverse { JsonOp::GreaterThan } else { JsonOp::LessThanOrEquals })
    } else if str_eq(name, constants::GREATER_THAN_OR_EQUAL) {
        Option::Some(if reverse { JsonOp::LessThan } else { JsonOp::GreaterThanOrEquals })
    } else {
        Option::None
    }
}

/// The comparison of a JSON array or string key, and its target type.
fn json_target_op_exec(name: &str) -> (r: Option<(JsonOp, JsonTargetType)>)
    ensures
        r == json_target_op(name@),
{
    if str_eq(name, constants::ARRAY_CONTAINS) {
        Option::Some((JsonOp::Contains, JsonTargetType::Array))
    } else if str_eq(name, constants::ARRAY_STARTS_WITH) {
        Option::Some((JsonOp::StartsWith, JsonTargetType::Array))
    } else if str_eq(name, constants::ARRAY_ENDS_WITH) {
        Option::Some((JsonOp::EndsWith, JsonTargetType::Array))
    } else if str_eq(name, constants::STRING_CONTAINS) {
        Option::Some((JsonOp::Contains, JsonTargetType::String))
    } else if str_eq(name, constants::STRING_STARTS_WITH) {
        Option::Some((JsonOp::StartsWith, JsonTargetType::String))
    } else if str_eq(name, constants::STRING_ENDS_WITH) {
        Option::Some((JsonOp::EndsWith, JsonTargetType::String))
    } else {
        Option::None
    }
}

fn json_negated_exec(op: JsonOp) -> (r: JsonOp)
    ensures
        r == json_negated(op),
{
    match op {
        JsonOp::Contains => JsonOp::NotContains,
        JsonOp::StartsWith => JsonOp::NotStartsWith,
        JsonOp::EndsWith => JsonOp::NotEndsWith,
        _ => op,
    }
}

/// A vector of one filter, described by one shape.
fn single(f: Filter, Ghost(s): Ghost<FilterShape>, Ghost(field): Ghost<Seq<char>>) -> (v: Vec<Filter>)
    requires
        shaped(f, s, field),
    ensures
        all_shaped(v@, seq![s], field),
{
    let v = vec![f];
    proof {
        lemma_all_shaped_single(f, s, field);
        assert(v@ =~= seq![f]);
    }
    v
}

/// Once the entries before some position fail, so do all longer prefixes, with the same error.
proof fn lemma_entries_err(
    p: ScalarFilterParser,
    m: ParsedInputMap,
    path_index: Option<int>,
    k: nat,
    k2: nat,
    path: Option<PathShape>,
    e: Seq<char>,
)
    requires
        p.entries_spec(m.entries@, path_index, k, path) == Err::<Seq<FilterShape>, Seq<char>>(e),
        k <= k2,
    ensures
        p.entries_spec(m.entries@, path_index, k2, path) == Err::<Seq<FilterShape>, Seq<char>>(e),
    decreases k2 - k,
{
    if k < k2 {
        lemma_entries_err(p, m, path_index, k, (k2 - 1) as nat, path, e);
    }
}

impl<'a> ScalarFilterParser<'a> {
    /// A filter on the parser's field with the given scalar condition.
    fn scalar_filter(&self, condition: ScalarCondition) -> (f: Filter)
        ensures
            f matches Filter::Scalar(sf) && sf.field@ == self.field.name@ && sf.mode == QueryMode::Default
                && sf.condition == condition,
    {
        Filter::Scalar(ScalarFilter { field: self.field.name.clone(), condition, mode: QueryMode::Default })
    }

    /// A filter on the parser's list field with the given condition.
    fn list_filter(&self, condition: ScalarListCondition) -> (f: Filter)
        ensures
            f matches Filter::ScalarList(n, c) && n@ == self.field.name@ && c == condition,
    {
        Filter::ScalarList(self.field.name.clone(), condition)
    }

    /// The filter that compares with `op` against `cv`.
    fn op_filter(&self, op: ScalarOp, cv: ConditionValue, Ghost(c): Ghost<CondShape>) -> (f: Filter)
        requires
            cond_shaped(cv, c),
        ensures
            shaped(f, FilterShape::Scalar(op, c), self.field.name@),
    {
        let cond = make_condition(op, cv);
        let f = self.scalar_filter(cond);
        assert(cond_shaped(cv, c) && cond == op_condition(op, cv));
        f
    }

    /// The JSON filter with the given comparison, right-hand side, path and target.
    fn json_filter(&self, op: JsonOp, cv: ConditionValue, path: &Option<JsonFilterPath>, target: Option<
        JsonTargetType,
    >, Ghost(c): Ghost<CondShape>) -> (f: Filter)
        requires
            cond_shaped(cv, c),
        ensures
            shaped(f, FilterShape::Json(op, c, path_view(*path), target), self.field.name@),
    {
        let p = copy_path(path);
        proof { lemma_path_view(p); }
        self.scalar_filter(ScalarCondition::Json(op, cv, p, target))
    }

    /// The JSON filter for a right-hand side that may be one of the JSON null enum values.
    fn json_null_enum_filter(
        &self,
        cv: ConditionValue,
        Ghost(c): Ghost<CondShape>,
        op: JsonOp,
        path: &Option<JsonFilterPath>,
        target: Option<JsonTargetType>,
        reverse: bool,
    ) -> (f: Filter)
        requires
            cond_shaped(cv, c),
        ensures
            shaped(f, json_null_shape(c, op, path_view(*path), target, reverse), self.field.name@),
    {
        let ghost field = self.field.name@;
        let ghost pv = path_view(*path);
        match cv {
            ConditionValue::Value(PrismaValue::Enum(e)) => {
                if str_eq(e.as_str(), constants::DB_NULL) {
                    self.json_filter(op, ConditionValue::Value(PrismaValue::Null), path, target, Ghost(CondShape::Null))
                } else if str_eq(e.as_str(), constants::JSON_NULL) {
                    proof { reveal_strlit("null"); }
                    self.json_filter(
                        op,
                        ConditionValue::Value(PrismaValue::Json(text("null"))),
                        path,
                        target,
                        Ghost(CondShape::JsonNull),
                    )
                } else if str_eq(e.as_str(), constants::ANY_NULL) {
                    proof { reveal_strlit("null"); }
                    let f1 = self.json_filter(
                        op,
                        ConditionValue::Value(PrismaValue::Json(text("null"))),
                        path,
                        target,
                        Ghost(CondShape::JsonNull),
                    );
                    let f2 = self.json_filter(
                        op,
                        ConditionValue::Value(PrismaValue::Null),
                        path,
                        target,
                        Ghost(CondShape::Null),
                    );
                    let ghost both = seq![
                        FilterShape::Json(op, CondShape::JsonNull, pv, target),
                        FilterShape::Json(op, CondShape::Null, pv, target),
                    ];
                    let v = vec![f1, f2];
                    proof {
                        lemma_all_shaped_forall(v@, both, field);
                    }
                    if reverse {
                        Filter::And(v)
                    } else {
                        Filter::Or(v)
                    }
                } else {
                    self.json_filter(op, ConditionValue::Value(PrismaValue::Enum(e)), path, target, Ghost(c))
                }
            },
            other => self.json_filter(op, other, path, target, Ghost(c)),
        }
    }
}

impl<'a> ScalarFilterParser<'a> {
    /// Parses the filter object on the parser's field into the filters it asks for, each entry
    /// in turn; a `path` entry gives the JSON path of the JSON filters and is no filter itself.
    #[verifier::rlimit(60)]
    pub fn parse(&self, filter_map: ParsedInputMap) -> (r: Result<Vec<Filter>, QueryGraphBuilderError>)
        ensures
            parsed_as(r, self.parse_spec(filter_map.entries@), self.field.name@),
        decreases filter_map, 1int, 0int,
    {
        let ghost m0 = filter_map;
        let ghost len = m0.entries@.len() as int;
        let ghost pidx = key_index(m0.entries@, constants::PATH@);
        let ghost field = self.field.name@;
        proof { lemma_key_index_valid(m0.entries@, constants::PATH@); }
        let mut m = filter_map;
        let removed = m.swap_remove(constants::PATH);
        assert(match pidx {
            Option::Some(i) => m.entries@ == swap_removed(m0.entries@, i) && removed == Option::Some(m0.entries@[i].1),
            Option::None => m.entries@ == m0.entries@ && removed is None,
        });
        let path: Option<JsonFilterPath> = match removed {
            Option::Some(v) => match parse_json_path(v) {
                Ok(p) => Option::Some(p),
                Err(e) => return Err(e),
            },
            Option::None => Option::None,
        };
        let ghost pshape = path_view(path);
        let ghost count: nat = if pidx is Some { (len - 1) as nat } else { len as nat };
        let entries = m.entries;
        let ghost ents = entries@;
        assert(ents.len() == count);
        assert forall|j: int| 0 <= j < count implies #[trigger] ents[j] == m0.entries@[processing_order(pidx, j, len)]
            && 0 <= processing_order(pidx, j, len) < len by {
            if let Option::Some(i) = pidx {
                if j == i {
                    assert(ents[j] == m0.entries@.last());
                }
            }
        }
        let mut out: Vec<Filter> = Vec::new();
        let ghost mut shapes: Seq<FilterShape> = Seq::empty();
        let ghost whole = if pidx is Some {
            check_path_used(self.entries_spec(m0.entries@, pidx, count, pshape), pshape)
        } else {
            self.entries_spec(m0.entries@, pidx, count, pshape)
        };
        assert(self.parse_spec(m0.entries@) == whole);
        for e in it: entries.into_iter()
            invariant
                self.parse_spec(m0.entries@) == whole,
                whole == (if pidx is Some {
                    check_path_used(self.entries_spec(m0.entries@, pidx, count, pshape), pshape)
                } else {
                    self.entries_spec(m0.entries@, pidx, count, pshape)
                }),
                pidx is Some <==> pshape is Some,
                pshape == path_view(path),
                filter_map == m0,
                pidx == key_index(m0.entries@, constants::PATH@),
                len == m0.entries@.len(),
                it.seq() == ents,
                ents.len() == count,
                count <= len,
                len == m0.entries@.len(),
                forall|j: int| 0 <= j < count ==> #[trigger] ents[j] == m0.entries@[processing_order(pidx, j, len)]
                    && 0 <= processing_order(pidx, j, len) < len,
                self.entries_spec(m0.entries@, pidx, it.index() as nat, pshape) == Ok::<Seq<FilterShape>, Seq<char>>(shapes),
                all_shaped(out@, shapes, field),
                field == self.field.name@,
        {
            let ghost j = it.index() as int;
            let ghost k = processing_order(pidx, j, len);
            let (name, value) = e;
            let ghost gv = value;
            assert(gv == m0.entries@[k].1);
            assert(decreases_to!(m0 => m0.entries));
            assert(decreases_to!(m0.entries => m0.entries@));
            assert(decreases_to!(m0.entries@ => m0.entries@[k]));
            assert(decreases_to!(m0.entries@[k] => m0.entries@[k].1));
            assert(decreases_to!(m0 => gv));
            assert(decreases_to!(filter_map => value));
            let r = self.parse_entry(name.as_str(), value, &path);
            match r {
                Ok(mut fs) => {
                    let ghost add = self.entry_spec(name@, gv, pshape)->Ok_0;
                    let ghost before = out@;
                    let ghost fsv = fs@;
                    out.append(&mut fs);
                    proof {
                        lemma_all_shaped_append(before, shapes, fsv, add, field);
                        shapes = shapes + add;
                    }
                },
                Err(e) => {
                    proof {
                        assert(name@ == m0.entries@[k].0@);
                        let e2 = self.entry_spec(name@, gv, pshape)->Err_0;
                        lemma_entries_err(*self, m0, pidx, (j + 1) as nat, count, pshape, e2);
                    }
                    return Err(e);
                },
            }
        }
        proof { lemma_all_shaped_forall(out@, shapes, field); }
        if path.is_some() && out.len() == 0 {
            return Err(input_error(text("A JSON path cannot be set without a scalar filter.")));
        }
        Ok(out)
    }

    /// The filters of one entry: JSON fields have their own set of filter keys.
    fn parse_entry(&self, name: &str, input: ParsedInputValue, path: &Option<JsonFilterPath>) -> (r: Result<
        Vec<Filter>,
        QueryGraphBuilderError,
    >)
        ensures
            parsed_as(r, self.entry_spec(name@, input, path_view(*path)), self.field.name@),
        decreases input, 3int, 0int,
    {
        if self.field.type_identifier == TypeIdentifier::Json {
            self.parse_json(name, input, path)
        } else {
            self.parse_scalar(name, input)
        }
    }

    /// The filters of an aggregation entry: those of its object, each wrapped.
    fn aggregation_filter(&self, name: &str, input: ParsedInputValue, kind: AggregationKind) -> (r: Result<
        Vec<Filter>,
        QueryGraphBuilderError,
    >)
        ensures
            parsed_as(r, self.aggregation_spec(name@, input, kind), self.field.name@),
        decreases input, 1int, 0int,
    {
        let ghost field = self.field.name@;
        match input {
            ParsedInputValue::Object(m) => {
                let is_count = match kind {
                    AggregationKind::Count => true,
                    _ => false,
                };
                let inner = ScalarFilterParser {
                    field: self.field,
                    container: self.container,
                    data_model: self.data_model,
                    reverse: self.reverse,
                    is_count_filter: is_count,
                };
                assert(inner == self.for_aggregation(kind == AggregationKind::Count));
                let fs = match inner.parse(m) {
                    Ok(fs) => fs,
                    Err(e) => return Err(e),
                };
                let ghost shapes = inner.parse_spec(m.entries@)->Ok_0;
                proof { lemma_all_shaped_forall(fs@, shapes, field); }
                let ghost src = fs@;
                let mut out: Vec<Filter> = Vec::new();
                for f in it: fs.into_iter()
                    invariant
                        it.seq() == src,
                        src.len() == shapes.len(),
                        forall|i: int| 0 <= i < shapes.len() ==> #[trigger] shaped(src[i], shapes[i], field),
                        out@.len() == it.index(),
                        forall|i: int|
                            0 <= i < it.index() ==> #[trigger] shaped(
                                out@[i],
                                wrap_aggregation(shapes, kind)[i],
                                field,
                            ),
                {
                    let ghost i = it.index() as int;
                    assert(shaped(src[i], shapes[i], field));
                    out.push(Filter::Aggregation(kind, Box::new(f)));
                }
                proof { lemma_all_shaped_forall(out@, wrap_aggregation(shapes, kind), field); }
                Ok(out)
            },
            _ => Err(input_error(not_an_object(name))),
        }
    }

    /// The filters of one entry with a scalar list key: `has`, `hasEvery`, `hasSome`, `isEmpty`.
    fn parse_list_entry(&self, name: &str, input: ParsedInputValue) -> (r: Result<Vec<Filter>, QueryGraphBuilderError>)
        requires
            name@ == constants::HAS@ || name@ == constants::HAS_EVERY@ || name@ == constants::HAS_SOME@ || name@
                == constants::IS_EMPTY@,
        ensures
            parsed_as(r, self.list_entry_spec(name@, input), self.field.name@),
    {
        let ghost field = self.field.name@;
        if str_eq(name, constants::HAS) {
            let ghost c = self.cond_value_spec(input, false, self.expected_type())->Ok_0;
            let cv = match self.as_condition_value(input, false, self.expected_type_exec()) {
                Ok(cv) => cv,
                Err(e) => return Err(e),
            };
            let f = self.list_filter(ScalarListCondition::ContainsElement(cv));
            Ok(single(f, Ghost(FilterShape::ListContains(c)), Ghost(field)))
        } else if str_eq(name, constants::HAS_EVERY) {
            let ghost l = self.list_value_spec(name@, input)->Ok_0;
            let lv = match self.as_condition_list_value(name, input) {
                Ok(lv) => lv,
                Err(e) => return Err(e),
            };
            let f = self.list_filter(ScalarListCondition::ContainsEvery(lv));
            Ok(single(f, Ghost(FilterShape::ListContainsEvery(l)), Ghost(field)))
        } else if str_eq(name, constants::HAS_SOME) {
            let ghost l = self.list_value_spec(name@, input)->Ok_0;
            let lv = match self.as_condition_list_value(name, input) {
                Ok(lv) => lv,
                Err(e) => return Err(e),
            };
            let f = self.list_filter(ScalarListCondition::ContainsSome(lv));
            Ok(single(f, Ghost(FilterShape::ListContainsSome(l)), Ghost(field)))
        } else {
            match input.into_bool() {
                Option::Some(b) => {
                    let f = self.list_filter(ScalarListCondition::IsEmpty(b));
                    Ok(single(f, Ghost(FilterShape::ListIsEmpty(b)), Ghost(field)))
                },
                Option::None => Err(input_error(not_a_bool(name))),
            }
        }
    }
}

impl<'a> ScalarFilterParser<'a> {
    /// The filters of one entry on a field that is not JSON.
    fn parse_scalar(&self, name: &str, input: ParsedInputValue) -> (r: Result<Vec<Filter>, QueryGraphBuilderError>)
        ensures
            parsed_as(r, self.scalar_entry_spec(name@, input), self.field.name@),
        decreases input, 2int, 0int,
    {
        let ghost field = self.field.name@;
        let ghost gi = input;
        let reverse = self.reverse;
        let vop = scalar_value_op_exec(name, reverse);
        let agg = aggregation_of_exec(name);
        if str_eq(name, constants::NOT_LOWERCASE) {
            match input {
                ParsedInputValue::Single(v) => {
                    let ghost c = CondShape::Input(gi);
                    let op = if reverse { ScalarOp::Equals } else { ScalarOp::NotEquals };
                    let f = self.op_filter(op, ConditionValue::Value(v), Ghost(c));
                    Ok(single(f, Ghost(FilterShape::Scalar(op, c)), Ghost(field)))
                },
                ParsedInputValue::Object(m) => {
                    let inner = ScalarFilterParser {
                        field: self.field,
                        container: self.container,
                        data_model: self.data_model,
                        reverse: !self.reverse,
                        is_count_filter: false,
                    };
                    assert(inner == self.flipped());
                    inner.parse(m)
                },
                _ => Err(input_error(not_an_object(name))),
            }
        } else if str_eq(name, constants::IN) || str_eq(name, constants::NOT_IN) {
            let negated = str_eq(name, constants::IN) == reverse;
            let is_null = match &input {
                ParsedInputValue::Single(PrismaValue::Null) => true,
                _ => false,
            };
            let cv = match self.as_condition_value(input, true, self.expected_type_exec()) {
                Ok(cv) => cv,
                Err(e) => return Err(e),
            };
            match cv {
                ConditionValue::FieldRef(r) => {
                    let ghost ls = ListShape::FieldRef(r@);
                    let ghost s = if negated {
                        FilterShape::NotIn(ls)
                    } else {
                        FilterShape::In(ls)
                    };
                    let lv = ConditionListValue::FieldRef(r);
                    let f = self.scalar_filter(
                        if negated {
                            ScalarCondition::NotIn(lv)
                        } else {
                            ScalarCondition::In(lv)
                        },
                    );
                    Ok(single(f, Ghost(s), Ghost(field)))
                },
                ConditionValue::Value(p) => {
                    if is_null {
                        let op = if negated {
                            ScalarOp::NotEquals
                        } else {
                            ScalarOp::Equals
                        };
                        let f = self.op_filter(op, ConditionValue::Value(PrismaValue::Null), Ghost(CondShape::Null));
                        Ok(single(f, Ghost(FilterShape::Scalar(op, CondShape::Null)), Ghost(field)))
                    } else {
                        match p {
                            PrismaValue::List(vs) => {
                                let ghost ls = ListShape::Input(gi);
                                let ghost s = if negated {
                                    FilterShape::NotIn(ls)
                                } else {
                                    FilterShape::In(ls)
                                };
                                let lv = ConditionListValue::List(vs);
                                assert(list_shaped(lv, ls));
                                let f = self.scalar_filter(
                                    if negated {
                                        ScalarCondition::NotIn(lv)
                                    } else {
                                        ScalarCondition::In(lv)
                                    },
                                );
                                Ok(single(f, Ghost(s), Ghost(field)))
                            },
                            _ => Err(input_error(not_a_list(name))),
                        }
                    }
                },
            }
        } else if vop.is_some() {
            let op = vop.unwrap();
            let ghost c = self.cond_value_spec(input, false, self.expected_type())->Ok_0;
            let cv = match self.as_condition_value(input, false, self.expected_type_exec()) {
                Ok(cv) => cv,
                Err(e) => return Err(e),
            };
            let f = self.op_filter(op, cv, Ghost(c));
            Ok(single(f, Ghost(FilterShape::Scalar(op, c)), Ghost(field)))
        } else if str_eq(name, constants::IS_SET) {
            match input.into_bool() {
                Option::Some(b) => {
                    let v = if reverse {
                        !b
                    } else {
                        b
                    };
                    let f = self.scalar_filter(ScalarCondition::IsSet(v));
                    Ok(single(f, Ghost(FilterShape::IsSet(v)), Ghost(field)))
                },
                Option::None => Err(input_error(not_a_bool(name))),
            }
        } else if str_eq(name, constants::HAS) || str_eq(name, constants::HAS_EVERY) || str_eq(
            name,
            constants::HAS_SOME,
        ) || str_eq(name, constants::IS_EMPTY) {
            self.parse_list_entry(name, input)
        } else if agg.is_some() {
            self.aggregation_filter(name, input, agg.unwrap())
        } else {
            Err(input_error(invalid_op(name)))
        }
    }

    /// The filters of one entry on a JSON field.
    fn parse_json(&self, name: &str, input: ParsedInputValue, path: &Option<JsonFilterPath>) -> (r: Result<
        Vec<Filter>,
        QueryGraphBuilderError,
    >)
        ensures
            parsed_as(r, self.json_entry_spec(name@, input, path_view(*path)), self.field.name@),
        decreases input, 2int, 0int,
    {
        let ghost field = self.field.name@;
        let ghost gi = input;
        let ghost pv = path_view(*path);
        let reverse = self.reverse;
        let oop = json_order_op_exec(name, reverse);
        let top = json_target_op_exec(name);
        if str_eq(name, constants::NOT_LOWERCASE) {
            match input {
                ParsedInputValue::Single(v) => {
                    let ghost c = CondShape::Input(gi);
                    let op = if reverse { JsonOp::Equals } else { JsonOp::NotEquals };
                    let f = self.json_null_enum_filter(
                        ConditionValue::Value(v),
                        Ghost(c),
                        op,
                        path,
                        Option::None,
                        !reverse,
                    );
                    Ok(single(f, Ghost(json_null_shape(c, op, pv, Option::None, !reverse)), Ghost(field)))
                },
                ParsedInputValue::Object(m) => {
                    let is_ref = match &m.tag {
                        Option::Some(ObjectTag::FieldRefType(_)) => true,
                        _ => false,
                    };
                    if is_ref {
                        let ghost c = self.cond_value_spec(gi, false, self.expected_type())->Ok_0;
                        let cv = match self.as_condition_value(
                            ParsedInputValue::Object(m),
                            false,
                            self.expected_type_exec(),
                        ) {
                            Ok(cv) => cv,
                            Err(e) => return Err(e),
                        };
                        let op = if reverse { JsonOp::Equals } else { JsonOp::NotEquals };
                        let f = self.json_filter(op, cv, path, Option::None, Ghost(c));
                        Ok(single(f, Ghost(FilterShape::Json(op, c, pv, Option::None)), Ghost(field)))
                    } else {
                        let inner = ScalarFilterParser {
                            field: self.field,
                            container: self.container,
                            data_model: self.data_model,
                            reverse: !self.reverse,
                            is_count_filter: false,
                        };
                        assert(inner == self.flipped());
                        inner.parse(m)
                    }
                },
                _ => Err(input_error(not_an_object(name))),
            }
        } else if str_eq(name, constants::EQUALS) {
            let ghost c = self.cond_value_spec(input, false, self.expected_type())->Ok_0;
            let cv = match self.as_condition_value(input, false, self.expected_type_exec()) {
                Ok(cv) => cv,
                Err(e) => return Err(e),
            };
            let op = if reverse {
                JsonOp::NotEquals
            } else {
                JsonOp::Equals
            };
            let f = self.json_null_enum_filter(cv, Ghost(c), op, path, Option::None, reverse);
            Ok(single(f, Ghost(json_null_shape(c, op, pv, Option::None, reverse)), Ghost(field)))
        } else if oop.is_some() {
            let op = oop.unwrap();
            let ghost c = self.cond_value_spec(input, false, self.expected_type())->Ok_0;
            let cv = match self.as_condition_value(input, false, self.expected_type_exec()) {
                Ok(cv) => cv,
                Err(e) => return Err(e),
            };
            let f = self.json_filter(op, cv, path, Option::None, Ghost(c));
            Ok(single(f, Ghost(FilterShape::Json(op, c, pv, Option::None)), Ghost(field)))
        } else if str_eq(name, constants::HAS) || str_eq(name, constants::HAS_EVERY) || str_eq(
            name,
            constants::HAS_SOME,
        ) || str_eq(name, constants::IS_EMPTY) {
            self.parse_list_entry(name, input)
        } else if top.is_some() {
            let (op0, target) = top.unwrap();
            let op = if reverse {
                json_negated_exec(op0)
            } else {
                op0
            };
            match target {
                JsonTargetType::Array => {
                    let ghost c = self.cond_value_spec(input, false, self.expected_type())->Ok_0;
                    let cv = match self.as_condition_value(input, false, self.expected_type_exec()) {
                        Ok(cv) => cv,
                        Err(e) => return Err(e),
                    };
                    let keep = str_eq(name, constants::ARRAY_ENDS_WITH) && !reverse;
                    let ghost c2 = if keep {
                        c
                    } else {
                        coerce_json_null_shape(c)
                    };
                    let cv2 = if keep {
                        cv
                    } else {
                        coerce_json_null(cv, Ghost(c))
                    };
                    let f = self.json_null_enum_filter(
                        cv2,
                        Ghost(c2),
                        op,
                        path,
                        Option::Some(JsonTargetType::Array),
                        true,
                    );
                    Ok(
                        single(
                            f,
                            Ghost(json_null_shape(c2, op, pv, Option::Some(JsonTargetType::Array), true)),
                            Ghost(field),
                        ),
                    )
                },
                JsonTargetType::String => {
                    let ghost c = self.cond_value_spec(input, false, TypeIdentifier::String)->Ok_0;
                    let cv = match self.as_condition_value(input, false, TypeIdentifier::String) {
                        Ok(cv) => cv,
                        Err(e) => return Err(e),
                    };
                    let f = self.json_filter(op, cv, path, Option::Some(JsonTargetType::String), Ghost(c));
                    Ok(
                        single(
                            f,
                            Ghost(FilterShape::Json(op, c, pv, Option::Some(JsonTargetType::String))),
                            Ghost(field),
                        ),
                    )
                },
            }
        } else {
            Err(input_error(invalid_op(name)))
        }
    }
}

} // verus!
