use vstd::prelude::*;
use crate::shown::shown_input;
use crate::constants;
use crate::error::QueryGraphBuilderError;
use crate::filter::{CompositeCondition, Filter, QueryMode, RelationCondition, ScalarCondition, ScalarFilter, ConditionValue};
use crate::flatten::GroupKind;
use crate::scalar::{FilterShape, ScalarFilterParser, shaped};
use crate::schema::{CompositeField, Container, DataModel, Field, RelationField, ScalarField, container_index, field_index};
use crate::text::{lowercase, str_eq, text};
use crate::filter_grouping::FilterGrouping;
use crate::scalar_parser::{lemma_all_shaped_forall, parsed_as};
use crate::values::lemma_key_index_valid;
use crate::values::{ObjectTag, ParsedInputMap, ParsedInputValue, PrismaValue, converts, input_text, key_index};
use crate::scalar::swap_removed;

verus! {

/// What an error of the filter extraction is: its kind and message.
pub enum ErrorDesc {
    Input(Seq<char>),
    Assertion(Seq<char>),
    Domain(Seq<char>),
}

/// `e` is the error that `d` describes.
pub open spec fn error_is(e: QueryGraphBuilderError, d: ErrorDesc) -> bool {
    match d {
        ErrorDesc::Input(m) => e matches QueryGraphBuilderError::InputError(x) && x@ == m,
        ErrorDesc::Assertion(m) => e matches QueryGraphBuilderError::AssertionError(x) && x@ == m,
        ErrorDesc::Domain(m) => e matches QueryGraphBuilderError::DomainError(x) && x@ == m,
    }
}

/// The conditions of a composite filter that hold a nested filter.
#[derive(Debug, Clone, Copy, PartialEq, Eq, Structural)]
pub enum CompositeKind {
    EveryElement,
    SomeElement,
    NoElement,
    Is,
    IsNot,
}

/// What an extracted filter is.
pub enum FilterDesc {
    /// A group of the given kind of the filters described.
    Group(GroupKind, Seq<FilterDesc>),
    /// The scalar field named equals the value that the input converts to.
    Equals(Seq<char>, ParsedInputValue),
    /// The conjunction of the filters of a scalar filter object on the field named (as the
    /// scalar filter parser describes them), each scalar filter with the query mode given.
    Scalars(Seq<char>, Seq<FilterShape>, QueryMode),
    /// The one-relation field named has no related record.
    RelationIsNull(Seq<char>),
    /// A condition on the records related through the field named.
    Relation(Seq<char>, RelationCondition, Box<FilterDesc>),
    /// The composite field named equals the value that the input converts to.
    CompositeEquals(Seq<char>, ParsedInputValue),
    CompositeIsSet(Seq<char>, bool),
    CompositeIsEmpty(Seq<char>, bool),
    /// A condition with a nested filter on the composite field named.
    Composite(Seq<char>, CompositeKind, Box<FilterDesc>),
}

/// `f` is the scalar filter that `s` describes, with its query mode set to `mode`.
pub open spec fn shaped_with_mode(f: Filter, s: FilterShape, field: Seq<char>, mode: QueryMode) -> bool {
    match f {
        Filter::Scalar(sf) => sf.mode == mode && shaped(
            Filter::Scalar(ScalarFilter { field: sf.field, condition: sf.condition, mode: QueryMode::Default }),
            s,
            field,
        ),
        _ => shaped(f, s, field),
    }
}

/// `f` is the filter that `d` describes.
pub open spec fn described(f: Filter, d: FilterDesc) -> bool
    decreases d, 1int,
{
    match d {
        FilterDesc::Group(k, ds) => match (k, f) {
            (GroupKind::And, Filter::And(v)) => all_described(v@, ds),
            (GroupKind::Or, Filter::Or(v)) => all_described(v@, ds),
            (GroupKind::Not, Filter::Not(v)) => all_described(v@, ds),
            _ => false,
        },
        FilterDesc::Equals(n, i) => f matches Filter::Scalar(sf) && sf.field@ == n && sf.mode == QueryMode::Default
            && (sf.condition matches ScalarCondition::Equals(ConditionValue::Value(p)) && converts(i, p)),
        FilterDesc::Scalars(n, shapes, mode) => f matches Filter::And(v) && v@.len() == shapes.len() && forall|
            i: int,
        |
            0 <= i < shapes.len() ==> #[trigger] shaped_with_mode(v@[i], shapes[i], n, mode),
        FilterDesc::RelationIsNull(n) => f matches Filter::OneRelationIsNull(s) && s@ == n,
        FilterDesc::Relation(n, c, inner) => f matches Filter::Relation(s, c2, b) && s@ == n && c2 == c
            && described(*b, *inner),
        FilterDesc::CompositeEquals(n, i) => f matches Filter::Composite(s, CompositeCondition::Equals(p)) && s@
            == n && converts(i, p),
        FilterDesc::CompositeIsSet(n, b) => f matches Filter::Composite(s, CompositeCondition::IsSet(b2)) && s@
            == n && b2 == b,
        FilterDesc::CompositeIsEmpty(n, b) => f matches Filter::Composite(s, CompositeCondition::Empty(b2)) && s@
            == n && b2 == b,
        FilterDesc::Composite(n, k, inner) => match f {
            Filter::Composite(s, c) => s@ == n && match (k, c) {
                (CompositeKind::EveryElement, CompositeCondition::EveryElement(b)) => described(*b, *inner),
                (CompositeKind::SomeElement, CompositeCondition::SomeElement(b)) => described(*b, *inner),
                (CompositeKind::NoElement, CompositeCondition::NoElement(b)) => described(*b, *inner),
                (CompositeKind::Is, CompositeCondition::Is(b)) => described(*b, *inner),
                (CompositeKind::IsNot, CompositeCondition::IsNot(b)) => described(*b, *inner),
                _ => false,
            },
            _ => false,
        },
    }
}

/// Element by element, the filters of `fs` are what `ds` describes.
pub open spec fn all_described(fs: Seq<Filter>, ds: Seq<FilterDesc>) -> bool
    decreases ds, 0int,
{
    fs.len() == ds.len() && (ds.len() > 0 ==> all_described(fs.drop_last(), ds.drop_last()) && described(
        fs.last(),
        ds.last(),
    ))
}

/// The connective that a filter key names, ignoring the case of ASCII letters.
pub open spec fn grouping_of(key: Seq<char>) -> Option<GroupKind> {
    if lowercase(key) == "and"@ {
        Option::Some(GroupKind::And)
    } else if lowercase(key) == "or"@ {
        Option::Some(GroupKind::Or)
    } else if lowercase(key) == "not"@ {
        Option::Some(GroupKind::Not)
    } else {
        Option::None
    }
}

/// The message when a key names no field of the model.
pub open spec fn field_not_found_message(key: Seq<char>, model: Seq<char>) -> Seq<char> {
    "Field not found: `"@ + key + "` on `"@ + model + "`."@
}

/// The message when a model or composite type named by the schema is missing.
pub open spec fn container_not_found_message(name: Seq<char>) -> Seq<char> {
    "Model or composite type not found: `"@ + name + "`."@
}

/// The message when a filter group holds something else than objects.
pub open spec fn group_input_message(key: Seq<char>) -> Seq<char> {
    "The filter group "@ + key + " expects an object or a list of objects."@
}

/// The message for an invalid relation filter key or input.
pub open spec fn invalid_relation_key_message(key: Seq<char>) -> Seq<char> {
    "Invalid filter key `"@ + key + "` input combination for relation filter"@
}

/// The message for an invalid composite filter key or input.
pub open spec fn invalid_composite_key_message(key: Seq<char>) -> Seq<char> {
    "Invalid filter key `"@ + key + "` input combination for composite filter"@
}

/// The container found under a name has that name.
pub proof fn lemma_container_named(dm: DataModel, name: Seq<char>)
    ensures
        container_named(dm, name) matches Option::Some(c) ==> c.name@ == name,
{
    crate::schema::lemma_container_index_valid(dm.containers@, name);
}

/// The model or composite type named `name`.
pub open spec fn container_named(dm: DataModel, name: Seq<char>) -> Option<Container> {
    match container_index(dm.containers@, name) {
        Option::Some(i) => Option::Some(dm.containers@[i]),
        Option::None => Option::None,
    }
}

/// The key and value shape of an entry make a relation filter (`some`, `none`, `every` with
/// an object; `is`, `isNot` with an object or null).
pub open spec fn is_relation_entry(key: Seq<char>, v: ParsedInputValue) -> bool {
    let has_map = v is Object;
    let is_null = v == ParsedInputValue::Single(PrismaValue::Null);
    if key == constants::SOME@ || key == constants::NONE@ || key == constants::EVERY@ {
        has_map
    } else if key == constants::IS@ || key == constants::IS_NOT@ {
        has_map || is_null
    } else {
        false
    }
}

/// Every entry of the map makes a relation filter.
pub open spec fn all_relation_entries(m: ParsedInputMap) -> bool {
    forall|i: int| 0 <= i < m.entries@.len() ==> #[trigger] is_relation_entry(m.entries@[i].0@, m.entries@[i].1)
}

/// The relation condition of a relation filter key with an object.
pub open spec fn relation_condition_of(key: Seq<char>) -> RelationCondition {
    if key == constants::SOME@ {
        RelationCondition::AtLeastOneRelatedRecord
    } else if key == constants::NONE@ {
        RelationCondition::NoRelatedRecord
    } else if key == constants::EVERY@ {
        RelationCondition::EveryRelatedRecord
    } else if key == constants::IS@ {
        RelationCondition::ToOneRelatedRecord
    } else {
        RelationCondition::NoRelatedRecord
    }
}

/// The filter that extracting the filter object `m` on `model` gives: the conjunction of
/// the filters of its entries.
pub open spec fn extract_spec(dm: DataModel, model: Container, m: ParsedInputMap) -> Result<FilterDesc, ErrorDesc>
    decreases m, 4int, 0int,
{
    match entries_spec(dm, model, m, m.entries@.len()) {
        Ok(ds) => Ok(FilterDesc::Group(GroupKind::And, ds)),
        Err(e) => Err(e),
    }
}

/// The filters of the first `k` entries of `m`; the first failing entry decides the error.
pub open spec fn entries_spec(dm: DataModel, model: Container, m: ParsedInputMap, k: nat) -> Result<
    Seq<FilterDesc>,
    ErrorDesc,
>
    decreases m, 3int, k,
{
    if k == 0 {
        Ok(Seq::empty())
    } else {
        match entries_spec(dm, model, m, (k - 1) as nat) {
            Err(e) => Err(e),
            Ok(prev) => if k - 1 < m.entries@.len() {
                match entry_spec(dm, model, m.entries@[k - 1].0@, m.entries@[k - 1].1) {
                    Ok(d) => Ok(prev.push(d)),
                    Err(e) => Err(e),
                }
            } else {
                Err(ErrorDesc::Input(Seq::empty()))
            },
        }
    }
}

/// The filters of the first `k` objects of a filter group's list.
pub open spec fn list_spec(dm: DataModel, model: Container, v: ParsedInputValue, key: Seq<char>, k: nat) -> Result<
    Seq<FilterDesc>,
    ErrorDesc,
>
    decreases v, 3int, k,
{
    match v {
        ParsedInputValue::List(l) => if k == 0 {
            Ok(Seq::empty())
        } else {
            match list_spec(dm, model, v, key, (k - 1) as nat) {
                Err(e) => Err(e),
                Ok(prev) => if k - 1 < l@.len() {
                    match l@[k - 1] {
                        ParsedInputValue::Object(mm) => match extract_spec(dm, model, mm) {
                            Ok(d) => Ok(prev.push(d)),
                            Err(e) => Err(e),
                        },
                        _ => Err(ErrorDesc::Input(group_input_message(key))),
                    }
                } else {
                    Err(ErrorDesc::Input(Seq::empty()))
                },
            }
        },
        _ => Err(ErrorDesc::Input(group_input_message(key))),
    }
}

/// The filter of one entry: a group of the filters of its object(s), or the filters on the
/// field that the key names.
pub open spec fn entry_spec(dm: DataModel, model: Container, key: Seq<char>, v: ParsedInputValue) -> Result<
    FilterDesc,
    ErrorDesc,
>
    decreases v, 5int, 0int,
{
    match grouping_of(key) {
        Option::Some(g) => match v {
            ParsedInputValue::List(l) => match list_spec(dm, model, v, key, l@.len()) {
                Ok(ds) => Ok(FilterDesc::Group(g, ds)),
                Err(e) => Err(e),
            },
            ParsedInputValue::Object(mm) => match extract_spec(dm, model, mm) {
                Ok(d) => Ok(FilterDesc::Group(g, seq![d])),
                Err(e) => Err(e),
            },
            _ => Err(ErrorDesc::Input(group_input_message(key))),
        },
        Option::None => match field_index(model.fields@, key) {
            Option::None => Err(ErrorDesc::Domain(field_not_found_message(key, model.name@))),
            Option::Some(i) => match model.fields@[i] {
                Field::Scalar(sf) => scalar_filters_spec(dm, model, sf, v),
                Field::Relation(rf) => match relation_filters_spec(dm, rf, v) {
                    Ok(ds) => Ok(FilterDesc::Group(GroupKind::And, ds)),
                    Err(e) => Err(e),
                },
                Field::Composite(cf) => match v {
                    ParsedInputValue::Object(mm) => match composite_spec(dm, cf, mm) {
                        Ok(d) => Ok(FilterDesc::Group(GroupKind::And, seq![d])),
                        Err(e) => Err(e),
                    },
                    _ => Err(ErrorDesc::Input("Invalid composite filter input: "@ + shown_input(v))),
                },
            },
        },
    }
}

/// The filters on a scalar field: equality for a single value, the filters of the scalar
/// filter parser (with the query mode of the key `mode`) for an object.
pub open spec fn scalar_filters_spec(dm: DataModel, model: Container, sf: ScalarField, v: ParsedInputValue) -> Result<
    FilterDesc,
    ErrorDesc,
> {
    match v {
        ParsedInputValue::Single(_) => Ok(FilterDesc::Group(GroupKind::And, seq![FilterDesc::Equals(sf.name@, v)])),
        ParsedInputValue::Object(fm) => {
            let es = fm.entries@;
            let (mode, rest) = match key_index(es, constants::MODE@) {
                Option::Some(i) => (query_mode_spec(es[i].1), swap_removed(es, i)),
                Option::None => (Ok(QueryMode::Default), es),
            };
            match mode {
                Err(e) => Err(e),
                Ok(md) => {
                    let p = ScalarFilterParser {
                        field: &sf,
                        container: &model,
                        data_model: &dm,
                        reverse: false,
                        is_count_filter: false,
                    };
                    match p.parse_spec(rest) {
                        Ok(shapes) => Ok(FilterDesc::Scalars(sf.name@, shapes, md)),
                        Err(e) => Err(ErrorDesc::Input(e)),
                    }
                },
            }
        },
        _ => Err(ErrorDesc::Input("Invalid scalar filter input: "@ + shown_input(v))),
    }
}

/// The message for a query mode that is neither `default` nor `insensitive`.
pub open spec fn invalid_mode_message() -> Seq<char> {
    "A query mode is `default` or `insensitive`."@
}

/// The query mode that an input names.
pub open spec fn query_mode_spec(v: ParsedInputValue) -> Result<QueryMode, ErrorDesc> {
    match input_text(v) {
        Option::Some(t) => if t == constants::DEFAULT@ {
            Ok(QueryMode::Default)
        } else if t == constants::INSENSITIVE@ {
            Ok(QueryMode::Insensitive)
        } else {
            Err(ErrorDesc::Input(invalid_mode_message()))
        },
        Option::None => Err(ErrorDesc::Input(invalid_mode_message())),
    }
}

/// The filters on a relation field: the null filter for null; for an object whose entries
/// all make relation filters, those filters; for another object, the filter on the related
/// records that the object is (an implicit `is`).
pub open spec fn relation_filters_spec(dm: DataModel, rf: RelationField, v: ParsedInputValue) -> Result<
    Seq<FilterDesc>,
    ErrorDesc,
>
    decreases v, 4int, 0int,
{
    match v {
        ParsedInputValue::Single(PrismaValue::Null) => Ok(seq![FilterDesc::RelationIsNull(rf.name@)]),
        ParsedInputValue::Object(fm) => match container_named(dm, rf.related_model@) {
            Option::None => Err(ErrorDesc::Domain(container_not_found_message(rf.related_model@))),
            Option::Some(related) => if all_relation_entries(fm) {
                relation_entries_spec(dm, rf, related, fm, fm.entries@.len())
            } else {
                match extract_spec(dm, related, fm) {
                    Ok(d) => Ok(seq![FilterDesc::Relation(rf.name@, RelationCondition::ToOneRelatedRecord, Box::new(d))]),
                    Err(e) => Err(e),
                }
            },
        },
        _ => Err(ErrorDesc::Input("Invalid relation filter input: "@ + shown_input(v))),
    }
}

/// The relation filters of the first `k` entries of a relation filter object.
pub open spec fn relation_entries_spec(
    dm: DataModel,
    rf: RelationField,
    related: Container,
    m: ParsedInputMap,
    k: nat,
) -> Result<Seq<FilterDesc>, ErrorDesc>
    decreases m, 3int, k,
{
    if k == 0 {
        Ok(Seq::empty())
    } else {
        match relation_entries_spec(dm, rf, related, m, (k - 1) as nat) {
            Err(e) => Err(e),
            Ok(prev) => if k - 1 < m.entries@.len() {
                match relation_entry_spec(dm, rf, related, m.entries@[k - 1].0@, m.entries@[k - 1].1) {
                    Ok(d) => Ok(prev.push(d)),
                    Err(e) => Err(e),
                }
            } else {
                Err(ErrorDesc::Input(Seq::empty()))
            },
        }
    }
}

/// The relation filter of one entry of a relation filter object.
pub open spec fn relation_entry_spec(
    dm: DataModel,
    rf: RelationField,
    related: Container,
    key: Seq<char>,
    v: ParsedInputValue,
) -> Result<FilterDesc, ErrorDesc>
    decreases v, 5int, 0int,
{
    match v {
        ParsedInputValue::Object(mm) => if key == constants::SOME@ || key == constants::NONE@ || key
            == constants::EVERY@ || key == constants::IS@ || key == constants::IS_NOT@ {
            match extract_spec(dm, related, mm) {
                Ok(d) => Ok(FilterDesc::Relation(rf.name@, relation_condition_of(key), Box::new(d))),
                Err(e) => Err(e),
            }
        } else {
            Err(ErrorDesc::Input(invalid_relation_key_message(key)))
        },
        ParsedInputValue::Single(PrismaValue::Null) => if key == constants::IS@ {
            Ok(FilterDesc::RelationIsNull(rf.name@))
        } else if key == constants::IS_NOT@ {
            Ok(FilterDesc::Group(GroupKind::Not, seq![FilterDesc::RelationIsNull(rf.name@)]))
        } else {
            Err(ErrorDesc::Input(invalid_relation_key_message(key)))
        },
        _ => Err(ErrorDesc::Input(invalid_relation_key_message(key))),
    }
}

/// The message when a composite filter envelope holds no operation.
pub open spec fn empty_envelope_message() -> Seq<char> {
    "A composite filter names one operation."@
}

/// The composite filter of a composite filter object: for an envelope, the operation of its
/// first entry; otherwise equality with the object.
pub open spec fn composite_spec(dm: DataModel, cf: CompositeField, m: ParsedInputMap) -> Result<FilterDesc, ErrorDesc>
    decreases m, 4int, 0int,
{
    if m.tag == Option::Some(ObjectTag::CompositeEnvelope) {
        if m.entries@.len() == 0 {
            Err(ErrorDesc::Input(empty_envelope_message()))
        } else {
            composite_op_spec(dm, cf, m.entries@[0].0@, m.entries@[0].1)
        }
    } else {
        Ok(FilterDesc::CompositeEquals(cf.name@, ParsedInputValue::Object(m)))
    }
}

/// The nested condition that a composite filter key names.
pub open spec fn composite_kind_of(key: Seq<char>) -> Option<CompositeKind> {
    if key == constants::EVERY@ {
        Option::Some(CompositeKind::EveryElement)
    } else if key == constants::SOME@ {
        Option::Some(CompositeKind::SomeElement)
    } else if key == constants::NONE@ {
        Option::Some(CompositeKind::NoElement)
    } else if key == constants::IS@ {
        Option::Some(CompositeKind::Is)
    } else if key == constants::IS_NOT@ {
        Option::Some(CompositeKind::IsNot)
    } else {
        Option::None
    }
}

/// The composite filter of one operation of an envelope.
pub open spec fn composite_op_spec(dm: DataModel, cf: CompositeField, key: Seq<char>, v: ParsedInputValue) -> Result<
    FilterDesc,
    ErrorDesc,
>
    decreases v, 5int, 0int,
{
    let null = ParsedInputValue::Single(PrismaValue::Null);
    if key == constants::EQUALS@ {
        Ok(FilterDesc::CompositeEquals(cf.name@, v))
    } else if key == constants::IS_SET@ {
        match v {
            ParsedInputValue::Single(PrismaValue::Boolean(b)) => Ok(FilterDesc::CompositeIsSet(cf.name@, b)),
            _ => Err(ErrorDesc::Input(invalid_composite_key_message(key))),
        }
    } else if key == constants::IS_EMPTY@ {
        match v {
            ParsedInputValue::Single(PrismaValue::Boolean(b)) => Ok(FilterDesc::CompositeIsEmpty(cf.name@, b)),
            _ => Err(ErrorDesc::Input(invalid_composite_key_message(key))),
        }
    } else if key == constants::IS@ && v == null {
        Ok(FilterDesc::CompositeEquals(cf.name@, null))
    } else if key == constants::IS_NOT@ && v == null {
        Ok(FilterDesc::Group(GroupKind::Not, seq![FilterDesc::CompositeEquals(cf.name@, null)]))
    } else if composite_kind_of(key) is Some {
        match v {
            ParsedInputValue::Object(mm) => match container_named(dm, cf.typ@) {
                Option::None => Err(ErrorDesc::Domain(container_not_found_message(cf.typ@))),
                Option::Some(typ) => match extract_spec(dm, typ, mm) {
                    Ok(d) => Ok(FilterDesc::Composite(cf.name@, composite_kind_of(key).unwrap(), Box::new(d))),
                    Err(e) => Err(e),
                },
            },
            _ => Err(ErrorDesc::Input(invalid_composite_key_message(key))),
        }
    } else {
        Err(ErrorDesc::Input(invalid_composite_key_message(key)))
    }
}

/// The lemma that ties the described sequence to a forall over its positions.
pub proof fn lemma_all_described_forall(fs: Seq<Filter>, ds: Seq<FilterDesc>)
    ensures
        all_described(fs, ds) <==> (fs.len() == ds.len() && forall|i: int|
            0 <= i < ds.len() ==> #[trigger] described(fs[i], ds[i])),
    decreases ds.len(),
{
    if ds.len() > 0 && fs.len() == ds.len() {
        lemma_all_described_forall(fs.drop_last(), ds.drop_last());
        if forall|i: int| 0 <= i < ds.len() ==> #[trigger] described(fs[i], ds[i]) {
            assert forall|i: int| 0 <= i < ds.drop_last().len() implies #[trigger] described(
                fs.drop_last()[i],
                ds.drop_last()[i],
            ) by {
                assert(described(fs[i], ds[i]));
            }
            assert(described(fs[ds.len() - 1], ds[ds.len() - 1]));
        }
        if all_described(fs, ds) {
            assert forall|i: int| 0 <= i < ds.len() implies #[trigger] described(fs[i], ds[i]) by {
                if i < ds.len() - 1 {
                    assert(described(fs.drop_last()[i], ds.drop_last()[i]));
                }
            }
        }
    }
}

pub proof fn lemma_all_described_push(fs: Seq<Filter>, ds: Seq<FilterDesc>, f: Filter, d: FilterDesc)
    requires
        all_described(fs, ds),
        described(f, d),
    ensures
        all_described(fs.push(f), ds.push(d)),
{
    assert(fs.push(f).drop_last() =~= fs);
    assert(ds.push(d).drop_last() =~= ds);
}

pub proof fn lemma_all_described_single(f: Filter, d: FilterDesc)
    requires
        described(f, d),
    ensures
        all_described(seq![f], seq![d]),
{
    lemma_all_described_push(Seq::empty(), Seq::empty(), f, d);
    assert(Seq::<Filter>::empty().push(f) =~= seq![f]);
    assert(Seq::<FilterDesc>::empty().push(d) =~= seq![d]);
}

/// `r` is the outcome that `s` describes.
pub open spec fn extracted(r: Result<Filter, QueryGraphBuilderError>, s: Result<FilterDesc, ErrorDesc>) -> bool {
    match s {
        Ok(d) => r matches Ok(f) && described(f, d),
        Err(e) => r matches Err(x) && error_is(x, e),
    }
}

/// `r` is the outcome that `s` describes, filter by filter.
pub open spec fn all_extracted(r: Result<Vec<Filter>, QueryGraphBuilderError>, s: Result<Seq<FilterDesc>, ErrorDesc>) -> bool {
    match s {
        Ok(ds) => r matches Ok(v) && all_described(v@, ds),
        Err(e) => r matches Err(x) && error_is(x, e),
    }
}

fn input_error(m: String) -> (e: QueryGraphBuilderError)
    ensures
        e matches QueryGraphBuilderError::InputError(x) && x@ == m@,
{
    QueryGraphBuilderError::InputError(m)
}

/// `a` + `x` + `b`.
fn wrapped(a: &str, x: &str, b: &str) -> (s: String)
    ensures
        s@ == a@ + x@ + b@,
{
    let mut s = text(a);
    s.append(x);
    s.append(b);
    s
}

/// The query mode that an input names.
fn parse_query_mode(input: ParsedInputValue) -> (r: Result<QueryMode, QueryGraphBuilderError>)
    ensures
        match query_mode_spec(input) {
            Ok(md) => r == Ok::<QueryMode, QueryGraphBuilderError>(md),
            Err(e) => r matches Err(x) && error_is(x, e),
        },
{
    match input.into_text() {
        Option::Some(t) => {
            if str_eq(t.as_str(), constants::DEFAULT) {
                Ok(QueryMode::Default)
            } else if str_eq(t.as_str(), constants::INSENSITIVE) {
                Ok(QueryMode::Insensitive)
            } else {
                Err(input_error(text("A query mode is `default` or `insensitive`.")))
            }
        },
        Option::None => Err(input_error(text("A query mode is `default` or `insensitive`."))),
    }
}

/// Sets the query mode of a scalar filter; other filters stay as they are.
fn set_mode(f: &mut Filter, mode: QueryMode, Ghost(s): Ghost<FilterShape>, Ghost(field): Ghost<Seq<char>>)
    requires
        shaped(*old(f), s, field),
    ensures
        shaped_with_mode(*final(f), s, field, mode),
{
    match f {
        Filter::Scalar(sf) => {
            sf.mode = mode;
        },
        _ => {},
    }
}

/// The connective that a key names, ignoring case.
fn grouping_of_exec(key: &str) -> (r: Option<GroupKind>)
    ensures
        r == grouping_of(key@),
{
    match FilterGrouping::from_str(key) {
        Ok(FilterGrouping::And) => Option::Some(GroupKind::And),
        Ok(FilterGrouping::Or) => Option::Some(GroupKind::Or),
        Ok(FilterGrouping::Not) => Option::Some(GroupKind::Not),
        Err(_) => Option::None,
    }
}

/// The group of the kind given.
fn make_group(k: GroupKind, v: Vec<Filter>, Ghost(ds): Ghost<Seq<FilterDesc>>) -> (f: Filter)
    requires
        all_described(v@, ds),
    ensures
        described(f, FilterDesc::Group(k, ds)),
{
    match k {
        GroupKind::And => Filter::And(v),
        GroupKind::Or => Filter::Or(v),
        GroupKind::Not => Filter::Not(v),
    }
}

/// The model or composite type named `name`, or the domain error that it is missing.
pub fn find_container<'b>(dm: &'b DataModel, name: &str) -> (r: Result<&'b Container, QueryGraphBuilderError>)
    ensures
        match container_named(*dm, name@) {
            Option::Some(c) => r matches Ok(x) && *x == c,
            Option::None => r matches Err(e) && error_is(e, ErrorDesc::Domain(container_not_found_message(name@))),
        },
{
    match dm.find_container(name) {
        Option::Some(c) => Ok(c),
        Option::None => Err(
            QueryGraphBuilderError::DomainError(wrapped("Model or composite type not found: `", name, "`.")),
        ),
    }
}

/// Extracts a filter that may select many records of `model` from the filter object
/// `value_map`: the conjunction of the filters of its entries, where an entry is either a
/// group (`AND`, `OR`, `NOT`, in any case) of filter objects or the filter on a field.
pub fn extract_filter(value_map: ParsedInputMap, model: &Container, dm: &DataModel) -> (r: Result<
    Filter,
    QueryGraphBuilderError,
>)
    ensures
        extracted(r, extract_spec(*dm, *model, value_map)),
    decreases value_map, 4int, 0int,
{
    let ghost m0 = value_map;
    let ghost es = value_map.entries@;
    let mut out: Vec<Filter> = Vec::new();
    let ghost mut ds: Seq<FilterDesc> = Seq::empty();
    for e in it: value_map.entries.into_iter()
        invariant
            it.seq() == es,
            es == m0.entries@,
            value_map == m0,
            entries_spec(*dm, *model, m0, it.index() as nat) == Ok::<Seq<FilterDesc>, ErrorDesc>(ds),
            all_described(out@, ds),
    {
        let ghost j = it.index() as int;
        let (key, value) = e;
        let ghost gv = value;
        assert(decreases_to!(m0 => m0.entries));
        assert(decreases_to!(m0.entries => m0.entries@));
        assert(decreases_to!(m0.entries@ => m0.entries@[j]));
        assert(decreases_to!(m0.entries@[j] => m0.entries@[j].1));
        assert(decreases_to!(value_map => value));
        let r = extract_entry(key.as_str(), value, model, dm);
        match r {
            Ok(f) => {
                let ghost d = entry_spec(*dm, *model, key@, gv)->Ok_0;
                let ghost before = out@;
                let ghost gf = f;
                out.push(f);
                proof {
                    lemma_all_described_push(before, ds, gf, d);
                    ds = ds.push(d);
                }
            },
            Err(x) => {
                proof {
                    let e2 = entry_spec(*dm, *model, key@, gv)->Err_0;
                    lemma_entries_err(*dm, *model, m0, (j + 1) as nat, es.len(), e2);
                }
                return Err(x);
            },
        }
    }
    Ok(Filter::And(out))
}

proof fn lemma_entries_err(dm: DataModel, model: Container, m: ParsedInputMap, k: nat, k2: nat, e: ErrorDesc)
    requires
        entries_spec(dm, model, m, k) == Err::<Seq<FilterDesc>, ErrorDesc>(e),
        k <= k2,
    ensures
        entries_spec(dm, model, m, k2) == Err::<Seq<FilterDesc>, ErrorDesc>(e),
    decreases k2 - k,
{
    if k < k2 {
        lemma_entries_err(dm, model, m, k, (k2 - 1) as nat, e);
    }
}

/// The filters of the objects of a filter group's list.
fn extract_group_list(key: &str, value: ParsedInputValue, model: &Container, dm: &DataModel) -> (r: Result<
    Vec<Filter>,
    QueryGraphBuilderError,
>)
    requires
        value is List,
    ensures
        all_extracted(r, list_spec(*dm, *model, value, key@, value->List_0@.len())),
    decreases value, 3int, 0int,
{
    let ghost v0 = value;
    let l = match value {
        ParsedInputValue::List(l) => l,
        _ => Vec::new(),
    };
    let ghost lv = l@;
    let mut out: Vec<Filter> = Vec::new();
    let ghost mut ds: Seq<FilterDesc> = Seq::empty();
    for item in it: l.into_iter()
        invariant
            it.seq() == lv,
            v0 == value,
            v0 is List,
            v0->List_0@ == lv,
            list_spec(*dm, *model, v0, key@, it.index() as nat) == Ok::<Seq<FilterDesc>, ErrorDesc>(ds),
            all_described(out@, ds),
    {
        let ghost j = it.index() as int;
        match item {
            ParsedInputValue::Object(mm) => {
                proof {
                    let l0 = v0->List_0;
                    assert(decreases_to!(v0 => l0));
                    assert(decreases_to!(l0 => l0@));
                    assert(decreases_to!(l0@ => l0@[j]));
                    assert(decreases_to!(l0@[j] => mm));
                    assert(decreases_to!(value => mm));
                }
                match extract_filter(mm, model, dm) {
                    Ok(f) => {
                        let ghost d = extract_spec(*dm, *model, mm)->Ok_0;
                        let ghost before = out@;
                        let ghost gf = f;
                        out.push(f);
                        proof {
                            lemma_all_described_push(before, ds, gf, d);
                            ds = ds.push(d);
                        }
                    },
                    Err(x) => {
                        proof {
                            let e2 = extract_spec(*dm, *model, mm)->Err_0;
                            lemma_list_err(*dm, *model, v0, key@, (j + 1) as nat, lv.len(), e2);
                        }
                        return Err(x);
                    },
                }
            },
            _ => {
                proof {
                    lemma_list_err(
                        *dm,
                        *model,
                        v0,
                        key@,
                        (j + 1) as nat,
                        lv.len(),
                        ErrorDesc::Input(group_input_message(key@)),
                    );
                }
                return Err(input_error(wrapped("The filter group ", key, " expects an object or a list of objects.")));
            },
        }
    }
    Ok(out)
}

/// A group of one filter.
fn single_group(k: GroupKind, f: Filter, Ghost(d): Ghost<FilterDesc>) -> (g: Filter)
    requires
        described(f, d),
    ensures
        described(g, FilterDesc::Group(k, seq![d])),
{
    let v = vec![f];
    proof {
        lemma_all_described_single(f, d);
        assert(v@ =~= seq![f]);
    }
    let ghost ds = seq![d];
    make_group(k, v, Ghost(ds))
}

/// The filter of one entry of a filter object.
fn extract_entry(key: &str, value: ParsedInputValue, model: &Container, dm: &DataModel) -> (r: Result<
    Filter,
    QueryGraphBuilderError,
>)
    ensures
        extracted(r, entry_spec(*dm, *model, key@, value)),
    decreases value, 5int, 0int,
{
    let ghost v0 = value;
    match grouping_of_exec(key) {
        Option::Some(g) => match value {
            ParsedInputValue::List(_) => match extract_group_list(key, value, model, dm) {
                Ok(v) => {
                    let ghost ds = list_spec(*dm, *model, v0, key@, v0->List_0@.len())->Ok_0;
                    Ok(make_group(g, v, Ghost(ds)))
                },
                Err(x) => Err(x),
            },
            ParsedInputValue::Object(mm) => match extract_filter(mm, model, dm) {
                Ok(f) => Ok(single_group(g, f, Ghost(extract_spec(*dm, *model, mm)->Ok_0))),
                Err(x) => Err(x),
            },
            _ => Err(input_error(wrapped("The filter group ", key, " expects an object or a list of objects."))),
        },
        Option::None => match model.find_field(key) {
            Option::None => {
                let mut m = text("Field not found: `");
                m.append(key);
                m.append("` on `");
                m.append(model.name.as_str());
                m.append("`.");
                Err(QueryGraphBuilderError::DomainError(m))
            },
            Option::Some(Field::Scalar(sf)) => extract_scalar_filters(sf, value, model, dm),
            Option::Some(Field::Relation(rf)) => match extract_relation_filters(rf, value, dm) {
                Ok(v) => {
                    let ghost ds = relation_filters_spec(*dm, *rf, v0)->Ok_0;
                    Ok(make_group(GroupKind::And, v, Ghost(ds)))
                },
                Err(x) => Err(x),
            },
            Option::Some(Field::Composite(cf)) => match value {
                ParsedInputValue::Object(mm) => match parse_composite(mm, cf, dm) {
                    Ok(f) => Ok(single_group(GroupKind::And, f, Ghost(composite_spec(*dm, *cf, mm)->Ok_0))),
                    Err(x) => Err(x),
                },
                other => {
                    let mut m = text("Invalid composite filter input: ");
                    let d = other.debug_text();
                    m.append(d.as_str());
                    Err(input_error(m))
                },
            },
        },
    }
}

proof fn lemma_list_err(dm: DataModel, model: Container, v: ParsedInputValue, key: Seq<char>, k: nat, k2: nat, e: ErrorDesc)
    requires
        list_spec(dm, model, v, key, k) == Err::<Seq<FilterDesc>, ErrorDesc>(e),
        k <= k2,
        v is List,
    ensures
        list_spec(dm, model, v, key, k2) == Err::<Seq<FilterDesc>, ErrorDesc>(e),
    decreases k2 - k,
{
    if k < k2 {
        lemma_list_err(dm, model, v, key, k, (k2 - 1) as nat, e);
    }
}

/// The filters on a scalar field: equality for a single value, the filters of a scalar filter
/// object (with its query mode) otherwise, in a conjunction.
fn extract_scalar_filters(field: &ScalarField, value: ParsedInputValue, model: &Container, dm: &DataModel) -> (r: Result<
    Filter,
    QueryGraphBuilderError,
>)
    ensures
        extracted(r, scalar_filters_spec(*dm, *model, *field, value)),
{
    let ghost v0 = value;
    match value {
        ParsedInputValue::Single(pv) => {
            let f = Filter::Scalar(
                ScalarFilter {
                    field: field.name.clone(),
                    condition: ScalarCondition::Equals(ConditionValue::Value(pv)),
                    mode: QueryMode::Default,
                },
            );
            Ok(single_group(GroupKind::And, f, Ghost(FilterDesc::Equals(field.name@, v0))))
        },
        ParsedInputValue::Object(fm) => {
            let ghost es = fm.entries@;
            proof { lemma_key_index_valid(es, constants::MODE@); }
            let mut fm = fm;
            let mode = match fm.swap_remove(constants::MODE) {
                Option::Some(i) => match parse_query_mode(i) {
                    Ok(md) => md,
                    Err(x) => return Err(x),
                },
                Option::None => QueryMode::Default,
            };
            let parser = ScalarFilterParser {
                field: field,
                container: model,
                data_model: dm,
                reverse: false,
                is_count_filter: false,
            };
            let ghost rest = fm.entries@;
            let fs = match parser.parse(fm) {
                Ok(fs) => fs,
                Err(x) => return Err(x),
            };
            let ghost shapes = parser.parse_spec(rest)->Ok_0;
            let ghost n = field.name@;
            proof { lemma_all_shaped_forall(fs@, shapes, n); }
            let ghost src = fs@;
            let mut out: Vec<Filter> = Vec::new();
            for f in it: fs.into_iter()
                invariant
                    it.seq() == src,
                    src.len() == shapes.len(),
                    forall|i: int| 0 <= i < shapes.len() ==> #[trigger] shaped(src[i], shapes[i], n),
                    out@.len() == it.index(),
                    forall|i: int| 0 <= i < it.index() ==> #[trigger] shaped_with_mode(out@[i], shapes[i], n, mode),
            {
                let ghost i = it.index() as int;
                let mut f = f;
                assert(shaped(src[i], shapes[i], n));
                set_mode(&mut f, mode, Ghost(shapes[i]), Ghost(n));
                out.push(f);
            }
            Ok(Filter::And(out))
        },
        other => {
            let mut m = text("Invalid scalar filter input: ");
            let d = other.debug_text();
            m.append(d.as_str());
            Err(input_error(m))
        },
    }
}

/// The relation condition that a relation filter key with an object names.
fn relation_condition_exec(key: &str) -> (c: RelationCondition)
    ensures
        c == relation_condition_of(key@),
{
    if str_eq(key, constants::SOME) {
        RelationCondition::AtLeastOneRelatedRecord
    } else if str_eq(key, constants::NONE) {
        RelationCondition::NoRelatedRecord
    } else if str_eq(key, constants::EVERY) {
        RelationCondition::EveryRelatedRecord
    } else if str_eq(key, constants::IS) {
        RelationCondition::ToOneRelatedRecord
    } else {
        RelationCondition::NoRelatedRecord
    }
}

/// Whether every entry of a map makes a relation filter.
fn all_relation_entries_exec(m: &ParsedInputMap) -> (b: bool)
    ensures
        b == all_relation_entries(*m),
{
    let n = m.entries.len();
    let mut i: usize = 0;
    while i < n
        invariant
            n == m.entries@.len(),
            i <= n,
            forall|j: int| 0 <= j < i ==> #[trigger] is_relation_entry(m.entries@[j].0@, m.entries@[j].1),
        decreases n - i,
    {
        let key = m.entries[i].0.as_str();
        let v = &m.entries[i].1;
        let has_map = match v {
            ParsedInputValue::Object(_) => true,
            _ => false,
        };
        let is_null = match v {
            ParsedInputValue::Single(PrismaValue::Null) => true,
            _ => false,
        };
        let ok = if str_eq(key, constants::SOME) || str_eq(key, constants::NONE) || str_eq(key, constants::EVERY) {
            has_map
        } else if str_eq(key, constants::IS) || str_eq(key, constants::IS_NOT) {
            has_map || is_null
        } else {
            false
        };
        if !ok {
            assert(!is_relation_entry(m.entries@[i as int].0@, m.entries@[i as int].1));
            return false;
        }
        i = i + 1;
    }
    true
}

fn invalid_relation_key(key: &str) -> (e: QueryGraphBuilderError)
    ensures
        error_is(e, ErrorDesc::Input(invalid_relation_key_message(key@))),
{
    input_error(wrapped("Invalid filter key `", key, "` input combination for relation filter"))
}

/// The filters on a relation field.
fn extract_relation_filters(field: &RelationField, value: ParsedInputValue, dm: &DataModel) -> (r: Result<
    Vec<Filter>,
    QueryGraphBuilderError,
>)
    ensures
        all_extracted(r, relation_filters_spec(*dm, *field, value)),
    decreases value, 4int, 0int,
{
    let ghost v0 = value;
    match value {
        ParsedInputValue::Single(PrismaValue::Null) => {
            let f = Filter::OneRelationIsNull(field.name.clone());
            proof { lemma_all_described_single(f, FilterDesc::RelationIsNull(field.name@)); }
            let v = vec![f];
            proof { assert(v@ =~= seq![f]); }
            Ok(v)
        },
        ParsedInputValue::Object(fm) => {
            let related = match find_container(dm, field.related_model.as_str()) {
                Ok(c) => c,
                Err(x) => return Err(x),
            };
            if all_relation_entries_exec(&fm) {
                let ghost m0 = fm;
                let ghost es = fm.entries@;
                let mut out: Vec<Filter> = Vec::new();
                let ghost mut ds: Seq<FilterDesc> = Seq::empty();
                for e in it: fm.entries.into_iter()
                    invariant
                        it.seq() == es,
                        es == m0.entries@,
                        v0 == value,
                        v0 == ParsedInputValue::Object(m0),
                        container_named(*dm, field.related_model@) == Option::Some(*related),
                        all_relation_entries(m0),
                        relation_entries_spec(*dm, *field, *related, m0, it.index() as nat) == Ok::<
                            Seq<FilterDesc>,
                            ErrorDesc,
                        >(ds),
                        all_described(out@, ds),
                {
                    let ghost j = it.index() as int;
                    let (key, v) = e;
                    let ghost gv = v;
                    proof {
                        assert(decreases_to!(v0 => m0));
                        assert(decreases_to!(m0 => m0.entries));
                        assert(decreases_to!(m0.entries => m0.entries@));
                        assert(decreases_to!(m0.entries@ => m0.entries@[j]));
                        assert(decreases_to!(m0.entries@[j] => m0.entries@[j].1));
                        assert(decreases_to!(value => v));
                    }
                    match extract_relation_entry(key.as_str(), v, field, related, dm) {
                        Ok(f) => {
                            let ghost d = relation_entry_spec(*dm, *field, *related, key@, gv)->Ok_0;
                            let ghost before = out@;
                            let ghost gf = f;
                            out.push(f);
                            proof {
                                lemma_all_described_push(before, ds, gf, d);
                                ds = ds.push(d);
                            }
                        },
                        Err(x) => {
                            proof {
                                let e2 = relation_entry_spec(*dm, *field, *related, key@, gv)->Err_0;
                                lemma_relation_entries_err(*dm, *field, *related, m0, (j + 1) as nat, es.len(), e2);
                            }
                            return Err(x);
                        },
                    }
                }
                Ok(out)
            } else {
                match extract_filter(fm, related, dm) {
                    Ok(f) => {
                        let rel = Filter::Relation(field.name.clone(), RelationCondition::ToOneRelatedRecord, Box::new(f));
                        let ghost d = FilterDesc::Relation(
                            field.name@,
                            RelationCondition::ToOneRelatedRecord,
                            Box::new(extract_spec(*dm, *related, fm)->Ok_0),
                        );
                        proof { lemma_all_described_single(rel, d); }
                        let v = vec![rel];
                        proof { assert(v@ =~= seq![rel]); }
                        Ok(v)
                    },
                    Err(x) => Err(x),
                }
            }
        },
        other => {
            let mut m = text("Invalid relation filter input: ");
            let d = other.debug_text();
            m.append(d.as_str());
            Err(input_error(m))
        },
    }
}

proof fn lemma_relation_entries_err(
    dm: DataModel,
    rf: RelationField,
    related: Container,
    m: ParsedInputMap,
    k: nat,
    k2: nat,
    e: ErrorDesc,
)
    requires
        relation_entries_spec(dm, rf, related, m, k) == Err::<Seq<FilterDesc>, ErrorDesc>(e),
        k <= k2,
    ensures
        relation_entries_spec(dm, rf, related, m, k2) == Err::<Seq<FilterDesc>, ErrorDesc>(e),
    decreases k2 - k,
{
    if k < k2 {
        lemma_relation_entries_err(dm, rf, related, m, k, (k2 - 1) as nat, e);
    }
}

/// The relation filter of one entry of a relation filter object.
fn extract_relation_entry(
    key: &str,
    value: ParsedInputValue,
    field: &RelationField,
    related: &Container,
    dm: &DataModel,
) -> (r: Result<Filter, QueryGraphBuilderError>)
    ensures
        extracted(r, relation_entry_spec(*dm, *field, *related, key@, value)),
    decreases value, 5int, 0int,
{
    match value {
        ParsedInputValue::Object(mm) => {
            if str_eq(key, constants::SOME) || str_eq(key, constants::NONE) || str_eq(key, constants::EVERY) || str_eq(
                key,
                constants::IS,
            ) || str_eq(key, constants::IS_NOT) {
                let c = relation_condition_exec(key);
                match extract_filter(mm, related, dm) {
                    Ok(f) => Ok(Filter::Relation(field.name.clone(), c, Box::new(f))),
                    Err(x) => Err(x),
                }
            } else {
                Err(invalid_relation_key(key))
            }
        },
        ParsedInputValue::Single(PrismaValue::Null) => {
            if str_eq(key, constants::IS) {
                Ok(Filter::OneRelationIsNull(field.name.clone()))
            } else if str_eq(key, constants::IS_NOT) {
                Ok(
                    single_group(
                        GroupKind::Not,
                        Filter::OneRelationIsNull(field.name.clone()),
                        Ghost(FilterDesc::RelationIsNull(field.name@)),
                    ),
                )
            } else {
                Err(invalid_relation_key(key))
            }
        },
        _ => Err(invalid_relation_key(key)),
    }
}

fn invalid_composite_key(key: &str) -> (e: QueryGraphBuilderError)
    ensures
        error_is(e, ErrorDesc::Input(invalid_composite_key_message(key@))),
{
    input_error(wrapped("Invalid filter key `", key, "` input combination for composite filter"))
}

/// Parses the filter object on a composite field: an envelope names one operation; any other
/// object is compared for equality.
pub fn parse_composite(input_map: ParsedInputMap, field: &CompositeField, dm: &DataModel) -> (r: Result<
    Filter,
    QueryGraphBuilderError,
>)
    ensures
        extracted(r, composite_spec(*dm, *field, input_map)),
    decreases input_map, 4int, 0int,
{
    let ghost m0 = input_map;
    let is_envelope = match &input_map.tag {
        Option::Some(ObjectTag::CompositeEnvelope) => true,
        _ => false,
    };
    if is_envelope {
        if input_map.entries.len() == 0 {
            return Err(input_error(text("A composite filter names one operation.")));
        }
        let mut es = input_map.entries;
        let (key, value) = es.swap_remove(0);
        proof {
            assert(decreases_to!(m0 => m0.entries));
            assert(decreases_to!(m0.entries => m0.entries@));
            assert(decreases_to!(m0.entries@ => m0.entries@[0]));
            assert(decreases_to!(m0.entries@[0] => m0.entries@[0].1));
        }
        parse_composite_op(key.as_str(), value, field, dm)
    } else {
        Ok(
            Filter::Composite(
                field.name.clone(),
                CompositeCondition::Equals(ParsedInputValue::Object(input_map).into_prisma_value()),
            ),
        )
    }
}

/// The composite filter of an operation with a nested filter: `every`, `some`, `none`, `is`,
/// `isNot` with an object.
fn parse_composite_nested(key: &str, value: ParsedInputValue, field: &CompositeField, dm: &DataModel) -> (r: Result<
    Filter,
    QueryGraphBuilderError,
>)
    requires
        composite_kind_of(key@) is Some,
        value != ParsedInputValue::Single(PrismaValue::Null) || (key@ != constants::IS@ && key@ != constants::IS_NOT@),
        key@ != constants::EQUALS@,
        key@ != constants::IS_SET@,
        key@ != constants::IS_EMPTY@,
    ensures
        extracted(r, composite_op_spec(*dm, *field, key@, value)),
    decreases value, 4int, 0int,
{
    match value {
        ParsedInputValue::Object(mm) => {
            let typ = match find_container(dm, field.typ.as_str()) {
                Ok(c) => c,
                Err(x) => return Err(x),
            };
            let inner = match extract_filter(mm, typ, dm) {
                Ok(f) => Box::new(f),
                Err(x) => return Err(x),
            };
            let cond = if str_eq(key, constants::EVERY) {
                CompositeCondition::EveryElement(inner)
            } else if str_eq(key, constants::SOME) {
                CompositeCondition::SomeElement(inner)
            } else if str_eq(key, constants::NONE) {
                CompositeCondition::NoElement(inner)
            } else if str_eq(key, constants::IS) {
                CompositeCondition::Is(inner)
            } else {
                CompositeCondition::IsNot(inner)
            };
            Ok(Filter::Composite(field.name.clone(), cond))
        },
        _ => Err(invalid_composite_key(key)),
    }
}

/// The composite filter of one operation of an envelope.
fn parse_composite_op(key: &str, value: ParsedInputValue, field: &CompositeField, dm: &DataModel) -> (r: Result<
    Filter,
    QueryGraphBuilderError,
>)
    ensures
        extracted(r, composite_op_spec(*dm, *field, key@, value)),
    decreases value, 5int, 0int,
{
    let ghost v0 = value;
    let is_null = match &value {
        ParsedInputValue::Single(PrismaValue::Null) => true,
        _ => false,
    };
    if str_eq(key, constants::EQUALS) {
        Ok(Filter::Composite(field.name.clone(), CompositeCondition::Equals(value.into_prisma_value())))
    } else if str_eq(key, constants::IS_SET) {
        match value.into_bool() {
            Option::Some(b) => Ok(Filter::Composite(field.name.clone(), CompositeCondition::IsSet(b))),
            Option::None => Err(invalid_composite_key(key)),
        }
    } else if str_eq(key, constants::IS_EMPTY) {
        match value.into_bool() {
            Option::Some(b) => Ok(Filter::Composite(field.name.clone(), CompositeCondition::Empty(b))),
            Option::None => Err(invalid_composite_key(key)),
        }
    } else if str_eq(key, constants::IS) && is_null {
        Ok(Filter::Composite(field.name.clone(), CompositeCondition::Equals(PrismaValue::Null)))
    } else if str_eq(key, constants::IS_NOT) && is_null {
        Ok(
            single_group(
                GroupKind::Not,
                Filter::Composite(field.name.clone(), CompositeCondition::Equals(PrismaValue::Null)),
                Ghost(FilterDesc::CompositeEquals(field.name@, ParsedInputValue::Single(PrismaValue::Null))),
            ),
        )
    } else if str_eq(key, constants::EVERY) || str_eq(key, constants::SOME) || str_eq(key, constants::NONE) || str_eq(
        key,
        constants::IS,
    ) || str_eq(key, constants::IS_NOT) {
        parse_composite_nested(key, value, field, dm)
    } else {
        Err(invalid_composite_key(key))
    }
}

/// The filter of a nested write's object, or the error of a value that is not an object.
pub closed spec fn object_filter_spec(dm: DataModel, child: Container, v: ParsedInputValue) -> Result<
    FilterDesc,
    ErrorDesc,
> {
    match v {
        ParsedInputValue::Object(m) => extract_spec(dm, child, m),
        _ => Err(ErrorDesc::Input(crate::connect_nested::objects_expected_message())),
    }
}

/// What the filter of a nested write's object is.
pub proof fn lemma_object_filter_spec(dm: DataModel, child: Container, v: ParsedInputValue)
    ensures
        object_filter_spec(dm, child, v) == match v {
            ParsedInputValue::Object(m) => extract_spec(dm, child, m),
            _ => Err(ErrorDesc::Input(crate::connect_nested::objects_expected_message())),
        },
{
}

/// The filter of a nested write's object.
pub fn extract_object_filter(v: ParsedInputValue, child: &Container, dm: &DataModel) -> (r: Result<
    Filter,
    QueryGraphBuilderError,
>)
    ensures
        extracted(r, object_filter_spec(*dm, *child, v)),
{
    match v {
        ParsedInputValue::Object(m) => extract_filter(m, child, dm),
        _ => Err(QueryGraphBuilderError::InputError(text("Expected an input object."))),
    }
}

} // verus!
