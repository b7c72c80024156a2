use query_graph_builder::error::QueryGraphBuilderError;
use query_graph_builder::filter::{ConditionListValue, ConditionValue, Filter, RelationCondition, ScalarCondition};
use query_graph_builder::schema::{
    CompoundUnique, Container, ContainerKind, DataModel, Field, ReferentialAction, Relation, RelationField,
    RelationKind, ScalarField, TypeIdentifier,
};
use query_graph_builder::suffix_filter::extract_filter;
use query_graph_builder::values::{ParsedInputMap, ParsedInputValue, PrismaValue};

fn s(x: &str) -> String {
    x.to_string()
}

fn names(v: &[&str]) -> Vec<String> {
    v.iter().map(|x| x.to_string()).collect()
}

fn scalar(name: &str, t: TypeIdentifier) -> Field {
    Field::Scalar(ScalarField { name: s(name), type_identifier: t, is_list: false, is_required: true, is_unique: false })
}

fn relation() -> Relation {
    Relation {
        name: s("PostToUser"),
        model_a: s("Post"),
        model_b: s("User"),
        kind: RelationKind::OneToMany,
        on_delete: ReferentialAction::Restrict,
        on_update: ReferentialAction::Cascade,
    }
}

fn user_posts() -> RelationField {
    RelationField {
        name: s("posts"),
        model: s("User"),
        related_model: s("Post"),
        relation: relation(),
        is_required: false,
        related_field_required: true,
        inlined_in_parent: false,
        linking_fields: names(&["id"]),
        related_linking_fields: names(&["authorId"]),
        is_list: true,
        model_identifier: names(&["id"]),
        related_identifier: names(&["id"]),
        related_field_name: s("author"),
    }
}

fn post_author() -> RelationField {
    RelationField {
        name: s("author"),
        model: s("Post"),
        related_model: s("User"),
        relation: relation(),
        is_required: true,
        related_field_required: false,
        inlined_in_parent: true,
        linking_fields: names(&["authorId"]),
        related_linking_fields: names(&["id"]),
        is_list: false,
        model_identifier: names(&["id"]),
        related_identifier: names(&["id"]),
        related_field_name: s("posts"),
    }
}

fn user_model() -> Container {
    Container {
        name: s("User"),
        kind: ContainerKind::Model,
        fields: vec![
            scalar("id", TypeIdentifier::Int),
            scalar("name", TypeIdentifier::String),
            scalar("age", TypeIdentifier::Int),
            Field::Relation(user_posts()),
        ],
        primary_identifier: names(&["id"]),
        compound_id: None,
        unique_indexes: vec![CompoundUnique { name: s("name_age"), fields: names(&["name", "age"]) }],
    }
}

fn post_model() -> Container {
    Container {
        name: s("Post"),
        kind: ContainerKind::Model,
        fields: vec![
            scalar("id", TypeIdentifier::Int),
            scalar("title", TypeIdentifier::String),
            scalar("authorId", TypeIdentifier::Int),
            Field::Relation(post_author()),
        ],
        primary_identifier: names(&["id"]),
        compound_id: None,
        unique_indexes: Vec::new(),
    }
}

fn data_model() -> DataModel {
    DataModel { containers: vec![user_model(), post_model()] }
}

fn obj(entries: Vec<(&str, ParsedInputValue)>) -> ParsedInputValue {
    ParsedInputValue::Object(ParsedInputMap { tag: None, entries: entries.into_iter().map(|(k, v)| (s(k), v)).collect() })
}

fn int_value(n: i64) -> ParsedInputValue {
    ParsedInputValue::Single(PrismaValue::Int(n))
}

fn map_of(entries: Vec<(&str, ParsedInputValue)>) -> ParsedInputMap {
    ParsedInputMap { tag: None, entries: entries.into_iter().map(|(k, v)| (s(k), v)).collect() }
}

fn text_value(x: &str) -> ParsedInputValue {
    ParsedInputValue::Single(PrismaValue::String(s(x)))
}

fn user_filter(entries: Vec<(&str, ParsedInputValue)>, match_suffix: bool) -> Result<Filter, QueryGraphBuilderError> {
    extract_filter(map_of(entries), &user_model(), match_suffix, &data_model())
}

fn only(f: Filter) -> Filter {
    match f {
        Filter::And(mut v) if v.len() == 1 => v.pop().unwrap(),
        other => panic!("expected a conjunction of one filter, found {:?}", other),
    }
}

fn scalar_condition(f: Filter, field: &str) -> ScalarCondition {
    match f {
        Filter::Scalar(sf) => {
            assert_eq!(sf.field, field);
            sf.condition
        },
        other => panic!("expected a scalar filter, found {:?}", other),
    }
}

#[test]
fn suffix_names_the_comparison() {
    let f = only(user_filter(vec![("age_gt", int_value(3))], true).unwrap());
    assert_eq!(scalar_condition(f, "age"), ScalarCondition::GreaterThan(ConditionValue::Value(PrismaValue::Int(3))));
}

#[test]
fn without_suffix_matching_the_key_is_the_field() {
    let f = only(user_filter(vec![("age", int_value(3))], false).unwrap());
    assert_eq!(scalar_condition(f, "age"), ScalarCondition::Equals(ConditionValue::Value(PrismaValue::Int(3))));
}

#[test]
fn in_takes_a_list_and_null_compares_by_equality() {
    let f = only(user_filter(vec![("name_in", ParsedInputValue::List(vec![text_value("a"), text_value("b")]))], true).unwrap());
    assert_eq!(
        scalar_condition(f, "name"),
        ScalarCondition::In(ConditionListValue::List(vec![PrismaValue::String(s("a")), PrismaValue::String(s("b"))]))
    );
    let g = only(user_filter(vec![("name_not_in", ParsedInputValue::Single(PrismaValue::Null))], true).unwrap());
    assert_eq!(scalar_condition(g, "name"), ScalarCondition::NotEquals(ConditionValue::Value(PrismaValue::Null)));
}

#[test]
fn every_trailing_repetition_of_the_suffix_is_trimmed() {
    let f = only(user_filter(vec![("age_not_not", int_value(1))], true).unwrap());
    assert_eq!(scalar_condition(f, "age"), ScalarCondition::NotEquals(ConditionValue::Value(PrismaValue::Int(1))));
}

#[test]
fn groups_hold_the_filters_of_their_objects() {
    let value = ParsedInputValue::List(vec![
        obj(vec![("age_lt", int_value(5))]),
        obj(vec![("name", text_value("x"))]),
    ]);
    match only(user_filter(vec![("OR", value)], true).unwrap()) {
        Filter::Or(v) => {
            assert_eq!(v.len(), 2);
            assert!(matches!(&v[0], Filter::And(inner) if inner.len() == 1));
        },
        other => panic!("unexpected filter {:?}", other),
    }
    match only(user_filter(vec![("NOT", obj(vec![("age", int_value(1))]))], true).unwrap()) {
        Filter::Not(v) => assert_eq!(v.len(), 1),
        other => panic!("unexpected filter {:?}", other),
    }
}

#[test]
fn relation_suffixes_name_the_condition() {
    let f = only(user_filter(vec![("posts_some", obj(vec![("title_contains", text_value("cat"))]))], true).unwrap());
    match f {
        Filter::Relation(field, RelationCondition::AtLeastOneRelatedRecord, inner) => {
            assert_eq!(field, "posts");
            let c = scalar_condition(only(*inner), "title");
            assert_eq!(c, ScalarCondition::Contains(ConditionValue::Value(PrismaValue::String(s("cat")))));
        },
        other => panic!("unexpected filter {:?}", other),
    }
}

#[test]
fn a_null_one_relation_has_no_related_record() {
    let f = extract_filter(
        map_of(vec![("author", ParsedInputValue::Single(PrismaValue::Null))]),
        &post_model(),
        true,
        &data_model(),
    )
    .unwrap();
    assert_eq!(only(f), Filter::OneRelationIsNull(s("author")));
}

#[test]
fn a_compound_unique_gives_equalities() {
    let value = obj(vec![("name", text_value("Ada")), ("age", int_value(30))]);
    match only(user_filter(vec![("name_age", value)], false).unwrap()) {
        Filter::And(v) => {
            assert_eq!(v.len(), 2);
            assert_eq!(
                v[0],
                Filter::Scalar(query_graph_builder::filter::ScalarFilter {
                    field: s("name"),
                    condition: ScalarCondition::Equals(ConditionValue::Value(PrismaValue::String(s("Ada")))),
                    mode: query_graph_builder::filter::QueryMode::Default,
                })
            );
        },
        other => panic!("unexpected filter {:?}", other),
    }
}

#[test]
fn an_unknown_field_is_refused() {
    match user_filter(vec![("zzz", int_value(1))], true) {
        Err(QueryGraphBuilderError::AssertionError(m)) => {
            assert_eq!(m, "Unable to resolve field zzz to a field or set of fields on model User")
        },
        other => panic!("unexpected result {:?}", other),
    }
}
