use query_graph_builder::builder::QuerySchema;
use query_graph_builder::document::{FieldPair, ParsedField, ParsedObject};
use query_graph_builder::error::QueryGraphBuilderError;
use query_graph_builder::filter::Filter;
use query_graph_builder::query_args::{QueryArguments, RelationLoadStrategy, Take};
use query_graph_builder::schema::{
    CompositeField, CompoundUnique, Container, ContainerKind, DataModel, Field, ReferentialAction, Relation,
    RelationField, RelationKind, RelationMode, ScalarField, TypeIdentifier,
};
use query_graph_builder::selection::{get_relation_load_strategy, pairs_to_selections, SelectedField};
use query_graph_builder::values::{ParsedInputMap, ParsedInputValue, PrismaValue};

fn s(x: &str) -> String {
    x.to_string()
}

fn names(v: &[&str]) -> Vec<String> {
    v.iter().map(|x| x.to_string()).collect()
}

fn scalar(name: &str, t: TypeIdentifier) -> Field {
    Field::Scalar(ScalarField { name: s(name), type_identifier: t, is_list: false, is_required: true, is_unique: false })
}

fn relation() -> Relation {
    Relation {
        name: s("PostToUser"),
        model_a: s("Post"),
        model_b: s("User"),
        kind: RelationKind::OneToMany,
        on_delete: ReferentialAction::Restrict,
        on_update: ReferentialAction::Cascade,
    }
}

fn user_posts() -> RelationField {
    RelationField {
        name: s("posts"),
        model: s("User"),
        related_model: s("Post"),
        relation: relation(),
        is_required: false,
        related_field_required: true,
        inlined_in_parent: false,
        linking_fields: names(&["id"]),
        related_linking_fields: names(&["authorId"]),
        is_list: true,
        model_identifier: names(&["id"]),
        related_identifier: names(&["id"]),
        related_field_name: s("author"),
    }
}

fn post_author() -> RelationField {
    RelationField {
        name: s("author"),
        model: s("Post"),
        related_model: s("User"),
        relation: relation(),
        is_required: true,
        related_field_required: false,
        inlined_in_parent: true,
        linking_fields: names(&["authorId"]),
        related_linking_fields: names(&["id"]),
        is_list: false,
        model_identifier: names(&["id"]),
        related_identifier: names(&["id"]),
        related_field_name: s("posts"),
    }
}

fn user_model() -> Container {
    Container {
        name: s("User"),
        kind: ContainerKind::Model,
        fields: vec![
            scalar("id", TypeIdentifier::Int),
            scalar("name", TypeIdentifier::String),
            scalar("age", TypeIdentifier::Int),
            Field::Relation(user_posts()),
            Field::Composite(CompositeField { name: s("address"), typ: s("Address"), is_list: false }),
        ],
        primary_identifier: names(&["id"]),
        compound_id: None,
        unique_indexes: vec![CompoundUnique { name: s("name_age"), fields: names(&["name", "age"]) }],
    }
}

fn post_model() -> Container {
    Container {
        name: s("Post"),
        kind: ContainerKind::Model,
        fields: vec![
            scalar("id", TypeIdentifier::Int),
            scalar("title", TypeIdentifier::String),
            scalar("authorId", TypeIdentifier::Int),
            Field::Relation(post_author()),
        ],
        primary_identifier: names(&["id"]),
        compound_id: None,
        unique_indexes: Vec::new(),
    }
}

fn obj(entries: Vec<(&str, ParsedInputValue)>) -> ParsedInputValue {
    ParsedInputValue::Object(ParsedInputMap { tag: None, entries: entries.into_iter().map(|(k, v)| (s(k), v)).collect() })
}

fn address_type() -> Container {
    Container {
        name: s("Address"),
        kind: ContainerKind::CompositeType,
        fields: vec![scalar("street", TypeIdentifier::String), scalar("city", TypeIdentifier::String)],
        primary_identifier: Vec::new(),
        compound_id: None,
        unique_indexes: Vec::new(),
    }
}

fn schema(joins: bool) -> QuerySchema {
    QuerySchema {
        data_model: DataModel { containers: vec![user_model(), post_model(), address_type()] },
        can_native_upsert: false,
        relation_mode: RelationMode::ForeignKeys,
        lateral_join: joins,
        relation_joins: joins,
        delete_returning: false,
    }
}

fn field(name: &str, arguments: Vec<(&str, ParsedInputValue)>, nested: Option<Vec<FieldPair>>) -> FieldPair {
    FieldPair {
        parsed_field: ParsedField {
            name: s(name),
            alias: None,
            arguments: arguments.into_iter().map(|(k, v)| (s(k), v)).collect(),
            nested_fields: nested.map(|fields| ParsedObject { fields }),
        },
    }
}

fn leaf(name: &str) -> FieldPair {
    field(name, Vec::new(), None)
}

fn scalar_names(v: &[SelectedField]) -> Vec<String> {
    v.iter()
        .filter_map(|f| match f {
            SelectedField::Scalar(n) => Some(n.clone()),
            _ => None,
        })
        .collect()
}

#[test]
fn without_joins_relations_select_only_their_foreign_keys() {
    let qs = schema(false);
    let pairs = vec![leaf("title"), field("author", Vec::new(), Some(vec![leaf("name")]))];
    let sel = pairs_to_selections(&post_model(), pairs, &qs).unwrap();
    assert_eq!(scalar_names(&sel), names(&["title", "authorId"]));
    assert_eq!(sel.len(), 2);
    let on_user = pairs_to_selections(&user_model(), vec![leaf("name"), field("posts", Vec::new(), Some(vec![leaf("title")]))], &qs).unwrap();
    assert_eq!(on_user.len(), 1);
}

#[test]
fn with_joins_relations_carry_their_reads() {
    let qs = schema(true);
    let posts = field("posts", vec![("take", ParsedInputValue::Single(PrismaValue::Int(2)))], Some(vec![leaf("title")]));
    let sel = pairs_to_selections(&user_model(), vec![leaf("id"), posts], &qs).unwrap();
    assert_eq!(sel.len(), 2);
    match &sel[1] {
        SelectedField::Relation { field, args, result_fields, selections } => {
            assert_eq!(field, "posts");
            assert_eq!(args.model, "Post");
            assert_eq!(args.take, Take::Number(2));
            assert_eq!(args.order_by.len(), 1);
            assert_eq!(result_fields, &names(&["title"]));
            assert_eq!(scalar_names(selections), names(&["title"]));
        },
        other => panic!("unexpected selection {:?}", other),
    }
}

#[test]
fn composite_fields_select_their_own_fields() {
    let qs = schema(false);
    let sel = pairs_to_selections(&user_model(), vec![field("address", Vec::new(), Some(vec![leaf("city")]))], &qs).unwrap();
    match &sel[0] {
        SelectedField::Composite { field, selections } => {
            assert_eq!(field, "address");
            assert_eq!(scalar_names(selections), names(&["city"]));
        },
        other => panic!("unexpected selection {:?}", other),
    }
}

#[test]
fn count_counts_the_related_records_that_match() {
    let qs = schema(false);
    let counted = field("posts", vec![("where", obj(vec![("title", ParsedInputValue::Single(PrismaValue::String(s("x"))))]))], None);
    let sel = pairs_to_selections(&user_model(), vec![field("_count", Vec::new(), Some(vec![counted]))], &qs).unwrap();
    match &sel[0] {
        SelectedField::RelationCount { field, filter: Some(Filter::And(v)) } => {
            assert_eq!(field, "posts");
            assert_eq!(v.len(), 1);
        },
        other => panic!("unexpected selection {:?}", other),
    }
    let bad = field("posts", vec![("where", ParsedInputValue::Single(PrismaValue::Int(1)))], None);
    match pairs_to_selections(&user_model(), vec![field("_count", Vec::new(), Some(vec![bad]))], &qs) {
        Err(QueryGraphBuilderError::InputError(m)) => assert_eq!(m, "Expected an input object."),
        other => panic!("unexpected result {:?}", other),
    }
}

#[test]
fn relations_are_joined_only_where_nothing_pages() {
    let plain = vec![QueryArguments::new("Post")];
    assert_eq!(get_relation_load_strategy(None, &None, &None, &plain, &schema(true)), RelationLoadStrategy::Join);
    assert_eq!(get_relation_load_strategy(None, &None, &None, &plain, &schema(false)), RelationLoadStrategy::Query);
    assert_eq!(
        get_relation_load_strategy(Some(RelationLoadStrategy::Query), &None, &None, &plain, &schema(true)),
        RelationLoadStrategy::Query
    );
    let mut paged = QueryArguments::new("Post");
    paged.cursor = Some(vec![(s("id"), PrismaValue::Int(1))]);
    assert_eq!(get_relation_load_strategy(None, &None, &None, &vec![paged], &schema(true)), RelationLoadStrategy::Query);
    assert_eq!(
        get_relation_load_strategy(None, &None, &Some(names(&["title"])), &plain, &schema(true)),
        RelationLoadStrategy::Query
    );
}
