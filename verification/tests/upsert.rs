use query_graph_builder::builder::QuerySchema;
use query_graph_builder::document::{FieldPair, ParsedField, ParsedObject};
use query_graph_builder::error::QueryGraphBuilderError;
use query_graph_builder::query_graph::{DataExpectation, Dependency, Flow, Node, Query, QueryGraph, ReadQuery, RowSink, WriteQuery};
use query_graph_builder::schema::{
    Container, ContainerKind, DataModel, Field, ReferentialAction, Relation, RelationField, RelationKind, RelationMode,
    ScalarField, TypeIdentifier,
};
use query_graph_builder::upsert::upsert_record;
use query_graph_builder::upsert_nested::nested_upsert;
use query_graph_builder::values::{ParsedInputMap, ParsedInputValue, PrismaValue};

fn s(x: &str) -> String {
    x.to_string()
}

fn names(v: &[&str]) -> Vec<String> {
    v.iter().map(|x| x.to_string()).collect()
}

fn scalar(name: &str, unique: bool, typ: TypeIdentifier) -> Field {
    Field::Scalar(ScalarField { name: s(name), type_identifier: typ, is_list: false, is_required: true, is_unique: unique })
}

fn user_model() -> Container {
    Container {
        name: s("User"),
        kind: ContainerKind::Model,
        fields: vec![scalar("id", true, TypeIdentifier::Int), scalar("name", false, TypeIdentifier::String)],
        primary_identifier: names(&["id"]),
        compound_id: None,
        unique_indexes: Vec::new(),
    }
}

fn schema(native: bool) -> QuerySchema {
    QuerySchema {
        data_model: DataModel { containers: vec![user_model()] },
        can_native_upsert: native,
        relation_mode: RelationMode::ForeignKeys,
        lateral_join: false,
        relation_joins: false,
        delete_returning: false,
    }
}

fn object(entries: Vec<(&str, ParsedInputValue)>) -> ParsedInputValue {
    ParsedInputValue::Object(ParsedInputMap { tag: None, entries: entries.into_iter().map(|(k, v)| (s(k), v)).collect() })
}

fn num(n: i64) -> ParsedInputValue {
    ParsedInputValue::Single(PrismaValue::Int(n))
}

fn text(x: &str) -> ParsedInputValue {
    ParsedInputValue::Single(PrismaValue::String(s(x)))
}

fn selected(name: &str) -> FieldPair {
    FieldPair { parsed_field: ParsedField { name: s(name), alias: None, arguments: Vec::new(), nested_fields: None } }
}

fn upsert_field(where_value: ParsedInputValue) -> ParsedField {
    ParsedField {
        name: s("upsertOneUser"),
        alias: None,
        arguments: vec![
            (s("where"), where_value),
            (s("create"), object(vec![("id", num(1)), ("name", text("a"))])),
            (s("update"), object(vec![("name", text("b"))])),
        ],
        nested_fields: Some(ParsedObject { fields: vec![selected("name")] }),
    }
}

#[test]
fn upsert_in_one_statement_where_the_connector_can() {
    let mut g = QueryGraph::new();
    let r = upsert_record(&mut g, &schema(true), &user_model(), upsert_field(object(vec![("id", num(1))])));
    let (nc, nu) = r.unwrap();
    assert!(nc.is_empty() && nu.is_empty());
    assert_eq!(g.nodes.len(), 1);
    assert!(g.edges.is_empty());
    assert!(!g.needs_transaction);
    match &g.nodes[0] {
        Node::Query(Query::Write(WriteQuery::NativeUpsert { name, model, create, update, read, .. })) => {
            assert_eq!(name, "upsertOneUser");
            assert_eq!(model, "User");
            assert_eq!(create.args.len(), 2);
            assert_eq!(update.args.len(), 1);
            match read {
                ReadQuery::Record { selection, .. } => assert_eq!(selection, &names(&["id", "name"])),
                other => panic!("unexpected read {:?}", other),
            }
        },
        other => panic!("unexpected node {:?}", other),
    }
}

#[test]
fn upsert_reads_then_updates_or_creates_where_one_statement_cannot_do_it() {
    let mut g = QueryGraph::new();
    let r = upsert_record(&mut g, &schema(false), &user_model(), upsert_field(object(vec![("id", num(1))])));
    assert!(r.is_ok());
    assert!(g.needs_transaction);
    assert_eq!(g.nodes.len(), 6);
    assert!(matches!(&g.nodes[0], Node::Query(Query::Read(ReadQuery::ManyRecords { .. }))));
    assert!(matches!(&g.nodes[1], Node::Query(Query::Write(WriteQuery::CreateRecord { .. }))));
    assert!(matches!(&g.nodes[2], Node::Query(Query::Write(WriteQuery::UpdateRecord { .. }))));
    assert!(matches!(&g.nodes[5], Node::Flow(Flow::IfNonEmpty)));
    assert_eq!(g.result_nodes.iter().map(|n| n.id).collect::<Vec<_>>(), vec![3, 4]);
    assert_eq!(g.edges.len(), 5);
    assert_eq!((g.edges[1].from.id, g.edges[1].to.id), (5, 2));
    assert!(matches!(g.edges[1].dependency, Dependency::Then));
    assert_eq!((g.edges[2].from.id, g.edges[2].to.id), (5, 1));
    assert!(matches!(g.edges[2].dependency, Dependency::Else));
    assert_eq!((g.edges[3].from.id, g.edges[3].to.id), (2, 4));
    match &g.edges[3].dependency {
        Dependency::Projected {
            sink: RowSink::AddFilter,
            expectation: Some(DataExpectation::NonEmptyRows(QueryGraphBuilderError::AssertionError(m))),
            ..
        } => assert_eq!(m, "Expected a valid parent ID to be present for create follow-up for upsert query."),
        other => panic!("unexpected dependency {:?}", other),
    }
}

#[test]
fn upsert_where_values_differing_from_create_is_not_one_statement() {
    let mut g = QueryGraph::new();
    let r = upsert_record(&mut g, &schema(true), &user_model(), upsert_field(object(vec![("id", num(2))])));
    assert!(r.is_ok());
    assert_eq!(g.nodes.len(), 6);
}

#[test]
fn upsert_with_a_where_that_is_no_object_is_an_error() {
    let mut g = QueryGraph::new();
    match upsert_record(&mut g, &schema(true), &user_model(), upsert_field(num(1))) {
        Err(QueryGraphBuilderError::InputError(m)) => assert_eq!(m, "Expected an input object."),
        other => panic!("unexpected result {:?}", other),
    }
    assert!(g.nodes.is_empty());
}

fn post_tags() -> RelationField {
    RelationField {
        name: s("tags"),
        model: s("Post"),
        related_model: s("User"),
        relation: Relation {
            name: s("PostToUser"),
            model_a: s("Post"),
            model_b: s("User"),
            kind: RelationKind::ManyToMany,
            on_delete: ReferentialAction::Restrict,
            on_update: ReferentialAction::Cascade,
        },
        is_required: false,
        related_field_required: false,
        inlined_in_parent: false,
        linking_fields: names(&["id"]),
        related_linking_fields: names(&["id"]),
        is_list: true,
        model_identifier: names(&["id"]),
        related_identifier: names(&["id"]),
        related_field_name: s("posts"),
    }
}

fn upsert_value(id: i64) -> ParsedInputValue {
    object(vec![
        ("where", object(vec![("id", num(id))])),
        ("create", object(vec![("id", num(id)), ("name", text("a"))])),
        ("update", object(vec![("name", text("b"))])),
    ])
}

#[test]
fn nested_upsert_updates_the_child_found_or_creates_and_connects_one() {
    let mut g = QueryGraph::new();
    let parent = g.create_node(Node::Empty);
    let value = ParsedInputValue::List(vec![upsert_value(1), upsert_value(2)]);
    let r = nested_upsert(&mut g, &schema(false), &parent, &post_tags(), value, &user_model());
    assert_eq!(r.unwrap().len(), 2);
    assert_eq!(g.nodes.len(), 11);
    assert_eq!(g.edges.len(), 14);
    assert!(matches!(&g.nodes[1], Node::Query(Query::Read(ReadQuery::RelatedRecords { .. }))));
    assert!(matches!(&g.nodes[2], Node::Flow(Flow::IfNonEmpty)));
    assert!(matches!(&g.nodes[3], Node::Query(Query::Write(WriteQuery::CreateRecord { .. }))));
    assert!(matches!(&g.nodes[4], Node::Query(Query::Write(WriteQuery::UpdateRecord { .. }))));
    assert!(matches!(&g.nodes[5], Node::Query(Query::Write(WriteQuery::ConnectRecords { .. }))));
    assert_eq!((g.edges[2].from.id, g.edges[2].to.id), (1, 4));
    match &g.edges[2].dependency {
        Dependency::Projected {
            sink: RowSink::ExactlyOneSelector,
            expectation: Some(DataExpectation::NonEmptyRows(QueryGraphBuilderError::RecordNotFound(m))),
            ..
        } => assert_eq!(
            m,
            "No 'User' record (needed to perform a nested update) was found for a nested upsert on many-to-many relation 'PostToUser'."
        ),
        other => panic!("unexpected dependency {:?}", other),
    }
    assert_eq!((g.edges[3].from.id, g.edges[3].to.id), (2, 4));
    assert!(matches!(g.edges[3].dependency, Dependency::Then));
    assert_eq!((g.edges[4].from.id, g.edges[4].to.id), (2, 3));
    assert!(matches!(g.edges[4].dependency, Dependency::Else));
}

#[test]
fn nested_upsert_of_a_value_that_is_no_object_is_an_error() {
    let mut g = QueryGraph::new();
    let parent = g.create_node(Node::Empty);
    match nested_upsert(&mut g, &schema(false), &parent, &post_tags(), num(1), &user_model()) {
        Err(QueryGraphBuilderError::InputError(m)) => assert_eq!(m, "Expected an input object."),
        other => panic!("unexpected result {:?}", other),
    }
}
