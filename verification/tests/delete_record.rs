use query_graph_builder::builder::QuerySchema;
use query_graph_builder::delete::delete_record;
use query_graph_builder::document::{FieldPair, ParsedField, ParsedObject};
use query_graph_builder::error::QueryGraphBuilderError;
use query_graph_builder::query_graph::{DataExpectation, Dependency, Node, Query, QueryGraph, ReadQuery, RowSink, WriteQuery};
use query_graph_builder::schema::{Container, ContainerKind, DataModel, Field, RelationMode, ScalarField, TypeIdentifier};
use query_graph_builder::values::{ParsedInputMap, ParsedInputValue, PrismaValue};

fn s(x: &str) -> String {
    x.to_string()
}

fn names(v: &[&str]) -> Vec<String> {
    v.iter().map(|x| x.to_string()).collect()
}

fn user_model() -> Container {
    let scalar = |name: &str, unique: bool, typ: TypeIdentifier| {
        Field::Scalar(ScalarField { name: s(name), type_identifier: typ, is_list: false, is_required: true, is_unique: unique })
    };
    Container {
        name: s("User"),
        kind: ContainerKind::Model,
        fields: vec![scalar("id", true, TypeIdentifier::Int), scalar("name", false, TypeIdentifier::String)],
        primary_identifier: names(&["id"]),
        compound_id: None,
        unique_indexes: Vec::new(),
    }
}

fn schema(delete_returning: bool) -> QuerySchema {
    QuerySchema {
        data_model: DataModel { containers: vec![user_model()] },
        can_native_upsert: false,
        relation_mode: RelationMode::ForeignKeys,
        lateral_join: false,
        relation_joins: false,
        delete_returning,
    }
}

fn delete_field(where_value: ParsedInputValue) -> ParsedField {
    let selected = |name: &str| FieldPair {
        parsed_field: ParsedField { name: s(name), alias: None, arguments: Vec::new(), nested_fields: None },
    };
    ParsedField {
        name: s("deleteOneUser"),
        alias: None,
        arguments: vec![(s("where"), where_value)],
        nested_fields: Some(ParsedObject { fields: vec![selected("name")] }),
    }
}

fn where_id(n: i64) -> ParsedInputValue {
    ParsedInputValue::Object(ParsedInputMap {
        tag: None,
        entries: vec![(s("id"), ParsedInputValue::Single(PrismaValue::Int(n)))],
    })
}

#[test]
fn delete_record_returns_the_record_in_one_statement_where_the_connector_can() {
    let mut g = QueryGraph::new();
    assert!(delete_record(&mut g, &schema(true), &user_model(), delete_field(where_id(1))).is_ok());
    assert!(g.needs_transaction);
    assert_eq!(g.nodes.len(), 1);
    assert!(g.edges.is_empty());
    assert_eq!(g.result_nodes.len(), 1);
    match &g.nodes[0] {
        Node::Query(Query::Write(WriteQuery::DeleteRecordReturning { name, model, selection, order, .. })) => {
            assert_eq!(name, "deleteOneUser");
            assert_eq!(model, "User");
            assert_eq!(selection, &names(&["id", "name"]));
            assert_eq!(order, &names(&["name"]));
        },
        other => panic!("unexpected node {:?}", other),
    }
}

#[test]
fn delete_record_reads_the_record_first_where_the_connector_cannot_return_it() {
    let mut g = QueryGraph::new();
    assert!(delete_record(&mut g, &schema(false), &user_model(), delete_field(where_id(1))).is_ok());
    assert_eq!(g.nodes.len(), 2);
    assert!(matches!(&g.nodes[0], Node::Query(Query::Read(ReadQuery::Record { .. }))));
    assert!(matches!(&g.nodes[1], Node::Query(Query::Write(WriteQuery::DeleteRecord { .. }))));
    assert_eq!(g.result_nodes[0].id, 0);
    assert_eq!(g.edges.len(), 1);
    assert_eq!((g.edges[0].from.id, g.edges[0].to.id), (0, 1));
    match &g.edges[0].dependency {
        Dependency::Projected {
            sink: RowSink::Discard,
            expectation: Some(DataExpectation::NonEmptyRows(QueryGraphBuilderError::RecordNotFound(m))),
            ..
        } => assert_eq!(m, "Record to delete does not exist."),
        other => panic!("unexpected dependency {:?}", other),
    }
}

#[test]
fn delete_record_with_a_where_that_is_no_object_is_an_error() {
    let mut g = QueryGraph::new();
    let r = delete_record(&mut g, &schema(true), &user_model(), delete_field(ParsedInputValue::Single(PrismaValue::Int(1))));
    match r {
        Err(QueryGraphBuilderError::InputError(m)) => assert_eq!(m, "Expected an input object."),
        other => panic!("unexpected result {:?}", other),
    }
}
