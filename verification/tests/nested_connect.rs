use query_graph_builder::connect_nested::nested_connect;
use query_graph_builder::disconnect_nested::nested_disconnect;
use query_graph_builder::set_nested::nested_set;
use query_graph_builder::error::QueryGraphBuilderError;
use query_graph_builder::filter::Filter;
use query_graph_builder::query_graph::{
    Computation, CountError, DataExpectation, Dependency, Flow, Node, NodeRef, Query, QueryGraph, ReadQuery, RowSink,
    WriteQuery,
};
use query_graph_builder::schema::{
    Container, ContainerKind, Field, ReferentialAction, Relation, RelationField, RelationKind, ScalarField,
    TypeIdentifier,
};
use query_graph_builder::values::{ParsedInputMap, ParsedInputValue, PrismaValue};

fn s(x: &str) -> String {
    x.to_string()
}

fn names(v: &[&str]) -> Vec<String> {
    v.iter().map(|x| x.to_string()).collect()
}

fn tag_model() -> Container {
    Container {
        name: s("Tag"),
        kind: ContainerKind::Model,
        fields: vec![Field::Scalar(ScalarField {
            name: s("id"),
            type_identifier: TypeIdentifier::Int,
            is_list: false,
            is_required: true,
            is_unique: true,
        })],
        primary_identifier: names(&["id"]),
        compound_id: None,
        unique_indexes: Vec::new(),
    }
}

fn relation(kind: RelationKind) -> Relation {
    Relation {
        name: s("PostToTag"),
        model_a: s("Post"),
        model_b: s("Tag"),
        kind,
        on_delete: ReferentialAction::Restrict,
        on_update: ReferentialAction::Cascade,
    }
}

/// The field of a post through which its tags are reached.
fn post_tags(kind: RelationKind, inlined_in_parent: bool, is_list: bool, required: bool) -> RelationField {
    RelationField {
        name: s("tags"),
        model: s("Post"),
        related_model: s("Tag"),
        relation: relation(kind),
        is_required: required,
        related_field_required: required,
        inlined_in_parent,
        linking_fields: if inlined_in_parent { names(&["tagId"]) } else { names(&["id"]) },
        related_linking_fields: if inlined_in_parent { names(&["id"]) } else { names(&["postId"]) },
        is_list,
        model_identifier: names(&["id"]),
        related_identifier: names(&["id"]),
        related_field_name: s("posts"),
    }
}

/// The field of a tag that goes back to its posts.
fn tag_posts(kind: RelationKind, inlined_in_parent: bool, required: bool) -> RelationField {
    RelationField {
        name: s("posts"),
        model: s("Tag"),
        related_model: s("Post"),
        relation: relation(kind),
        is_required: required,
        related_field_required: required,
        inlined_in_parent,
        linking_fields: if inlined_in_parent { names(&["postId"]) } else { names(&["id"]) },
        related_linking_fields: if inlined_in_parent { names(&["id"]) } else { names(&["tagId"]) },
        is_list: kind != RelationKind::OneToOne,
        model_identifier: names(&["id"]),
        related_identifier: names(&["id"]),
        related_field_name: s("tags"),
    }
}

fn id_selector(id: i64) -> ParsedInputValue {
    ParsedInputValue::Object(ParsedInputMap {
        tag: None,
        entries: vec![(s("id"), ParsedInputValue::Single(PrismaValue::Int(id)))],
    })
}

fn graph_with_parent() -> (QueryGraph, NodeRef) {
    let mut g = QueryGraph::new();
    let parent = g.create_node(Node::Empty);
    (g, parent)
}

#[test]
fn many_to_many_connect_expects_each_distinct_record() {
    let (mut g, parent) = graph_with_parent();
    let rf = post_tags(RelationKind::ManyToMany, false, true, false);
    let back = tag_posts(RelationKind::ManyToMany, false, false);
    let value = ParsedInputValue::List(vec![id_selector(1), id_selector(2), id_selector(1)]);
    assert!(nested_connect(&mut g, parent, &rf, &back, value, &tag_model()).is_ok());
    assert_eq!(g.nodes.len(), 3);
    match &g.nodes[1] {
        Node::Query(Query::Read(ReadQuery::ManyRecords { model, filter: Filter::Or(fs), .. })) => {
            assert_eq!(model, "Tag");
            assert_eq!(fs.len(), 2);
        },
        other => panic!("unexpected node {:?}", other),
    }
    assert!(matches!(&g.nodes[2], Node::Query(Query::Write(WriteQuery::ConnectRecords { relation_field })) if relation_field == "tags"));
    assert_eq!(g.edges.len(), 3);
    match &g.edges[2].dependency {
        Dependency::Projected { sink: RowSink::ConnectChildren, expectation: Some(DataExpectation::ExactRowCount(n, CountError::IncompleteConnect(i))), .. } => {
            assert_eq!(*n, 2);
            assert_eq!(i.expected_rows, 2);
        },
        other => panic!("unexpected dependency {:?}", other),
    }
}

#[test]
fn one_to_many_connect_checks_the_count_of_updated_children() {
    let (mut g, parent) = graph_with_parent();
    let rf = post_tags(RelationKind::OneToMany, false, true, false);
    let back = tag_posts(RelationKind::OneToMany, true, false);
    assert!(nested_connect(&mut g, parent, &rf, &back, id_selector(5), &tag_model()).is_ok());
    assert_eq!(g.nodes.len(), 3);
    assert!(matches!(g.nodes[1], Node::Query(Query::Write(WriteQuery::UpdateManyRecords { .. }))));
    assert!(matches!(g.nodes[2], Node::Empty));
    match &g.edges[1].dependency {
        Dependency::ResultCount { expected, error: CountError::NotAllConnected { expected: e, relation } } => {
            assert_eq!((*expected, *e), (1, 1));
            assert_eq!(relation, "PostToTag");
        },
        other => panic!("unexpected dependency {:?}", other),
    }
}

#[test]
fn connect_of_no_records_does_nothing() {
    let (mut g, parent) = graph_with_parent();
    let rf = post_tags(RelationKind::ManyToMany, false, true, false);
    let back = tag_posts(RelationKind::ManyToMany, false, false);
    assert!(nested_connect(&mut g, parent, &rf, &back, ParsedInputValue::List(vec![]), &tag_model()).is_ok());
    assert_eq!(g.nodes.len(), 1);
    assert_eq!(g.edges.len(), 0);
}

#[test]
fn one_to_one_connect_between_required_sides_is_a_violation() {
    let (mut g, parent) = graph_with_parent();
    let rf = post_tags(RelationKind::OneToOne, true, false, true);
    let back = tag_posts(RelationKind::OneToOne, false, true);
    match nested_connect(&mut g, parent, &rf, &back, id_selector(1), &tag_model()) {
        Err(QueryGraphBuilderError::RelationViolation(v)) => {
            assert_eq!((v.relation.as_str(), v.model_a.as_str(), v.model_b.as_str()), ("PostToTag", "Post", "Tag"));
        },
        other => panic!("unexpected result {:?}", other),
    }
}

#[test]
fn connect_with_an_unknown_field_fails() {
    let (mut g, parent) = graph_with_parent();
    let rf = post_tags(RelationKind::ManyToMany, false, true, false);
    let back = tag_posts(RelationKind::ManyToMany, false, false);
    let value = ParsedInputValue::Object(ParsedInputMap {
        tag: None,
        entries: vec![(s("nope"), ParsedInputValue::Single(PrismaValue::Int(1)))],
    });
    match nested_connect(&mut g, parent, &rf, &back, value, &tag_model()) {
        Err(QueryGraphBuilderError::AssertionError(m)) => {
            assert_eq!(m, "Unable to resolve field nope to a field or set of scalar fields on model Tag")
        },
        other => panic!("unexpected result {:?}", other),
    }
    assert_eq!(g.nodes.len(), 1);
}

#[test]
fn one_to_one_disconnect_nulls_the_inlined_link() {
    let (mut g, parent) = graph_with_parent();
    let rf = post_tags(RelationKind::OneToOne, true, false, false);
    let back = tag_posts(RelationKind::OneToOne, false, false);
    let value = ParsedInputValue::Single(PrismaValue::Boolean(true));
    assert!(nested_disconnect(&mut g, parent, &rf, &back, value, &tag_model()).is_ok());
    assert_eq!(g.nodes.len(), 3);
    match &g.edges[1].dependency {
        Dependency::Projected { sink: RowSink::SelectorsWithNulls(fields), expectation: None, .. } => {
            assert_eq!(fields, &names(&["tagId"]));
        },
        other => panic!("unexpected dependency {:?}", other),
    }
}

#[test]
fn one_to_one_disconnect_of_a_required_relation_is_a_violation() {
    let (mut g, parent) = graph_with_parent();
    let rf = post_tags(RelationKind::OneToOne, true, false, true);
    let back = tag_posts(RelationKind::OneToOne, false, false);
    let value = ParsedInputValue::Single(PrismaValue::Boolean(true));
    assert!(matches!(
        nested_disconnect(&mut g, parent, &rf, &back, value, &tag_model()),
        Err(QueryGraphBuilderError::RelationViolation(_))
    ));
}

#[test]
fn many_to_many_disconnect_expects_the_named_records() {
    let (mut g, parent) = graph_with_parent();
    let rf = post_tags(RelationKind::ManyToMany, false, true, false);
    let back = tag_posts(RelationKind::ManyToMany, false, false);
    let value = ParsedInputValue::List(vec![id_selector(1), id_selector(2)]);
    assert!(nested_disconnect(&mut g, parent, &rf, &back, value, &tag_model()).is_ok());
    assert_eq!(g.nodes.len(), 3);
    assert!(matches!(&g.nodes[2], Node::Query(Query::Write(WriteQuery::DisconnectRecords { relation_field })) if relation_field == "tags"));
    match &g.edges[2].dependency {
        Dependency::Projected { expectation: Some(DataExpectation::ExactRowCount(n, CountError::Fixed(QueryGraphBuilderError::RecordsNotConnected { relation_name, .. }))), .. } => {
            assert_eq!(*n, 2);
            assert_eq!(relation_name, "PostToTag");
        },
        other => panic!("unexpected dependency {:?}", other),
    }
}

#[test]
fn many_to_many_set_disconnects_then_connects_the_named_records() {
    let (mut g, parent) = graph_with_parent();
    let rf = post_tags(RelationKind::ManyToMany, false, true, false);
    let value = ParsedInputValue::List(vec![id_selector(1), id_selector(2), id_selector(2)]);
    assert!(nested_set(&mut g, &parent, &rf, value, &tag_model()).is_ok());
    assert_eq!(g.nodes.len(), 5);
    assert_eq!(g.edges.len(), 6);
    assert!(matches!(&g.nodes[2], Node::Query(Query::Write(WriteQuery::DisconnectRecords { relation_field })) if relation_field == "tags"));
    match &g.nodes[3] {
        Node::Query(Query::Read(ReadQuery::ManyRecords { model, filter: Filter::Or(fs), .. })) => {
            assert_eq!(model, "Tag");
            assert_eq!(fs.len(), 2);
        },
        other => panic!("unexpected node {:?}", other),
    }
    assert!(matches!(&g.nodes[4], Node::Query(Query::Write(WriteQuery::ConnectRecords { relation_field })) if relation_field == "tags"));
    assert!(matches!(g.edges[3].dependency, Dependency::ExecutionOrder));
    assert_eq!(g.edges[3].from, NodeRef { id: 2 });
    assert_eq!(g.edges[3].to, NodeRef { id: 3 });
    match &g.edges[5].dependency {
        Dependency::Projected { expectation: Some(DataExpectation::ExactRowCount(n, _)), .. } => assert_eq!(*n, 2),
        other => panic!("unexpected dependency {:?}", other),
    }
}

#[test]
fn many_to_many_set_to_nothing_only_disconnects() {
    let (mut g, parent) = graph_with_parent();
    let rf = post_tags(RelationKind::ManyToMany, false, true, false);
    let value = ParsedInputValue::List(Vec::new());
    assert!(nested_set(&mut g, &parent, &rf, value, &tag_model()).is_ok());
    assert_eq!(g.nodes.len(), 3);
    assert_eq!(g.edges.len(), 3);
    match &g.edges[1].dependency {
        Dependency::Projected { sink: RowSink::ConnectParent, expectation: Some(DataExpectation::NonEmptyRows(QueryGraphBuilderError::RecordNotFound(m))), .. } => {
            assert!(m.contains("nested set"), "{}", m);
        },
        other => panic!("unexpected dependency {:?}", other),
    }
}

#[test]
fn one_to_many_set_diffs_old_and_new_children() {
    let (mut g, parent) = graph_with_parent();
    let rf = post_tags(RelationKind::OneToMany, false, true, true);
    let value = ParsedInputValue::List(vec![id_selector(7)]);
    assert!(nested_set(&mut g, &parent, &rf, value, &tag_model()).is_ok());
    assert_eq!(g.nodes.len(), 9);
    assert_eq!(g.edges.len(), 13);
    assert!(matches!(&g.nodes[3], Node::Computation(Computation::DiffLeftToRight(_))));
    assert!(matches!(&g.nodes[4], Node::Computation(Computation::DiffRightToLeft(_))));
    assert!(matches!(&g.nodes[5], Node::Flow(Flow::IfNonEmpty)));
    assert!(matches!(&g.nodes[7], Node::Flow(Flow::IfNonEmpty)));
    match &g.nodes[8] {
        Node::Query(Query::Write(WriteQuery::UpdateManyRecords { model, args, .. })) => {
            assert_eq!(model, "Tag");
            assert_eq!(args.args.len(), 1);
            assert_eq!(args.args[0].0, "postId");
        },
        other => panic!("unexpected node {:?}", other),
    }
    match &g.edges[8].dependency {
        Dependency::Projected { sink: RowSink::InjectLink(l), .. } => assert_eq!(l, &names(&["postId"])),
        other => panic!("unexpected dependency {:?}", other),
    }
    match &g.edges[10].dependency {
        Dependency::Projected { sink: RowSink::IfCondition, expectation: Some(DataExpectation::EmptyRows(QueryGraphBuilderError::RelationViolation(_))), .. } => {},
        other => panic!("unexpected dependency {:?}", other),
    }
}

#[test]
fn set_of_a_non_object_fails_and_leaves_the_graph() {
    let (mut g, parent) = graph_with_parent();
    let rf = post_tags(RelationKind::OneToMany, false, true, false);
    let value = ParsedInputValue::List(vec![ParsedInputValue::Single(PrismaValue::Int(3))]);
    match nested_set(&mut g, &parent, &rf, value, &tag_model()) {
        Err(QueryGraphBuilderError::InputError(m)) => assert_eq!(m, "Expected an input object."),
        other => panic!("unexpected result {:?}", other),
    }
    assert_eq!(g.nodes.len(), 1);
    assert_eq!(g.edges.len(), 0);
}
