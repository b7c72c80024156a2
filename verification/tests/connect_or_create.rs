use query_graph_builder::builder::QuerySchema;
use query_graph_builder::connect_or_create::{
    handle_many_to_many, handle_one_to_one, nested_connect_or_create, one_to_many_inlined_child,
    one_to_many_inlined_parent, one_to_one_inlined_child, one_to_one_inlined_parent,
};
use query_graph_builder::filter::Filter;
use query_graph_builder::query_graph::WriteArgs;
use query_graph_builder::query_graph::DataExpectation;
use query_graph_builder::error::QueryGraphBuilderError;
use query_graph_builder::query_graph::{Dependency, Flow, Node, NodeRef, Query, QueryGraph, ReadQuery, RowSink, WriteQuery};
use query_graph_builder::schema::{
    Container, ContainerKind, DataModel, Field, ReferentialAction, Relation, RelationField, RelationKind, RelationMode,
    ScalarField, TypeIdentifier,
};
use query_graph_builder::values::{ParsedInputMap, ParsedInputValue, PrismaValue};

fn s(x: &str) -> String {
    x.to_string()
}

fn names(v: &[&str]) -> Vec<String> {
    v.iter().map(|x| x.to_string()).collect()
}

fn tag_model() -> Container {
    Container {
        name: s("Tag"),
        kind: ContainerKind::Model,
        fields: vec![Field::Scalar(ScalarField {
            name: s("id"),
            type_identifier: TypeIdentifier::Int,
            is_list: false,
            is_required: true,
            is_unique: true,
        })],
        primary_identifier: names(&["id"]),
        compound_id: None,
        unique_indexes: Vec::new(),
    }
}

fn post_tags() -> RelationField {
    RelationField {
        name: s("tags"),
        model: s("Post"),
        related_model: s("Tag"),
        relation: Relation {
            name: s("PostToTag"),
            model_a: s("Post"),
            model_b: s("Tag"),
            kind: RelationKind::ManyToMany,
            on_delete: ReferentialAction::Restrict,
            on_update: ReferentialAction::Cascade,
        },
        is_required: false,
        related_field_required: false,
        inlined_in_parent: false,
        linking_fields: names(&["id"]),
        related_linking_fields: names(&["postId"]),
        is_list: true,
        model_identifier: names(&["id"]),
        related_identifier: names(&["id"]),
        related_field_name: s("posts"),
    }
}

fn schema() -> QuerySchema {
    QuerySchema {
        data_model: DataModel { containers: vec![tag_model()] },
        can_native_upsert: false,
        relation_mode: RelationMode::ForeignKeys,
        lateral_join: false,
        relation_joins: false,
        delete_returning: false,
    }
}

fn object(entries: Vec<(&str, ParsedInputValue)>) -> ParsedInputValue {
    ParsedInputValue::Object(ParsedInputMap { tag: None, entries: entries.into_iter().map(|(k, v)| (s(k), v)).collect() })
}

fn id(n: i64) -> ParsedInputValue {
    object(vec![("id", ParsedInputValue::Single(PrismaValue::Int(n)))])
}

fn graph_with_parent() -> (QueryGraph, NodeRef) {
    let mut g = QueryGraph::new();
    let parent = g.create_node(Node::Empty);
    (g, parent)
}

#[test]
fn connect_or_create_connects_the_record_read_or_the_one_created() {
    let (mut g, parent) = graph_with_parent();
    let value = object(vec![("where", id(1)), ("create", id(1))]);
    let r = handle_many_to_many(&mut g, &schema(), &parent, &post_tags(), value, &tag_model());
    assert_eq!(r.unwrap().len(), 1);
    assert_eq!(g.nodes.len(), 6);
    assert!(matches!(&g.nodes[1], Node::Query(Query::Read(ReadQuery::Record { model, .. })) if model == "Tag"));
    assert!(matches!(&g.nodes[2], Node::Query(Query::Write(WriteQuery::CreateRecord { model, args })) if model == "Tag" && args.args.len() == 1));
    assert!(matches!(&g.nodes[3], Node::Flow(Flow::IfNonEmpty)));
    assert!(matches!(&g.nodes[4], Node::Query(Query::Write(WriteQuery::ConnectRecords { relation_field })) if relation_field == "tags"));
    assert!(matches!(&g.nodes[5], Node::Query(Query::Write(WriteQuery::ConnectRecords { relation_field })) if relation_field == "tags"));
    assert_eq!(g.edges.len(), 8);
    assert_eq!((g.edges[4].from.id, g.edges[4].to.id), (0, 1));
    assert!(matches!(g.edges[4].dependency, Dependency::ExecutionOrder));
    assert!(matches!(&g.edges[5].dependency, Dependency::Projected { sink: RowSink::IfCondition, .. }));
    assert_eq!((g.edges[6].from.id, g.edges[6].to.id), (3, 4));
    assert!(matches!(g.edges[6].dependency, Dependency::Then));
    assert_eq!((g.edges[7].from.id, g.edges[7].to.id), (3, 2));
    assert!(matches!(g.edges[7].dependency, Dependency::Else));
}

#[test]
fn connect_or_create_plans_each_object_of_a_list() {
    let (mut g, parent) = graph_with_parent();
    let value = ParsedInputValue::List(vec![
        object(vec![("where", id(1)), ("create", id(1))]),
        object(vec![("create", id(2)), ("where", id(2))]),
    ]);
    let r = handle_many_to_many(&mut g, &schema(), &parent, &post_tags(), value, &tag_model());
    assert_eq!(r.unwrap().len(), 2);
    assert_eq!(g.nodes.len(), 11);
    assert_eq!(g.edges.len(), 16);
}

#[test]
fn connect_or_create_refuses_what_is_no_object_or_names_no_field() {
    let (mut g, parent) = graph_with_parent();
    match handle_many_to_many(&mut g, &schema(), &parent, &post_tags(), ParsedInputValue::Single(PrismaValue::Int(1)), &tag_model()) {
        Err(QueryGraphBuilderError::InputError(m)) => assert_eq!(m, "Expected an input object."),
        other => panic!("unexpected result {:?}", other),
    }
    let value = object(vec![("where", id(1)), ("create", object(vec![("name", ParsedInputValue::Single(PrismaValue::Int(1)))]))]);
    match handle_many_to_many(&mut g, &schema(), &parent, &post_tags(), value, &tag_model()) {
        Err(QueryGraphBuilderError::InputError(m)) => assert_eq!(m, "Unknown field name on Tag."),
        other => panic!("unexpected result {:?}", other),
    }
}

fn comment_model() -> Container {
    let scalar = |name: &str, unique: bool| {
        Field::Scalar(ScalarField {
            name: s(name),
            type_identifier: TypeIdentifier::Int,
            is_list: false,
            is_required: true,
            is_unique: unique,
        })
    };
    Container {
        name: s("Comment"),
        kind: ContainerKind::Model,
        fields: vec![scalar("id", true), scalar("postId", false)],
        primary_identifier: names(&["id"]),
        compound_id: None,
        unique_indexes: Vec::new(),
    }
}

fn post_comments() -> RelationField {
    RelationField {
        name: s("comments"),
        model: s("Post"),
        related_model: s("Comment"),
        relation: Relation {
            name: s("PostToComment"),
            model_a: s("Comment"),
            model_b: s("Post"),
            kind: RelationKind::OneToMany,
            on_delete: ReferentialAction::Restrict,
            on_update: ReferentialAction::Cascade,
        },
        is_required: false,
        related_field_required: false,
        inlined_in_parent: false,
        linking_fields: names(&["id"]),
        related_linking_fields: names(&["postId"]),
        is_list: true,
        model_identifier: names(&["id"]),
        related_identifier: names(&["id"]),
        related_field_name: s("post"),
    }
}

#[test]
fn connect_or_create_inlined_on_the_child_updates_or_creates_with_the_link() {
    let (mut g, parent) = graph_with_parent();
    let qs = QuerySchema {
        data_model: DataModel { containers: vec![comment_model()] },
        can_native_upsert: false,
        relation_mode: RelationMode::ForeignKeys,
        lateral_join: false,
        relation_joins: false,
        delete_returning: false,
    };
    let value = object(vec![("where", id(7)), ("create", id(7))]);
    let r = one_to_many_inlined_child(&mut g, &qs, &parent, &post_comments(), value, &comment_model());
    assert_eq!(r.unwrap().len(), 1);
    assert_eq!(g.nodes.len(), 5);
    assert!(matches!(&g.nodes[1], Node::Query(Query::Read(ReadQuery::Record { model, .. })) if model == "Comment"));
    assert!(matches!(&g.nodes[2], Node::Flow(Flow::IfNonEmpty)));
    assert!(matches!(&g.nodes[3], Node::Query(Query::Write(WriteQuery::UpdateManyRecords { model, .. })) if model == "Comment"));
    assert!(matches!(&g.nodes[4], Node::Query(Query::Write(WriteQuery::CreateRecord { model, .. })) if model == "Comment"));
    assert_eq!(g.edges.len(), 6);
    assert_eq!((g.edges[1].from.id, g.edges[1].to.id), (2, 3));
    assert!(matches!(g.edges[1].dependency, Dependency::Then));
    assert_eq!((g.edges[2].from.id, g.edges[2].to.id), (2, 4));
    assert!(matches!(g.edges[2].dependency, Dependency::Else));
    for (k, target, action) in [(4usize, 4usize, "create"), (5, 3, "update")] {
        assert_eq!((g.edges[k].from.id, g.edges[k].to.id), (0, target));
        match &g.edges[k].dependency {
            Dependency::Projected {
                sink: RowSink::InjectLink(link),
                expectation: Some(DataExpectation::NonEmptyRows(QueryGraphBuilderError::RecordNotFound(m))),
                ..
            } => {
                assert_eq!(link, &names(&["postId"]));
                assert!(m.contains(&format!("{} inlined relation for 'Post' record(s)", action)), "{}", m);
            },
            other => panic!("unexpected dependency {:?}", other),
        }
    }
}

#[test]
fn connect_or_create_inlined_on_the_parent_hands_the_link_of_the_last_object_to_the_parent() {
    let (mut g, parent) = graph_with_parent();
    let qs = QuerySchema {
        data_model: DataModel { containers: vec![comment_model()] },
        can_native_upsert: false,
        relation_mode: RelationMode::ForeignKeys,
        lateral_join: false,
        relation_joins: false,
        delete_returning: false,
    };
    let mut rf = post_comments();
    rf.inlined_in_parent = true;
    rf.linking_fields = names(&["commentId"]);
    rf.related_linking_fields = names(&["id"]);
    let first = object(vec![("where", id(1)), ("create", id(1))]);
    let last = object(vec![("where", id(7)), ("create", id(8))]);
    let value = ParsedInputValue::List(vec![first, last]);
    let r = one_to_many_inlined_parent(&mut g, &qs, &parent, &rf, value, &comment_model());
    assert_eq!(r.unwrap().len(), 0);
    assert_eq!(g.nodes.len(), 6);
    assert!(matches!(&g.nodes[1], Node::Query(Query::Read(ReadQuery::Record { model, .. })) if model == "Comment"));
    assert!(matches!(&g.nodes[2], Node::Flow(Flow::IfNonEmpty)));
    match &g.nodes[3] {
        Node::Query(Query::Write(WriteQuery::CreateRecord { model, args })) => {
            assert_eq!(model, "Comment");
            assert_eq!(args.args.len(), 1);
        },
        other => panic!("unexpected node {:?}", other),
    }
    assert!(matches!(&g.nodes[4], Node::Flow(Flow::Return)));
    assert!(matches!(&g.nodes[5], Node::Flow(Flow::Return)));
    assert_eq!(g.marked.last().map(|(a, b)| (a.id, b.id)), Some((0, 1)));
    assert_eq!(g.edges.len(), 7);
    assert_eq!((g.edges[0].from.id, g.edges[0].to.id), (0, 1));
    assert!(matches!(g.edges[0].dependency, Dependency::ExecutionOrder));
    assert_eq!((g.edges[2].from.id, g.edges[2].to.id), (2, 4));
    assert!(matches!(g.edges[2].dependency, Dependency::Then));
    assert_eq!((g.edges[3].from.id, g.edges[3].to.id), (2, 3));
    assert!(matches!(g.edges[3].dependency, Dependency::Else));
    assert_eq!((g.edges[4].from.id, g.edges[4].to.id), (2, 0));
    match &g.edges[4].dependency {
        Dependency::Projected { selection, sink: RowSink::InjectLink(link), expectation: None } => {
            assert_eq!(selection, &names(&["id"]));
            assert_eq!(link, &names(&["commentId"]));
        },
        other => panic!("unexpected dependency {:?}", other),
    }
    assert_eq!((g.edges[6].from.id, g.edges[6].to.id), (3, 5));
}

fn profile_model() -> Container {
    Container {
        name: s("Profile"),
        kind: ContainerKind::Model,
        fields: vec![Field::Scalar(ScalarField {
            name: s("id"),
            type_identifier: TypeIdentifier::Int,
            is_list: false,
            is_required: true,
            is_unique: true,
        })],
        primary_identifier: names(&["id"]),
        compound_id: None,
        unique_indexes: Vec::new(),
    }
}

fn one_to_one_field(name: &str, model: &str, related: &str, link: &[&str], related_link: &[&str], inlined: bool) -> RelationField {
    RelationField {
        name: s(name),
        model: s(model),
        related_model: s(related),
        relation: Relation {
            name: s("UserToProfile"),
            model_a: s("Profile"),
            model_b: s("User"),
            kind: RelationKind::OneToOne,
            on_delete: ReferentialAction::Restrict,
            on_update: ReferentialAction::Cascade,
        },
        is_required: false,
        related_field_required: false,
        inlined_in_parent: inlined,
        linking_fields: names(link),
        related_linking_fields: names(related_link),
        is_list: false,
        model_identifier: names(&["id"]),
        related_identifier: names(&["id"]),
        related_field_name: s(if inlined { "user" } else { "profile" }),
    }
}

fn profile_schema() -> QuerySchema {
    QuerySchema {
        data_model: DataModel { containers: vec![profile_model()] },
        can_native_upsert: false,
        relation_mode: RelationMode::ForeignKeys,
        lateral_join: false,
        relation_joins: false,
        delete_returning: false,
    }
}

fn create_map(n: i64) -> ParsedInputMap {
    ParsedInputMap { tag: None, entries: vec![(s("id"), ParsedInputValue::Single(PrismaValue::Int(n)))] }
}

#[test]
fn connect_or_create_one_to_one_on_a_created_parent_injects_the_link() {
    let mut g = QueryGraph::new();
    let parent = g.create_node(Node::Query(Query::Write(WriteQuery::CreateRecord {
        model: s("User"),
        args: WriteArgs { args: Vec::new() },
    })));
    let rf = one_to_one_field("profile", "User", "Profile", &["profileId"], &["id"], true);
    let crf = one_to_one_field("user", "Profile", "User", &["id"], &["profileId"], false);
    let r = one_to_one_inlined_parent(&mut g, &profile_schema(), &parent, &rf, &crf, Filter::Empty, create_map(3), &profile_model());
    assert_eq!(r.unwrap().len(), 0);
    assert_eq!(g.nodes.len(), 9);
    assert_eq!(g.edges.len(), 12);
    assert!(matches!(&g.nodes[3], Node::Query(Query::Write(WriteQuery::CreateRecord { model, .. })) if model == "Profile"));
    assert!(matches!(&g.nodes[4], Node::Flow(Flow::Return)));
    assert_eq!((g.edges[6].from.id, g.edges[6].to.id), (2, 6));
    assert!(matches!(g.edges[6].dependency, Dependency::Then));
    assert_eq!((g.edges[11].from.id, g.edges[11].to.id), (2, 0));
    match &g.edges[11].dependency {
        Dependency::Projected { selection, sink: RowSink::InjectLink(link), expectation: None } => {
            assert_eq!(selection, &names(&["id"]));
            assert_eq!(link, &names(&["profileId"]));
        },
        other => panic!("unexpected dependency {:?}", other),
    }
}

#[test]
fn connect_or_create_one_to_one_on_an_existing_parent_updates_it_with_the_link() {
    let mut g = QueryGraph::new();
    let parent = g.create_node(Node::Empty);
    let rf = one_to_one_field("profile", "User", "Profile", &["profileId"], &["id"], true);
    let crf = one_to_one_field("user", "Profile", "User", &["id"], &["profileId"], false);
    let r = one_to_one_inlined_parent(&mut g, &profile_schema(), &parent, &rf, &crf, Filter::Empty, create_map(3), &profile_model());
    assert_eq!(r.unwrap().len(), 0);
    assert_eq!(g.nodes.len(), 13);
    assert_eq!(g.edges.len(), 18);
    assert_eq!((g.edges[11].from.id, g.edges[11].to.id), (2, 0));
    assert!(matches!(g.edges[11].dependency, Dependency::ExecutionOrder));
    assert!(matches!(&g.nodes[12], Node::Query(Query::Write(WriteQuery::UpdateManyRecords { model, .. })) if model == "User"));
    assert_eq!((g.edges[17].from.id, g.edges[17].to.id), (2, 12));
    match &g.edges[17].dependency {
        Dependency::Projected {
            sink: RowSink::InjectLink(link),
            expectation: Some(DataExpectation::NonEmptyRows(QueryGraphBuilderError::RecordNotFound(m))),
            ..
        } => {
            assert_eq!(link, &names(&["profileId"]));
            assert_eq!(
                m,
                "No 'Profile' record (needed to update inlined relation for 'User' record(s)) was found for a nested connect or create on one-to-one relation 'UserToProfile'."
            );
        },
        other => panic!("unexpected dependency {:?}", other),
    }
    let bad = ParsedInputMap { tag: None, entries: vec![(s("nope"), ParsedInputValue::Single(PrismaValue::Int(1)))] };
    let mut g2 = QueryGraph::new();
    let parent2 = g2.create_node(Node::Empty);
    let r = one_to_one_inlined_parent(&mut g2, &profile_schema(), &parent2, &rf, &crf, Filter::Empty, bad, &profile_model());
    assert!(r.is_err());
}

#[test]
fn connect_or_create_one_to_one_inlined_on_the_child_disconnects_the_old_child_first() {
    let mut g = QueryGraph::new();
    let parent = g.create_node(Node::Empty);
    let rf = one_to_one_field("profile", "User", "Profile", &["id"], &["userId"], false);
    let mut crf = one_to_one_field("user", "Profile", "User", &["userId"], &["id"], true);
    crf.is_required = true;
    let r = one_to_one_inlined_child(&mut g, &profile_schema(), &parent, &rf, &crf, Filter::Empty, create_map(3), &profile_model());
    assert_eq!(r.unwrap().len(), 0);
    assert_eq!(g.nodes.len(), 9);
    assert_eq!(g.edges.len(), 14);
    assert!(matches!(&g.nodes[4], Node::Query(Query::Write(WriteQuery::UpdateManyRecords { model, .. })) if model == "Profile"));
    assert_eq!((g.edges[3].from.id, g.edges[3].to.id), (0, 4));
    match &g.edges[3].dependency {
        Dependency::Projected {
            sink: RowSink::InjectLink(link),
            expectation: Some(DataExpectation::NonEmptyRows(QueryGraphBuilderError::RecordNotFound(m))),
            ..
        } => {
            assert_eq!(link, &names(&["userId"]));
            assert_eq!(
                m,
                "No 'User' record (needed to find 'Profile' record(s)) was found for a nested connect or create on one-to-one relation 'UserToProfile'."
            );
        },
        other => panic!("unexpected dependency {:?}", other),
    }
    assert_eq!((g.edges[6].from.id, g.edges[6].to.id), (0, 5));
    assert_eq!((g.edges[7].from.id, g.edges[7].to.id), (2, 5));
    assert!(matches!(g.edges[7].dependency, Dependency::Then));
    match &g.edges[11].dependency {
        Dependency::Projected {
            sink: RowSink::SelectorsWithNulls(fields),
            expectation: Some(DataExpectation::EmptyRows(QueryGraphBuilderError::RelationViolation(_))),
            ..
        } => assert_eq!(fields, &names(&["userId"])),
        other => panic!("unexpected dependency {:?}", other),
    }
    assert_eq!((g.edges[13].from.id, g.edges[13].to.id), (8, 4));
    assert!(matches!(g.edges[13].dependency, Dependency::ExecutionOrder));
}

#[test]
fn connect_or_create_one_to_one_inlined_on_a_created_child_parent_only_updates_the_record_found() {
    let mut g = QueryGraph::new();
    let parent = g.create_node(Node::Query(Query::Write(WriteQuery::CreateRecord {
        model: s("User"),
        args: WriteArgs { args: Vec::new() },
    })));
    let rf = one_to_one_field("profile", "User", "Profile", &["id"], &["userId"], false);
    let crf = one_to_one_field("user", "Profile", "User", &["userId"], &["id"], true);
    let value = object(vec![("where", id(7)), ("create", id(7))]);
    let r = handle_one_to_one(&mut g, &profile_schema(), &parent, &rf, &crf, value, &profile_model());
    assert_eq!(r.unwrap().len(), 0);
    assert_eq!(g.nodes.len(), 5);
    assert_eq!(g.edges.len(), 7);
    assert_eq!((g.edges[6].from.id, g.edges[6].to.id), (2, 4));
    assert!(matches!(g.edges[6].dependency, Dependency::Then));
}

#[test]
fn nested_connect_or_create_goes_by_the_kind_of_relation() {
    let (mut g, parent) = graph_with_parent();
    let value = ParsedInputValue::List(vec![
        object(vec![("where", id(1)), ("create", id(1))]),
        object(vec![("where", id(2)), ("create", id(2))]),
    ]);
    let r = nested_connect_or_create(&mut g, &schema(), &parent, &post_tags(), &post_tags(), value, &tag_model());
    assert_eq!(r.unwrap().len(), 2);
    let mut g = QueryGraph::new();
    let parent = g.create_node(Node::Empty);
    let rf = one_to_one_field("profile", "User", "Profile", &["profileId"], &["id"], true);
    let crf = one_to_one_field("user", "Profile", "User", &["id"], &["profileId"], false);
    let value = ParsedInputValue::List(vec![
        object(vec![("where", id(1)), ("create", id(1))]),
        object(vec![("where", id(2)), ("create", id(2))]),
    ]);
    let r = nested_connect_or_create(&mut g, &profile_schema(), &parent, &rf, &crf, value, &profile_model());
    assert_eq!(r.unwrap().len(), 1);
    assert_eq!(g.nodes.len(), 13);
    let r = nested_connect_or_create(&mut g, &profile_schema(), &parent, &rf, &crf, ParsedInputValue::Single(PrismaValue::Int(1)), &profile_model());
    match r {
        Err(QueryGraphBuilderError::InputError(m)) => assert_eq!(m, "Expected an input object."),
        other => panic!("unexpected result {:?}", other),
    }
}
