use query_graph_builder::builder::QuerySchema;
use query_graph_builder::delete::delete_many_records;
use query_graph_builder::delete_nested::{nested_delete, nested_delete_many};
use query_graph_builder::document::ParsedField;
use query_graph_builder::error::QueryGraphBuilderError;
use query_graph_builder::filter::Filter;
use query_graph_builder::query_graph::{
    CountError, DataExpectation, Dependency, Node, NodeRef, Query, QueryGraph, ReadQuery, RowSink, WriteOperation,
    WriteQuery,
};
use query_graph_builder::schema::{
    Container, ContainerKind, DataModel, Field, ReferentialAction, Relation, RelationField, RelationKind,
    RelationMode, ScalarField, TypeIdentifier,
};
use query_graph_builder::values::{ParsedInputMap, ParsedInputValue, PrismaValue};

fn s(x: &str) -> String {
    x.to_string()
}

fn names(v: &[&str]) -> Vec<String> {
    v.iter().map(|x| x.to_string()).collect()
}

fn scalar(name: &str, required: bool) -> Field {
    Field::Scalar(ScalarField {
        name: s(name),
        type_identifier: TypeIdentifier::Int,
        is_list: false,
        is_required: required,
        is_unique: name == "id",
    })
}

fn relation(name: &str, kind: RelationKind, on_delete: ReferentialAction) -> Relation {
    Relation {
        name: s(name),
        model_a: s("Comment"),
        model_b: s("Post"),
        kind,
        on_delete,
        on_update: ReferentialAction::Cascade,
    }
}

/// The field of a comment that refers to its post (it holds the foreign key `postId`).
fn comment_post(on_delete: ReferentialAction) -> RelationField {
    RelationField {
        name: s("post"),
        model: s("Comment"),
        related_model: s("Post"),
        relation: relation("CommentToPost", RelationKind::OneToMany, on_delete),
        is_required: false,
        related_field_required: false,
        inlined_in_parent: true,
        linking_fields: names(&["postId"]),
        related_linking_fields: names(&["id"]),
        is_list: false,
        model_identifier: names(&["id"]),
        related_identifier: names(&["id"]),
        related_field_name: s("comments"),
    }
}

/// The field of a post that lists its comments.
fn post_comments(on_delete: ReferentialAction) -> RelationField {
    RelationField {
        name: s("comments"),
        model: s("Post"),
        related_model: s("Comment"),
        relation: relation("CommentToPost", RelationKind::OneToMany, on_delete),
        is_required: false,
        related_field_required: false,
        inlined_in_parent: false,
        linking_fields: names(&["id"]),
        related_linking_fields: names(&["postId"]),
        is_list: true,
        model_identifier: names(&["id"]),
        related_identifier: names(&["id"]),
        related_field_name: s("post"),
    }
}

fn post_model(on_delete: ReferentialAction) -> Container {
    Container {
        name: s("Post"),
        kind: ContainerKind::Model,
        fields: vec![scalar("id", true), Field::Relation(post_comments(on_delete))],
        primary_identifier: names(&["id"]),
        compound_id: None,
        unique_indexes: Vec::new(),
    }
}

fn comment_model(on_delete: ReferentialAction, fk_required: bool) -> Container {
    Container {
        name: s("Comment"),
        kind: ContainerKind::Model,
        fields: vec![scalar("id", true), scalar("postId", fk_required), Field::Relation(comment_post(on_delete))],
        primary_identifier: names(&["id"]),
        compound_id: None,
        unique_indexes: Vec::new(),
    }
}

fn schema(on_delete: ReferentialAction, fk_required: bool, mode: RelationMode) -> QuerySchema {
    QuerySchema {
        data_model: DataModel { containers: vec![post_model(on_delete), comment_model(on_delete, fk_required)] },
        can_native_upsert: false,
        relation_mode: mode,
        lateral_join: false,
        relation_joins: false,
        delete_returning: false,
    }
}

/// The field of a user that lists its posts, through which posts are deleted.
fn user_posts() -> RelationField {
    RelationField {
        name: s("posts"),
        model: s("User"),
        related_model: s("Post"),
        relation: Relation {
            name: s("PostToUser"),
            model_a: s("Post"),
            model_b: s("User"),
            kind: RelationKind::OneToMany,
            on_delete: ReferentialAction::Cascade,
            on_update: ReferentialAction::Cascade,
        },
        is_required: false,
        related_field_required: false,
        inlined_in_parent: false,
        linking_fields: names(&["id"]),
        related_linking_fields: names(&["authorId"]),
        is_list: true,
        model_identifier: names(&["id"]),
        related_identifier: names(&["id"]),
        related_field_name: s("author"),
    }
}

/// The field of a user that holds its profile, on a one-to-one relation.
fn user_profile() -> RelationField {
    RelationField {
        name: s("profile"),
        model: s("User"),
        related_model: s("Post"),
        relation: Relation {
            name: s("ProfileToUser"),
            model_a: s("Post"),
            model_b: s("User"),
            kind: RelationKind::OneToOne,
            on_delete: ReferentialAction::Cascade,
            on_update: ReferentialAction::Cascade,
        },
        is_required: false,
        related_field_required: false,
        inlined_in_parent: false,
        linking_fields: names(&["id"]),
        related_linking_fields: names(&["userId"]),
        is_list: false,
        model_identifier: names(&["id"]),
        related_identifier: names(&["id"]),
        related_field_name: s("user"),
    }
}

fn id_selector(id: i64) -> ParsedInputValue {
    ParsedInputValue::Object(ParsedInputMap {
        tag: None,
        entries: vec![(s("id"), ParsedInputValue::Single(PrismaValue::Int(id)))],
    })
}

fn graph_with_parent() -> (QueryGraph, NodeRef) {
    let mut g = QueryGraph::new();
    let parent = g.create_node(Node::Empty);
    (g, parent)
}

fn expect_exact_count(d: &Dependency) -> usize {
    match d {
        Dependency::Projected { sink: RowSink::Selectors, expectation: Some(DataExpectation::ExactRowCount(n, CountError::Fixed(QueryGraphBuilderError::RecordsNotConnected { relation_name, parent_name, child_name }))), .. } => {
            assert_eq!(relation_name, "PostToUser");
            assert_eq!(parent_name, "User");
            assert_eq!(child_name, "Post");
            *n
        },
        other => panic!("unexpected dependency {:?}", other),
    }
}

#[test]
fn delete_of_listed_records_without_emulation() {
    let qs = schema(ReferentialAction::Cascade, false, RelationMode::ForeignKeys);
    let (mut g, parent) = graph_with_parent();
    let post = post_model(ReferentialAction::Cascade);
    let value = ParsedInputValue::List(vec![id_selector(1), id_selector(2)]);
    assert!(nested_delete(&mut g, &qs, &parent, &user_posts(), value, &post).is_ok());
    assert_eq!(g.nodes.len(), 3);
    assert_eq!(g.edges.len(), 2);
    match &g.nodes[1] {
        Node::Query(Query::Write(WriteQuery::DeleteManyRecords { model, filter: Filter::Or(fs) })) => {
            assert_eq!(model, "Post");
            assert_eq!(fs.len(), 2);
        },
        other => panic!("unexpected node {:?}", other),
    }
    match &g.nodes[2] {
        Node::Query(Query::Read(ReadQuery::RelatedRecords { parent_field, model, filter: Filter::Or(fs), .. })) => {
            assert_eq!(parent_field, "posts");
            assert_eq!(model, "Post");
            assert_eq!(fs.len(), 2);
        },
        other => panic!("unexpected node {:?}", other),
    }
    let last = &g.edges[1];
    assert_eq!((last.from.id, last.to.id), (2, 1));
    assert_eq!(expect_exact_count(&last.dependency), 2);
}

#[test]
fn restrict_emulation_fails_on_related_comments() {
    let qs = schema(ReferentialAction::Restrict, false, RelationMode::Prisma);
    let (mut g, parent) = graph_with_parent();
    let post = post_model(ReferentialAction::Restrict);
    assert!(nested_delete(&mut g, &qs, &parent, &user_posts(), id_selector(1), &post).is_ok());
    // parent, delete posts, read posts, empty check node, read comments
    assert_eq!(g.nodes.len(), 5);
    assert!(matches!(g.nodes[3], Node::Empty));
    match &g.nodes[4] {
        Node::Query(Query::Read(ReadQuery::RelatedRecords { parent_field, model, .. })) => {
            assert_eq!(parent_field, "comments");
            assert_eq!(model, "Comment");
        },
        other => panic!("unexpected node {:?}", other),
    }
    assert_eq!(g.edges.len(), 5);
    match &g.edges[2].dependency {
        Dependency::Projected { sink: RowSink::Discard, expectation: Some(DataExpectation::EmptyRows(QueryGraphBuilderError::RelationViolation(v))), .. } => {
            assert_eq!(v.relation, "CommentToPost");
        },
        other => panic!("unexpected dependency {:?}", other),
    }
    assert_eq!((g.edges[3].from.id, g.edges[3].to.id), (3, 1));
    assert!(matches!(g.edges[3].dependency, Dependency::ExecutionOrder));
    assert_eq!(expect_exact_count(&g.edges[4].dependency), 1);
}

#[test]
fn cascade_emulation_deletes_related_comments_first() {
    let qs = schema(ReferentialAction::Cascade, false, RelationMode::Prisma);
    let (mut g, parent) = graph_with_parent();
    let post = post_model(ReferentialAction::Cascade);
    assert!(nested_delete(&mut g, &qs, &parent, &user_posts(), id_selector(1), &post).is_ok());
    assert_eq!(g.nodes.len(), 5);
    match &g.nodes[4] {
        Node::Query(Query::Write(WriteQuery::DeleteManyRecords { model, filter: Filter::Empty })) => {
            assert_eq!(model, "Comment");
        },
        other => panic!("unexpected node {:?}", other),
    }
    assert_eq!(g.edges.len(), 5);
    assert_eq!((g.edges[2].from.id, g.edges[2].to.id), (3, 4));
    assert!(matches!(g.edges[2].dependency, Dependency::Projected { sink: RowSink::Selectors, .. }));
    assert_eq!((g.edges[3].from.id, g.edges[3].to.id), (4, 1));
    assert!(matches!(g.edges[3].dependency, Dependency::ExecutionOrder));
}

#[test]
fn set_null_emulation_clears_optional_foreign_keys() {
    let qs = schema(ReferentialAction::SetNull, false, RelationMode::Prisma);
    let (mut g, parent) = graph_with_parent();
    let post = post_model(ReferentialAction::SetNull);
    assert!(nested_delete(&mut g, &qs, &parent, &user_posts(), id_selector(1), &post).is_ok());
    assert_eq!(g.nodes.len(), 5);
    match &g.nodes[4] {
        Node::Query(Query::Write(WriteQuery::UpdateManyRecords { model, filter: Filter::Empty, args })) => {
            assert_eq!(model, "Comment");
            assert_eq!(args.args.len(), 1);
            assert_eq!(args.args[0].0, "postId");
            assert!(matches!(args.args[0].1, WriteOperation::ScalarSet(PrismaValue::Null)));
        },
        other => panic!("unexpected node {:?}", other),
    }
    assert_eq!(g.edges.len(), 5);
    assert_eq!((g.edges[3].from.id, g.edges[3].to.id), (4, 1));
}

#[test]
fn set_null_emulation_skips_required_foreign_keys() {
    let qs = schema(ReferentialAction::SetNull, true, RelationMode::Prisma);
    let (mut g, parent) = graph_with_parent();
    let post = post_model(ReferentialAction::SetNull);
    assert!(nested_delete(&mut g, &qs, &parent, &user_posts(), id_selector(1), &post).is_ok());
    assert_eq!(g.nodes.len(), 3);
    assert_eq!(g.edges.len(), 2);
}

#[test]
fn skipped_integrity_emulates_nothing() {
    let qs = schema(ReferentialAction::Restrict, false, RelationMode::PrismaSkipIntegrity);
    let (mut g, parent) = graph_with_parent();
    let post = post_model(ReferentialAction::Restrict);
    assert!(nested_delete(&mut g, &qs, &parent, &user_posts(), id_selector(1), &post).is_ok());
    assert_eq!(g.nodes.len(), 3);
    assert_eq!(g.edges.len(), 2);
}

#[test]
fn delete_of_one_related_record() {
    let qs = schema(ReferentialAction::Restrict, false, RelationMode::ForeignKeys);
    let (mut g, parent) = graph_with_parent();
    let post = post_model(ReferentialAction::Restrict);
    let value = ParsedInputValue::Single(PrismaValue::Boolean(true));
    assert!(nested_delete(&mut g, &qs, &parent, &user_profile(), value, &post).is_ok());
    assert_eq!(g.nodes.len(), 3);
    assert!(matches!(g.nodes[1], Node::Query(Query::Read(ReadQuery::RelatedRecords { filter: Filter::Empty, .. }))));
    assert!(matches!(g.nodes[2], Node::Query(Query::Write(WriteQuery::DeleteRecord { filter: Filter::Empty, .. }))));
    match &g.edges[1].dependency {
        Dependency::Projected { sink: RowSink::ExactlyOneSelector, expectation: Some(DataExpectation::NonEmptyRows(QueryGraphBuilderError::RecordNotFound(m))), .. } => {
            assert_eq!(m, "No 'Post' record was found for a nested delete on one-to-one relation 'ProfileToUser'.");
        },
        other => panic!("unexpected dependency {:?}", other),
    }
}

#[test]
fn delete_of_false_does_nothing() {
    let qs = schema(ReferentialAction::Restrict, false, RelationMode::Prisma);
    let (mut g, parent) = graph_with_parent();
    let post = post_model(ReferentialAction::Restrict);
    let value = ParsedInputValue::Single(PrismaValue::Boolean(false));
    assert!(nested_delete(&mut g, &qs, &parent, &user_profile(), value, &post).is_ok());
    assert_eq!(g.nodes.len(), 1);
    assert_eq!(g.edges.len(), 0);
}

#[test]
fn delete_of_listed_records_takes_objects() {
    let qs = schema(ReferentialAction::Restrict, false, RelationMode::Prisma);
    let (mut g, parent) = graph_with_parent();
    let post = post_model(ReferentialAction::Restrict);
    let value = ParsedInputValue::List(vec![ParsedInputValue::Single(PrismaValue::Int(1))]);
    match nested_delete(&mut g, &qs, &parent, &user_posts(), value, &post) {
        Err(QueryGraphBuilderError::InputError(m)) => assert_eq!(m, "Expected an input object."),
        other => panic!("unexpected result {:?}", other),
    }
    assert_eq!(g.nodes.len(), 1);
}

#[test]
fn delete_many_plans_one_deletion_per_filter() {
    let qs = schema(ReferentialAction::Cascade, false, RelationMode::ForeignKeys);
    let (mut g, parent) = graph_with_parent();
    let post = post_model(ReferentialAction::Cascade);
    let value = ParsedInputValue::List(vec![id_selector(1), id_selector(2)]);
    assert!(nested_delete_many(&mut g, &qs, &parent, &user_posts(), value, &post).is_ok());
    assert_eq!(g.nodes.len(), 5);
    assert_eq!(g.edges.len(), 4);
    for (read, delete) in [(1usize, 2usize), (3, 4)] {
        assert!(matches!(g.nodes[read], Node::Query(Query::Read(ReadQuery::RelatedRecords { .. }))));
        assert!(matches!(g.nodes[delete], Node::Query(Query::Write(WriteQuery::DeleteManyRecords { filter: Filter::Empty, .. }))));
    }
    assert_eq!((g.edges[1].from.id, g.edges[1].to.id), (1, 2));
    assert_eq!((g.edges[3].from.id, g.edges[3].to.id), (3, 4));
}

#[test]
fn delete_many_with_cascade_emulates_per_filter() {
    let qs = schema(ReferentialAction::Cascade, false, RelationMode::Prisma);
    let (mut g, parent) = graph_with_parent();
    let post = post_model(ReferentialAction::Cascade);
    assert!(nested_delete_many(&mut g, &qs, &parent, &user_posts(), id_selector(7), &post).is_ok());
    // read posts, delete posts, read comments, delete comments
    assert_eq!(g.nodes.len(), 5);
    assert_eq!(g.edges.len(), 5);
}

fn delete_many_field(where_arg: Option<ParsedInputValue>) -> ParsedField {
    let mut arguments = Vec::new();
    if let Some(w) = where_arg {
        arguments.push((s("where"), w));
    }
    ParsedField { name: s("deleteManyPost"), alias: None, arguments, nested_fields: None }
}

#[test]
fn top_level_delete_many_without_emulation() {
    let qs = schema(ReferentialAction::Restrict, false, RelationMode::ForeignKeys);
    let mut g = QueryGraph::new();
    let post = post_model(ReferentialAction::Restrict);
    assert!(delete_many_records(&mut g, &qs, &post, delete_many_field(None)).is_ok());
    assert_eq!(g.nodes.len(), 1);
    assert!(matches!(g.nodes[0], Node::Query(Query::Write(WriteQuery::DeleteManyRecords { filter: Filter::Empty, .. }))));
    assert_eq!(g.edges.len(), 0);
    assert_eq!(g.result_nodes, vec![NodeRef { id: 0 }]);
    assert!(!g.needs_transaction);
}

#[test]
fn top_level_delete_many_with_emulation_reads_first() {
    let qs = schema(ReferentialAction::Restrict, false, RelationMode::Prisma);
    let mut g = QueryGraph::new();
    let post = post_model(ReferentialAction::Restrict);
    assert!(delete_many_records(&mut g, &qs, &post, delete_many_field(Some(id_selector(3)))).is_ok());
    // delete, read identifiers, empty check node, read comments
    assert_eq!(g.nodes.len(), 4);
    match &g.nodes[1] {
        Node::Query(Query::Read(ReadQuery::ManyRecords { model, filter: Filter::And(_), selection, .. })) => {
            assert_eq!(model, "Post");
            assert_eq!(selection, &vec![s("id")]);
        },
        other => panic!("unexpected node {:?}", other),
    }
    let last = g.edges.last().unwrap();
    assert_eq!((last.from.id, last.to.id), (1, 0));
    assert!(matches!(last.dependency, Dependency::Projected { sink: RowSink::Selectors, expectation: None, .. }));
    assert_eq!(g.result_nodes, vec![NodeRef { id: 0 }]);
    assert!(g.needs_transaction);
}

#[test]
fn top_level_delete_many_takes_an_object() {
    let qs = schema(ReferentialAction::Restrict, false, RelationMode::Prisma);
    let mut g = QueryGraph::new();
    let post = post_model(ReferentialAction::Restrict);
    let field = delete_many_field(Some(ParsedInputValue::Single(PrismaValue::Int(1))));
    match delete_many_records(&mut g, &qs, &post, field) {
        Err(QueryGraphBuilderError::InputError(m)) => assert_eq!(m, "Expected an input object."),
        other => panic!("unexpected result {:?}", other),
    }
    assert_eq!(g.nodes.len(), 0);
}
