use query_graph_builder::error::QueryGraphBuilderError;
use query_graph_builder::group_by::SortOrder;
use query_graph_builder::query_args::{
    extract_query_args, try_limit_to_one, NullsOrder, OrderByItem, QueryArguments, RelationLoadStrategy,
    SortAggregation, Take,
};
use query_graph_builder::schema::{
    CompoundUnique, Container, ContainerKind, DataModel, Field, ReferentialAction, Relation, RelationField,
    RelationKind, ScalarField, TypeIdentifier,
};
use query_graph_builder::values::{ParsedInputMap, ParsedInputValue, PrismaValue};

fn s(x: &str) -> String {
    x.to_string()
}

fn names(v: &[&str]) -> Vec<String> {
    v.iter().map(|x| x.to_string()).collect()
}

fn scalar(name: &str, t: TypeIdentifier) -> Field {
    Field::Scalar(ScalarField { name: s(name), type_identifier: t, is_list: false, is_required: true, is_unique: false })
}

fn relation() -> Relation {
    Relation {
        name: s("PostToUser"),
        model_a: s("Post"),
        model_b: s("User"),
        kind: RelationKind::OneToMany,
        on_delete: ReferentialAction::Restrict,
        on_update: ReferentialAction::Cascade,
    }
}

fn user_posts() -> RelationField {
    RelationField {
        name: s("posts"),
        model: s("User"),
        related_model: s("Post"),
        relation: relation(),
        is_required: false,
        related_field_required: true,
        inlined_in_parent: false,
        linking_fields: names(&["id"]),
        related_linking_fields: names(&["authorId"]),
        is_list: true,
        model_identifier: names(&["id"]),
        related_identifier: names(&["id"]),
        related_field_name: s("author"),
    }
}

fn post_author() -> RelationField {
    RelationField {
        name: s("author"),
        model: s("Post"),
        related_model: s("User"),
        relation: relation(),
        is_required: true,
        related_field_required: false,
        inlined_in_parent: true,
        linking_fields: names(&["authorId"]),
        related_linking_fields: names(&["id"]),
        is_list: false,
        model_identifier: names(&["id"]),
        related_identifier: names(&["id"]),
        related_field_name: s("posts"),
    }
}

fn user_model() -> Container {
    Container {
        name: s("User"),
        kind: ContainerKind::Model,
        fields: vec![
            scalar("id", TypeIdentifier::Int),
            scalar("name", TypeIdentifier::String),
            scalar("age", TypeIdentifier::Int),
            Field::Relation(user_posts()),
        ],
        primary_identifier: names(&["id"]),
        compound_id: None,
        unique_indexes: vec![CompoundUnique { name: s("name_age"), fields: names(&["name", "age"]) }],
    }
}

fn post_model() -> Container {
    Container {
        name: s("Post"),
        kind: ContainerKind::Model,
        fields: vec![
            scalar("id", TypeIdentifier::Int),
            scalar("title", TypeIdentifier::String),
            scalar("authorId", TypeIdentifier::Int),
            Field::Relation(post_author()),
        ],
        primary_identifier: names(&["id"]),
        compound_id: None,
        unique_indexes: Vec::new(),
    }
}

fn data_model() -> DataModel {
    DataModel { containers: vec![user_model(), post_model()] }
}

fn obj(entries: Vec<(&str, ParsedInputValue)>) -> ParsedInputValue {
    ParsedInputValue::Object(ParsedInputMap { tag: None, entries: entries.into_iter().map(|(k, v)| (s(k), v)).collect() })
}

fn enum_value(x: &str) -> ParsedInputValue {
    ParsedInputValue::Single(PrismaValue::Enum(s(x)))
}

fn int_value(n: i64) -> ParsedInputValue {
    ParsedInputValue::Single(PrismaValue::Int(n))
}

fn args_of(entries: Vec<(&str, ParsedInputValue)>) -> Vec<(String, ParsedInputValue)> {
    entries.into_iter().map(|(k, v)| (s(k), v)).collect()
}

fn read_post_args(entries: Vec<(&str, ParsedInputValue)>) -> Result<QueryArguments, QueryGraphBuilderError> {
    extract_query_args(args_of(entries), &post_model(), &data_model())
}

fn read_user_args(entries: Vec<(&str, ParsedInputValue)>) -> Result<QueryArguments, QueryGraphBuilderError> {
    extract_query_args(args_of(entries), &user_model(), &data_model())
}

#[test]
fn no_arguments_read_everything_unordered() {
    let a = read_user_args(Vec::new()).unwrap();
    assert_eq!(a.model, "User");
    assert_eq!(a.take, Take::All);
    assert!(a.skip.is_none() && a.cursor.is_none() && a.filter.is_none() && a.distinct.is_none());
    assert!(a.order_by.is_empty());
}

#[test]
fn order_by_a_scalar_field() {
    let a = read_user_args(vec![("orderBy", obj(vec![("name", enum_value("desc"))]))]).unwrap();
    assert_eq!(a.order_by.len(), 1);
    match &a.order_by[0] {
        OrderByItem::Scalar { field, path, sort_order, nulls_order } => {
            assert_eq!(field, "name");
            assert!(path.is_empty());
            assert_eq!(*sort_order, SortOrder::Descending);
            assert_eq!(*nulls_order, None);
        },
        other => panic!("unexpected ordering {:?}", other),
    }
}

#[test]
fn order_by_list_keeps_the_order_and_skips_empty_objects() {
    let value = ParsedInputValue::List(vec![
        obj(vec![("age", obj(vec![("sort", enum_value("asc")), ("nulls", enum_value("last"))]))]),
        obj(Vec::new()),
        obj(vec![("name", enum_value("desc"))]),
    ]);
    let a = read_user_args(vec![("orderBy", value)]).unwrap();
    assert_eq!(a.order_by.len(), 2);
    match &a.order_by[0] {
        OrderByItem::Scalar { field, sort_order, nulls_order, .. } => {
            assert_eq!(field, "age");
            assert_eq!(*sort_order, SortOrder::Ascending);
            assert_eq!(*nulls_order, Some(NullsOrder::Last));
        },
        other => panic!("unexpected ordering {:?}", other),
    }
    assert!(matches!(&a.order_by[1], OrderByItem::Scalar { field, .. } if field == "name"));
}

#[test]
fn order_by_a_field_of_the_related_record() {
    let a = read_post_args(vec![("orderBy", obj(vec![("author", obj(vec![("name", enum_value("asc"))]))]))]).unwrap();
    match &a.order_by[0] {
        OrderByItem::Scalar { field, path, .. } => {
            assert_eq!(field, "name");
            assert_eq!(path, &names(&["author"]));
        },
        other => panic!("unexpected ordering {:?}", other),
    }
}

#[test]
fn order_by_the_count_of_related_records() {
    let a = read_user_args(vec![("orderBy", obj(vec![("posts", obj(vec![("_count", enum_value("desc"))]))]))]).unwrap();
    match &a.order_by[0] {
        OrderByItem::ToManyAggregation { path, sort_order, aggregation } => {
            assert_eq!(path, &names(&["posts"]));
            assert_eq!(*sort_order, SortOrder::Descending);
            assert_eq!(*aggregation, SortAggregation::Count);
        },
        other => panic!("unexpected ordering {:?}", other),
    }
}

#[test]
fn order_by_an_aggregation_of_a_scalar_field() {
    let a = read_user_args(vec![("orderBy", obj(vec![("_avg", obj(vec![("age", enum_value("asc"))]))]))]).unwrap();
    match &a.order_by[0] {
        OrderByItem::ScalarAggregation { field, sort_order, aggregation } => {
            assert_eq!(field, "age");
            assert_eq!(*sort_order, SortOrder::Ascending);
            assert_eq!(*aggregation, SortAggregation::Avg);
        },
        other => panic!("unexpected ordering {:?}", other),
    }
}

#[test]
fn order_by_relevance() {
    let relevance = obj(vec![
        ("fields", ParsedInputValue::List(vec![enum_value("name")])),
        ("search", ParsedInputValue::Single(PrismaValue::String(s("cat")))),
        ("sort", enum_value("asc")),
    ]);
    let a = read_user_args(vec![("orderBy", obj(vec![("_relevance", relevance)]))]).unwrap();
    match &a.order_by[0] {
        OrderByItem::Relevance { fields, search, sort_order, path } => {
            assert_eq!(fields, &names(&["name"]));
            assert_eq!(search, "cat");
            assert_eq!(*sort_order, SortOrder::Ascending);
            assert!(path.is_empty());
        },
        other => panic!("unexpected ordering {:?}", other),
    }
}

#[test]
fn relevance_on_a_relation_field_is_refused() {
    let relevance = obj(vec![
        ("fields", enum_value("posts")),
        ("search", ParsedInputValue::Single(PrismaValue::String(s("cat")))),
        ("sort", enum_value("asc")),
    ]);
    match read_user_args(vec![("orderBy", obj(vec![("_relevance", relevance)]))]) {
        Err(QueryGraphBuilderError::InputError(m)) => {
            assert_eq!(m, "Invalid order-by reference input: Field posts is not a valid scalar field.")
        },
        other => panic!("unexpected result {:?}", other),
    }
}

#[test]
fn relevance_fields_of_another_shape_are_refused() {
    let relevance = obj(vec![
        ("fields", int_value(3)),
        ("search", ParsedInputValue::Single(PrismaValue::String(s("cat")))),
        ("sort", enum_value("asc")),
    ]);
    match read_user_args(vec![("orderBy", obj(vec![("_relevance", relevance)]))]) {
        Err(QueryGraphBuilderError::InputError(m)) => {
            assert!(m.starts_with("Expected field `fields` to be of type String, Enum or List<Enum>, found: "), "{}", m);
            assert!(m.contains('3'), "{}", m);
        },
        other => panic!("unexpected result {:?}", other),
    }
}

#[test]
fn a_negative_skip_is_refused() {
    match read_user_args(vec![("skip", int_value(-2))]) {
        Err(QueryGraphBuilderError::AssertionError(m)) => {
            assert_eq!(m, "Invalid value for skip argument: Value can only be positive, found: -2")
        },
        other => panic!("unexpected result {:?}", other),
    }
}

#[test]
fn take_without_an_ordering_orders_by_the_primary_identifier() {
    let a = read_user_args(vec![("take", int_value(5))]).unwrap();
    assert_eq!(a.take, Take::Number(5));
    assert_eq!(a.order_by.len(), 1);
    match &a.order_by[0] {
        OrderByItem::Scalar { field, path, sort_order, nulls_order } => {
            assert_eq!(field, "id");
            assert!(path.is_empty());
            assert_eq!(*sort_order, SortOrder::Ascending);
            assert_eq!(*nulls_order, None);
        },
        other => panic!("unexpected ordering {:?}", other),
    }
}

#[test]
fn skip_of_zero_adds_no_ordering() {
    let a = read_user_args(vec![("skip", int_value(0))]).unwrap();
    assert_eq!(a.skip, Some(0));
    assert!(a.order_by.is_empty());
}

#[test]
fn a_given_ordering_is_kept_with_take() {
    let a = read_user_args(vec![("take", int_value(2)), ("orderBy", obj(vec![("age", enum_value("desc"))]))]).unwrap();
    assert_eq!(a.order_by.len(), 1);
    assert!(matches!(&a.order_by[0], OrderByItem::Scalar { field, .. } if field == "age"));
}

#[test]
fn cursor_on_a_scalar_field() {
    let a = read_user_args(vec![("cursor", obj(vec![("id", int_value(3))]))]).unwrap();
    let c = a.cursor.unwrap();
    assert_eq!(c, vec![(s("id"), PrismaValue::Int(3))]);
    assert_eq!(a.order_by.len(), 1);
}

#[test]
fn cursor_on_a_compound_unique() {
    let value = obj(vec![(
        "name_age",
        obj(vec![("age", int_value(30)), ("name", ParsedInputValue::Single(PrismaValue::String(s("Ada"))))]),
    )]);
    let a = read_user_args(vec![("cursor", value)]).unwrap();
    assert_eq!(
        a.cursor.unwrap(),
        vec![(s("name"), PrismaValue::String(s("Ada"))), (s("age"), PrismaValue::Int(30))]
    );
}

#[test]
fn cursor_on_an_unknown_field_is_refused() {
    match read_user_args(vec![("cursor", obj(vec![("zzz", int_value(1))]))]) {
        Err(QueryGraphBuilderError::AssertionError(m)) => {
            assert_eq!(m, "Unable to resolve field zzz to a field or a set of fields on model User")
        },
        other => panic!("unexpected result {:?}", other),
    }
}

#[test]
fn where_null_sets_no_filter_and_an_object_sets_one() {
    let a = read_user_args(vec![("where", ParsedInputValue::Single(PrismaValue::Null))]).unwrap();
    assert!(a.filter.is_none());
    let b = read_user_args(vec![("where", obj(vec![("age", int_value(3))]))]).unwrap();
    assert!(b.filter.is_some());
    match read_user_args(vec![("where", int_value(3))]) {
        Err(QueryGraphBuilderError::InputError(m)) => assert_eq!(m, "Expected an input object."),
        other => panic!("unexpected result {:?}", other),
    }
}

#[test]
fn distinct_and_relation_load_strategy() {
    let a = read_user_args(vec![
        ("distinct", ParsedInputValue::List(vec![enum_value("name"), enum_value("age")])),
        ("relationLoadStrategy", enum_value("join")),
    ])
    .unwrap();
    assert_eq!(a.distinct, Some(names(&["name", "age"])));
    assert_eq!(a.relation_load_strategy, Some(RelationLoadStrategy::Join));
}

#[test]
fn a_later_argument_replaces_an_earlier_one() {
    let a = read_user_args(vec![("take", int_value(2)), ("take", int_value(7)), ("other", int_value(1))]).unwrap();
    assert_eq!(a.take, Take::Number(7));
}

#[test]
fn find_first_takes_one_record() {
    let a = read_user_args(Vec::new()).unwrap();
    assert_eq!(try_limit_to_one(a).unwrap().take, Take::One);
    let b = read_user_args(vec![("take", int_value(-1))]).unwrap();
    assert_eq!(try_limit_to_one(b).unwrap().take, Take::Number(-1));
    let c = read_user_args(vec![("take", int_value(4))]).unwrap();
    match try_limit_to_one(c) {
        Err(QueryGraphBuilderError::InputError(m)) => {
            assert_eq!(m, "The 'findFirst' operation cannot be used with a 'take' argument that isn't 1 or -1")
        },
        other => panic!("unexpected result {:?}", other),
    }
}

#[test]
fn distinct_element_that_is_no_field_reference_is_an_error() {
    match read_user_args(vec![("distinct", ParsedInputValue::List(vec![enum_value("name"), int_value(1)]))]) {
        Err(QueryGraphBuilderError::InputError(m)) => {
            assert_eq!(m, "Expected a reference to a scalar field, found: Single(Int(1))")
        },
        other => panic!("unexpected result {:?}", other),
    }
}
