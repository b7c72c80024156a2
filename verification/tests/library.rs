use query_graph_builder::document::{collect_selected_scalars, collect_selection_order, merge_cursor_fields, FieldPair, ParsedField};
use query_graph_builder::equality::{filter_eq, unique_filters};
use query_graph_builder::error::{
    DataOperation, DependentOperation, IncompleteConnectInput, MissingRecord, MissingRelatedRecord,
    QueryGraphBuilderError, RecordsNotConnected, RelationViolation,
};
use query_graph_builder::filter::{
    ConditionListValue, ConditionValue, Filter, JsonFilterPath, JsonOp, QueryMode, ScalarCondition, ScalarFilter,
};
use query_graph_builder::filter_grouping::FilterGrouping;
use query_graph_builder::filter_op::FilterOp;
use query_graph_builder::flatten::flatten_filter;
use query_graph_builder::relation_load_strategy::{db_version_supports_joins_strategy, DatabaseVersion};
use query_graph_builder::scalar::ScalarFilterParser;
use query_graph_builder::scalar_parser::parse_json_path;
use query_graph_builder::schema::{
    Container, ContainerKind, DataModel, Field, ReferentialAction, Relation, RelationKind, ScalarField,
    TypeIdentifier,
};
use query_graph_builder::values::{ObjectTag, ParsedInputMap, ParsedInputValue, PrismaValue};
use query_graph_builder::write_utils::merge_fields;
use query_graph_builder::group_by::{verify_selections, AggregationSelection};
use query_graph_builder::group_by::{verify_orderings, OrderBy, SortOrder};
use query_graph_builder::filter::AggregationKind;
use query_graph_builder::group_by::{extract_grouping, resolve_query, verify_having};
use query_graph_builder::limit::validate_limit;
use query_graph_builder::builder::QuerySchema;
use query_graph_builder::schema::RelationMode;
use query_graph_builder::upsert::can_use_connector_native_upsert;

fn s(x: &str) -> String {
    x.to_string()
}

fn names(v: &[&str]) -> Vec<String> {
    v.iter().map(|x| x.to_string()).collect()
}

fn eq_filter(field: &str, n: i64) -> Filter {
    Filter::Scalar(ScalarFilter {
        field: s(field),
        condition: ScalarCondition::Equals(ConditionValue::Value(PrismaValue::Int(n))),
        mode: QueryMode::Default,
    })
}

fn age_field() -> ScalarField {
    ScalarField { name: s("age"), type_identifier: TypeIdentifier::Int, is_list: false, is_required: true, is_unique: false }
}

fn user_model() -> Container {
    Container {
        name: s("User"),
        kind: ContainerKind::Model,
        fields: vec![Field::Scalar(age_field())],
        primary_identifier: names(&["id"]),
        compound_id: None,
        unique_indexes: Vec::new(),
    }
}

fn map(entries: Vec<(&str, ParsedInputValue)>) -> ParsedInputMap {
    ParsedInputMap { tag: None, entries: entries.into_iter().map(|(k, v)| (s(k), v)).collect() }
}

fn int_value(n: i64) -> ParsedInputValue {
    ParsedInputValue::Single(PrismaValue::Int(n))
}

fn parse_age(m: ParsedInputMap, reverse: bool) -> Result<Vec<Filter>, QueryGraphBuilderError> {
    let field = age_field();
    let model = user_model();
    let dm = DataModel { containers: vec![user_model()] };
    ScalarFilterParser::new(&field, &model, &dm, reverse).parse(m)
}

fn single_condition(r: Result<Vec<Filter>, QueryGraphBuilderError>) -> ScalarCondition {
    let mut fs = r.expect("the filter parses");
    assert_eq!(fs.len(), 1);
    match fs.pop().unwrap() {
        Filter::Scalar(sf) => {
            assert_eq!(sf.field, "age");
            sf.condition
        },
        other => panic!("unexpected filter {:?}", other),
    }
}

#[test]
fn scalar_equals_parses_to_equals() {
    let c = single_condition(parse_age(map(vec![("equals", int_value(5))]), false));
    assert_eq!(c, ScalarCondition::Equals(ConditionValue::Value(PrismaValue::Int(5))));
}

#[test]
fn scalar_comparisons_flip_under_not() {
    let c = single_condition(parse_age(map(vec![("not", ParsedInputValue::Object(map(vec![("lt", int_value(3))])))]), false));
    assert_eq!(c, ScalarCondition::GreaterThanOrEquals(ConditionValue::Value(PrismaValue::Int(3))));
    let c = single_condition(parse_age(map(vec![("gt", int_value(3))]), true));
    assert_eq!(c, ScalarCondition::LessThanOrEquals(ConditionValue::Value(PrismaValue::Int(3))));
}

#[test]
fn scalar_not_with_a_value_is_not_equals() {
    let c = single_condition(parse_age(map(vec![("not", int_value(4))]), false));
    assert_eq!(c, ScalarCondition::NotEquals(ConditionValue::Value(PrismaValue::Int(4))));
}

#[test]
fn scalar_not_inside_not_is_equals() {
    let c = single_condition(parse_age(map(vec![("not", int_value(4))]), true));
    assert_eq!(c, ScalarCondition::Equals(ConditionValue::Value(PrismaValue::Int(4))));
    let inner = ParsedInputValue::Object(map(vec![("not", int_value(7))]));
    let c = single_condition(parse_age(map(vec![("not", inner)]), false));
    assert_eq!(c, ScalarCondition::Equals(ConditionValue::Value(PrismaValue::Int(7))));
}

#[test]
fn scalar_in_null_and_not_in_list() {
    let c = single_condition(parse_age(map(vec![("in", ParsedInputValue::Single(PrismaValue::Null))]), false));
    assert_eq!(c, ScalarCondition::Equals(ConditionValue::Value(PrismaValue::Null)));
    let list = ParsedInputValue::Single(PrismaValue::List(vec![PrismaValue::Int(1), PrismaValue::Int(2)]));
    let c = single_condition(parse_age(map(vec![("notIn", list)]), false));
    assert_eq!(c, ScalarCondition::NotIn(ConditionListValue::List(vec![PrismaValue::Int(1), PrismaValue::Int(2)])));
}

#[test]
fn scalar_is_set_is_reversed_under_not() {
    let inner = ParsedInputValue::Object(map(vec![("isSet", ParsedInputValue::Single(PrismaValue::Boolean(true)))]));
    let c = single_condition(parse_age(map(vec![("not", inner)]), false));
    assert_eq!(c, ScalarCondition::IsSet(false));
}

#[test]
fn scalar_unknown_operation_is_an_input_error() {
    match parse_age(map(vec![("foo", int_value(1))]), false) {
        Err(QueryGraphBuilderError::InputError(m)) => assert_eq!(m, "foo is not a valid scalar filter operation"),
        other => panic!("unexpected result {:?}", other),
    }
}

#[test]
fn scalar_path_without_filter_is_an_input_error() {
    let path = ParsedInputValue::Single(PrismaValue::String(s("a")));
    match parse_age(map(vec![("path", path)]), false) {
        Err(QueryGraphBuilderError::InputError(m)) => assert_eq!(m, "A JSON path cannot be set without a scalar filter."),
        other => panic!("unexpected result {:?}", other),
    }
}

#[test]
fn json_path_of_a_string() {
    match parse_json_path(ParsedInputValue::Single(PrismaValue::String(s("$.a")))) {
        Ok(JsonFilterPath::String(p)) => assert_eq!(p, "$.a"),
        other => panic!("unexpected result {:?}", other),
    }
}

#[test]
fn grouping_keys_ignore_case() {
    assert_eq!(FilterGrouping::from_str("AND").ok(), Some(FilterGrouping::And));
    assert_eq!(FilterGrouping::from_str("Or").ok(), Some(FilterGrouping::Or));
    assert_eq!(FilterGrouping::from_str("not").ok(), Some(FilterGrouping::Not));
    match FilterGrouping::from_str("xor") {
        Err(QueryGraphBuilderError::InputError(m)) => assert_eq!(m, "xor is not a valid grouping filter operation"),
        other => panic!("unexpected result {:?}", other),
    }
}

#[test]
fn legacy_suffixes_pick_the_longest_match() {
    assert_eq!(FilterOp::find_op("name_not_in"), Some(FilterOp::NotIn));
    assert_eq!(FilterOp::find_op("name_in"), Some(FilterOp::In));
    assert_eq!(FilterOp::find_op("age_lte"), Some(FilterOp::Lte));
    assert_eq!(FilterOp::find_op("age_lt"), Some(FilterOp::Lt));
    assert_eq!(FilterOp::find_op("AND"), Some(FilterOp::NestedAnd));
    assert_eq!(FilterOp::find_op("name"), Some(FilterOp::Field));
    assert_eq!(FilterOp::NotStartsWith.suffix(), "_not_starts_with");
}

#[test]
fn join_strategy_follows_the_mysql_version() {
    assert_eq!(db_version_supports_joins_strategy(None).ok(), Some(true));
    assert_eq!(db_version_supports_joins_strategy(Some(s("8.0.14"))).ok(), Some(true));
    assert_eq!(db_version_supports_joins_strategy(Some(s("8.0.13"))).ok(), Some(false));
    assert_eq!(db_version_supports_joins_strategy(Some(s("8.1.0-log"))).ok(), Some(true));
    assert_eq!(db_version_supports_joins_strategy(Some(s("5.7.42"))).ok(), Some(false));
    assert_eq!(db_version_supports_joins_strategy(Some(s("10.11.2-MariaDB-1:10.11.2"))).ok(), Some(false));
}

#[test]
fn unparsable_versions_name_the_reason() {
    let reason = |v: &str| db_version_supports_joins_strategy(Some(s(v))).err().map(|e| (e.version, e.reason));
    assert_eq!(reason("8"), Some((s("8"), s("Missing minor version"))));
    assert_eq!(reason("8.0"), Some((s("8.0"), s("Missing patch version"))));
    assert_eq!(reason("x.0.1"), Some((s("x.0.1"), s("Major version is not a number"))));
    assert_eq!(reason("8.y.1"), Some((s("8.y.1"), s("Minor version is not a number"))));
    assert_eq!(reason("8.0.z"), Some((s("8.0.z"), s("Patch version is not a number"))));
    assert!(matches!(DatabaseVersion::try_from(Some("+8.0.14")), Ok(DatabaseVersion::Mysql(8, 0, 14))));
}

#[test]
fn flatten_merges_nested_groups_of_the_same_kind() {
    let f = Filter::And(vec![Filter::And(vec![eq_filter("a", 1), eq_filter("b", 2)]), eq_filter("c", 3)]);
    let flat = flatten_filter(f);
    let expected = Filter::And(vec![eq_filter("a", 1), eq_filter("b", 2), eq_filter("c", 3)]);
    assert!(filter_eq(&flat, &expected));
}

#[test]
fn unique_filters_keep_first_occurrences() {
    let v = vec![eq_filter("a", 1), eq_filter("b", 2), eq_filter("a", 1), eq_filter("a", 3)];
    let u = unique_filters(v);
    assert_eq!(u.len(), 3);
    assert!(filter_eq(&u[0], &eq_filter("a", 1)));
    assert!(filter_eq(&u[1], &eq_filter("b", 2)));
    assert!(filter_eq(&u[2], &eq_filter("a", 3)));
}

#[test]
fn merged_fields_appear_once_in_order() {
    let merged = merge_fields(&names(&["id", "name", "id"]), &names(&["email", "name"]));
    assert_eq!(merged, names(&["id", "name", "email"]));
}

#[test]
fn selection_order_prefers_aliases() {
    let field = |name: &str, alias: Option<&str>| FieldPair {
        parsed_field: ParsedField { name: s(name), alias: alias.map(s), arguments: Vec::new(), nested_fields: None },
    };
    let order = collect_selection_order(&vec![field("id", None), field("name", Some("n"))]);
    assert_eq!(order, names(&["id", "n"]));
}

#[test]
fn error_messages_name_what_is_missing() {
    let relation = Relation {
        name: s("PostToUser"),
        model_a: s("Post"),
        model_b: s("User"),
        kind: RelationKind::OneToMany,
        on_delete: ReferentialAction::Cascade,
        on_update: ReferentialAction::Cascade,
    };
    let missing = MissingRelatedRecord::new(
        "Post",
        &relation,
        DataOperation::NestedUpdate,
        Some(DependentOperation::inline_relation("User")),
    );
    assert_eq!(
        missing.to_message(),
        "No 'Post' record (needed to inline the relation on 'User' record(s)) was found for a nested update on one-to-many relation 'PostToUser'."
    );
    assert_eq!(missing.id(), "MISSING_RELATED_RECORD");
    assert_eq!(MissingRecord::new(DataOperation::Delete).id(), "MISSING_RECORD");
    match IncompleteConnectInput::new(3).to_runtime_error(1) {
        QueryGraphBuilderError::RecordNotFound(m) => assert_eq!(m, "Expected 3 records to be connected, found only 1."),
        other => panic!("unexpected error {:?}", other),
    }
    let violation = RelationViolation::from_relation(&relation);
    assert_eq!(violation.id(), "RELATION_VIOLATION");
    match RecordsNotConnected::new(&relation, "User", "Post").to_runtime_error() {
        QueryGraphBuilderError::RecordsNotConnected { relation_name, parent_name, child_name } => {
            assert_eq!((relation_name.as_str(), parent_name.as_str(), child_name.as_str()), ("PostToUser", "User", "Post"));
        },
        other => panic!("unexpected error {:?}", other),
    }
}

fn plain(field: &str) -> AggregationSelection {
    AggregationSelection::Field(s(field))
}

#[test]
fn group_by_selections_must_be_grouped() {
    let selectors = vec![plain("a"), AggregationSelection::Sum(names(&["x"])), plain("b"), plain("c")];
    assert!(verify_selections(&selectors, &names(&["a", "b", "c"])).is_ok());
    match verify_selections(&selectors, &names(&["b"])) {
        Err(QueryGraphBuilderError::InputError(m)) => assert_eq!(
            m,
            "Every selected scalar field that is not part of an aggregation must be included in the by-arguments of the query. Missing fields: a, c"
        ),
        other => panic!("unexpected result {:?}", other),
    }
}

#[test]
fn group_by_orderings_must_be_grouped() {
    let orderings = vec![OrderBy { field: s("a"), sort_order: SortOrder::Ascending }, OrderBy { field: s("d"), sort_order: SortOrder::Descending }];
    assert!(verify_orderings(&orderings, &names(&["a", "d"])).is_ok());
    match verify_orderings(&orderings, &names(&["a"])) {
        Err(QueryGraphBuilderError::InputError(m)) => assert_eq!(
            m,
            "Every field used for orderBy must be included in the by-arguments of the query. Missing fields: d"
        ),
        other => panic!("unexpected result {:?}", other),
    }
}

#[test]
fn group_by_having_fields_must_be_selected() {
    let having = Filter::And(vec![
        eq_filter("a", 1),
        Filter::Aggregation(AggregationKind::Count, Box::new(eq_filter("z", 2))),
        Filter::Not(vec![eq_filter("b", 3)]),
    ]);
    assert!(verify_having(None, &vec![]).is_ok());
    assert!(verify_having(Some(&having), &vec![plain("a"), plain("b")]).is_ok());
    match verify_having(Some(&having), &vec![plain("a")]) {
        Err(QueryGraphBuilderError::InputError(m)) => assert_eq!(
            m,
            "Every field used in `having` filters must either be an aggregation filter or be included in the selection of the query. Missing fields: b"
        ),
        other => panic!("unexpected result {:?}", other),
    }
}

#[test]
fn write_limits_are_validated() {
    assert_eq!(validate_limit(None).ok(), Some(None));
    assert_eq!(validate_limit(Some(int_value(10))).ok(), Some(Some(10usize)));
    assert_eq!(validate_limit(Some(ParsedInputValue::Single(PrismaValue::Null))).ok(), Some(None));
    match validate_limit(Some(int_value(-3))) {
        Err(QueryGraphBuilderError::InputError(m)) => assert_eq!(m, "Provided limit (-3) must be a positive integer."),
        other => panic!("unexpected result {:?}", other),
    }
}

fn selection(name: &str, nested: Option<Vec<&str>>) -> FieldPair {
    FieldPair {
        parsed_field: ParsedField {
            name: s(name),
            alias: None,
            arguments: Vec::new(),
            nested_fields: nested.map(|v| query_graph_builder::document::ParsedObject {
                fields: v.into_iter().map(|n| selection(n, None)).collect(),
            }),
        },
    }
}

fn user_with_name() -> Container {
    Container {
        name: s("User"),
        kind: ContainerKind::Model,
        fields: vec![
            Field::Scalar(age_field()),
            Field::Scalar(ScalarField { name: s("name"), type_identifier: TypeIdentifier::String, is_list: false, is_required: true, is_unique: false }),
        ],
        primary_identifier: names(&["id"]),
        compound_id: None,
        unique_indexes: Vec::new(),
    }
}

#[test]
fn count_selection_counts_all_records_where_asked() {
    let model = user_with_name();
    match resolve_query(selection("_count", Some(vec!["_all", "age", "nope"])), &model, false).unwrap() {
        AggregationSelection::Count { all, fields } => {
            assert!(all);
            assert_eq!(fields, names(&["age"]));
        },
        other => panic!("unexpected selection {:?}", other),
    }
    match resolve_query(selection("_count", Some(vec!["name"])), &model, false).unwrap() {
        AggregationSelection::Count { all, fields } => {
            assert!(!all);
            assert_eq!(fields, names(&["name"]));
        },
        other => panic!("unexpected selection {:?}", other),
    }
}

#[test]
fn deprecated_aggregation_names_only_where_allowed() {
    let model = user_with_name();
    assert!(matches!(
        resolve_query(selection("avg", Some(vec!["age"])), &model, true).unwrap(),
        AggregationSelection::Average(v) if v == names(&["age"])
    ));
    assert!(matches!(
        resolve_query(selection("_max", Some(vec!["age", "name"])), &model, false).unwrap(),
        AggregationSelection::Max(v) if v == names(&["age", "name"])
    ));
    assert!(matches!(
        resolve_query(selection("name", None), &model, false).unwrap(),
        AggregationSelection::Field(f) if f == "name"
    ));
}

#[test]
fn grouping_by_field_references() {
    let model = user_with_name();
    let by = ParsedInputValue::List(vec![
        ParsedInputValue::Single(PrismaValue::Enum(s("name"))),
        ParsedInputValue::Single(PrismaValue::Enum(s("age"))),
    ]);
    assert_eq!(extract_grouping(by, &model).unwrap(), names(&["name", "age"]));
    let one = ParsedInputValue::Single(PrismaValue::Enum(s("age")));
    assert_eq!(extract_grouping(one, &model).unwrap(), names(&["age"]));
    match extract_grouping(ParsedInputValue::List(Vec::new()), &model) {
        Err(QueryGraphBuilderError::InputError(m)) => {
            assert_eq!(m, "At least one selection is required for the `by` argument.")
        },
        other => panic!("unexpected result {:?}", other),
    }
    match extract_grouping(int_value(3), &model) {
        Err(QueryGraphBuilderError::InputError(m)) => assert!(m.starts_with("Expected parsing to guarantee"), "{}", m),
        other => panic!("unexpected result {:?}", other),
    }
}

#[test]
fn selected_scalars_start_with_the_identifier() {
    let model = user_with_name();
    let pairs = vec![selection("name", None), selection("posts", None), selection("age", None), selection("name", None)];
    assert_eq!(collect_selected_scalars(&pairs, &model), names(&["id", "name", "age"]));
}

#[test]
fn cursor_fields_are_selected_once() {
    let selected = names(&["id", "name"]);
    let cursor = Some(vec![(s("name"), PrismaValue::String(s("Ada"))), (s("age"), PrismaValue::Int(3))]);
    assert_eq!(merge_cursor_fields(selected, &cursor), names(&["id", "name", "age"]));
    assert_eq!(merge_cursor_fields(names(&["id"]), &None), names(&["id"]));
}

fn unique_email_model() -> Container {
    let email = ScalarField {
        name: s("email"),
        type_identifier: TypeIdentifier::String,
        is_list: false,
        is_required: true,
        is_unique: true,
    };
    Container {
        name: s("User"),
        kind: ContainerKind::Model,
        fields: vec![Field::Scalar(email), Field::Scalar(age_field())],
        primary_identifier: names(&["id"]),
        compound_id: None,
        unique_indexes: Vec::new(),
    }
}

fn upsert_schema(can_native_upsert: bool) -> QuerySchema {
    QuerySchema {
        data_model: DataModel { containers: vec![unique_email_model()] },
        can_native_upsert,
        relation_mode: RelationMode::ForeignKeys,
        lateral_join: false,
        relation_joins: false,
        delete_returning: false,
    }
}

fn text_value(t: &str) -> ParsedInputValue {
    ParsedInputValue::Single(PrismaValue::String(s(t)))
}

#[test]
fn native_upsert_with_an_empty_update() {
    let model = unique_email_model();
    let where_field = map(vec![("email", text_value("a@b.c"))]);
    let create = map(vec![("email", text_value("a@b.c")), ("age", int_value(3))]);
    let update = map(vec![]);
    assert!(can_use_connector_native_upsert(&model, &where_field, &create, &update, &upsert_schema(true)));
    assert!(!can_use_connector_native_upsert(&model, &where_field, &create, &update, &upsert_schema(false)));
}

#[test]
fn native_upsert_needs_the_where_values_in_the_create() {
    let model = unique_email_model();
    let where_field = map(vec![("email", text_value("a@b.c"))]);
    let create = map(vec![("email", text_value("x@y.z"))]);
    let update = map(vec![("age", int_value(4))]);
    assert!(!can_use_connector_native_upsert(&model, &where_field, &create, &update, &upsert_schema(true)));
    let where_age = map(vec![("age", int_value(4))]);
    let create = map(vec![("age", int_value(4))]);
    assert!(!can_use_connector_native_upsert(&model, &where_age, &create, &update, &upsert_schema(true)));
}

#[test]
fn each_operation_is_found_by_its_own_suffix() {
    let ops = [
        FilterOp::In,
        FilterOp::NotIn,
        FilterOp::Not,
        FilterOp::Lt,
        FilterOp::Lte,
        FilterOp::Gt,
        FilterOp::Gte,
        FilterOp::Contains,
        FilterOp::NotContains,
        FilterOp::StartsWith,
        FilterOp::NotStartsWith,
        FilterOp::EndsWith,
        FilterOp::NotEndsWith,
        FilterOp::SomeRelated,
        FilterOp::NoneRelated,
        FilterOp::Every,
        FilterOp::NestedAnd,
        FilterOp::NestedOr,
        FilterOp::NestedNot,
        FilterOp::Field,
    ];
    for op in ops {
        assert_eq!(FilterOp::find_op(op.suffix()), Some(op));
    }
}

#[test]
fn flattening_keeps_atoms_in_order_and_kinds_apart() {
    let nested = Filter::And(vec![
        Filter::And(vec![eq_filter("a", 1), Filter::Or(vec![Filter::Or(vec![eq_filter("b", 2)]), eq_filter("c", 3)])]),
        eq_filter("d", 4),
    ]);
    let expected = Filter::And(vec![
        eq_filter("a", 1),
        Filter::Or(vec![eq_filter("b", 2), eq_filter("c", 3)]),
        eq_filter("d", 4),
    ]);
    assert_eq!(flatten_filter(nested), expected);
    assert_eq!(flatten_filter(eq_filter("e", 5)), eq_filter("e", 5));
}

fn meta_field() -> ScalarField {
    ScalarField { name: s("meta"), type_identifier: TypeIdentifier::Json, is_list: false, is_required: false, is_unique: false }
}

fn meta_model() -> Container {
    Container {
        name: s("User"),
        kind: ContainerKind::Model,
        fields: vec![Field::Scalar(meta_field())],
        primary_identifier: names(&["id"]),
        compound_id: None,
        unique_indexes: Vec::new(),
    }
}

fn parse_meta(m: ParsedInputMap, reverse: bool) -> Vec<Filter> {
    let field = meta_field();
    let model = meta_model();
    let dm = DataModel { containers: vec![meta_model()] };
    ScalarFilterParser::new(&field, &model, &dm, reverse).parse(m).expect("the filter parses")
}

fn json_condition(f: &Filter) -> &ScalarCondition {
    match f {
        Filter::Scalar(sf) => {
            assert_eq!(sf.field, "meta");
            &sf.condition
        },
        other => panic!("unexpected filter {:?}", other),
    }
}

#[test]
fn json_any_null_is_either_null_and_both_when_reversed() {
    let any_null = || map(vec![("equals", ParsedInputValue::Single(PrismaValue::Enum(s("AnyNull"))))]);
    for (reverse, op) in [(false, JsonOp::Equals), (true, JsonOp::NotEquals)] {
        let fs = parse_meta(any_null(), reverse);
        assert_eq!(fs.len(), 1);
        let members = match (&fs[0], reverse) {
            (Filter::Or(v), false) => v,
            (Filter::And(v), true) => v,
            (other, _) => panic!("unexpected filter {:?}", other),
        };
        assert_eq!(members.len(), 2);
        assert_eq!(
            json_condition(&members[0]),
            &ScalarCondition::Json(op, ConditionValue::Value(PrismaValue::Json(s("null"))), None, None)
        );
        assert_eq!(json_condition(&members[1]), &ScalarCondition::Json(op, ConditionValue::Value(PrismaValue::Null), None, None));
    }
}

#[test]
fn reversed_scalar_comparisons_are_complements() {
    let cases = [
        ("lt", ScalarCondition::GreaterThanOrEquals(ConditionValue::Value(PrismaValue::Int(3)))),
        ("lte", ScalarCondition::GreaterThan(ConditionValue::Value(PrismaValue::Int(3)))),
        ("gt", ScalarCondition::LessThanOrEquals(ConditionValue::Value(PrismaValue::Int(3)))),
        ("gte", ScalarCondition::LessThan(ConditionValue::Value(PrismaValue::Int(3)))),
        ("equals", ScalarCondition::NotEquals(ConditionValue::Value(PrismaValue::Int(3)))),
    ];
    for (key, expected) in cases {
        let c = single_condition(parse_age(map(vec![(key, int_value(3))]), true));
        assert_eq!(c, expected);
    }
}

#[test]
fn value_texts_read_as_debug_prints_them() {
    let values = vec![
        PrismaValue::Null,
        PrismaValue::Boolean(false),
        PrismaValue::Int(-42),
        PrismaValue::BigInt(9007199254740993),
        PrismaValue::String(s("a \"quoted\" \\ text\nwith\ttabs")),
        PrismaValue::Enum(s("AnyNull")),
        PrismaValue::Json(s("{\"a\": 1}")),
        PrismaValue::Bytes(vec![0, 7, 255]),
        PrismaValue::List(vec![PrismaValue::Int(1), PrismaValue::List(Vec::new())]),
        PrismaValue::Object(vec![(s("k"), PrismaValue::Null), (s("j"), PrismaValue::Int(0))]),
    ];
    for v in values {
        assert_eq!(v.debug_text(), format!("{:?}", v));
    }
    let input = ParsedInputValue::List(vec![
        ParsedInputValue::Single(PrismaValue::Int(3)),
        ParsedInputValue::Object(ParsedInputMap {
            tag: Some(ObjectTag::FieldRefType(s("Int"))),
            entries: vec![(s("a"), ParsedInputValue::Object(map(vec![])))],
        }),
    ]);
    assert_eq!(input.debug_text(), format!("{:?}", input));
    assert_eq!(
        ParsedInputValue::Single(PrismaValue::Int(3)).debug_text(),
        "Single(Int(3))"
    );
}
