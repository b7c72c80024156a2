use query_graph_builder::aggregation_response::{serialize_aggregations, AggregationResult, Item};
use query_graph_builder::values::PrismaValue;

fn s(x: &str) -> String {
    x.to_string()
}

fn number(n: i64) -> Item {
    Item::Value(PrismaValue::Int(n))
}

fn row() -> Vec<AggregationResult> {
    vec![
        AggregationResult::Field(s("name"), Item::Value(PrismaValue::String(s("Ann")))),
        AggregationResult::Count(None, PrismaValue::Int(3)),
        AggregationResult::Count(Some(s("age")), PrismaValue::Int(2)),
        AggregationResult::Average(s("age"), number(40)),
        AggregationResult::Max(s("age"), number(61)),
    ]
}

fn order() -> Vec<(String, Option<Vec<String>>)> {
    vec![
        (s("_max"), Some(vec![s("age")])),
        (s("name"), None),
        (s("count"), Some(vec![s("age"), s("_all")])),
        (s("_avg"), Some(vec![s("age")])),
    ]
}

#[test]
fn aggregations_follow_the_selection_order() {
    let r = serialize_aggregations(vec![row()], &order(), true);
    let expected = Item::List(vec![Item::Object(vec![
        (s("_max"), Item::Object(vec![(s("age"), number(61))])),
        (s("name"), Item::Value(PrismaValue::String(s("Ann")))),
        (s("count"), Item::Object(vec![(s("age"), number(2)), (s("_all"), number(3))])),
        (s("_avg"), Item::Object(vec![(s("age"), number(40))])),
    ])]);
    assert_eq!(r, Some(expected));
}

#[test]
fn an_object_output_holds_the_last_row() {
    let mut last = row();
    last[3] = AggregationResult::Average(s("age"), number(7));
    let r = serialize_aggregations(vec![row(), last], &vec![(s("_avg"), Some(vec![s("age")]))], false);
    assert_eq!(r, Some(Item::Object(vec![(s("_avg"), Item::Object(vec![(s("age"), number(7))]))])));
    assert_eq!(serialize_aggregations(Vec::new(), &order(), false), None);
    assert_eq!(serialize_aggregations(Vec::new(), &order(), true), Some(Item::List(Vec::new())));
}

#[test]
fn a_later_value_under_a_key_replaces_an_earlier_one() {
    let rows = vec![vec![
        AggregationResult::Sum(s("n"), number(1)),
        AggregationResult::Sum(s("n"), number(9)),
    ]];
    let r = serialize_aggregations(rows, &vec![(s("sum"), Some(vec![s("n")]))], false);
    assert_eq!(r, Some(Item::Object(vec![(s("sum"), Item::Object(vec![(s("n"), number(9))]))])));
}
