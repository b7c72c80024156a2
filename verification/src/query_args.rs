use vstd::prelude::*;
use crate::shown::{shown_input, shown_value};
use crate::group_by::is_scalar_of;
use crate::connect_nested::objects_expected_message;
use crate::constants;
use crate::error::QueryGraphBuilderError;
use crate::extract::{container_named, described, error_is, extract_filter, extract_spec, ErrorDesc, FilterDesc};
use crate::filter::Filter;
use crate::group_by::SortOrder;
use crate::query_graph::names;
use crate::schema::{spec_find_field, Container, DataModel, Field};
use crate::unique::{compound_fields, resolve_compound_field};
use crate::text::{push_signed_decimal, signed_decimal, str_eq, text};
use crate::values::{converts, converts_all, input_text, key_index, ParsedInputMap, ParsedInputValue, PrismaValue, value_text};

verus! {

/// Where records without a value come in an ordering.
#[derive(Debug, Clone, Copy, PartialEq, Eq, Structural)]
pub enum NullsOrder {
    First,
    Last,
}

/// The aggregation an ordering sorts by.
#[derive(Debug, Clone, Copy, PartialEq, Eq, Structural)]
pub enum SortAggregation {
    Count,
    Avg,
    Sum,
    Min,
    Max,
}

/// The aggregation that a key of an order-by object names, if it names one.
pub open spec fn sort_aggregation_named(name: Seq<char>) -> Option<SortAggregation> {
    if name == constants::UNDERSCORE_COUNT@ {
        Option::Some(SortAggregation::Count)
    } else if name == constants::UNDERSCORE_AVG@ {
        Option::Some(SortAggregation::Avg)
    } else if name == constants::UNDERSCORE_SUM@ {
        Option::Some(SortAggregation::Sum)
    } else if name == constants::UNDERSCORE_MIN@ {
        Option::Some(SortAggregation::Min)
    } else if name == constants::UNDERSCORE_MAX@ {
        Option::Some(SortAggregation::Max)
    } else {
        Option::None
    }
}

/// The sort order that a text names: `asc` or `desc`.
pub open spec fn sort_order_named(t: Seq<char>) -> Option<SortOrder> {
    if t == constants::ASC@ {
        Option::Some(SortOrder::Ascending)
    } else if t == constants::DESC@ {
        Option::Some(SortOrder::Descending)
    } else {
        Option::None
    }
}

/// The nulls order that a text names: `first` or `last`.
pub open spec fn nulls_order_named(t: Seq<char>) -> Option<NullsOrder> {
    if t == constants::FIRST@ {
        Option::Some(NullsOrder::First)
    } else if t == constants::LAST@ {
        Option::Some(NullsOrder::Last)
    } else {
        Option::None
    }
}

/// The names of orderings: `asc` and `desc` name the ascending and descending sort orders,
/// `first` and `last` where nulls go, `_count`, `_avg`, `_sum`, `_min` and `_max` the
/// aggregation to order by; and no other text names them.
pub proof fn lemma_order_names(name: Seq<char>)
    ensures
        sort_aggregation_named(name) == Option::Some(SortAggregation::Count) <==> name == "_count"@,
        sort_aggregation_named(name) == Option::Some(SortAggregation::Avg) <==> name == "_avg"@,
        sort_aggregation_named(name) == Option::Some(SortAggregation::Sum) <==> name == "_sum"@,
        sort_aggregation_named(name) == Option::Some(SortAggregation::Min) <==> name == "_min"@,
        sort_aggregation_named(name) == Option::Some(SortAggregation::Max) <==> name == "_max"@,
        sort_order_named(name) == Option::Some(SortOrder::Ascending) <==> name == "asc"@,
        sort_order_named(name) == Option::Some(SortOrder::Descending) <==> name == "desc"@,
        nulls_order_named(name) == Option::Some(NullsOrder::First) <==> name == "first"@,
        nulls_order_named(name) == Option::Some(NullsOrder::Last) <==> name == "last"@,
{
    reveal_strlit("_count");
    reveal_strlit("_avg");
    reveal_strlit("_sum");
    reveal_strlit("_min");
    reveal_strlit("_max");
    reveal_strlit("asc");
    reveal_strlit("desc");
    reveal_strlit("first");
    reveal_strlit("last");
    assert("_count"@.len() == 6);
    assert("_count"@[0] == '_');
    assert("_count"@[1] == 'c');
    assert("_count"@[2] == 'o');
    assert("_count"@[3] == 'u');
    assert("_count"@[4] == 'n');
    assert("_count"@[5] == 't');
    assert("_avg"@.len() == 4);
    assert("_avg"@[0] == '_');
    assert("_avg"@[1] == 'a');
    assert("_avg"@[2] == 'v');
    assert("_avg"@[3] == 'g');
    assert("_sum"@.len() == 4);
    assert("_sum"@[0] == '_');
    assert("_sum"@[1] == 's');
    assert("_sum"@[2] == 'u');
    assert("_sum"@[3] == 'm');
    assert("_min"@.len() == 4);
    assert("_min"@[0] == '_');
    assert("_min"@[1] == 'm');
    assert("_min"@[2] == 'i');
    assert("_min"@[3] == 'n');
    assert("_max"@.len() == 4);
    assert("_max"@[0] == '_');
    assert("_max"@[1] == 'm');
    assert("_max"@[2] == 'a');
    assert("_max"@[3] == 'x');
    assert("asc"@.len() == 3);
    assert("asc"@[0] == 'a');
    assert("asc"@[1] == 's');
    assert("asc"@[2] == 'c');
    assert("desc"@.len() == 4);
    assert("desc"@[0] == 'd');
    assert("desc"@[1] == 'e');
    assert("desc"@[2] == 's');
    assert("desc"@[3] == 'c');
    assert("first"@.len() == 5);
    assert("first"@[0] == 'f');
    assert("first"@[1] == 'i');
    assert("first"@[2] == 'r');
    assert("first"@[3] == 's');
    assert("first"@[4] == 't');
    assert("last"@.len() == 4);
    assert("last"@[0] == 'l');
    assert("last"@[1] == 'a');
    assert("last"@[2] == 's');
    assert("last"@[3] == 't');
}

/// The entries of an object once the entry at `i` is swapped out, as `swap_remove` leaves them.
pub open spec fn swapped_out<T>(es: Seq<T>, i: int) -> Seq<T> {
    es.update(i, es.last()).drop_last()
}

/// The sort and nulls orders that an order-by value gives: a text names the sort order;
/// an object names it under `sort`, and may name a nulls order under `nulls`. `None` for
/// any other shape, which the validation of the query document rules out.
pub open spec fn order_args_spec(v: ParsedInputValue) -> Option<(SortOrder, Option<NullsOrder>)> {
    match v {
        ParsedInputValue::Object(m) => match key_index(m.entries@, constants::SORT@) {
            Option::None => Option::None,
            Option::Some(i) => match input_text(m.entries@[i].1) {
                Option::None => Option::None,
                Option::Some(t) => match sort_order_named(t) {
                    Option::None => Option::None,
                    Option::Some(s) => {
                        let rest = swapped_out(m.entries@, i);
                        match key_index(rest, constants::NULLS@) {
                            Option::None => Option::Some((s, Option::None)),
                            Option::Some(j) => match input_text(rest[j].1) {
                                Option::None => Option::None,
                                Option::Some(u) => match nulls_order_named(u) {
                                    Option::None => Option::None,
                                    Option::Some(n) => Option::Some((s, Option::Some(n))),
                                },
                            },
                        }
                    },
                },
            },
        },
        ParsedInputValue::Single(p) => match value_text(p) {
            Option::None => Option::None,
            Option::Some(t) => match sort_order_named(t) {
                Option::None => Option::None,
                Option::Some(s) => Option::Some((s, Option::None)),
            },
        },
        ParsedInputValue::List(_) => Option::None,
    }
}

/// The aggregation that `field_name` names, if it names one.
pub fn extract_sort_aggregation(field_name: &str) -> (r: Option<SortAggregation>)
    ensures
        r == sort_aggregation_named(field_name@),
{
    if str_eq(field_name, constants::UNDERSCORE_COUNT) {
        Option::Some(SortAggregation::Count)
    } else if str_eq(field_name, constants::UNDERSCORE_AVG) {
        Option::Some(SortAggregation::Avg)
    } else if str_eq(field_name, constants::UNDERSCORE_SUM) {
        Option::Some(SortAggregation::Sum)
    } else if str_eq(field_name, constants::UNDERSCORE_MIN) {
        Option::Some(SortAggregation::Min)
    } else if str_eq(field_name, constants::UNDERSCORE_MAX) {
        Option::Some(SortAggregation::Max)
    } else {
        Option::None
    }
}

/// The sort order that a value names.
pub fn pv_to_sort_order(pv: PrismaValue) -> (r: Result<SortOrder, QueryGraphBuilderError>)
    requires
        value_text(pv) matches Option::Some(t) && sort_order_named(t) is Some,
    ensures
        r == Ok::<SortOrder, QueryGraphBuilderError>(sort_order_named(value_text(pv)->0)->0),
{
    let t = pv.into_string().unwrap();
    if str_eq(t.as_str(), constants::ASC) {
        Ok(SortOrder::Ascending)
    } else {
        Ok(SortOrder::Descending)
    }
}

/// The nulls order that a value names.
pub fn pv_to_nulls_order(pv: PrismaValue) -> (r: Result<NullsOrder, QueryGraphBuilderError>)
    requires
        value_text(pv) matches Option::Some(t) && nulls_order_named(t) is Some,
    ensures
        r == Ok::<NullsOrder, QueryGraphBuilderError>(nulls_order_named(value_text(pv)->0)->0),
{
    let t = pv.into_string().unwrap();
    if str_eq(t.as_str(), constants::FIRST) {
        Ok(NullsOrder::First)
    } else {
        Ok(NullsOrder::Last)
    }
}

/// The sort and nulls orders of an order-by value.
pub fn extract_order_by_args(field_value: ParsedInputValue) -> (r: Result<
    (SortOrder, Option<NullsOrder>),
    QueryGraphBuilderError,
>)
    requires
        order_args_spec(field_value) is Some,
    ensures
        r == Ok::<(SortOrder, Option<NullsOrder>), QueryGraphBuilderError>(order_args_spec(field_value)->0),
{
    match field_value {
        ParsedInputValue::Object(map) => {
            let mut map = map;
            let ghost es = map.entries@;
            let sort = map.swap_remove(constants::SORT).unwrap().into_prisma_value();
            proof {
                let i = key_index(es, constants::SORT@)->0;
                crate::values::lemma_converts_text(es[i].1, sort);
            }
            let sort = match pv_to_sort_order(sort) {
                Ok(s) => s,
                Err(e) => return Err(e),
            };
            let nulls = match map.swap_remove(constants::NULLS) {
                Option::Some(v) => {
                    let ghost gv = v;
                    let pv = v.into_prisma_value();
                    proof { crate::values::lemma_converts_text(gv, pv); }
                    match pv_to_nulls_order(pv) {
                        Ok(n) => Option::Some(n),
                        Err(e) => return Err(e),
                    }
                },
                Option::None => Option::None,
            };
            Ok((sort, nulls))
        },
        ParsedInputValue::Single(pv) => match pv_to_sort_order(pv) {
            Ok(s) => Ok((s, Option::None)),
            Err(e) => Err(e),
        },
        ParsedInputValue::List(_) => {
            proof { assert(false); }
            Err(QueryGraphBuilderError::AssertionError(String::new()))
        },
    }
}

/// One ordering of the records of a query.
#[derive(Debug)]
pub enum OrderByItem {
    /// By the value of a scalar field, reached through the relation and composite fields of `path`.
    Scalar { field: String, path: Vec<String>, sort_order: SortOrder, nulls_order: Option<NullsOrder> },
    /// By an aggregation of a scalar field (in a group-by).
    ScalarAggregation { field: String, sort_order: SortOrder, aggregation: SortAggregation },
    /// By an aggregation of the records that the last hop of `path` (a list) holds.
    ToManyAggregation { path: Vec<String>, sort_order: SortOrder, aggregation: SortAggregation },
    /// By the relevance of `fields` to a full-text `search`.
    Relevance { fields: Vec<String>, search: String, sort_order: SortOrder, path: Vec<String> },
}

/// An ordering, over plain values.
pub enum OrderDesc {
    Scalar { field: Seq<char>, path: Seq<Seq<char>>, sort_order: SortOrder, nulls_order: Option<NullsOrder> },
    ScalarAggregation { field: Seq<char>, sort_order: SortOrder, aggregation: SortAggregation },
    ToManyAggregation { path: Seq<Seq<char>>, sort_order: SortOrder, aggregation: SortAggregation },
    Relevance { fields: Seq<Seq<char>>, search: Seq<char>, sort_order: SortOrder, path: Seq<Seq<char>> },
}

/// `o` is the ordering that `d` describes.
pub open spec fn order_described(o: OrderByItem, d: OrderDesc) -> bool {
    match o {
        OrderByItem::Scalar { field, path, sort_order, nulls_order } => d == OrderDesc::Scalar {
            field: field@,
            path: names(path@),
            sort_order,
            nulls_order,
        },
        OrderByItem::ScalarAggregation { field, sort_order, aggregation } => d == OrderDesc::ScalarAggregation {
            field: field@,
            sort_order,
            aggregation,
        },
        OrderByItem::ToManyAggregation { path, sort_order, aggregation } => d == OrderDesc::ToManyAggregation {
            path: names(path@),
            sort_order,
            aggregation,
        },
        OrderByItem::Relevance { fields, search, sort_order, path } => d == OrderDesc::Relevance {
            fields: names(fields@),
            search: search@,
            sort_order,
            path: names(path@),
        },
    }
}

/// The errors of the query arguments.
pub enum ArgsError {
    Plain(ErrorDesc),
    /// The `fields` of a relevance ordering are neither a text nor a list; the message shows
    /// the value that the input converts to.
    FieldsShape(ParsedInputValue),
}

/// The message for `fields` of a relevance ordering that are neither a text nor a list.
pub open spec fn fields_shape_message(p: PrismaValue) -> Seq<char> {
    "Expected field `fields` to be of type String, Enum or List<Enum>, found: "@ + shown_value(p)
}

/// The message for a relevance ordering on a field that is not a scalar field.
pub open spec fn relevance_field_message(name: Seq<char>) -> Seq<char> {
    "Invalid order-by reference input: Field "@ + name + " is not a valid scalar field."@
}

/// `x` is the error that `e` describes.
pub open spec fn args_error_is(x: QueryGraphBuilderError, e: ArgsError) -> bool {
    match e {
        ArgsError::Plain(d) => error_is(x, d),
        ArgsError::FieldsShape(v) => x matches QueryGraphBuilderError::InputError(m) && exists|p: PrismaValue|
            #[trigger] converts(v, p) && m@ == fields_shape_message(p),
    }
}

/// `r` is the outcome that `s` describes.
pub open spec fn order_result(r: Result<Option<OrderByItem>, QueryGraphBuilderError>, s: Result<Option<OrderDesc>, ArgsError>) -> bool {
    match s {
        Ok(Option::None) => r matches Ok(Option::None),
        Ok(Option::Some(d)) => r matches Ok(Option::Some(o)) && order_described(o, d),
        Err(e) => r matches Err(x) && args_error_is(x, e),
    }
}

/// The texts of the fields that the `fields` value of a relevance ordering names (`None`
/// for an element that is no text), or the error for a value of another shape.
pub open spec fn relevance_texts(v: ParsedInputValue) -> Result<Seq<Option<Seq<char>>>, ArgsError> {
    match v {
        ParsedInputValue::Single(PrismaValue::String(s)) => Ok(seq![Option::Some(s@)]),
        ParsedInputValue::Single(PrismaValue::Enum(e)) => Ok(seq![Option::Some(e@)]),
        ParsedInputValue::Single(PrismaValue::List(l)) => Ok(l@.map_values(|p: PrismaValue| value_text(p))),
        ParsedInputValue::List(l) => Ok(l@.map_values(|x: ParsedInputValue| input_text(x))),
        _ => Err(ArgsError::FieldsShape(v)),
    }
}

/// The scalar fields of `c` that the first `k` texts name, in order; the first text that
/// names no scalar field is the error. `None` where an element that is no text comes first.
pub open spec fn relevance_fields_spec(c: Container, texts: Seq<Option<Seq<char>>>, k: nat) -> Option<
    Result<Seq<Seq<char>>, Seq<char>>,
>
    decreases k,
{
    if k == 0 {
        Option::Some(Ok(Seq::empty()))
    } else {
        match relevance_fields_spec(c, texts, (k - 1) as nat) {
            Option::None => Option::None,
            Option::Some(Err(n)) => Option::Some(Err(n)),
            Option::Some(Ok(fs)) => if k - 1 < texts.len() {
                match texts[k - 1] {
                    Option::None => Option::None,
                    Option::Some(n) => if names_scalar(c, n) {
                        Option::Some(Ok(fs.push(n)))
                    } else {
                        Option::Some(Err(n))
                    },
                }
            } else {
                Option::None
            },
        }
    }
}

/// `n` names a scalar field of `c`.
pub open spec fn names_scalar(c: Container, n: Seq<char>) -> bool {
    spec_find_field(c, n) matches Option::Some(Field::Scalar(_))
}

/// The relevance ordering of the object `es` (its `sort`, `search` and `fields`, taken out
/// in this order) on the fields of `c`. `None` where a part is missing or of a shape that
/// the validation of the query document rules out.
pub open spec fn relevance_spec(c: Container, es: Seq<(String, ParsedInputValue)>, path: Seq<Seq<char>>) -> Option<
    Result<Option<OrderDesc>, ArgsError>,
> {
    match key_index(es, constants::SORT@) {
        Option::None => Option::None,
        Option::Some(i) => match order_args_spec(es[i].1) {
            Option::None => Option::None,
            Option::Some((s, _)) => relevance_search_spec(c, swapped_out(es, i), s, path),
        },
    }
}

/// The relevance ordering once its sort order `s` is taken out of the object.
pub open spec fn relevance_search_spec(
    c: Container,
    es: Seq<(String, ParsedInputValue)>,
    s: SortOrder,
    path: Seq<Seq<char>>,
) -> Option<Result<Option<OrderDesc>, ArgsError>> {
    match key_index(es, constants::SEARCH@) {
        Option::None => Option::None,
        Option::Some(j) => match input_text(es[j].1) {
            Option::None => Option::None,
            Option::Some(search) => relevance_fields_part(c, swapped_out(es, j), s, search, path),
        },
    }
}

/// The relevance ordering once its sort order `s` and its `search` are taken out of the object.
pub open spec fn relevance_fields_part(
    c: Container,
    es: Seq<(String, ParsedInputValue)>,
    s: SortOrder,
    search: Seq<char>,
    path: Seq<Seq<char>>,
) -> Option<Result<Option<OrderDesc>, ArgsError>> {
    match key_index(es, constants::FIELDS@) {
        Option::None => Option::None,
        Option::Some(k) => match relevance_texts(es[k].1) {
            Err(e) => Option::Some(Err(e)),
            Ok(texts) => match relevance_fields_spec(c, texts, texts.len()) {
                Option::None => Option::None,
                Option::Some(Err(n)) => Option::Some(Err(ArgsError::Plain(ErrorDesc::Input(relevance_field_message(n))))),
                Option::Some(Ok(fs)) => Option::Some(
                    Ok(Option::Some(OrderDesc::Relevance { fields: fs, search, sort_order: s, path })),
                ),
            },
        },
    }
}

proof fn lemma_converts_all_at(s: Seq<ParsedInputValue>, t: Seq<PrismaValue>, i: int)
    requires
        converts_all(s, t),
        0 <= i < s.len(),
    ensures
        t.len() == s.len(),
        converts(s[i], t[i]),
    decreases s.len(),
{
    if i < s.len() - 1 {
        lemma_converts_all_at(s.drop_last(), t.drop_last(), i);
    }
}

/// `o` holds the text `t`, or nothing where there is none.
pub open spec fn text_held(o: Option<String>, t: Option<Seq<char>>) -> bool {
    match t {
        Option::Some(t) => o matches Option::Some(x) && x@ == t,
        Option::None => o is None,
    }
}

/// The texts of the elements of a list of values.
fn element_texts(l: Vec<PrismaValue>) -> (r: Vec<Option<String>>)
    ensures
        r@.len() == l@.len(),
        forall|i: int| 0 <= i < l@.len() ==> #[trigger] text_held(r@[i], value_text(l@[i])),
{
    let ghost s = l@;
    let mut r: Vec<Option<String>> = Vec::new();
    for p in it: l.into_iter()
        invariant
            it.seq() == s,
            r@.len() == it.index(),
            forall|i: int| 0 <= i < it.index() ==> #[trigger] text_held(r@[i], value_text(s[i])),
    {
        r.push(p.into_string());
    }
    r
}

/// The texts of the fields that the `fields` value of a relevance ordering names.
fn relevance_field_texts(v: ParsedInputValue) -> (r: Result<Vec<Option<String>>, QueryGraphBuilderError>)
    ensures
        match relevance_texts(v) {
            Ok(ts) => r matches Ok(x) && x@.len() == ts.len() && forall|i: int|
                0 <= i < ts.len() ==> #[trigger] text_held(x@[i], ts[i]),
            Err(e) => r matches Err(x) && args_error_is(x, e),
        },
{
    let ghost gv = v;
    let p = v.into_prisma_value();
    match p {
        PrismaValue::String(s) => {
            let mut out: Vec<Option<String>> = Vec::new();
            out.push(Option::Some(s));
            Ok(out)
        },
        PrismaValue::Enum(e) => {
            let mut out: Vec<Option<String>> = Vec::new();
            out.push(Option::Some(e));
            Ok(out)
        },
        PrismaValue::List(l) => {
            let ghost pl = l@;
            let out = element_texts(l);
            proof {
                match gv {
                    ParsedInputValue::List(il) => {
                        assert(converts_all(il@, pl));
                        let ts = il@.map_values(|x: ParsedInputValue| input_text(x));
                        assert forall|i: int| 0 <= i < ts.len() implies #[trigger] text_held(out@[i], ts[i]) by {
                            lemma_converts_all_at(il@, pl, i);
                            crate::values::lemma_converts_text(il@[i], pl[i]);
                            assert(text_held(out@[i], value_text(pl[i])));
                        }
                    },
                    ParsedInputValue::Single(q) => {
                        assert(q == PrismaValue::List(l));
                        let ts = pl.map_values(|p: PrismaValue| value_text(p));
                        assert forall|i: int| 0 <= i < ts.len() implies #[trigger] text_held(out@[i], ts[i]) by {
                            assert(text_held(out@[i], value_text(pl[i])));
                        }
                    },
                    ParsedInputValue::Object(_) => {},
                }
            }
            Ok(out)
        },
        x => {
            let mut m = text("Expected field `fields` to be of type String, Enum or List<Enum>, found: ");
            let d = x.debug_text();
            m.append(d.as_str());
            proof {
                assert(converts(gv, x));
            }
            Err(QueryGraphBuilderError::InputError(m))
        },
    }
}

proof fn lemma_fields_none_stays(c: Container, texts: Seq<Option<Seq<char>>>, k: nat, n: nat)
    requires
        k <= n,
        relevance_fields_spec(c, texts, k) is None,
    ensures
        relevance_fields_spec(c, texts, n) is None,
    decreases n - k,
{
    if k < n {
        lemma_fields_none_stays(c, texts, (k + 1) as nat, n);
    }
}

/// The scalar fields of `container` that `texts` name.
fn relevance_fields(container: &Container, texts: Vec<Option<String>>, Ghost(ts): Ghost<Seq<Option<Seq<char>>>>) -> (r: Result<
    Vec<String>,
    QueryGraphBuilderError,
>)
    requires
        texts@.len() == ts.len(),
        forall|i: int| 0 <= i < ts.len() ==> #[trigger] text_held(texts@[i], ts[i]),
        relevance_fields_spec(*container, ts, ts.len()) is Some,
    ensures
        match relevance_fields_spec(*container, ts, ts.len())->Some_0 {
            Ok(fs) => r matches Ok(v) && names(v@) == fs,
            Err(n) => r matches Err(x) && error_is(x, ErrorDesc::Input(relevance_field_message(n))),
        },
{
    let mut fields: Vec<String> = Vec::new();
    let n = texts.len();
    assert(names(fields@) =~= Seq::<Seq<char>>::empty());
    let mut i: usize = 0;
    while i < n
        invariant
            n == texts@.len(),
            n == ts.len(),
            i <= n,
            forall|j: int| 0 <= j < n ==> #[trigger] text_held(texts@[j], ts[j]),
            relevance_fields_spec(*container, ts, n as nat) is Some,
            relevance_fields_spec(*container, ts, i as nat) == Option::Some(
                Ok::<Seq<Seq<char>>, Seq<char>>(names(fields@)),
            ),
        decreases n - i,
    {
        let ghost prev = names(fields@);
        assert(text_held(texts@[i as int], ts[i as int]));
        let name = match &texts[i] {
            Option::Some(x) => x.clone(),
            Option::None => {
                proof { lemma_fields_none_stays(*container, ts, (i + 1) as nat, n as nat); }
                return Err(QueryGraphBuilderError::AssertionError(String::new()));
            },
        };
        assert(ts[i as int] == Option::Some(name@));
        let is_scalar = match container.find_field(name.as_str()) {
            Option::Some(Field::Scalar(_)) => true,
            _ => false,
        };
        assert(is_scalar == names_scalar(*container, name@));
        if is_scalar {
            fields.push(name);
            proof {
                lemma_fields_step(*container, ts, i as nat, prev, name@);
                assert(names(fields@) =~= prev.push(name@));
            }
        } else {
            let mut m = text("Invalid order-by reference input: Field ");
            m.append(name.as_str());
            m.append(" is not a valid scalar field.");
            proof {
                lemma_fields_step(*container, ts, i as nat, prev, name@);
                lemma_fields_err_stays(*container, ts, (i + 1) as nat, n as nat);
            }
            return Err(QueryGraphBuilderError::InputError(m));
        }
        i = i + 1;
    }
    Ok(fields)
}

/// The relevance ordering of `object` on the fields of `container`: the sort order under
/// `sort`, the text under `search`, and the scalar fields that `fields` names.
pub fn extract_order_by_relevance(container: &Container, object: ParsedInputMap, path: Vec<String>) -> (r: Result<
    Option<OrderByItem>,
    QueryGraphBuilderError,
>)
    requires
        relevance_spec(*container, object.entries@, names(path@)) is Some,
    ensures
        order_result(r, relevance_spec(*container, object.entries@, names(path@))->0),
{
    let mut object = object;
    let sort_value = object.swap_remove(constants::SORT).unwrap();
    let (sort_order, _) = match extract_order_by_args(sort_value) {
        Ok(x) => x,
        Err(e) => return Err(e),
    };
    relevance_search(container, object, sort_order, path)
}

fn relevance_search(container: &Container, object: ParsedInputMap, sort_order: SortOrder, path: Vec<String>) -> (r: Result<
    Option<OrderByItem>,
    QueryGraphBuilderError,
>)
    requires
        relevance_search_spec(*container, object.entries@, sort_order, names(path@)) is Some,
    ensures
        order_result(r, relevance_search_spec(*container, object.entries@, sort_order, names(path@))->0),
{
    let mut object = object;
    let search = object.swap_remove(constants::SEARCH).unwrap().into_text().unwrap();
    relevance_with_fields(container, object, sort_order, search, path)
}

fn relevance_with_fields(
    container: &Container,
    object: ParsedInputMap,
    sort_order: SortOrder,
    search: String,
    path: Vec<String>,
) -> (r: Result<Option<OrderByItem>, QueryGraphBuilderError>)
    requires
        relevance_fields_part(*container, object.entries@, sort_order, search@, names(path@)) is Some,
    ensures
        order_result(r, relevance_fields_part(*container, object.entries@, sort_order, search@, names(path@))->0),
{
    let mut object = object;
    let fields_value = object.swap_remove(constants::FIELDS).unwrap();
    let ghost fv = fields_value;
    let texts = match relevance_field_texts(fields_value) {
        Ok(t) => t,
        Err(e) => return Err(e),
    };
    let ghost ts = relevance_texts(fv)->Ok_0;
    let fields = match relevance_fields(container, texts, Ghost(ts)) {
        Ok(f) => f,
        Err(e) => return Err(e),
    };
    Ok(Option::Some(OrderByItem::Relevance { fields, search, sort_order, path }))
}

proof fn lemma_fields_step(c: Container, texts: Seq<Option<Seq<char>>>, k: nat, fs: Seq<Seq<char>>, n: Seq<char>)
    requires
        k < texts.len(),
        relevance_fields_spec(c, texts, k) == Option::Some(Ok::<Seq<Seq<char>>, Seq<char>>(fs)),
        texts[k as int] == Option::Some(n),
    ensures
        names_scalar(c, n) ==> relevance_fields_spec(c, texts, k + 1)
            == Option::Some(Ok::<Seq<Seq<char>>, Seq<char>>(fs.push(n))),
        !names_scalar(c, n) ==> relevance_fields_spec(c, texts, k + 1)
            == Option::Some(Err::<Seq<Seq<char>>, Seq<char>>(n)),
{
    assert(relevance_fields_spec(c, texts, k + 1) == (if names_scalar(c, n) {
        Option::Some(Ok::<Seq<Seq<char>>, Seq<char>>(fs.push(n)))
    } else {
        Option::Some(Err::<Seq<Seq<char>>, Seq<char>>(n))
    }));
}

proof fn lemma_fields_err_stays(c: Container, texts: Seq<Option<Seq<char>>>, k: nat, n: nat)
    requires
        k <= n,
        relevance_fields_spec(c, texts, k) matches Option::Some(Err(_)),
    ensures
        relevance_fields_spec(c, texts, n) == relevance_fields_spec(c, texts, k),
    decreases n - k,
{
    if k < n {
        lemma_fields_err_stays(c, texts, (k + 1) as nat, n);
    }
}

/// The error for a value that must be an object.
pub open spec fn object_expected() -> ArgsError {
    ArgsError::Plain(ErrorDesc::Input(objects_expected_message()))
}

/// The field holds a list (of related records or composite values): it is ordered by an
/// aggregation of that list.
pub open spec fn is_to_many(f: Field) -> bool {
    match f {
        Field::Relation(rf) => rf.is_list,
        Field::Composite(cf) => cf.is_list,
        Field::Scalar(_) => false,
    }
}

/// The model or composite type that a to-one relation or composite field leads to.
pub open spec fn hop_target(f: Field) -> Seq<char> {
    match f {
        Field::Relation(rf) => rf.related_model@,
        Field::Composite(cf) => cf.typ@,
        Field::Scalar(sf) => sf.name@,
    }
}

/// The ordering by an aggregation of a list reached through `path`: the object names the
/// aggregation under its first key.
pub open spec fn to_many_spec(path: Seq<Seq<char>>, v: ParsedInputValue) -> Option<Result<Option<OrderDesc>, ArgsError>> {
    match v {
        ParsedInputValue::Object(o) => if o.entries@.len() == 0 {
            Option::None
        } else {
            match sort_aggregation_named(o.entries@[0].0@) {
                Option::None => Option::None,
                Option::Some(a) => match order_args_spec(o.entries@[0].1) {
                    Option::None => Option::None,
                    Option::Some((s, _)) => Option::Some(
                        Ok(Option::Some(OrderDesc::ToManyAggregation { path, sort_order: s, aggregation: a })),
                    ),
                },
            }
        },
        _ => Option::Some(Err(object_expected())),
    }
}

/// The ordering by the scalar field `name`: by its value, or by the aggregation `aggr` of
/// the enclosing object.
pub open spec fn scalar_order_spec(
    name: Seq<char>,
    v: ParsedInputValue,
    path: Seq<Seq<char>>,
    aggr: Option<SortAggregation>,
) -> Option<Result<Option<OrderDesc>, ArgsError>> {
    match order_args_spec(v) {
        Option::None => Option::None,
        Option::Some((s, n)) => match aggr {
            Option::Some(a) => Option::Some(
                Ok(Option::Some(OrderDesc::ScalarAggregation { field: name, sort_order: s, aggregation: a })),
            ),
            Option::None => Option::Some(
                Ok(Option::Some(OrderDesc::Scalar { field: name, path, sort_order: s, nulls_order: n })),
            ),
        },
    }
}

/// The ordering that an order-by object on `c` gives, reached through `path`: that of its
/// first entry, none for an empty object. `None` where the object names what the validation
/// of the query document rules out.
pub open spec fn order_object_spec(
    dm: DataModel,
    c: Container,
    m: ParsedInputMap,
    path: Seq<Seq<char>>,
    aggr: Option<SortAggregation>,
) -> Option<Result<Option<OrderDesc>, ArgsError>>
    decreases m, 0int,
{
    if m.entries@.len() == 0 {
        Option::Some(Ok(Option::None))
    } else {
        order_entry_spec(dm, c, m.entries@[0].0@, m.entries@[0].1, path, aggr)
    }
}

/// The ordering that the entry `key`, `v` of an order-by object on `c` gives.
pub open spec fn order_entry_spec(
    dm: DataModel,
    c: Container,
    key: Seq<char>,
    v: ParsedInputValue,
    path: Seq<Seq<char>>,
    aggr: Option<SortAggregation>,
) -> Option<Result<Option<OrderDesc>, ArgsError>>
    decreases v, 1int,
{
    if key == constants::UNDERSCORE_RELEVANCE@ {
        match v {
            ParsedInputValue::Object(o) => relevance_spec(c, o.entries@, path),
            _ => Option::Some(Err(object_expected())),
        }
    } else {
        match sort_aggregation_named(key) {
            Option::Some(a) => match v {
                ParsedInputValue::Object(o) => order_object_spec(dm, c, o, path, Option::Some(a)),
                _ => Option::Some(Err(object_expected())),
            },
            Option::None => match spec_find_field(c, key) {
                Option::None => Option::None,
                Option::Some(f) => if is_to_many(f) {
                    to_many_spec(path.push(key), v)
                } else if f is Scalar {
                    scalar_order_spec(key, v, path, aggr)
                } else {
                    match v {
                        ParsedInputValue::Object(o) => match container_named(dm, hop_target(f)) {
                            Option::None => Option::None,
                            Option::Some(nc) => order_object_spec(dm, nc, o, path.push(key), Option::None),
                        },
                        _ => Option::Some(Err(object_expected())),
                    }
                },
            },
        }
    }
}

fn expected_object_error() -> (e: QueryGraphBuilderError)
    ensures
        args_error_is(e, object_expected()),
{
    QueryGraphBuilderError::InputError(text("Expected an input object."))
}

fn order_to_many(path: Vec<String>, field_value: ParsedInputValue) -> (r: Result<Option<OrderByItem>, QueryGraphBuilderError>)
    requires
        to_many_spec(names(path@), field_value) is Some,
    ensures
        order_result(r, to_many_spec(names(path@), field_value)->0),
{
    match field_value {
        ParsedInputValue::Object(o) => {
            let mut entries = o.entries;
            let (inner_name, inner_value) = entries.swap_remove(0);
            let aggregation = extract_sort_aggregation(inner_name.as_str()).unwrap();
            let (sort_order, _) = match extract_order_by_args(inner_value) {
                Ok(x) => x,
                Err(e) => return Err(e),
            };
            Ok(Option::Some(OrderByItem::ToManyAggregation { path, sort_order, aggregation }))
        },
        _ => Err(expected_object_error()),
    }
}

fn order_scalar(
    name: String,
    field_value: ParsedInputValue,
    path: Vec<String>,
    aggregation: Option<SortAggregation>,
) -> (r: Result<Option<OrderByItem>, QueryGraphBuilderError>)
    requires
        scalar_order_spec(name@, field_value, names(path@), aggregation) is Some,
    ensures
        order_result(r, scalar_order_spec(name@, field_value, names(path@), aggregation)->0),
{
    let (sort_order, nulls_order) = match extract_order_by_args(field_value) {
        Ok(x) => x,
        Err(e) => return Err(e),
    };
    match aggregation {
        Option::Some(a) => Ok(Option::Some(OrderByItem::ScalarAggregation { field: name, sort_order, aggregation: a })),
        Option::None => Ok(Option::Some(OrderByItem::Scalar { field: name, path, sort_order, nulls_order })),
    }
}

/// The ordering that the order-by object `object` on `container` gives, reached through
/// `path`, and under the aggregation of an enclosing object, if any: that of its first entry.
pub fn process_order_object(
    container: &Container,
    object: ParsedInputMap,
    path: Vec<String>,
    parent_sort_aggregation: Option<SortAggregation>,
    dm: &DataModel,
) -> (r: Result<Option<OrderByItem>, QueryGraphBuilderError>)
    requires
        order_object_spec(*dm, *container, object, names(path@), parent_sort_aggregation) is Some,
    ensures
        order_result(r, order_object_spec(*dm, *container, object, names(path@), parent_sort_aggregation)->0),
    decreases object, 0int,
{
    let ghost m = object;
    let mut entries = object.entries;
    if entries.len() == 0 {
        return Ok(Option::None);
    }
    let (field_name, field_value) = entries.swap_remove(0);
    proof {
        assert(decreases_to!(m => m.entries));
        assert(decreases_to!(m.entries@ => m.entries@[0]));
        assert(decreases_to!(m.entries@[0] => m.entries@[0].1));
    }
    process_order_entry(container, field_name, field_value, path, parent_sort_aggregation, dm)
}

fn process_order_entry(
    container: &Container,
    field_name: String,
    field_value: ParsedInputValue,
    path: Vec<String>,
    parent_sort_aggregation: Option<SortAggregation>,
    dm: &DataModel,
) -> (r: Result<Option<OrderByItem>, QueryGraphBuilderError>)
    requires
        order_entry_spec(*dm, *container, field_name@, field_value, names(path@), parent_sort_aggregation) is Some,
    ensures
        order_result(
            r,
            order_entry_spec(*dm, *container, field_name@, field_value, names(path@), parent_sort_aggregation)->0,
        ),
    decreases field_value, 1int,
{
    if str_eq(field_name.as_str(), constants::UNDERSCORE_RELEVANCE) {
        return match field_value {
            ParsedInputValue::Object(o) => extract_order_by_relevance(container, o, path),
            _ => Err(expected_object_error()),
        };
    }
    match extract_sort_aggregation(field_name.as_str()) {
        Option::Some(a) => {
            return match field_value {
                ParsedInputValue::Object(o) => process_order_object(container, o, path, Option::Some(a), dm),
                _ => Err(expected_object_error()),
            };
        },
        Option::None => {},
    }
    let field = container.find_field(field_name.as_str()).unwrap();
    let to_many = match field {
        Field::Relation(rf) => rf.is_list,
        Field::Composite(cf) => cf.is_list,
        Field::Scalar(_) => false,
    };
    let ghost p0 = names(path@);
    if to_many {
        let mut path = path;
        path.push(field_name);
        proof { assert(names(path@) =~= p0.push(field_name@)); }
        return order_to_many(path, field_value);
    }
    let target = match field {
        Field::Scalar(_) => {
            return order_scalar(field_name, field_value, path, parent_sort_aggregation);
        },
        Field::Relation(rf) => rf.related_model.as_str(),
        Field::Composite(cf) => cf.typ.as_str(),
    };
    match field_value {
        ParsedInputValue::Object(o) => {
            let next = dm.find_container(target).unwrap();
            let mut path = path;
            path.push(field_name);
            proof { assert(names(path@) =~= p0.push(field_name@)); }
            process_order_object(next, o, path, Option::None, dm)
        },
        _ => Err(expected_object_error()),
    }
}

/// The orderings that the first `k` objects of an order-by list give, in order (an empty
/// object gives none); the first failing object decides the error.
#[verifier::opaque]
pub open spec fn order_list_spec(dm: DataModel, c: Container, l: Seq<ParsedInputValue>, k: nat) -> Option<
    Result<Seq<OrderDesc>, ArgsError>,
>
    decreases k,
{
    if k == 0 {
        Option::Some(Ok(Seq::empty()))
    } else {
        match order_list_spec(dm, c, l, (k - 1) as nat) {
            Option::None => Option::None,
            Option::Some(Err(e)) => Option::Some(Err(e)),
            Option::Some(Ok(ds)) => if k - 1 < l.len() {
                order_list_step(ds, order_element_spec(dm, c, l[k - 1]))
            } else {
                Option::None
            },
        }
    }
}

/// The outcome of one object of an order-by list.
pub open spec fn order_element_spec(dm: DataModel, c: Container, v: ParsedInputValue) -> Option<
    Result<Option<OrderDesc>, ArgsError>,
> {
    match v {
        ParsedInputValue::Object(o) => order_object_spec(dm, c, o, Seq::empty(), Option::None),
        _ => Option::Some(Err(object_expected())),
    }
}

/// The orderings `ds` followed by the outcome `o` of the next object.
pub open spec fn order_list_step(ds: Seq<OrderDesc>, o: Option<Result<Option<OrderDesc>, ArgsError>>) -> Option<
    Result<Seq<OrderDesc>, ArgsError>,
> {
    match o {
        Option::None => Option::None,
        Option::Some(Err(e)) => Option::Some(Err(e)),
        Option::Some(Ok(Option::None)) => Option::Some(Ok(ds)),
        Option::Some(Ok(Option::Some(d))) => Option::Some(Ok(ds.push(d))),
    }
}

/// The orderings that an `orderBy` argument on `c` gives: one object, or a list of them.
pub open spec fn order_by_spec(dm: DataModel, c: Container, v: ParsedInputValue) -> Option<
    Result<Seq<OrderDesc>, ArgsError>,
> {
    match v {
        ParsedInputValue::List(l) => order_list_spec(dm, c, l@, l@.len()),
        ParsedInputValue::Object(m) => order_list_step(
            Seq::empty(),
            order_object_spec(dm, c, m, Seq::empty(), Option::None),
        ),
        ParsedInputValue::Single(_) => Option::None,
    }
}

/// `v` holds the orderings that `ds` describes, in order.
pub open spec fn orders_described(v: Seq<OrderByItem>, ds: Seq<OrderDesc>) -> bool {
    &&& v.len() == ds.len()
    &&& forall|i: int| 0 <= i < ds.len() ==> #[trigger] order_described(v[i], ds[i])
}

/// `r` is the outcome that `s` describes.
pub open spec fn orders_result(r: Result<Vec<OrderByItem>, QueryGraphBuilderError>, s: Result<Seq<OrderDesc>, ArgsError>) -> bool {
    match s {
        Ok(ds) => r matches Ok(v) && orders_described(v@, ds),
        Err(e) => r matches Err(x) && args_error_is(x, e),
    }
}

proof fn lemma_order_list_step(dm: DataModel, c: Container, l: Seq<ParsedInputValue>, k: nat, ds: Seq<OrderDesc>)
    requires
        k < l.len(),
        order_list_spec(dm, c, l, k) == Option::Some(Ok::<Seq<OrderDesc>, ArgsError>(ds)),
    ensures
        order_list_spec(dm, c, l, k + 1) == order_list_step(ds, order_element_spec(dm, c, l[k as int])),
{
    reveal_with_fuel(order_list_spec, 2);
}

proof fn lemma_order_list_none_stays(dm: DataModel, c: Container, l: Seq<ParsedInputValue>, k: nat, n: nat)
    requires
        k <= n,
        order_list_spec(dm, c, l, k) is None,
    ensures
        order_list_spec(dm, c, l, n) is None,
    decreases n - k,
{
    reveal_with_fuel(order_list_spec, 2);
    if k < n {
        lemma_order_list_none_stays(dm, c, l, (k + 1) as nat, n);
    }
}

proof fn lemma_order_list_err_stays(dm: DataModel, c: Container, l: Seq<ParsedInputValue>, k: nat, n: nat)
    requires
        k <= n,
        order_list_spec(dm, c, l, k) matches Option::Some(Err(_)),
    ensures
        order_list_spec(dm, c, l, n) == order_list_spec(dm, c, l, k),
    decreases n - k,
{
    reveal_with_fuel(order_list_spec, 2);
    if k < n {
        lemma_order_list_err_stays(dm, c, l, (k + 1) as nat, n);
    }
}

fn order_element(container: &Container, v: ParsedInputValue, dm: &DataModel) -> (r: Result<
    Option<OrderByItem>,
    QueryGraphBuilderError,
>)
    requires
        order_element_spec(*dm, *container, v) is Some,
    ensures
        order_result(r, order_element_spec(*dm, *container, v)->0),
{
    match v {
        ParsedInputValue::Object(o) => {
            let path: Vec<String> = Vec::new();
            proof { assert(names(path@) =~= Seq::<Seq<char>>::empty()); }
            process_order_object(container, o, path, Option::None, dm)
        },
        _ => Err(expected_object_error()),
    }
}

/// The orderings that an `orderBy` argument on `container` gives, in order of appearance.
pub fn extract_order_by(container: &Container, value: ParsedInputValue, dm: &DataModel) -> (r: Result<
    Vec<OrderByItem>,
    QueryGraphBuilderError,
>)
    requires
        order_by_spec(*dm, *container, value) is Some,
    ensures
        orders_result(r, order_by_spec(*dm, *container, value)->0),
{
    match value {
        ParsedInputValue::List(list) => {
            let ghost l = list@;
            let ghost n = l.len();
            let mut out: Vec<OrderByItem> = Vec::new();
            let ghost mut ds: Seq<OrderDesc> = Seq::empty();
            proof { reveal_with_fuel(order_list_spec, 1); }
            for v in it: list.into_iter()
                invariant
                    it.seq() == l,
                    n == l.len(),
                    order_by_spec(*dm, *container, value) == order_list_spec(*dm, *container, l, n),
                    order_list_spec(*dm, *container, l, n) is Some,
                    order_list_spec(*dm, *container, l, it.index() as nat) == Option::Some(
                        Ok::<Seq<OrderDesc>, ArgsError>(ds),
                    ),
                    orders_described(out@, ds),
            {
                let ghost i = it.index() as int;
                proof {
                    lemma_order_list_step(*dm, *container, l, i as nat, ds);
                    if order_element_spec(*dm, *container, v) is None {
                        lemma_order_list_none_stays(*dm, *container, l, (i + 1) as nat, n);
                    }
                }
                match order_element(container, v, dm) {
                    Ok(Option::Some(o)) => {
                        let ghost k = out@.len() as int;
                        out.push(o);
                        proof {
                            let d = order_element_spec(*dm, *container, l[i])->Some_0->Ok_0->Some_0;
                            ds = ds.push(d);
                            assert(order_described(out@[k], ds[k]));
                        }
                    },
                    Ok(Option::None) => {},
                    Err(e) => {
                        proof {
                            let ee = order_element_spec(*dm, *container, l[i])->Some_0->Err_0;
                            assert(args_error_is(e, ee));
                            assert(order_list_spec(*dm, *container, l, (i + 1) as nat) == Option::Some(
                                Err::<Seq<OrderDesc>, ArgsError>(ee),
                            ));
                            lemma_order_list_err_stays(*dm, *container, l, (i + 1) as nat, n);
                        }
                        return Err(e);
                    },
                }
            }
            Ok(out)
        },
        ParsedInputValue::Object(map) => {
            let path: Vec<String> = Vec::new();
            proof { assert(names(path@) =~= Seq::<Seq<char>>::empty()); }
            let mut out: Vec<OrderByItem> = Vec::new();
            match process_order_object(container, map, path, Option::None, dm) {
                Ok(Option::Some(o)) => {
                    out.push(o);
                    Ok(out)
                },
                Ok(Option::None) => Ok(out),
                Err(e) => Err(e),
            }
        },
        ParsedInputValue::Single(_) => Ok(Vec::new()),
    }
}

/// How many records a query takes: all, exactly one, or the given number (from the end
/// where it is negative).
#[derive(Debug, Clone, Copy, PartialEq, Eq, Structural)]
pub enum Take {
    All,
    One,
    Number(i64),
}

impl Take {
    /// A limit is given.
    pub fn is_some(&self) -> (b: bool)
        ensures
            b == !(*self is All),
    {
        match self {
            Take::All => false,
            _ => true,
        }
    }
}

/// How the records of relations are loaded.
#[derive(Debug, Clone, Copy, PartialEq, Eq, Structural)]
pub enum RelationLoadStrategy {
    Join,
    Query,
}

/// The message for a value that must be an integer or null.
pub open spec fn integer_expected_message() -> Seq<char> {
    "Expected an integer or null."@
}

/// The message for a value that must name a relation load strategy.
pub open spec fn strategy_expected_message() -> Seq<char> {
    "Expected a relation load strategy, `join` or `query`."@
}

/// The integer, or null, of an input.
pub open spec fn optional_int_spec(v: ParsedInputValue) -> Result<Option<i64>, ArgsError> {
    match v {
        ParsedInputValue::Single(PrismaValue::Int(i)) => Ok(Option::Some(i)),
        ParsedInputValue::Single(PrismaValue::Null) => Ok(Option::None),
        _ => Err(ArgsError::Plain(ErrorDesc::Input(integer_expected_message()))),
    }
}

/// The `take` that an input gives: a number, or all records for null.
pub open spec fn take_spec(v: ParsedInputValue) -> Result<Take, ArgsError> {
    match optional_int_spec(v) {
        Ok(Option::Some(i)) => Ok(Take::Number(i)),
        Ok(Option::None) => Ok(Take::All),
        Err(e) => Err(e),
    }
}

/// The message for a negative `skip`.
pub open spec fn negative_skip_message(i: i64) -> Seq<char> {
    "Invalid value for skip argument: Value can only be positive, found: "@ + signed_decimal(i as int)
}

/// The `skip` that an input gives: a number that is not negative, or none for null.
pub open spec fn skip_spec(v: ParsedInputValue) -> Result<Option<i64>, ArgsError> {
    match optional_int_spec(v) {
        Ok(Option::Some(i)) => if i < 0 {
            Err(ArgsError::Plain(ErrorDesc::Assertion(negative_skip_message(i))))
        } else {
            Ok(Option::Some(i))
        },
        Ok(Option::None) => Ok(Option::None),
        Err(e) => Err(e),
    }
}

/// The relation load strategy that an input names.
pub open spec fn strategy_spec(v: ParsedInputValue) -> Result<RelationLoadStrategy, ArgsError> {
    match input_text(v) {
        Option::Some(t) => if t == constants::JOIN@ {
            Ok(RelationLoadStrategy::Join)
        } else if t == constants::QUERY@ {
            Ok(RelationLoadStrategy::Query)
        } else {
            Err(ArgsError::Plain(ErrorDesc::Input(strategy_expected_message())))
        },
        Option::None => Err(ArgsError::Plain(ErrorDesc::Input(strategy_expected_message()))),
    }
}

/// A `skip` is never negative: a whole number is skipped where it is not negative and refused
/// where it is, null skips nothing; a `take` keeps the whole number it is given, negative ones
/// included, and null takes all records.
pub proof fn lemma_take_and_skip(i: i64)
    ensures
        skip_spec(ParsedInputValue::Single(PrismaValue::Int(i))) is Ok <==> i >= 0,
        i >= 0 ==> skip_spec(ParsedInputValue::Single(PrismaValue::Int(i))) == Ok::<Option<i64>, ArgsError>(
            Option::Some(i),
        ),
        skip_spec(ParsedInputValue::Single(PrismaValue::Null)) == Ok::<Option<i64>, ArgsError>(Option::None),
        take_spec(ParsedInputValue::Single(PrismaValue::Int(i))) == Ok::<Take, ArgsError>(Take::Number(i)),
        take_spec(ParsedInputValue::Single(PrismaValue::Null)) == Ok::<Take, ArgsError>(Take::All),
{
}

/// The strategy names: the text `query` names loading relations by separate queries, the
/// text `join` loading them by joins, and no other input names a strategy.
pub proof fn lemma_strategy_names(v: ParsedInputValue)
    ensures
        strategy_spec(v) == Ok::<RelationLoadStrategy, ArgsError>(RelationLoadStrategy::Query) <==> input_text(v)
            == Option::Some("query"@),
        strategy_spec(v) == Ok::<RelationLoadStrategy, ArgsError>(RelationLoadStrategy::Join) <==> input_text(v)
            == Option::Some("join"@),
        strategy_spec(v) is Ok <==> (input_text(v) == Option::Some("query"@) || input_text(v) == Option::Some(
            "join"@,
        )),
{
    reveal_strlit("query");
    reveal_strlit("join");
    assert("query"@ != "join"@) by {
        assert("query"@.len() != "join"@.len());
    }
}

fn optional_int(v: ParsedInputValue) -> (r: Result<Option<i64>, QueryGraphBuilderError>)
    ensures
        match optional_int_spec(v) {
            Ok(x) => r == Ok::<Option<i64>, QueryGraphBuilderError>(x),
            Err(e) => r matches Err(x) && args_error_is(x, e),
        },
{
    match v {
        ParsedInputValue::Single(PrismaValue::Int(i)) => Ok(Option::Some(i)),
        ParsedInputValue::Single(PrismaValue::Null) => Ok(Option::None),
        _ => Err(QueryGraphBuilderError::InputError(text("Expected an integer or null."))),
    }
}

/// The `take` of a query.
pub fn extract_take(value: ParsedInputValue) -> (r: Result<Take, QueryGraphBuilderError>)
    ensures
        match take_spec(value) {
            Ok(t) => r == Ok::<Take, QueryGraphBuilderError>(t),
            Err(e) => r matches Err(x) && args_error_is(x, e),
        },
{
    match optional_int(value) {
        Ok(Option::Some(i)) => Ok(Take::Number(i)),
        Ok(Option::None) => Ok(Take::All),
        Err(e) => Err(e),
    }
}

/// The `skip` of a query: it cannot be negative.
pub fn extract_skip(value: ParsedInputValue) -> (r: Result<Option<i64>, QueryGraphBuilderError>)
    ensures
        match skip_spec(value) {
            Ok(x) => r == Ok::<Option<i64>, QueryGraphBuilderError>(x),
            Err(e) => r matches Err(x) && args_error_is(x, e),
        },
{
    match optional_int(value) {
        Ok(Option::Some(val)) => if val < 0 {
            let mut m = text("Invalid value for skip argument: Value can only be positive, found: ");
            push_signed_decimal(&mut m, val);
            Err(QueryGraphBuilderError::AssertionError(m))
        } else {
            Ok(Option::Some(val))
        },
        Ok(Option::None) => Ok(Option::None),
        Err(e) => Err(e),
    }
}

/// The relation load strategy that an input names.
pub fn extract_relation_load_strategy(value: ParsedInputValue) -> (r: Result<RelationLoadStrategy, QueryGraphBuilderError>)
    ensures
        match strategy_spec(value) {
            Ok(x) => r == Ok::<RelationLoadStrategy, QueryGraphBuilderError>(x),
            Err(e) => r matches Err(x) && args_error_is(x, e),
        },
{
    match value.into_text() {
        Option::Some(t) => if str_eq(t.as_str(), constants::JOIN) {
            Ok(RelationLoadStrategy::Join)
        } else if str_eq(t.as_str(), constants::QUERY) {
            Ok(RelationLoadStrategy::Query)
        } else {
            Err(QueryGraphBuilderError::InputError(text("Expected a relation load strategy, `join` or `query`.")))
        },
        Option::None => Err(QueryGraphBuilderError::InputError(text("Expected a relation load strategy, `join` or `query`."))),
    }
}

/// The scalar field of `model` that a `distinct` element references (by its name), if it
/// references one.
pub open spec fn distinct_ref(model: Container, v: ParsedInputValue) -> Option<Seq<char>> {
    match input_text(v) {
        Option::Some(t) => if names_scalar(model, t) {
            Option::Some(t)
        } else {
            Option::None
        },
        Option::None => Option::None,
    }
}

/// The message of the error for a `distinct` element that references no scalar field.
pub open spec fn not_a_field_ref_message(v: ParsedInputValue) -> Seq<char> {
    "Expected a reference to a scalar field, found: "@ + shown_input(v)
}

/// The scalar fields that the first `k` elements of a `distinct` list reference, or the error
/// for the first element that references none.
pub open spec fn distinct_list_spec(model: Container, l: Seq<ParsedInputValue>, k: nat) -> Result<
    Seq<Seq<char>>,
    ErrorDesc,
>
    decreases k,
{
    if k == 0 {
        Ok(Seq::empty())
    } else {
        match distinct_list_spec(model, l, (k - 1) as nat) {
            Err(e) => Err(e),
            Ok(fs) => match distinct_ref(model, l[k - 1]) {
                Option::Some(t) => Ok(fs.push(t)),
                Option::None => Err(ErrorDesc::Input(not_a_field_ref_message(l[k - 1]))),
            },
        }
    }
}

/// The scalar fields of `model` that a `distinct` input references: each element of a list,
/// where an element that references no scalar field is an error, or the one field that a
/// single reference names. `None` for a single value that references no scalar field, which
/// the validation of the query document rules out.
pub open spec fn distinct_spec(model: Container, v: ParsedInputValue) -> Option<Result<Seq<Seq<char>>, ErrorDesc>> {
    match v {
        ParsedInputValue::List(l) => Option::Some(distinct_list_spec(model, l@, l@.len())),
        _ => match distinct_ref(model, v) {
            Option::Some(t) => Option::Some(Ok(seq![t])),
            Option::None => Option::None,
        },
    }
}

proof fn lemma_distinct_err(model: Container, l: Seq<ParsedInputValue>, k: nat, k2: nat)
    requires
        distinct_list_spec(model, l, k) is Err,
        k <= k2,
    ensures
        distinct_list_spec(model, l, k2) == distinct_list_spec(model, l, k),
    decreases k2 - k,
{
    if k < k2 {
        lemma_distinct_err(model, l, k, (k2 - 1) as nat);
    }
}

/// The scalar fields that a `distinct` input selects, or the error for an element of a list
/// that references no scalar field.
pub fn extract_distinct(value: ParsedInputValue, model: &Container) -> (r: Result<Vec<String>, QueryGraphBuilderError>)
    requires
        distinct_spec(*model, value) is Some,
    ensures
        match distinct_spec(*model, value)->Some_0 {
            Ok(fs) => r matches Ok(v) && names(v@) == fs,
            Err(e) => r matches Err(x) && error_is(x, e),
        },
{
    match value {
        ParsedInputValue::List(list) => {
            let ghost l = list@;
            let mut out: Vec<String> = Vec::new();
            proof { assert(names(out@) =~= Seq::<Seq<char>>::empty()); }
            for v in it: list.into_iter()
                invariant
                    it.seq() == l,
                    distinct_list_spec(*model, l, it.index() as nat) == Ok::<Seq<Seq<char>>, ErrorDesc>(names(out@)),
                    distinct_spec(*model, value) == Option::Some(distinct_list_spec(*model, l, l.len())),
            {
                let ghost i = it.index() as int;
                let ghost gv = v;
                let shown = v.debug_text();
                match v.into_text() {
                    Option::Some(t) => if is_scalar_of(model, t.as_str()) {
                        let ghost prev = out@;
                        out.push(t);
                        proof {
                            assert(gv == l[i]);
                            assert(names(out@) =~= names(prev).push(out@.last()@));
                        }
                    } else {
                        let mut m = text("Expected a reference to a scalar field, found: ");
                        m.append(shown.as_str());
                        proof {
                            assert(gv == l[i]);
                            assert(distinct_ref(*model, l[i]) is None);
                            assert(m@ == not_a_field_ref_message(l[i]));
                            assert(distinct_list_spec(*model, l, (i + 1) as nat) == Err::<Seq<Seq<char>>, ErrorDesc>(
                                ErrorDesc::Input(not_a_field_ref_message(l[i])),
                            ));
                            lemma_distinct_err(*model, l, (i + 1) as nat, l.len());
                        }
                        return Err(QueryGraphBuilderError::InputError(m));
                    },
                    Option::None => {
                        let mut m = text("Expected a reference to a scalar field, found: ");
                        m.append(shown.as_str());
                        proof {
                            assert(gv == l[i]);
                            assert(distinct_ref(*model, l[i]) is None);
                            assert(m@ == not_a_field_ref_message(l[i]));
                            assert(distinct_list_spec(*model, l, (i + 1) as nat) == Err::<Seq<Seq<char>>, ErrorDesc>(
                                ErrorDesc::Input(not_a_field_ref_message(l[i])),
                            ));
                            lemma_distinct_err(*model, l, (i + 1) as nat, l.len());
                        }
                        return Err(QueryGraphBuilderError::InputError(m));
                    },
                }
            }
            Ok(out)
        },
        v => {
            let mut out: Vec<String> = Vec::new();
            out.push(v.into_text().unwrap());
            proof { assert(names(out@) =~= seq![names(out@)[0]]); }
            Ok(out)
        },
    }
}

/// The values of the fields `fs[..k]` of a compound cursor, taken out of its object `es`
/// one by one, with what is left of the object. `None` where a field is missing.
pub open spec fn compound_pairs_spec(fs: Seq<Seq<char>>, es: Seq<(String, ParsedInputValue)>, k: nat) -> Option<
    (Seq<(Seq<char>, ParsedInputValue)>, Seq<(String, ParsedInputValue)>),
>
    decreases k,
{
    if k == 0 {
        Option::Some((Seq::empty(), es))
    } else {
        match compound_pairs_spec(fs, es, (k - 1) as nat) {
            Option::None => Option::None,
            Option::Some((ps, rest)) => if k - 1 < fs.len() {
                match key_index(rest, fs[k - 1]) {
                    Option::None => Option::None,
                    Option::Some(i) => Option::Some((ps.push((fs[k - 1], rest[i].1)), swapped_out(rest, i))),
                }
            } else {
                Option::None
            },
        }
    }
}

/// The message for a cursor key that names neither a scalar field nor a compound unique.
pub open spec fn unresolved_cursor_message(name: Seq<char>, model: Seq<char>) -> Seq<char> {
    "Unable to resolve field "@ + name + " to a field or a set of fields on model "@ + model
}

/// The field values of the cursor entry `name`, `v` on `model`: the value of a scalar field,
/// or the values of the fields of a compound unique, taken out of an object.
pub open spec fn cursor_entry_spec(model: Container, name: Seq<char>, v: ParsedInputValue) -> Option<
    Result<Seq<(Seq<char>, ParsedInputValue)>, ArgsError>,
> {
    if names_scalar(model, name) {
        Option::Some(Ok(seq![(name, v)]))
    } else {
        match compound_fields(model, name) {
            Option::Some(fs) => match v {
                ParsedInputValue::Object(m) => match compound_pairs_spec(fs, m.entries@, fs.len()) {
                    Option::None => Option::None,
                    Option::Some((ps, _)) => Option::Some(Ok(ps)),
                },
                _ => Option::Some(Err(object_expected())),
            },
            Option::None => Option::Some(
                Err(ArgsError::Plain(ErrorDesc::Assertion(unresolved_cursor_message(name, model.name@)))),
            ),
        }
    }
}

/// The field values of the first `k` entries of a cursor object, in order.
#[verifier::opaque]
pub open spec fn cursor_entries_spec(model: Container, es: Seq<(String, ParsedInputValue)>, k: nat) -> Option<
    Result<Seq<(Seq<char>, ParsedInputValue)>, ArgsError>,
>
    decreases k,
{
    if k == 0 {
        Option::Some(Ok(Seq::empty()))
    } else {
        match cursor_entries_spec(model, es, (k - 1) as nat) {
            Option::None => Option::None,
            Option::Some(Err(e)) => Option::Some(Err(e)),
            Option::Some(Ok(ps)) => if k - 1 < es.len() {
                match cursor_entry_spec(model, es[k - 1].0@, es[k - 1].1) {
                    Option::None => Option::None,
                    Option::Some(Err(e)) => Option::Some(Err(e)),
                    Option::Some(Ok(more)) => Option::Some(Ok(ps + more)),
                }
            } else {
                Option::None
            },
        }
    }
}

/// The field values of a `cursor` input on `model`: an object of cursor entries.
pub open spec fn cursor_spec(model: Container, v: ParsedInputValue) -> Option<
    Result<Seq<(Seq<char>, ParsedInputValue)>, ArgsError>,
> {
    match v {
        ParsedInputValue::Object(m) => cursor_entries_spec(model, m.entries@, m.entries@.len()),
        _ => Option::Some(Err(object_expected())),
    }
}

/// `v` holds the field values that `d` describes: the same names, and each value the
/// conversion of the input.
pub open spec fn pairs_described(v: Seq<(String, PrismaValue)>, d: Seq<(Seq<char>, ParsedInputValue)>) -> bool {
    &&& v.len() == d.len()
    &&& forall|i: int| 0 <= i < d.len() ==> (#[trigger] v[i]).0@ == d[i].0 && converts(d[i].1, v[i].1)
}

/// `r` is the outcome that `s` describes.
pub open spec fn pairs_result(
    r: Result<Vec<(String, PrismaValue)>, QueryGraphBuilderError>,
    s: Result<Seq<(Seq<char>, ParsedInputValue)>, ArgsError>,
) -> bool {
    match s {
        Ok(d) => r matches Ok(v) && pairs_described(v@, d),
        Err(e) => r matches Err(x) && args_error_is(x, e),
    }
}

proof fn lemma_cursor_step(model: Container, es: Seq<(String, ParsedInputValue)>, k: nat, ps: Seq<(Seq<char>, ParsedInputValue)>)
    requires
        k < es.len(),
        cursor_entries_spec(model, es, k) == Option::Some(Ok::<Seq<(Seq<char>, ParsedInputValue)>, ArgsError>(ps)),
    ensures
        cursor_entries_spec(model, es, k + 1) == match cursor_entry_spec(model, es[k as int].0@, es[k as int].1) {
            Option::None => Option::None,
            Option::Some(Err(e)) => Option::Some(Err(e)),
            Option::Some(Ok(more)) => Option::Some(Ok(ps + more)),
        },
{
    reveal_with_fuel(cursor_entries_spec, 2);
}

proof fn lemma_cursor_none_stays(model: Container, es: Seq<(String, ParsedInputValue)>, k: nat, n: nat)
    requires
        k <= n,
        cursor_entries_spec(model, es, k) is None,
    ensures
        cursor_entries_spec(model, es, n) is None,
    decreases n - k,
{
    reveal_with_fuel(cursor_entries_spec, 2);
    if k < n {
        lemma_cursor_none_stays(model, es, (k + 1) as nat, n);
    }
}

proof fn lemma_cursor_err_stays(model: Container, es: Seq<(String, ParsedInputValue)>, k: nat, n: nat)
    requires
        k <= n,
        cursor_entries_spec(model, es, k) matches Option::Some(Err(_)),
    ensures
        cursor_entries_spec(model, es, n) == cursor_entries_spec(model, es, k),
    decreases n - k,
{
    reveal_with_fuel(cursor_entries_spec, 2);
    if k < n {
        lemma_cursor_err_stays(model, es, (k + 1) as nat, n);
    }
}

proof fn lemma_compound_none_stays(fs: Seq<Seq<char>>, es: Seq<(String, ParsedInputValue)>, k: nat, n: nat)
    requires
        k <= n,
        compound_pairs_spec(fs, es, k) is None,
    ensures
        compound_pairs_spec(fs, es, n) is None,
    decreases n - k,
{
    if k < n {
        lemma_compound_none_stays(fs, es, (k + 1) as nat, n);
    }
}

/// The value of a cursor field.
pub fn extract_cursor_field(field: String, input_value: ParsedInputValue) -> (r: Result<
    Vec<(String, PrismaValue)>,
    QueryGraphBuilderError,
>)
    ensures
        pairs_result(r, Ok(seq![(field@, input_value)])),
{
    let ghost gv = input_value;
    let value = input_value.into_prisma_value();
    let mut out: Vec<(String, PrismaValue)> = Vec::new();
    out.push((field, value));
    proof {
        assert(converts(gv, out@[0].1));
    }
    Ok(out)
}

/// The values of the fields of a compound cursor, taken out of its object.
pub fn extract_compound_cursor_field(fields: Vec<String>, input_value: ParsedInputValue) -> (r: Result<
    Vec<(String, PrismaValue)>,
    QueryGraphBuilderError,
>)
    requires
        input_value matches ParsedInputValue::Object(m) ==> compound_pairs_spec(names(fields@), m.entries@, fields@.len()) is Some,
    ensures
        match input_value {
            ParsedInputValue::Object(m) => pairs_result(
                r,
                Ok(compound_pairs_spec(names(fields@), m.entries@, fields@.len())->Some_0.0),
            ),
            _ => pairs_result(r, Err(object_expected())),
        },
{
    let mut map = match input_value {
        ParsedInputValue::Object(m) => m,
        _ => return Err(expected_object_error()),
    };
    let ghost es = map.entries@;
    let ghost fs = names(fields@);
    let ghost n = fields@.len();
    let mut pairs: Vec<(String, PrismaValue)> = Vec::new();
    let ghost mut ps: Seq<(Seq<char>, ParsedInputValue)> = Seq::empty();
    for field in it: fields.into_iter()
        invariant
            fs == names(it.seq()),
            n == it.seq().len(),
            compound_pairs_spec(fs, es, n) is Some,
            compound_pairs_spec(fs, es, it.index() as nat) == Option::Some((ps, map.entries@)),
            pairs_described(pairs@, ps),
    {
        let ghost i = it.index() as int;
        let ghost rest = map.entries@;
        assert(fs[i] == field@);
        if map.get(field.as_str()).is_none() {
            proof { lemma_compound_none_stays(fs, es, (i + 1) as nat, n); }
        }
        let v = map.swap_remove(field.as_str()).unwrap();
        let ghost gv = v;
        let p = v.into_prisma_value();
        let ghost k = pairs@.len() as int;
        pairs.push((field, p));
        proof {
            ps = ps.push((fs[i], gv));
            assert(pairs@[k].0@ == ps[k].0 && converts(ps[k].1, pairs@[k].1));
        }
    }
    Ok(pairs)
}

fn cursor_entry(model: &Container, name: String, v: ParsedInputValue) -> (r: Result<
    Vec<(String, PrismaValue)>,
    QueryGraphBuilderError,
>)
    requires
        cursor_entry_spec(*model, name@, v) is Some,
    ensures
        pairs_result(r, cursor_entry_spec(*model, name@, v)->Some_0),
{
    let is_scalar = match model.find_field(name.as_str()) {
        Option::Some(Field::Scalar(_)) => true,
        _ => false,
    };
    assert(is_scalar == names_scalar(*model, name@));
    if is_scalar {
        return extract_cursor_field(name, v);
    }
    match resolve_compound_field(name.as_str(), model) {
        Option::Some(fields) => extract_compound_cursor_field(fields, v),
        Option::None => {
            let mut m = text("Unable to resolve field ");
            m.append(name.as_str());
            m.append(" to a field or a set of fields on model ");
            m.append(model.name.as_str());
            Err(QueryGraphBuilderError::AssertionError(m))
        },
    }
}

/// The field values of a `cursor` input on `model`, in the order of its entries.
pub fn extract_cursor(value: ParsedInputValue, model: &Container) -> (r: Result<
    Option<Vec<(String, PrismaValue)>>,
    QueryGraphBuilderError,
>)
    requires
        cursor_spec(*model, value) is Some,
    ensures
        match cursor_spec(*model, value)->Some_0 {
            Ok(d) => r matches Ok(Option::Some(v)) && pairs_described(v@, d),
            Err(e) => r matches Err(x) && args_error_is(x, e),
        },
{
    let input_map = match value {
        ParsedInputValue::Object(m) => m,
        _ => return Err(expected_object_error()),
    };
    let ghost es = input_map.entries@;
    let ghost n = es.len();
    let mut pairs: Vec<(String, PrismaValue)> = Vec::new();
    let ghost mut ps: Seq<(Seq<char>, ParsedInputValue)> = Seq::empty();
    proof { reveal_with_fuel(cursor_entries_spec, 1); }
    for e in it: input_map.entries.into_iter()
        invariant
            it.seq() == es,
            n == es.len(),
            cursor_spec(*model, value) == cursor_entries_spec(*model, es, n),
            cursor_entries_spec(*model, es, n) is Some,
            cursor_entries_spec(*model, es, it.index() as nat) == Option::Some(
                Ok::<Seq<(Seq<char>, ParsedInputValue)>, ArgsError>(ps),
            ),
            pairs_described(pairs@, ps),
    {
        let ghost i = it.index() as int;
        let (field_name, map_value) = e;
        proof {
            lemma_cursor_step(*model, es, i as nat, ps);
            if cursor_entry_spec(*model, field_name@, map_value) is None {
                lemma_cursor_none_stays(*model, es, (i + 1) as nat, n);
            }
        }
        let ghost more_d = cursor_entry_spec(*model, field_name@, map_value);
        match cursor_entry(model, field_name, map_value) {
            Ok(more) => {
                let ghost before = pairs@;
                let ghost mv = more@;
                let mut more = more;
                pairs.append(&mut more);
                proof {
                    let md = more_d->Some_0->Ok_0;
                    assert(pairs_described(mv, md));
                    assert(pairs@ =~= before + mv);
                    let nps = ps + md;
                    assert forall|j: int| 0 <= j < nps.len() implies (#[trigger] pairs@[j]).0@ == nps[j].0 && converts(
                        nps[j].1,
                        pairs@[j].1,
                    ) by {
                        if j < ps.len() {
                            assert(pairs@[j] == before[j]);
                        } else {
                            assert(pairs@[j] == mv[j - ps.len()]);
                            assert(mv[j - ps.len()].0@ == md[j - ps.len()].0);
                        }
                    }
                    ps = nps;
                }
            },
            Err(x) => {
                proof { lemma_cursor_err_stays(*model, es, (i + 1) as nat, n); }
                return Err(x);
            },
        }
    }
    Ok(Option::Some(pairs))
}

/// The arguments of a read of the records of a model.
#[derive(Debug)]
pub struct QueryArguments {
    pub model: String,
    pub cursor: Option<Vec<(String, PrismaValue)>>,
    pub take: Take,
    pub skip: Option<i64>,
    pub filter: Option<Filter>,
    pub order_by: Vec<OrderByItem>,
    pub distinct: Option<Vec<String>>,
    pub relation_load_strategy: Option<RelationLoadStrategy>,
}

/// The arguments of a read, over plain values.
pub struct ArgsDesc {
    pub cursor: Option<Seq<(Seq<char>, ParsedInputValue)>>,
    pub take: Take,
    pub skip: Option<i64>,
    pub filter: Option<FilterDesc>,
    pub order_by: Seq<OrderDesc>,
    pub distinct: Option<Seq<Seq<char>>>,
    pub relation_load_strategy: Option<RelationLoadStrategy>,
}

/// `a` holds the arguments that `d` describes, on the model named `model`.
pub open spec fn args_described(a: QueryArguments, model: Seq<char>, d: ArgsDesc) -> bool {
    &&& a.model@ == model
    &&& (a.cursor is None <==> d.cursor is None)
    &&& (a.cursor matches Option::Some(v) ==> pairs_described(v@, d.cursor->Some_0))
    &&& a.take == d.take
    &&& a.skip == d.skip
    &&& (a.filter is None <==> d.filter is None)
    &&& (a.filter matches Option::Some(f) ==> described(f, d.filter->Some_0))
    &&& orders_described(a.order_by@, d.order_by)
    &&& (a.distinct is None <==> d.distinct is None)
    &&& (a.distinct matches Option::Some(v) ==> names(v@) == d.distinct->Some_0)
    &&& a.relation_load_strategy == d.relation_load_strategy
}

/// No argument given.
pub open spec fn no_args() -> ArgsDesc {
    ArgsDesc {
        cursor: Option::None,
        take: Take::All,
        skip: Option::None,
        filter: Option::None,
        order_by: Seq::empty(),
        distinct: Option::None,
        relation_load_strategy: Option::None,
    }
}

/// The arguments `d` once the argument `name`, `v` on `model` is read: each known argument
/// replaces what it sets (a null `where` sets nothing); other names change nothing.
pub open spec fn arg_spec(dm: DataModel, model: Container, d: ArgsDesc, name: Seq<char>, v: ParsedInputValue) -> Option<
    Result<ArgsDesc, ArgsError>,
> {
    if name == constants::CURSOR@ {
        match cursor_spec(model, v) {
            Option::None => Option::None,
            Option::Some(Err(e)) => Option::Some(Err(e)),
            Option::Some(Ok(ps)) => Option::Some(Ok(ArgsDesc { cursor: Option::Some(ps), ..d })),
        }
    } else if name == constants::TAKE@ {
        match take_spec(v) {
            Err(e) => Option::Some(Err(e)),
            Ok(t) => Option::Some(Ok(ArgsDesc { take: t, ..d })),
        }
    } else if name == constants::SKIP@ {
        match skip_spec(v) {
            Err(e) => Option::Some(Err(e)),
            Ok(x) => Option::Some(Ok(ArgsDesc { skip: x, ..d })),
        }
    } else if name == constants::ORDER_BY@ {
        match order_by_spec(dm, model, v) {
            Option::None => Option::None,
            Option::Some(Err(e)) => Option::Some(Err(e)),
            Option::Some(Ok(os)) => Option::Some(Ok(ArgsDesc { order_by: os, ..d })),
        }
    } else if name == constants::DISTINCT@ {
        match distinct_spec(model, v) {
            Option::None => Option::None,
            Option::Some(Err(e)) => Option::Some(Err(ArgsError::Plain(e))),
            Option::Some(Ok(fs)) => Option::Some(Ok(ArgsDesc { distinct: Option::Some(fs), ..d })),
        }
    } else if name == constants::WHERE@ {
        match v {
            ParsedInputValue::Single(PrismaValue::Null) => Option::Some(Ok(d)),
            ParsedInputValue::Object(m) => match extract_spec(dm, model, m) {
                Ok(f) => Option::Some(Ok(ArgsDesc { filter: Option::Some(f), ..d })),
                Err(e) => Option::Some(Err(ArgsError::Plain(e))),
            },
            _ => Option::Some(Err(object_expected())),
        }
    } else if name == constants::RELATION_LOAD_STRATEGY@ {
        match strategy_spec(v) {
            Err(e) => Option::Some(Err(e)),
            Ok(x) => Option::Some(Ok(ArgsDesc { relation_load_strategy: Option::Some(x), ..d })),
        }
    } else {
        Option::Some(Ok(d))
    }
}

/// Each query argument sets only what it names: reading an argument changes the cursor only
/// for `cursor`, the `take` only for `take`, the `skip` only for `skip`, the ordering only for
/// `orderBy`, the distinct fields only for `distinct`, the filter only for `where`, and the
/// relation load strategy only for `relationLoadStrategy`.
pub proof fn lemma_argument_names(dm: DataModel, model: Container, d: ArgsDesc, name: Seq<char>, v: ParsedInputValue)
    ensures
        arg_spec(dm, model, d, name, v) matches Option::Some(Ok(e)) && e.cursor != d.cursor ==> name == "cursor"@,
        arg_spec(dm, model, d, name, v) matches Option::Some(Ok(e)) && e.take != d.take ==> name == "take"@,
        arg_spec(dm, model, d, name, v) matches Option::Some(Ok(e)) && e.skip != d.skip ==> name == "skip"@,
        arg_spec(dm, model, d, name, v) matches Option::Some(Ok(e)) && e.order_by != d.order_by ==> name == "orderBy"@,
        arg_spec(dm, model, d, name, v) matches Option::Some(Ok(e)) && e.distinct != d.distinct ==> name == "distinct"@,
        arg_spec(dm, model, d, name, v) matches Option::Some(Ok(e)) && e.filter != d.filter ==> name == "where"@,
        arg_spec(dm, model, d, name, v) matches Option::Some(Ok(e)) && e.relation_load_strategy != d.relation_load_strategy ==> name == "relationLoadStrategy"@,
{
    reveal_strlit("cursor");
    reveal_strlit("take");
    reveal_strlit("skip");
    reveal_strlit("orderBy");
    reveal_strlit("distinct");
    reveal_strlit("where");
    reveal_strlit("relationLoadStrategy");
    assert("cursor"@.len() == 6);
    assert("cursor"@[0] == 'c');
    assert("cursor"@[1] == 'u');
    assert("cursor"@[2] == 'r');
    assert("cursor"@[3] == 's');
    assert("cursor"@[4] == 'o');
    assert("cursor"@[5] == 'r');
    assert("take"@.len() == 4);
    assert("take"@[0] == 't');
    assert("take"@[1] == 'a');
    assert("take"@[2] == 'k');
    assert("take"@[3] == 'e');
    assert("skip"@.len() == 4);
    assert("skip"@[0] == 's');
    assert("skip"@[1] == 'k');
    assert("skip"@[2] == 'i');
    assert("skip"@[3] == 'p');
    assert("orderBy"@.len() == 7);
    assert("orderBy"@[0] == 'o');
    assert("orderBy"@[1] == 'r');
    assert("orderBy"@[2] == 'd');
    assert("orderBy"@[3] == 'e');
    assert("orderBy"@[4] == 'r');
    assert("orderBy"@[5] == 'B');
    assert("orderBy"@[6] == 'y');
    assert("distinct"@.len() == 8);
    assert("distinct"@[0] == 'd');
    assert("distinct"@[1] == 'i');
    assert("distinct"@[2] == 's');
    assert("distinct"@[3] == 't');
    assert("distinct"@[4] == 'i');
    assert("distinct"@[5] == 'n');
    assert("distinct"@[6] == 'c');
    assert("distinct"@[7] == 't');
    assert("where"@.len() == 5);
    assert("where"@[0] == 'w');
    assert("where"@[1] == 'h');
    assert("where"@[2] == 'e');
    assert("where"@[3] == 'r');
    assert("where"@[4] == 'e');
    assert("relationLoadStrategy"@.len() == 20);
    assert("relationLoadStrategy"@[0] == 'r');
    assert("relationLoadStrategy"@[1] == 'e');
    assert("relationLoadStrategy"@[2] == 'l');
    assert("relationLoadStrategy"@[3] == 'a');
    assert("relationLoadStrategy"@[4] == 't');
    assert("relationLoadStrategy"@[5] == 'i');
    assert("relationLoadStrategy"@[6] == 'o');
    assert("relationLoadStrategy"@[7] == 'n');
    assert("relationLoadStrategy"@[8] == 'L');
    assert("relationLoadStrategy"@[9] == 'o');
    assert("relationLoadStrategy"@[10] == 'a');
    assert("relationLoadStrategy"@[11] == 'd');
    assert("relationLoadStrategy"@[12] == 'S');
    assert("relationLoadStrategy"@[13] == 't');
    assert("relationLoadStrategy"@[14] == 'r');
    assert("relationLoadStrategy"@[15] == 'a');
    assert("relationLoadStrategy"@[16] == 't');
    assert("relationLoadStrategy"@[17] == 'e');
    assert("relationLoadStrategy"@[18] == 'g');
    assert("relationLoadStrategy"@[19] == 'y');
}

/// The arguments that the first `k` arguments of `args` give, read in order; the first
/// failing argument decides the error.
#[verifier::opaque]
pub open spec fn args_fold_spec(dm: DataModel, model: Container, args: Seq<(String, ParsedInputValue)>, k: nat) -> Option<
    Result<ArgsDesc, ArgsError>,
>
    decreases k,
{
    if k == 0 {
        Option::Some(Ok(no_args()))
    } else {
        match args_fold_spec(dm, model, args, (k - 1) as nat) {
            Option::None => Option::None,
            Option::Some(Err(e)) => Option::Some(Err(e)),
            Option::Some(Ok(d)) => if k - 1 < args.len() {
                arg_spec(dm, model, d, args[k - 1].0@, args[k - 1].1)
            } else {
                Option::None
            },
        }
    }
}

/// The implicit ordering of a model: by each field of its primary identifier, ascending.
pub open spec fn implicit_order(model: Container) -> Seq<OrderDesc> {
    names(model.primary_identifier@).map_values(|f: Seq<char>| ascending_by(f))
}

/// The ascending ordering by the field `f` of the model itself.
pub open spec fn ascending_by(f: Seq<char>) -> OrderDesc {
    OrderDesc::Scalar { field: f, path: Seq::empty(), sort_order: SortOrder::Ascending, nulls_order: Option::None }
}

/// The arguments once finalised: where records are skipped, paged from a cursor or taken,
/// and no ordering is given, they are ordered by the primary identifier of the model.
pub open spec fn finalize_spec(d: ArgsDesc, model: Container) -> ArgsDesc {
    let implicit = ((d.skip matches Option::Some(s) && s > 0) || d.cursor is Some || !(d.take is All))
        && d.order_by.len() == 0;
    if implicit {
        ArgsDesc { order_by: implicit_order(model), ..d }
    } else {
        d
    }
}

/// The query arguments that `args` give on `model`, finalised.
pub open spec fn query_args_spec(dm: DataModel, model: Container, args: Seq<(String, ParsedInputValue)>) -> Option<
    Result<ArgsDesc, ArgsError>,
> {
    match args_fold_spec(dm, model, args, args.len()) {
        Option::None => Option::None,
        Option::Some(Err(e)) => Option::Some(Err(e)),
        Option::Some(Ok(d)) => Option::Some(Ok(finalize_spec(d, model))),
    }
}

/// The arguments page through the records: they skip some, start from a cursor or take a
/// number of them.
pub open spec fn pages(d: ArgsDesc) -> bool {
    (d.skip matches Option::Some(s) && s > 0) || d.cursor is Some || !(d.take is All)
}

/// Finalised arguments that page through the records of a model with a primary identifier
/// are ordered; finalising twice changes nothing more than finalising once; and arguments
/// that do not page, or that name an ordering, are left as they are.
pub proof fn lemma_finalize(d: ArgsDesc, model: Container)
    ensures
        pages(d) && model.primary_identifier@.len() > 0 ==> finalize_spec(d, model).order_by.len() > 0,
        finalize_spec(finalize_spec(d, model), model) == finalize_spec(d, model),
        !pages(d) || d.order_by.len() > 0 ==> finalize_spec(d, model) == d,
{
    assert(implicit_order(model).len() == model.primary_identifier@.len());
}

proof fn lemma_args_step(dm: DataModel, model: Container, args: Seq<(String, ParsedInputValue)>, k: nat, d: ArgsDesc)
    requires
        k < args.len(),
        args_fold_spec(dm, model, args, k) == Option::Some(Ok::<ArgsDesc, ArgsError>(d)),
    ensures
        args_fold_spec(dm, model, args, k + 1) == arg_spec(dm, model, d, args[k as int].0@, args[k as int].1),
{
    reveal_with_fuel(args_fold_spec, 2);
}

proof fn lemma_args_none_stays(dm: DataModel, model: Container, args: Seq<(String, ParsedInputValue)>, k: nat, n: nat)
    requires
        k <= n,
        args_fold_spec(dm, model, args, k) is None,
    ensures
        args_fold_spec(dm, model, args, n) is None,
    decreases n - k,
{
    reveal_with_fuel(args_fold_spec, 2);
    if k < n {
        lemma_args_none_stays(dm, model, args, (k + 1) as nat, n);
    }
}

proof fn lemma_args_err_stays(dm: DataModel, model: Container, args: Seq<(String, ParsedInputValue)>, k: nat, n: nat)
    requires
        k <= n,
        args_fold_spec(dm, model, args, k) matches Option::Some(Err(_)),
    ensures
        args_fold_spec(dm, model, args, n) == args_fold_spec(dm, model, args, k),
    decreases n - k,
{
    reveal_with_fuel(args_fold_spec, 2);
    if k < n {
        lemma_args_err_stays(dm, model, args, (k + 1) as nat, n);
    }
}

impl QueryArguments {
    /// No arguments on the model named `model`.
    pub fn new(model: &str) -> (a: QueryArguments)
        ensures
            args_described(a, model@, no_args()),
    {
        QueryArguments {
            model: text(model),
            cursor: Option::None,
            take: Take::All,
            skip: Option::None,
            filter: Option::None,
            order_by: Vec::new(),
            distinct: Option::None,
            relation_load_strategy: Option::None,
        }
    }
}

/// Reads the argument `name`, `value` into `args`.
fn apply_arg(
    args: &mut QueryArguments,
    name: String,
    value: ParsedInputValue,
    model: &Container,
    dm: &DataModel,
    Ghost(d): Ghost<ArgsDesc>,
) -> (r: Result<(), QueryGraphBuilderError>)
    requires
        args_described(*old(args), model.name@, d),
        arg_spec(*dm, *model, d, name@, value) is Some,
    ensures
        match arg_spec(*dm, *model, d, name@, value)->Some_0 {
            Ok(d2) => r is Ok && args_described(*final(args), model.name@, d2),
            Err(e) => r matches Err(x) && args_error_is(x, e),
        },
{
    if str_eq(name.as_str(), constants::CURSOR) {
        match extract_cursor(value, model) {
            Ok(c) => {
                args.cursor = c;
                Ok(())
            },
            Err(e) => Err(e),
        }
    } else if str_eq(name.as_str(), constants::TAKE) {
        match extract_take(value) {
            Ok(t) => {
                args.take = t;
                Ok(())
            },
            Err(e) => Err(e),
        }
    } else if str_eq(name.as_str(), constants::SKIP) {
        match extract_skip(value) {
            Ok(x) => {
                args.skip = x;
                Ok(())
            },
            Err(e) => Err(e),
        }
    } else if str_eq(name.as_str(), constants::ORDER_BY) {
        match extract_order_by(model, value, dm) {
            Ok(os) => {
                args.order_by = os;
                Ok(())
            },
            Err(e) => Err(e),
        }
    } else if str_eq(name.as_str(), constants::DISTINCT) {
        match extract_distinct(value, model) {
            Ok(fs) => {
                args.distinct = Option::Some(fs);
                Ok(())
            },
            Err(e) => Err(e),
        }
    } else if str_eq(name.as_str(), constants::WHERE) {
        match value {
            ParsedInputValue::Single(PrismaValue::Null) => Ok(()),
            ParsedInputValue::Object(m) => match extract_filter(m, model, dm) {
                Ok(f) => {
                    args.filter = Option::Some(f);
                    Ok(())
                },
                Err(e) => Err(e),
            },
            _ => Err(expected_object_error()),
        }
    } else if str_eq(name.as_str(), constants::RELATION_LOAD_STRATEGY) {
        match extract_relation_load_strategy(value) {
            Ok(x) => {
                args.relation_load_strategy = Option::Some(x);
                Ok(())
            },
            Err(e) => Err(e),
        }
    } else {
        Ok(())
    }
}

/// Orders `args` by the primary identifier of `model` where they skip records, page from a
/// cursor or take records without naming an ordering.
fn finalize_arguments(args: QueryArguments, model: &Container, Ghost(d): Ghost<ArgsDesc>) -> (r: QueryArguments)
    requires
        args_described(args, model.name@, d),
    ensures
        args_described(r, model.name@, finalize_spec(d, *model)),
{
    let mut args = args;
    let skips = match args.skip {
        Option::Some(s) => s > 0,
        Option::None => false,
    };
    let implicit = (skips || args.cursor.is_some() || args.take.is_some()) && args.order_by.len() == 0;
    if implicit {
        let ids = &model.primary_identifier;
        let n = ids.len();
        let mut order_by: Vec<OrderByItem> = Vec::new();
        let mut i: usize = 0;
        assert(implicit_order(*model).len() == names(ids@).len());
        while i < n
            invariant
                n == ids@.len(),
                ids@ == model.primary_identifier@,
                n == implicit_order(*model).len(),
                i <= n,
                orders_described(order_by@, implicit_order(*model).take(i as int)),
            decreases n - i,
        {
            let ghost prev = order_by@;
            let field = ids[i].clone();
            let path: Vec<String> = Vec::new();
            assert(field@ == names(ids@)[i as int]);
            assert(names(path@) =~= Seq::<Seq<char>>::empty());
            order_by.push(
                OrderByItem::Scalar {
                    field,
                    path,
                    sort_order: SortOrder::Ascending,
                    nulls_order: Option::None,
                },
            );
            proof {
                let io = implicit_order(*model);
                assert(io.take(i + 1) =~= io.take(i as int).push(io[i as int]));
                assert(io[i as int] == ascending_by(names(ids@)[i as int]));
                assert(order_by@[i as int] == OrderByItem::Scalar {
                    field,
                    path,
                    sort_order: SortOrder::Ascending,
                    nulls_order: Option::None,
                });
                assert(order_described(order_by@[i as int], io[i as int]));
                assert forall|j: int| 0 <= j < i + 1 implies #[trigger] order_described(order_by@[j], io.take(i + 1)[j]) by {
                    if j < i {
                        assert(order_by@[j] == prev[j]);
                    }
                }
            }
            i = i + 1;
        }
        proof { assert(implicit_order(*model).take(n as int) =~= implicit_order(*model)); }
        args.order_by = order_by;
    }
    args
}

/// The arguments of a read of the records of `model`, from the arguments of its field, read
/// in order (a later argument of a name replaces an earlier one), then finalised.
pub fn extract_query_args(arguments: Vec<(String, ParsedInputValue)>, model: &Container, dm: &DataModel) -> (r: Result<
    QueryArguments,
    QueryGraphBuilderError,
>)
    requires
        query_args_spec(*dm, *model, arguments@) is Some,
    ensures
        match query_args_spec(*dm, *model, arguments@)->Some_0 {
            Ok(d) => r matches Ok(a) && args_described(a, model.name@, d),
            Err(e) => r matches Err(x) && args_error_is(x, e),
        },
{
    let ghost es = arguments@;
    let ghost n = es.len();
    let mut result = QueryArguments::new(model.name.as_str());
    let ghost mut d = no_args();
    proof { reveal_with_fuel(args_fold_spec, 1); }
    for arg in it: arguments.into_iter()
        invariant
            it.seq() == es,
            n == es.len(),
            args_fold_spec(*dm, *model, es, n) is Some,
            args_fold_spec(*dm, *model, es, it.index() as nat) == Option::Some(Ok::<ArgsDesc, ArgsError>(d)),
            args_described(result, model.name@, d),
    {
        let ghost i = it.index() as int;
        let (name, value) = arg;
        proof {
            lemma_args_step(*dm, *model, es, i as nat, d);
            if arg_spec(*dm, *model, d, name@, value) is None {
                lemma_args_none_stays(*dm, *model, es, (i + 1) as nat, n);
            }
        }
        let ghost next = arg_spec(*dm, *model, d, name@, value);
        match apply_arg(&mut result, name, value, model, dm, Ghost(d)) {
            Ok(()) => {
                proof { d = next->Some_0->Ok_0; }
            },
            Err(e) => {
                proof { lemma_args_err_stays(*dm, *model, es, (i + 1) as nat, n); }
                return Err(e);
            },
        }
    }
    Ok(finalize_arguments(result, model, Ghost(d)))
}

/// The message for a first-record read with a `take` other than 1 or -1.
pub open spec fn find_first_take_message() -> Seq<char> {
    "The 'findFirst' operation cannot be used with a 'take' argument that isn't 1 or -1"@
}

/// The arguments of a read of the first record: all records or one taken become exactly
/// one; one taken from the end stays; any other `take` is refused.
pub fn try_limit_to_one(args: QueryArguments) -> (r: Result<QueryArguments, QueryGraphBuilderError>)
    ensures
        match args.take {
            Take::All | Take::Number(1) => r matches Ok(a) && a == (QueryArguments { take: Take::One, ..args }),
            Take::Number(-1) => r matches Ok(a) && a == args,
            _ => r matches Err(QueryGraphBuilderError::InputError(m)) && m@ == find_first_take_message(),
        },
{
    let mut args = args;
    match args.take {
        Take::All | Take::Number(1) => {
            args.take = Take::One;
            Ok(args)
        },
        Take::Number(-1) => Ok(args),
        _ => Err(
            QueryGraphBuilderError::InputError(
                text("The 'findFirst' operation cannot be used with a 'take' argument that isn't 1 or -1"),
            ),
        ),
    }
}

} // verus!
