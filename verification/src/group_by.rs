use vstd::prelude::*;
use crate::error::QueryGraphBuilderError;
use crate::document::{FieldPair, ParsedField};
use crate::filter::{AggregationKind, Filter};
use crate::extract::{error_is, ErrorDesc};
use crate::query_args::names_scalar;
use crate::values::{input_text, ParsedInputValue};
use crate::schema::{Container, Field};
use crate::query_graph::names;
use crate::text::{str_eq, text};

verus! {

/// What a group-by query selects: a field to group by, or an aggregation of fields.
#[derive(Debug)]
pub enum AggregationSelection {
    Field(String),
    Count { all: bool, fields: Vec<String> },
    Average(Vec<String>),
    Sum(Vec<String>),
    Min(Vec<String>),
    Max(Vec<String>),
}

/// The direction of an ordering.
#[derive(Debug, Clone, Copy, PartialEq, Eq, Structural)]
pub enum SortOrder {
    Ascending,
    Descending,
}

/// An ordering by a scalar field.
#[derive(Debug)]
pub struct OrderBy {
    pub field: String,
    pub sort_order: SortOrder,
}

/// The names of `s`, separated by `, `.
pub open spec fn joined(s: Seq<Seq<char>>) -> Seq<char>
    decreases s.len(),
{
    if s.len() == 0 {
        Seq::empty()
    } else if s.len() == 1 {
        s[0]
    } else {
        joined(s.drop_last()) + ", "@ + s.last()
    }
}

/// The names that `push_joined` builds up.
fn push_joined(out: &mut String, v: &Vec<String>)
    ensures
        final(out)@ == old(out)@ + joined(names(v@)),
{
    let ghost s = names(v@);
    let ghost start = out@;
    let n = v.len();
    let mut i: usize = 0;
    assert(joined(s.take(0)) =~= Seq::<char>::empty());
    assert(out@ =~= start + joined(s.take(0)));
    while i < n
        invariant
            s == names(v@),
            n == s.len(),
            i <= n,
            out@ == start + joined(s.take(i as int)),
        decreases n - i,
    {
        let ghost before = out@;
        if i > 0 {
            out.append(", ");
        }
        out.append(v[i].as_str());
        proof {
            reveal_strlit(", ");
            assert(s.take(i + 1).drop_last() =~= s.take(i as int));
            assert(s.take(i + 1).last() == s[i as int]);
            if i == 0 {
                assert(s.take(1) =~= seq![s[0]]);
            }
            assert(out@ =~= start + joined(s.take(i + 1)));
        }
        i = i + 1;
    }
    assert(s.take(n as int) =~= s);
}

/// The fields that `selectors` select without aggregation, in order.
pub open spec fn plain_fields(selectors: Seq<AggregationSelection>) -> Seq<Seq<char>>
    decreases selectors.len(),
{
    if selectors.len() == 0 {
        Seq::empty()
    } else {
        let rest = plain_fields(selectors.drop_last());
        match selectors.last() {
            AggregationSelection::Field(f) => rest.push(f@),
            _ => rest,
        }
    }
}

/// The fields of `fields` that `by` lacks, in order.
pub open spec fn missing_from(fields: Seq<Seq<char>>, by: Seq<Seq<char>>) -> Seq<Seq<char>>
    decreases fields.len(),
{
    if fields.len() == 0 {
        Seq::empty()
    } else {
        let rest = missing_from(fields.drop_last(), by);
        if by.contains(fields.last()) {
            rest
        } else {
            rest.push(fields.last())
        }
    }
}

fn contains_name(v: &Vec<String>, x: &str) -> (b: bool)
    ensures
        b == names(v@).contains(x@),
{
    let n = v.len();
    let mut i: usize = 0;
    while i < n
        invariant
            n == v@.len(),
            i <= n,
            forall|k: int| 0 <= k < i ==> v@[k]@ != x@,
        decreases n - i,
    {
        if str_eq(v[i].as_str(), x) {
            assert(names(v@)[i as int] == x@);
            return true;
        }
        i = i + 1;
    }
    assert(!names(v@).contains(x@)) by {
        if names(v@).contains(x@) {
            let k = choose|k: int| 0 <= k < names(v@).len() && names(v@)[k] == x@;
            assert(v@[k]@ == x@);
        }
    }
    false
}

/// Appends to `out` each name of `fields` that `by` lacks.
fn push_missing(out: &mut Vec<String>, fields: &Vec<String>, by: &Vec<String>)
    ensures
        names(final(out)@) == names(old(out)@) + missing_from(names(fields@), names(by@)),
{
    let ghost start = names(out@);
    let ghost s = names(fields@);
    let n = fields.len();
    let mut i: usize = 0;
    assert(start + missing_from(s.take(0), names(by@)) =~= start);
    while i < n
        invariant
            s == names(fields@),
            n == s.len(),
            i <= n,
            names(out@) == start + missing_from(s.take(i as int), names(by@)),
        decreases n - i,
    {
        assert(s.take(i + 1).drop_last() =~= s.take(i as int));
        assert(s.take(i + 1).last() == s[i as int]);
        if !contains_name(by, fields[i].as_str()) {
            let ghost before = names(out@);
            out.push(fields[i].clone());
            assert(names(out@) =~= before.push(s[i as int]));
        }
        i = i + 1;
    }
    assert(s.take(n as int) =~= s);
}

/// The message of selected fields missing from the group-by.
pub open spec fn selections_message(missing: Seq<Seq<char>>) -> Seq<char> {
    "Every selected scalar field that is not part of an aggregation must be included in the by-arguments of the query. Missing fields: "@
        + joined(missing)
}

/// Checks that every field selected without aggregation is one the query groups by.
pub fn verify_selections(selectors: &Vec<AggregationSelection>, group_by: &Vec<String>) -> (r: Result<
    (),
    QueryGraphBuilderError,
>)
    ensures
        missing_from(plain_fields(selectors@), names(group_by@)).len() == 0 ==> r is Ok,
        missing_from(plain_fields(selectors@), names(group_by@)).len() > 0 ==> (r matches Err(
            QueryGraphBuilderError::InputError(m),
        ) && m@ == selections_message(missing_from(plain_fields(selectors@), names(group_by@)))),
{
    let ghost sel = selectors@;
    let mut fields: Vec<String> = Vec::new();
    let n = selectors.len();
    let mut i: usize = 0;
    while i < n
        invariant
            sel == selectors@,
            n == sel.len(),
            i <= n,
            names(fields@) == plain_fields(sel.take(i as int)),
        decreases n - i,
    {
        assert(sel.take(i + 1).drop_last() =~= sel.take(i as int));
        assert(sel.take(i + 1).last() == sel[i as int]);
        match &selectors[i] {
            AggregationSelection::Field(f) => {
                let ghost before = names(fields@);
                fields.push(f.clone());
                assert(names(fields@) =~= before.push(f@));
            },
            _ => {},
        }
        i = i + 1;
    }
    assert(sel.take(n as int) =~= sel);
    let mut missing: Vec<String> = Vec::new();
    assert(names(missing@) =~= Seq::<Seq<char>>::empty());
    push_missing(&mut missing, &fields, group_by);
    assert(names(missing@) =~= missing_from(plain_fields(sel), names(group_by@)));
    if missing.len() == 0 {
        Ok(())
    } else {
        let mut m = text(
            "Every selected scalar field that is not part of an aggregation must be included in the by-arguments of the query. Missing fields: ",
        );
        push_joined(&mut m, &missing);
        Err(QueryGraphBuilderError::InputError(m))
    }
}

/// The fields that `orderings` order by, in order.
pub open spec fn ordered_fields(orderings: Seq<OrderBy>) -> Seq<Seq<char>> {
    orderings.map_values(|o: OrderBy| o.field@)
}

/// The message of ordered fields missing from the group-by.
pub open spec fn orderings_message(missing: Seq<Seq<char>>) -> Seq<char> {
    "Every field used for orderBy must be included in the by-arguments of the query. Missing fields: "@ + joined(
        missing,
    )
}

/// Checks that every field that the query orders by is one it groups by.
pub fn verify_orderings(orderings: &Vec<OrderBy>, group_by: &Vec<String>) -> (r: Result<(), QueryGraphBuilderError>)
    ensures
        missing_from(ordered_fields(orderings@), names(group_by@)).len() == 0 ==> r is Ok,
        missing_from(ordered_fields(orderings@), names(group_by@)).len() > 0 ==> (r matches Err(
            QueryGraphBuilderError::InputError(m),
        ) && m@ == orderings_message(missing_from(ordered_fields(orderings@), names(group_by@)))),
{
    let mut fields: Vec<String> = Vec::new();
    let n = orderings.len();
    let mut i: usize = 0;
    while i < n
        invariant
            n == orderings@.len(),
            i <= n,
            names(fields@) == ordered_fields(orderings@.take(i as int)),
        decreases n - i,
    {
        let ghost before = names(fields@);
        fields.push(orderings[i].field.clone());
        proof {
            assert(names(fields@) =~= before.push(orderings@[i as int].field@));
            assert(ordered_fields(orderings@.take(i + 1)) =~= ordered_fields(orderings@.take(i as int)).push(
                orderings@[i as int].field@,
            ));
        }
        i = i + 1;
    }
    assert(orderings@.take(n as int) =~= orderings@);
    let mut missing: Vec<String> = Vec::new();
    assert(names(missing@) =~= Seq::<Seq<char>>::empty());
    push_missing(&mut missing, &fields, group_by);
    assert(names(missing@) =~= missing_from(ordered_fields(orderings@), names(group_by@)));
    if missing.len() == 0 {
        Ok(())
    } else {
        let mut m = text("Every field used for orderBy must be included in the by-arguments of the query. Missing fields: ");
        push_joined(&mut m, &missing);
        Err(QueryGraphBuilderError::InputError(m))
    }
}

/// The filter is made of connectives, scalar filters and aggregation filters only, as the
/// `having` of a group-by is.
pub open spec fn is_having_filter(f: Filter) -> bool
    decreases f,
{
    match f {
        Filter::And(v) => are_having_filters(v@),
        Filter::Or(v) => are_having_filters(v@),
        Filter::Not(v) => are_having_filters(v@),
        Filter::Scalar(_) => true,
        Filter::Aggregation(_, _) => true,
        _ => false,
    }
}

/// Each filter is a `having` filter.
pub open spec fn are_having_filters(s: Seq<Filter>) -> bool
    decreases s,
{
    s.len() > 0 ==> are_having_filters(s.drop_last()) && is_having_filter(s.last())
}

/// The scalar fields that a filter compares outside aggregations, in order.
pub open spec fn having_fields(f: Filter) -> Seq<Seq<char>>
    decreases f,
{
    match f {
        Filter::And(v) => having_fields_of(v@),
        Filter::Or(v) => having_fields_of(v@),
        Filter::Not(v) => having_fields_of(v@),
        Filter::Scalar(sf) => seq![sf.field@],
        _ => Seq::empty(),
    }
}

/// The scalar fields that the filters compare outside aggregations, in order.
pub open spec fn having_fields_of(s: Seq<Filter>) -> Seq<Seq<char>>
    decreases s,
{
    if s.len() == 0 {
        Seq::empty()
    } else {
        having_fields_of(s.drop_last()) + having_fields(s.last())
    }
}

/// Appends to `out` the scalar fields that `filter` compares outside aggregations.
pub fn collect_scalar_fields(filter: &Filter, out: &mut Vec<String>)
    requires
        is_having_filter(*filter),
    ensures
        names(final(out)@) == names(old(out)@) + having_fields(*filter),
    decreases *filter, 1int,
{
    match filter {
        Filter::And(v) => collect_scalar_fields_of(v, out),
        Filter::Or(v) => collect_scalar_fields_of(v, out),
        Filter::Not(v) => collect_scalar_fields_of(v, out),
        Filter::Scalar(sf) => {
            let ghost before = names(out@);
            out.push(sf.field.clone());
            assert(names(out@) =~= before + seq![sf.field@]);
        },
        Filter::Aggregation(_, _) => {
            assert(names(out@) =~= names(out@) + Seq::<Seq<char>>::empty());
        },
        _ => vstd::pervasive::unreached(),
    }
}

fn collect_scalar_fields_of(v: &Vec<Filter>, out: &mut Vec<String>)
    requires
        are_having_filters(v@),
    ensures
        names(final(out)@) == names(old(out)@) + having_fields_of(v@),
    decreases v@, 0int,
{
    let ghost start = names(out@);
    let n = v.len();
    let mut i: usize = 0;
    assert(start + having_fields_of(v@.take(0)) =~= start);
    while i < n
        invariant
            n == v@.len(),
            i <= n,
            are_having_filters(v@),
            names(out@) == start + having_fields_of(v@.take(i as int)),
        decreases n - i,
    {
        assert(v@.take(i + 1).drop_last() =~= v@.take(i as int));
        assert(v@.take(i + 1).last() == v@[i as int]);
        proof { lemma_having_at(v@, i as int); }
        assert(decreases_to!(v@ => v@[i as int]));
        let ghost before = names(out@);
        collect_scalar_fields(&v[i], out);
        assert(names(out@) =~= start + having_fields_of(v@.take(i + 1)));
        i = i + 1;
    }
    assert(v@.take(n as int) =~= v@);
}

proof fn lemma_having_at(s: Seq<Filter>, i: int)
    requires
        are_having_filters(s),
        0 <= i < s.len(),
    ensures
        is_having_filter(s[i]),
    decreases s.len(),
{
    if i < s.len() - 1 {
        lemma_having_at(s.drop_last(), i);
    }
}

/// The message of `having` fields missing from the selection.
pub open spec fn having_message(missing: Seq<Seq<char>>) -> Seq<char> {
    "Every field used in `having` filters must either be an aggregation filter or be included in the selection of the query. Missing fields: "@
        + joined(missing)
}

/// Checks that every scalar field that the `having` filter compares outside an aggregation is
/// one that the query selects without aggregation.
pub fn verify_having(having: Option<&Filter>, selectors: &Vec<AggregationSelection>) -> (r: Result<
    (),
    QueryGraphBuilderError,
>)
    requires
        having matches Option::Some(f) ==> is_having_filter(*f),
    ensures
        having is None ==> r is Ok,
        having matches Option::Some(f) ==> {
            let missing = missing_from(having_fields(*f), plain_fields(selectors@));
            &&& missing.len() == 0 ==> r is Ok
            &&& missing.len() > 0 ==> (r matches Err(QueryGraphBuilderError::InputError(m)) && m@ == having_message(
                missing,
            ))
        },
{
    match having {
        Option::None => Ok(()),
        Option::Some(filter) => {
            let mut having_fields_v: Vec<String> = Vec::new();
            assert(names(having_fields_v@) =~= Seq::<Seq<char>>::empty());
            collect_scalar_fields(filter, &mut having_fields_v);
            assert(names(having_fields_v@) =~= having_fields(*filter));
            let ghost sel = selectors@;
            let mut selector_fields: Vec<String> = Vec::new();
            let n = selectors.len();
            let mut i: usize = 0;
            while i < n
                invariant
                    sel == selectors@,
                    n == sel.len(),
                    i <= n,
                    names(selector_fields@) == plain_fields(sel.take(i as int)),
                decreases n - i,
            {
                assert(sel.take(i + 1).drop_last() =~= sel.take(i as int));
                assert(sel.take(i + 1).last() == sel[i as int]);
                match &selectors[i] {
                    AggregationSelection::Field(f) => {
                        let ghost before = names(selector_fields@);
                        selector_fields.push(f.clone());
                        assert(names(selector_fields@) =~= before.push(f@));
                    },
                    _ => {},
                }
                i = i + 1;
            }
            assert(sel.take(n as int) =~= sel);
            let mut missing: Vec<String> = Vec::new();
            assert(names(missing@) =~= Seq::<Seq<char>>::empty());
            push_missing(&mut missing, &having_fields_v, &selector_fields);
            assert(names(missing@) =~= missing_from(having_fields(*filter), plain_fields(sel)));
            if missing.len() == 0 {
                Ok(())
            } else {
                let mut m = text(
                    "Every field used in `having` filters must either be an aggregation filter or be included in the selection of the query. Missing fields: ",
                );
                push_joined(&mut m, &missing);
                Err(QueryGraphBuilderError::InputError(m))
            }
        },
    }
}

/// The aggregation that a selection named `name` asks for: `_count`, `_avg`, `_sum`, `_min`
/// and `_max`, and, where deprecated names are allowed, the same names without underscore.
pub open spec fn aggregation_named(name: Seq<char>, allow_deprecated: bool) -> Option<AggregationKind> {
    if name == "_count"@ || (allow_deprecated && name == "count"@) {
        Option::Some(AggregationKind::Count)
    } else if name == "_avg"@ || (allow_deprecated && name == "avg"@) {
        Option::Some(AggregationKind::Average)
    } else if name == "_sum"@ || (allow_deprecated && name == "sum"@) {
        Option::Some(AggregationKind::Sum)
    } else if name == "_min"@ || (allow_deprecated && name == "min"@) {
        Option::Some(AggregationKind::Min)
    } else if name == "_max"@ || (allow_deprecated && name == "max"@) {
        Option::Some(AggregationKind::Max)
    } else {
        Option::None
    }
}

/// The names of the nested selection of a field.
pub open spec fn aggregated_names(f: ParsedField) -> Seq<Seq<char>> {
    f.nested_fields->Some_0.fields@.map_values(|p: FieldPair| p.parsed_field.name@)
}

/// The scalar fields of `model` that `selected` names, in order (`_all` and other names are
/// left out).
pub open spec fn resolved_fields(model: Container, selected: Seq<Seq<char>>) -> Seq<Seq<char>>
    decreases selected.len(),
{
    if selected.len() == 0 {
        Seq::empty()
    } else {
        let rest = resolved_fields(model, selected.drop_last());
        let n = selected.last();
        if n != "_all"@ && names_scalar(model, n) {
            rest.push(n)
        } else {
            rest
        }
    }
}

/// The scalar fields of `model` that the nested selection of `field` names, in order.
pub fn resolve_fields(model: &Container, field: FieldPair) -> (r: Vec<String>)
    requires
        field.parsed_field.nested_fields is Some,
    ensures
        names(r@) == resolved_fields(*model, aggregated_names(field.parsed_field)),
{
    let ghost sel = aggregated_names(field.parsed_field);
    let fields = match field.parsed_field.nested_fields {
        Option::Some(o) => o.fields,
        Option::None => Vec::new(),
    };
    let mut out: Vec<String> = Vec::new();
    let n = fields.len();
    let mut i: usize = 0;
    proof { reveal_strlit("_all"); }
    assert(sel.take(0) =~= Seq::<Seq<char>>::empty());
    while i < n
        invariant
            n == fields@.len(),
            sel == fields@.map_values(|p: FieldPair| p.parsed_field.name@),
            i <= n,
            names(out@) == resolved_fields(*model, sel.take(i as int)),
        decreases n - i,
    {
        let name = &fields[i].parsed_field.name;
        assert(sel.take(i + 1).drop_last() =~= sel.take(i as int));
        assert(sel.take(i + 1).last() == name@);
        if !str_eq(name.as_str(), "_all") {
            let is_scalar = match model.find_field(name.as_str()) {
                Option::Some(Field::Scalar(_)) => true,
                _ => false,
            };
            assert(is_scalar == names_scalar(*model, name@));
            if is_scalar {
                let ghost before = out@;
                out.push(name.clone());
                proof { assert(names(out@) =~= names(before).push(name@)); }
            }
        }
        i = i + 1;
    }
    assert(sel.take(n as int) =~= sel);
    out
}

/// `a` is the selection that a field named `name` with the nested selection `nested`
/// resolves to on `model`.
pub open spec fn resolved_as(
    a: AggregationSelection,
    model: Container,
    name: Seq<char>,
    nested: Seq<Seq<char>>,
    allow_deprecated: bool,
) -> bool {
    let fs = resolved_fields(model, nested);
    match aggregation_named(name, allow_deprecated) {
        Option::Some(AggregationKind::Count) => a matches AggregationSelection::Count { all, fields } && all
            == nested.contains("_all"@) && names(fields@) == fs,
        Option::Some(AggregationKind::Average) => a matches AggregationSelection::Average(v) && names(v@) == fs,
        Option::Some(AggregationKind::Sum) => a matches AggregationSelection::Sum(v) && names(v@) == fs,
        Option::Some(AggregationKind::Min) => a matches AggregationSelection::Min(v) && names(v@) == fs,
        Option::Some(AggregationKind::Max) => a matches AggregationSelection::Max(v) && names(v@) == fs,
        Option::None => a matches AggregationSelection::Field(f) && f@ == name,
    }
}

fn selects_all(field: &FieldPair) -> (b: bool)
    requires
        field.parsed_field.nested_fields is Some,
    ensures
        b == aggregated_names(field.parsed_field).contains("_all"@),
{
    let fields = &field.parsed_field.nested_fields.as_ref().unwrap().fields;
    let ghost sel = aggregated_names(field.parsed_field);
    proof { reveal_strlit("_all"); }
    let n = fields.len();
    let mut i: usize = 0;
    while i < n
        invariant
            n == fields@.len(),
            sel == fields@.map_values(|p: FieldPair| p.parsed_field.name@),
            sel == aggregated_names(field.parsed_field),
            i <= n,
            forall|j: int| 0 <= j < i ==> sel[j] != "_all"@,
        decreases n - i,
    {
        if str_eq(fields[i].parsed_field.name.as_str(), "_all") {
            assert(sel[i as int] == "_all"@);
            assert(sel.contains("_all"@));
            return true;
        }
        i = i + 1;
    }
    false
}

/// The selection that a field of an aggregation query resolves to on `model`: an
/// aggregation of the fields it nests (a count also of all records where `_all` is among
/// them), or the scalar field it names.
pub fn resolve_query(field: FieldPair, model: &Container, allow_deprecated: bool) -> (r: Result<
    AggregationSelection,
    QueryGraphBuilderError,
>)
    requires
        aggregation_named(field.parsed_field.name@, allow_deprecated) is Some ==> field.parsed_field.nested_fields is Some,
        aggregation_named(field.parsed_field.name@, allow_deprecated) is None ==> names_scalar(*model, field.parsed_field.name@),
    ensures
        r matches Ok(a) && resolved_as(
            a,
            *model,
            field.parsed_field.name@,
            aggregated_names(field.parsed_field),
            allow_deprecated,
        ),
{
    proof {
        reveal_strlit("_count");
        reveal_strlit("_avg");
        reveal_strlit("_sum");
        reveal_strlit("_min");
        reveal_strlit("_max");
        reveal_strlit("count");
        reveal_strlit("avg");
        reveal_strlit("sum");
        reveal_strlit("min");
        reveal_strlit("max");
    }
    let name = field.parsed_field.name.as_str();
    if str_eq(name, "_count") || (allow_deprecated && str_eq(name, "count")) {
        let all = selects_all(&field);
        return Ok(AggregationSelection::Count { all, fields: resolve_fields(model, field) });
    }
    if str_eq(name, "_avg") || (allow_deprecated && str_eq(name, "avg")) {
        return Ok(AggregationSelection::Average(resolve_fields(model, field)));
    }
    if str_eq(name, "_sum") || (allow_deprecated && str_eq(name, "sum")) {
        return Ok(AggregationSelection::Sum(resolve_fields(model, field)));
    }
    if str_eq(name, "_min") || (allow_deprecated && str_eq(name, "min")) {
        return Ok(AggregationSelection::Min(resolve_fields(model, field)));
    }
    if str_eq(name, "_max") || (allow_deprecated && str_eq(name, "max")) {
        return Ok(AggregationSelection::Max(resolve_fields(model, field)));
    }
    Ok(AggregationSelection::Field(field.parsed_field.name))
}

/// The message for an empty `by` list.
pub open spec fn by_required_message() -> Seq<char> {
    "At least one selection is required for the `by` argument."@
}

/// The message for a `by` argument that is neither a field reference nor a list of them.
pub open spec fn by_expected_message() -> Seq<char> {
    "Expected parsing to guarantee either a single enum or a list of enums is provided for group by `by` arg."@
}

/// The scalar fields of `model` to group by that a `by` argument names: one field reference
/// (the name of the field) or a list of at least one. `None` where a list holds something
/// else than references to scalar fields, which the validation of the query document rules
/// out.
pub open spec fn grouping_spec(model: Container, v: ParsedInputValue) -> Option<Result<Seq<Seq<char>>, ErrorDesc>> {
    match v {
        ParsedInputValue::List(l) => if l@.len() == 0 {
            Option::Some(Err(ErrorDesc::Input(by_required_message())))
        } else if forall|i: int|
            0 <= i < l@.len() ==> ((#[trigger] input_text(l@[i])) matches Option::Some(t) && names_scalar(model, t)) {
            Option::Some(Ok(l@.map_values(|x: ParsedInputValue| input_text(x)->Some_0)))
        } else {
            Option::None
        },
        _ => match input_text(v) {
            Option::Some(t) => if names_scalar(model, t) {
                Option::Some(Ok(seq![t]))
            } else {
                Option::Some(Err(ErrorDesc::Input(by_expected_message())))
            },
            Option::None => Option::Some(Err(ErrorDesc::Input(by_expected_message()))),
        },
    }
}

pub(crate) fn is_scalar_of(model: &Container, name: &str) -> (b: bool)
    ensures
        b == names_scalar(*model, name@),
{
    match model.find_field(name) {
        Option::Some(Field::Scalar(_)) => true,
        _ => false,
    }
}

/// The scalar fields of `model` that a `by` argument groups by, in order.
pub fn extract_grouping(value: ParsedInputValue, model: &Container) -> (r: Result<Vec<String>, QueryGraphBuilderError>)
    requires
        grouping_spec(*model, value) is Some,
    ensures
        match grouping_spec(*model, value)->Some_0 {
            Ok(fs) => r matches Ok(v) && names(v@) == fs,
            Err(e) => r matches Err(x) && error_is(x, e),
        },
{
    match value {
        ParsedInputValue::List(list) => {
            if list.len() == 0 {
                return Err(QueryGraphBuilderError::InputError(text("At least one selection is required for the `by` argument.")));
            }
            let ghost l = list@;
            let mut out: Vec<String> = Vec::new();
            for v in it: list.into_iter()
                invariant
                    it.seq() == l,
                    forall|i: int|
                        0 <= i < l.len() ==> ((#[trigger] input_text(l[i])) matches Option::Some(t) && names_scalar(*model, t)),
                    names(out@) == l.take(it.index() as int).map_values(|x: ParsedInputValue| input_text(x)->Some_0),
            {
                let ghost i = it.index() as int;
                assert(input_text(l[i]) is Some);
                let t = v.into_text().unwrap();
                let ghost prev = out@;
                out.push(t);
                proof {
                    let f = |x: ParsedInputValue| input_text(x)->Some_0;
                    assert(l.take(i + 1) =~= l.take(i).push(l[i]));
                    assert(l.take(i + 1).map_values(f) =~= l.take(i).map_values(f).push(f(l[i])));
                    assert(out@ =~= prev.push(t));
                    assert(names(out@) =~= names(prev).push(t@));
                }
            }
            proof { assert(l.take(l.len() as int) =~= l); }
            Ok(out)
        },
        v => match v.into_text() {
            Option::Some(t) => if is_scalar_of(model, t.as_str()) {
                let mut out: Vec<String> = Vec::new();
                out.push(t);
                proof { assert(names(out@) =~= seq![names(out@)[0]]); }
                Ok(out)
            } else {
                Err(QueryGraphBuilderError::InputError(text(
                    "Expected parsing to guarantee either a single enum or a list of enums is provided for group by `by` arg.",
                )))
            },
            Option::None => Err(QueryGraphBuilderError::InputError(text(
                "Expected parsing to guarantee either a single enum or a list of enums is provided for group by `by` arg.",
            ))),
        },
    }
}

} // verus!
