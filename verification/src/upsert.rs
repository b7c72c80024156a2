use vstd::prelude::*;
use crate::builder::QuerySchema;
use crate::equality::{input_eq, same_filter, same_input};
use crate::schema::{Container, Field, field_index};
use crate::unique::{compound_fields, resolve_compound_field};
use crate::values::{ParsedInputMap, ParsedInputValue, key_index};
use crate::connect_nested::objects_expected_message;
use crate::delete::{arg_position, arg_value, lookup};
use crate::document::{pair_names, scalar_names, collect_selected_scalars, ParsedField};
use crate::error::QueryGraphBuilderError;
use crate::extract::{described, error_is, ErrorDesc, FilterDesc};
use crate::unique::{extract_unique_filter, unique_spec};
use crate::filter::Filter;
use crate::query_graph::{names, Node, Query, ReadQuery};
use crate::text::text;
use crate::write_utils::merged;
use crate::connect_or_create::{create_record_node, lemma_pushed_edge, lemma_pushed_node, writes_are};
use crate::copies::copy_filter;
use crate::query_graph::{Dependency, Edge, Flow, NodeRef, QueryGraph, RowSink, WriteQuery, WriteArgs};
use crate::update::{is_update_record, update_record_node};
use crate::write_args::{args_spec, entry_is, OpDesc};
use crate::write_utils::{
    copy_names, is_projected, lemma_extends_keeps, lemma_extends_trans, lemma_grows_trans, read_ids_infallible,
};
use crate::query_graph::DataExpectation;
use crate::referential::{update_emulation_ends, written_fields};
use crate::set_nested::is_plain_edge;
use crate::emulation::{insert_emulated_on_update_with_intermediary_node, is_update_at, keys_at};

verus! {

/// The where value of the field named equals the create value of that field; an object (a
/// compound criterion) is compared field by field with the create values of its fields.
pub open spec fn where_equal(name: Seq<char>, v: ParsedInputValue, create: ParsedInputMap) -> bool
    decreases v, 1int,
{
    match v {
        ParsedInputValue::Object(inner) => all_where_equal(inner.entries@, create),
        _ => match key_index(create.entries@, name) {
            Option::Some(i) => same_input(v, create.entries@[i].1),
            Option::None => false,
        },
    }
}

/// Every entry of a where object equals the create value of its field.
pub open spec fn all_where_equal(es: Seq<(String, ParsedInputValue)>, create: ParsedInputMap) -> bool
    decreases es, 0int,
{
    es.len() == 0 || (all_where_equal(es.drop_last(), create) && where_equal(es.last().0@, es.last().1, create))
}

/// Whether the unique fields of an upsert's where clause have the same values as in its create.
pub fn where_and_create_equal(field_name: &str, where_value: &ParsedInputValue, create_map: &ParsedInputMap) -> (r: bool)
    ensures
        r == where_equal(field_name@, *where_value, *create_map),
    decreases *where_value, 2int,
{
    match where_value {
        ParsedInputValue::Object(inner) => {
            let ghost es = inner.entries@;
            let ghost wv = *where_value;
            let ghost im = *inner;
            let n = inner.entries.len();
            let mut i: usize = 0;
            let mut all = true;
            assert(es.take(0) =~= Seq::<(String, ParsedInputValue)>::empty());
            while i < n
                invariant
                    n == es.len(),
                    es == inner.entries@,
                    wv == ParsedInputValue::Object(im),
                    wv == *where_value,
                    im.entries@ == es,
                    i <= n,
                    all == all_where_equal(es.take(i as int), *create_map),
                decreases n - i,
            {
                assert(decreases_to!(wv => es[i as int].1)) by {
                    assert(decreases_to!(wv => wv->Object_0));
                    assert(decreases_to!(im => im.entries));
                    assert(decreases_to!(im.entries => im.entries@));
                    assert(decreases_to!(im.entries@ => im.entries@[i as int]));
                    assert(decreases_to!(im.entries@[i as int] => im.entries@[i as int].1));
                }
                let e = where_and_create_equal(inner.entries[i].0.as_str(), &inner.entries[i].1, create_map);
                proof {
                    assert(es.take(i as int + 1).drop_last() =~= es.take(i as int));
                    assert(es.take(i as int + 1).last() == es[i as int]);
                }
                all = all && e;
                i = i + 1;
            }
            assert(es.take(n as int) =~= es);
            all
        },
        _ => match create_map.get(field_name) {
            Option::Some(c) => input_eq(where_value, c),
            Option::None => false,
        },
    }
}

/// The field named is unique on its own, or names a compound criterion.
#[verifier::opaque]
pub open spec fn unique_field_spec(name: Seq<char>, model: Container) -> bool {
    match field_index(model.fields@, name) {
        Option::Some(i) if model.fields@[i] is Scalar => model.fields@[i]->Scalar_0.is_unique,
        _ => compound_fields(model, name) is Some,
    }
}

/// Whether the field named is unique on its own, or names a compound criterion.
pub fn is_unique_field(field_name: &str, model: &Container) -> (r: bool)
    ensures
        r == unique_field_spec(field_name@, *model),
{
    reveal(unique_field_spec);
    match model.find_field(field_name) {
        Option::Some(Field::Scalar(sf)) => sf.is_unique,
        _ => resolve_compound_field(field_name, model).is_some(),
    }
}

/// The key names a relation field of the model.
pub open spec fn names_relation(key: Seq<char>, model: Container) -> bool {
    match field_index(model.fields@, key) {
        Option::Some(k) => model.fields@[k] is Relation,
        Option::None => false,
    }
}

/// Some key of the object names a relation field of the model.
pub open spec fn has_relation_key(m: ParsedInputMap, model: Container) -> bool {
    exists|i: int| 0 <= i < m.entries@.len() && #[trigger] names_relation(m.entries@[i].0@, model)
}

/// The number of the first `k` keys of the where object that name unique fields or criteria.
pub open spec fn unique_count(es: Seq<(String, ParsedInputValue)>, model: Container, k: nat) -> nat
    decreases k,
{
    if k == 0 || k > es.len() {
        0
    } else {
        unique_count(es, model, (k - 1) as nat) + if unique_field_spec(es[k - 1].0@, model) { 1nat } else { 0nat }
    }
}

/// An upsert can be one statement of the connector: the connector can do it, the where
/// object names exactly one unique field or criterion, the create and update name no
/// relation field, and the where values equal those of the create.
pub open spec fn native_upsert_spec(
    model: Container,
    where_field: ParsedInputMap,
    create: ParsedInputMap,
    update: ParsedInputMap,
    can_native: bool,
) -> bool {
    &&& can_native
    &&& unique_count(where_field.entries@, model, where_field.entries@.len()) == 1
    &&& !has_relation_key(create, model)
    &&& !has_relation_key(update, model)
    &&& all_where_equal(where_field.entries@, create)
}

/// An upsert whose create or update object writes a relation field of the model (a nested
/// write), or whose connector cannot upsert in one statement, is never one statement.
pub proof fn lemma_native_upsert_writes_no_relation(
    model: Container,
    where_field: ParsedInputMap,
    create: ParsedInputMap,
    update: ParsedInputMap,
    can_native: bool,
    i: int,
)
    ensures
        0 <= i < update.entries@.len() && names_relation(update.entries@[i].0@, model) ==> !native_upsert_spec(
            model,
            where_field,
            create,
            update,
            can_native,
        ),
        0 <= i < create.entries@.len() && names_relation(create.entries@[i].0@, model) ==> !native_upsert_spec(
            model,
            where_field,
            create,
            update,
            can_native,
        ),
        !can_native ==> !native_upsert_spec(model, where_field, create, update, can_native),
{
}

fn has_relation_key_exec(m: &ParsedInputMap, model: &Container) -> (r: bool)
    ensures
        r == has_relation_key(*m, *model),
{
    let n = m.entries.len();
    let mut i: usize = 0;
    while i < n
        invariant
            n == m.entries@.len(),
            i <= n,
            forall|j: int| 0 <= j < i ==> !#[trigger] names_relation(m.entries@[j].0@, *model),
        decreases n - i,
    {
        match model.find_field(m.entries[i].0.as_str()) {
            Option::Some(Field::Relation(_)) => {
                assert(names_relation(m.entries@[i as int].0@, *model));
                return true;
            },
            _ => {},
        }
        i = i + 1;
    }
    false
}

proof fn lemma_all_where_equal_forall(es: Seq<(String, ParsedInputValue)>, create: ParsedInputMap)
    ensures
        all_where_equal(es, create) <==> forall|i: int| 0 <= i < es.len() ==> #[trigger] where_equal(es[i].0@, es[i].1, create),
    decreases es.len(),
{
    if es.len() > 0 {
        lemma_all_where_equal_forall(es.drop_last(), create);
        if forall|i: int| 0 <= i < es.len() ==> #[trigger] where_equal(es[i].0@, es[i].1, create) {
            assert forall|i: int| 0 <= i < es.drop_last().len() implies #[trigger] where_equal(
                es.drop_last()[i].0@,
                es.drop_last()[i].1,
                create,
            ) by {
                assert(where_equal(es[i].0@, es[i].1, create));
            }
            assert(where_equal(es[es.len() - 1].0@, es[es.len() - 1].1, create));
        }
        if all_where_equal(es, create) {
            assert forall|i: int| 0 <= i < es.len() implies #[trigger] where_equal(es[i].0@, es[i].1, create) by {
                if i < es.len() - 1 {
                    assert(where_equal(es.drop_last()[i].0@, es.drop_last()[i].1, create));
                }
            }
        }
    }
}

/// An upsert in one statement needs a connector that can do it and a where object that names
/// exactly one unique field or criterion; and each plain value of its where object is the
/// value that the create object gives the same field.
pub proof fn lemma_native_upsert_needs(
    model: Container,
    where_field: ParsedInputMap,
    create: ParsedInputMap,
    update: ParsedInputMap,
    can_native: bool,
    i: int,
)
    requires
        native_upsert_spec(model, where_field, create, update, can_native),
    ensures
        can_native,
        unique_count(where_field.entries@, model, where_field.entries@.len()) == 1,
        0 <= i < where_field.entries@.len() && !(where_field.entries@[i].1 is Object) ==> match key_index(
            create.entries@,
            where_field.entries@[i].0@,
        ) {
            Option::Some(j) => same_input(where_field.entries@[i].1, create.entries@[j].1),
            Option::None => false,
        },
{
    lemma_all_where_equal_forall(where_field.entries@, create);
    if 0 <= i < where_field.entries@.len() {
        assert(where_equal(where_field.entries@[i].0@, where_field.entries@[i].1, create));
    }
}

fn count_unique_fields(where_field: &ParsedInputMap, model: &Container) -> (count: usize)
    ensures
        count == unique_count(where_field.entries@, *model, where_field.entries@.len()),
{
    let ghost es = where_field.entries@;
    let n = where_field.entries.len();
    let mut count: usize = 0;
    let mut i: usize = 0;
    while i < n
        invariant
            n == es.len(),
            es == where_field.entries@,
            i <= n,
            count == unique_count(es, *model, i as nat),
            count <= i,
        decreases n - i,
    {
        let u = is_unique_field(where_field.entries[i].0.as_str(), model);
        assert(unique_count(es, *model, (i + 1) as nat) == unique_count(es, *model, i as nat) + if u {
            1nat
        } else {
            0nat
        });
        if u {
            count = count + 1;
        }
        i = i + 1;
    }
    count
}

fn all_where_and_create_equal(where_field: &ParsedInputMap, create_argument: &ParsedInputMap) -> (same: bool)
    ensures
        same == all_where_equal(where_field.entries@, *create_argument),
{
    let ghost es = where_field.entries@;
    let n = where_field.entries.len();
    let mut i: usize = 0;
    let mut all = true;
    assert(es.take(0) =~= Seq::<(String, ParsedInputValue)>::empty());
    while i < n
        invariant
            n == es.len(),
            es == where_field.entries@,
            i <= n,
            all == all_where_equal(es.take(i as int), *create_argument),
        decreases n - i,
    {
        let e = where_and_create_equal(where_field.entries[i].0.as_str(), &where_field.entries[i].1, create_argument);
        proof {
            assert(es.take(i as int + 1).drop_last() =~= es.take(i as int));
            assert(es.take(i as int + 1).last() == es[i as int]);
        }
        all = all && e;
        i = i + 1;
    }
    assert(es.take(n as int) =~= es);
    all
}

/// Whether an upsert can be one statement of the connector.
pub fn can_use_connector_native_upsert(
    model: &Container,
    where_field: &ParsedInputMap,
    create_argument: &ParsedInputMap,
    update_argument: &ParsedInputMap,
    query_schema: &QuerySchema,
) -> (r: bool)
    ensures
        r == native_upsert_spec(
            *model,
            *where_field,
            *create_argument,
            *update_argument,
            query_schema.can_native_upsert,
        ),
{
    let has_nested_create = has_relation_key_exec(create_argument, model);
    let has_nested_update = has_relation_key_exec(update_argument, model);
    let ghost es = where_field.entries@;
    let count = count_unique_fields(where_field, model);
    let same = all_where_and_create_equal(where_field, create_argument);
    query_schema.can_native_upsert && count == 1 && !has_nested_create && !has_nested_update && same
}

/// The arguments left once the first one named `name` is taken out of `args`, as `lookup`
/// leaves them.
pub open spec fn arg_removed(args: Seq<(String, ParsedInputValue)>, name: Seq<char>) -> Seq<(String, ParsedInputValue)> {
    match arg_position(args, name) {
        Option::Some(i) => args.update(i, args.last()).drop_last(),
        Option::None => args,
    }
}

/// The `where`, `create` and `update` arguments of an upsert, taken out of `args` in that
/// order (each `None` where it is missing).
pub open spec fn upsert_args(args: Seq<(String, ParsedInputValue)>) -> (
    Option<ParsedInputValue>,
    Option<ParsedInputValue>,
    Option<ParsedInputValue>,
) {
    let a2 = arg_removed(args, "where"@);
    let a3 = arg_removed(a2, "create"@);
    (arg_value(args, "where"@), arg_value(a2, "create"@), arg_value(a3, "update"@))
}

/// The arguments of an upsert are there, as far as they are read: the `where` argument; the
/// `create` argument where the `where` one is an object; the `update` argument where both
/// are objects. The validation of the query document ensures it.
pub open spec fn upsert_args_present(args: Seq<(String, ParsedInputValue)>) -> bool {
    let (w, c, u) = upsert_args(args);
    &&& w is Some
    &&& w->Some_0 is Object ==> c is Some
    &&& (w->Some_0 is Object && c->Some_0 is Object) ==> u is Some
}

/// The `where`, `create` and `update` objects of an upsert, or the error for the first of
/// them that is no object.
pub open spec fn upsert_maps(args: Seq<(String, ParsedInputValue)>) -> Result<
    (ParsedInputMap, ParsedInputMap, ParsedInputMap),
    ErrorDesc,
> {
    let (w, c, u) = upsert_args(args);
    match w {
        Option::Some(ParsedInputValue::Object(wm)) => match c {
            Option::Some(ParsedInputValue::Object(cm)) => match u {
                Option::Some(ParsedInputValue::Object(um)) => Ok((wm, cm, um)),
                _ => Err(ErrorDesc::Input(objects_expected_message())),
            },
            _ => Err(ErrorDesc::Input(objects_expected_message())),
        },
        _ => Err(ErrorDesc::Input(objects_expected_message())),
    }
}

fn object_of(v: Option<ParsedInputValue>) -> (r: Result<ParsedInputMap, QueryGraphBuilderError>)
    requires
        v is Some,
    ensures
        match v->Some_0 {
            ParsedInputValue::Object(m) => r == Ok::<ParsedInputMap, QueryGraphBuilderError>(m),
            _ => r matches Err(x) && error_is(x, ErrorDesc::Input(objects_expected_message())),
        },
{
    match v {
        Option::Some(ParsedInputValue::Object(m)) => Ok(m),
        _ => Err(QueryGraphBuilderError::InputError(text("Expected an input object."))),
    }
}

/// Takes the `where`, `create` and `update` objects of an upsert out of its arguments, as
/// `upsert_maps` says.
pub fn upsert_inputs(args: &mut Vec<(String, ParsedInputValue)>) -> (r: Result<
    (ParsedInputMap, ParsedInputMap, ParsedInputMap),
    QueryGraphBuilderError,
>)
    requires
        upsert_args_present(old(args)@),
    ensures
        match upsert_maps(old(args)@) {
            Ok(t) => r == Ok::<(ParsedInputMap, ParsedInputMap, ParsedInputMap), QueryGraphBuilderError>(t),
            Err(e) => r matches Err(x) && error_is(x, e),
        },
{
    let where_map = match object_of(lookup(args, "where")) {
        Ok(m) => m,
        Err(e) => return Err(e),
    };
    let create_map = match object_of(lookup(args, "create")) {
        Ok(m) => m,
        Err(e) => return Err(e),
    };
    let update_map = match object_of(lookup(args, "update")) {
        Ok(m) => m,
        Err(e) => return Err(e),
    };
    Ok((where_map, create_map, update_map))
}

/// `n` reads the one record of `model` that the parsed field `field` selects, its filter to
/// be added when the graph runs: the primary identifier, then the scalar fields that `field`
/// selects, each once.
pub open spec fn is_record_read(n: Node, field: ParsedField, model: Container) -> bool {
    n matches Node::Query(Query::Read(ReadQuery::Record { name, model: m, filter, selection })) && name@
        == field.name@ && m@ == model.name@ && filter == Filter::Empty && names(selection@) == merged(
        names(model.primary_identifier@),
        scalar_names(model, pair_names(field.nested_fields->Some_0.fields@)),
    )
}

/// The read of the one record of `model` that `field` selects, as `is_record_read` says.
pub fn record_read(field: &ParsedField, model: &Container) -> (n: Node)
    requires
        field.nested_fields is Some,
    ensures
        is_record_read(n, *field, *model),
{
    let selection = match &field.nested_fields {
        Option::Some(o) => collect_selected_scalars(&o.fields, model),
        Option::None => vstd::pervasive::unreached(),
    };
    Node::Query(
        Query::Read(
            ReadQuery::Record { name: field.name.clone(), model: model.name.clone(), filter: Filter::Empty, selection },
        ),
    )
}

/// `n` reads the identifiers of the records of `model` that a copy of `f` selects; it does
/// not fail when there is none.
pub open spec fn is_read_ids(n: Node, model: Container, f: Filter) -> bool {
    n matches Node::Query(Query::Read(ReadQuery::ManyRecords { name, model: m, filter, selection })) && name@
        == "read_ids_infallible"@ && m@ == model.name@ && same_filter(filter, f) && names(selection@)
        == crate::write_utils::selected(names(model.primary_identifier@), names(model.primary_identifier@))
}

/// The nodes of an upsert that is not one statement, at the nodes from `n` of `g`: the read
/// of the identifiers of the record that `f` selects; its creation, with the writes that `dc`
/// describes (its nested writes being `nc`); its update, with those that `du` describes (its
/// nested writes being `nu`); the reads of the record created and of the record updated; and
/// an `if` on the rows of the first read.
pub open spec fn upsert_nodes_at(
    g: QueryGraph,
    n: int,
    field: ParsedField,
    model: Container,
    f: Filter,
    dc: (Seq<(Seq<char>, OpDesc)>, Seq<(Seq<char>, ParsedInputMap)>),
    du: (Seq<(Seq<char>, OpDesc)>, Seq<(Seq<char>, ParsedInputMap)>),
    nc: Seq<(String, ParsedInputMap)>,
    nu: Seq<(String, ParsedInputMap)>,
) -> bool {
    let id = names(model.primary_identifier@);
    &&& is_read_ids(g.nodes@[n], model, f)
    &&& g.nodes@[n + 1] matches Node::Query(Query::Write(WriteQuery::CreateRecord { model: m, args }))
    &&& m@ == model.name@ && writes_are(args, nc, dc)
    &&& is_update_record(g.nodes@[n + 2], model, f, nu, du)
    &&& is_record_read(g.nodes@[n + 3], field, model)
    &&& is_record_read(g.nodes@[n + 4], field, model)
    &&& g.nodes@[n + 5] == Node::Flow(Flow::IfNonEmpty)
}

/// Adds the read of the identifiers of the record of `model` that `filter` selects, its
/// creation from `create_map` and its update from `update_map`, as the first three nodes of
/// `upsert_nodes_at`; the nested writes of the create and of the update come back.
fn add_upsert_writes(
    graph: &mut QueryGraph,
    query_schema: &QuerySchema,
    model: &Container,
    filter: Filter,
    create_map: ParsedInputMap,
    update_map: ParsedInputMap,
) -> (r: Result<(Vec<(String, ParsedInputMap)>, Vec<(String, ParsedInputMap)>), QueryGraphBuilderError>)
    requires
        old(graph).wf(),
    ensures
        final(graph).wf(),
        final(graph).extends(*old(graph)),
        match args_spec(query_schema.data_model, *model, create_map.entries@, create_map.entries@.len()) {
            Err(e) => r matches Err(x) && error_is(x, e),
            Ok(dc) => match args_spec(query_schema.data_model, *model, update_map.entries@, update_map.entries@.len()) {
                Err(e) => r matches Err(x) && error_is(x, e),
                Ok(du) => r matches Ok((nc, nu)) && {
                    let n = old(graph).nodes@.len() as int;
                    &&& crate::write_utils::appended(*final(graph), *old(graph), 3, 0)
                    &&& is_read_ids(final(graph).nodes@[n], *model, filter)
                    &&& final(graph).nodes@[n + 1] matches Node::Query(
                        Query::Write(WriteQuery::CreateRecord { model: m, args }),
                    ) && m@ == model.name@ && writes_are(args, nc@, dc)
                    &&& is_update_record(final(graph).nodes@[n + 2], *model, filter, nu@, du)
                },
            },
        },
{
    let ghost g0 = *graph;
    let read_filter = copy_filter(&filter);
    let ghost fr = read_filter;
    let read_parent = read_ids_infallible(
        model.name.as_str(),
        &model.primary_identifier,
        copy_names(&model.primary_identifier),
        read_filter,
    );
    let _read_parent_node = graph.create_node(read_parent);
    let ghost g1 = *graph;
    proof { lemma_pushed_node(g1, g0); }
    let (_create_node, nc) = match create_record_node(graph, query_schema, model, create_map) {
        Ok(x) => x,
        Err(e) => return Err(e),
    };
    let ghost g2 = *graph;
    proof { lemma_extends_trans(g2, g1, g0); }
    let (_update_node, nu) = match update_record_node(graph, query_schema, filter, model, update_map) {
        Ok(x) => x,
        Err(e) => return Err(e),
    };
    let ghost g3 = *graph;
    proof {
        let n0 = g0.nodes@.len() as int;
        lemma_extends_trans(g3, g2, g1);
        lemma_extends_trans(g3, g1, g0);
        lemma_extends_keeps(g3, g1);
        lemma_extends_keeps(g3, g2);
        assert(g3.nodes@[n0] == g1.nodes@[n0]);
        assert(g3.nodes@[n0 + 1] == g2.nodes@[n0 + 1]);
    }
    Ok((nc, nu))
}

/// Adds the nodes of `upsert_nodes_at`, the two reads of the record being results of the
/// graph; the nested writes of the create and of the update come back.
fn add_upsert_nodes(
    graph: &mut QueryGraph,
    query_schema: &QuerySchema,
    model: &Container,
    field: &ParsedField,
    filter: Filter,
    create_map: ParsedInputMap,
    update_map: ParsedInputMap,
) -> (r: Result<(Vec<(String, ParsedInputMap)>, Vec<(String, ParsedInputMap)>), QueryGraphBuilderError>)
    requires
        old(graph).wf(),
        field.nested_fields is Some,
    ensures
        final(graph).wf(),
        final(graph).grows(*old(graph)),
        final(graph).needs_transaction == old(graph).needs_transaction,
        match args_spec(query_schema.data_model, *model, create_map.entries@, create_map.entries@.len()) {
            Err(e) => r matches Err(x) && error_is(x, e),
            Ok(dc) => match args_spec(query_schema.data_model, *model, update_map.entries@, update_map.entries@.len()) {
                Err(e) => r matches Err(x) && error_is(x, e),
                Ok(du) => r matches Ok((nc, nu)) && {
                    &&& final(graph).nodes@.len() == old(graph).nodes@.len() + 6
                    &&& final(graph).edges@ == old(graph).edges@
                    &&& final(graph).marked@ == old(graph).marked@
                    &&& final(graph).result_nodes@ == old(graph).result_nodes@.push(
                        NodeRef { id: (old(graph).nodes@.len() + 3) as usize },
                    ).push(NodeRef { id: (old(graph).nodes@.len() + 4) as usize })
                    &&& upsert_nodes_at(
                        *final(graph),
                        old(graph).nodes@.len() as int,
                        *field,
                        *model,
                        filter,
                        dc,
                        du,
                        nc@,
                        nu@,
                    )
                },
            },
        },
{
    let ghost g0 = *graph;
    let (nc, nu) = match add_upsert_writes(graph, query_schema, model, filter, create_map, update_map) {
        Ok(x) => x,
        Err(e) => return Err(e),
    };
    let ghost g3 = *graph;
    let read_node_create = graph.create_node(record_read(field, model));
    let read_node_update = graph.create_node(record_read(field, model));
    graph.add_result_node(&read_node_create);
    graph.add_result_node(&read_node_update);
    let _if_node = graph.create_node(Node::Flow(Flow::IfNonEmpty));
    proof {
        let n0 = g0.nodes@.len() as int;
        assert(graph.nodes@.take(g3.nodes@.len() as int) =~= g3.nodes@);
        assert(graph.nodes@[n0] == g3.nodes@[n0]);
        assert(graph.nodes@[n0 + 1] == g3.nodes@[n0 + 1]);
        assert(graph.nodes@[n0 + 2] == g3.nodes@[n0 + 2]);
        lemma_extends_keeps(g3, g0);
        assert(graph.nodes@.take(g0.nodes@.len() as int) =~= g0.nodes@) by {
            assert forall|i: int| 0 <= i < n0 implies graph.nodes@[i] == g0.nodes@[i] by {
                assert(graph.nodes@.take(g3.nodes@.len() as int)[i] == graph.nodes@[i]);
            }
        }
        assert(graph.edges@.take(g0.edges@.len() as int) =~= g0.edges@);
        assert(graph.marked@.take(g0.marked@.len() as int) =~= g0.marked@);
    }
    Ok((nc, nu))
}

/// The names of the fields that a list of described writes writes, in order.
pub open spec fn desc_fields(ops: Seq<(Seq<char>, OpDesc)>) -> Seq<Seq<char>> {
    ops.map_values(|o: (Seq<char>, OpDesc)| o.0)
}

pub proof fn lemma_written_fields(
    args: WriteArgs,
    nested: Seq<(String, ParsedInputMap)>,
    d: (Seq<(Seq<char>, OpDesc)>, Seq<(Seq<char>, ParsedInputMap)>),
)
    requires
        writes_are(args, nested, d),
    ensures
        written_fields(args) == desc_fields(d.0),
{
    assert forall|i: int| 0 <= i < d.0.len() implies written_fields(args)[i] == desc_fields(d.0)[i] by {
        assert(entry_is(args.args@[i], d.0[i]));
    }
    assert(written_fields(args) =~= desc_fields(d.0));
}

/// `e` hands the identifier of the last row of `from` to `to` as a filter of the record that
/// `to` reads; without a row, the assertion error with message `m` is raised.
pub open spec fn is_follow_up_edge(e: Edge, from: NodeRef, to: NodeRef, id: Seq<Seq<char>>, m: Seq<char>) -> bool {
    &&& is_projected(e, from, to, id)
    &&& e.dependency->sink is AddFilter
    &&& e.dependency->expectation matches Option::Some(
        DataExpectation::NonEmptyRows(QueryGraphBuilderError::AssertionError(x)),
    )
    &&& x@ == m
}

/// The message when the update of an upsert hands no record to the read that follows it.
pub open spec fn update_follow_up_message() -> Seq<char> {
    "Expected a valid parent ID to be present for create follow-up for upsert query."@
}

/// The message when the create of an upsert hands no record to the read that follows it.
pub open spec fn create_follow_up_message() -> Seq<char> {
    "Expected a valid parent ID to be present for update follow-up for upsert query."@
}

/// The last three edges of an upsert that is not one statement, from the edge `e` of `g` on:
/// the `if` runs the create where the record does not exist, and the update and the create
/// hand the identifier of their record to its read.
pub open spec fn upsert_tail_at(
    g: QueryGraph,
    e: int,
    model: Container,
    iff: NodeRef,
    create: NodeRef,
    update: NodeRef,
    read_created: NodeRef,
    read_updated: NodeRef,
) -> bool {
    let id = names(model.primary_identifier@);
    &&& g.edges@[e] == (Edge { from: iff, to: create, dependency: Dependency::Else })
    &&& is_follow_up_edge(g.edges@[e + 1], update, read_updated, id, update_follow_up_message())
    &&& is_follow_up_edge(g.edges@[e + 2], create, read_created, id, create_follow_up_message())
}

/// Adds the edges of `upsert_tail_at`.
fn add_upsert_tail(
    graph: &mut QueryGraph,
    model: &Container,
    if_node: &NodeRef,
    create_node: &NodeRef,
    update_node: &NodeRef,
    read_node_create: &NodeRef,
    read_node_update: &NodeRef,
)
    requires
        old(graph).wf(),
        old(graph).has(*if_node),
        old(graph).has(*create_node),
        old(graph).has(*update_node),
        old(graph).has(*read_node_create),
        old(graph).has(*read_node_update),
    ensures
        crate::write_utils::appended(*final(graph), *old(graph), 0, 3),
        upsert_tail_at(
            *final(graph),
            old(graph).edges@.len() as int,
            *model,
            *if_node,
            *create_node,
            *update_node,
            *read_node_create,
            *read_node_update,
        ),
{
    let ghost g0 = *graph;
    graph.create_edge(if_node, create_node, Dependency::Else);
    let ghost g1 = *graph;
    graph.create_edge(
        update_node,
        read_node_update,
        Dependency::Projected {
            selection: copy_names(&model.primary_identifier),
            sink: RowSink::AddFilter,
            expectation: Option::Some(
                DataExpectation::NonEmptyRows(
                    QueryGraphBuilderError::AssertionError(
                        text("Expected a valid parent ID to be present for create follow-up for upsert query."),
                    ),
                ),
            ),
        },
    );
    let ghost g2 = *graph;
    graph.create_edge(
        create_node,
        read_node_create,
        Dependency::Projected {
            selection: copy_names(&model.primary_identifier),
            sink: RowSink::AddFilter,
            expectation: Option::Some(
                DataExpectation::NonEmptyRows(
                    QueryGraphBuilderError::AssertionError(
                        text("Expected a valid parent ID to be present for update follow-up for upsert query."),
                    ),
                ),
            ),
        },
    );
    let ghost g3 = *graph;
    proof {
        lemma_pushed_edge(g1, g0);
        lemma_pushed_edge(g2, g1);
        lemma_pushed_edge(g3, g2);
        lemma_extends_trans(g3, g2, g1);
        lemma_extends_trans(g3, g1, g0);
        lemma_extends_keeps(g3, g1);
        lemma_extends_keeps(g3, g2);
        let e0 = g0.edges@.len() as int;
        assert(g3.edges@[e0] == g1.edges@[e0]);
        assert(g3.edges@[e0 + 1] == g2.edges@[e0 + 1]);
    }
}

/// The nodes of an upsert stay as the graph grows.
pub proof fn lemma_upsert_nodes_kept(
    g2: QueryGraph,
    g1: QueryGraph,
    n: int,
    field: ParsedField,
    model: Container,
    f: Filter,
    dc: (Seq<(Seq<char>, OpDesc)>, Seq<(Seq<char>, ParsedInputMap)>),
    du: (Seq<(Seq<char>, OpDesc)>, Seq<(Seq<char>, ParsedInputMap)>),
    nc: Seq<(String, ParsedInputMap)>,
    nu: Seq<(String, ParsedInputMap)>,
)
    requires
        g2.grows(g1),
        0 <= n && n + 6 <= g1.nodes@.len(),
        upsert_nodes_at(g1, n, field, model, f, dc, du, nc, nu),
    ensures
        upsert_nodes_at(g2, n, field, model, f, dc, du, nc, nu),
{
    lemma_extends_keeps(g2, g1);
    assert(g2.nodes@[n] == g1.nodes@[n]);
    assert(g2.nodes@[n + 1] == g1.nodes@[n + 1]);
    assert(g2.nodes@[n + 2] == g1.nodes@[n + 2]);
    assert(g2.nodes@[n + 3] == g1.nodes@[n + 3]);
    assert(g2.nodes@[n + 4] == g1.nodes@[n + 4]);
    assert(g2.nodes@[n + 5] == g1.nodes@[n + 5]);
}

/// The graph of an upsert that is not one statement, appended to `old`, in a transaction: the
/// nodes of `upsert_nodes_at`, the reads of the record created and updated being results of
/// the graph; the `if` on the rows of the read of the record's identifiers; where the
/// referential actions are emulated, a node that hands those identifiers to the emulation of
/// the update actions, which the `if` runs where the record exists, before the update;
/// otherwise the `if` runs the update directly; then the edges of `upsert_tail_at`.
#[verifier::opaque]
pub open spec fn emulated_upsert_at(
    g: QueryGraph,
    old: QueryGraph,
    query_schema: QuerySchema,
    field: ParsedField,
    model: Container,
    f: Filter,
    dc: (Seq<(Seq<char>, OpDesc)>, Seq<(Seq<char>, ParsedInputMap)>),
    du: (Seq<(Seq<char>, OpDesc)>, Seq<(Seq<char>, ParsedInputMap)>),
    nc: Seq<(String, ParsedInputMap)>,
    nu: Seq<(String, ParsedInputMap)>,
) -> bool {
    let n = old.nodes@.len() as int;
    let e = old.edges@.len() as int;
    let l = g.edges@.len() as int;
    let read = NodeRef { id: n as usize };
    let create = NodeRef { id: (n + 1) as usize };
    let update = NodeRef { id: (n + 2) as usize };
    let read_created = NodeRef { id: (n + 3) as usize };
    let read_updated = NodeRef { id: (n + 4) as usize };
    let iff = NodeRef { id: (n + 5) as usize };
    let id = names(model.primary_identifier@);
    &&& g.wf()
    &&& g.grows(old)
    &&& g.needs_transaction
    &&& g.result_nodes@ == old.result_nodes@.push(read_created).push(read_updated)
    &&& n + 6 <= g.nodes@.len()
    &&& e + 5 <= l
    &&& upsert_nodes_at(g, n, field, model, f, dc, du, nc, nu)
    &&& is_plain_edge(g.edges@[e], read, iff, id, RowSink::IfCondition)
    &&& if query_schema.relation_mode is Prisma {
        let join = NodeRef { id: (n + 6) as usize };
        &&& n + 7 <= g.nodes@.len()
        &&& e + 7 <= l
        &&& g.nodes@[n + 6] == Node::Flow(Flow::Return)
        &&& is_plain_edge(g.edges@[e + 1], read, join, id, RowSink::Returned)
        &&& g.edges@[l - 5] == (Edge { from: iff, to: join, dependency: Dependency::Then })
        &&& g.edges@[l - 4] == (Edge { from: join, to: update, dependency: Dependency::ExecutionOrder })
    } else {
        &&& g.nodes@.len() == n + 6
        &&& l == e + 5
        &&& g.edges@[e + 1] == (Edge { from: iff, to: update, dependency: Dependency::Then })
    }
    &&& upsert_tail_at(g, l - 3, model, iff, create, update, read_created, read_updated)
}

/// The decision of an upsert that is not one statement, appended to `old`: the `if` on the
/// rows of `read`; where the referential actions are emulated, a node that hands those rows to
/// the emulation of the update actions, which the `if` runs before `update`; otherwise the
/// `if` runs `update` directly.
pub open spec fn upsert_decision_at(
    g: QueryGraph,
    old: QueryGraph,
    query_schema: QuerySchema,
    model: Container,
    read: NodeRef,
    iff: NodeRef,
    update: NodeRef,
) -> bool {
    let n = old.nodes@.len() as int;
    let e = old.edges@.len() as int;
    let l = g.edges@.len() as int;
    let id = names(model.primary_identifier@);
    &&& g.wf()
    &&& g.extends(old)
    &&& e + 2 <= l
    &&& is_plain_edge(g.edges@[e], read, iff, id, RowSink::IfCondition)
    &&& if query_schema.relation_mode is Prisma {
        let join = NodeRef { id: n as usize };
        &&& n + 1 <= g.nodes@.len()
        &&& e + 4 <= l
        &&& g.nodes@[n] == Node::Flow(Flow::Return)
        &&& is_plain_edge(g.edges@[e + 1], read, join, id, RowSink::Returned)
        &&& g.edges@[l - 2] == (Edge { from: iff, to: join, dependency: Dependency::Then })
        &&& g.edges@[l - 1] == (Edge { from: join, to: update, dependency: Dependency::ExecutionOrder })
    } else {
        &&& g.nodes@.len() == n
        &&& l == e + 2
        &&& g.edges@[e + 1] == (Edge { from: iff, to: update, dependency: Dependency::Then })
    }
}

/// Adds the decision of `upsert_decision_at`.
fn add_upsert_decision(
    graph: &mut QueryGraph,
    query_schema: &QuerySchema,
    model: &Container,
    read_node: &NodeRef,
    if_node: &NodeRef,
    update_node: &NodeRef,
)
    requires
        old(graph).wf(),
        old(graph).has(*read_node),
        old(graph).has(*if_node),
        is_update_at(*old(graph), *update_node),
        query_schema.relation_mode is Prisma ==> update_emulation_ends(
            query_schema.data_model,
            model.name@,
            keys_at(*old(graph), *update_node),
        ),
    ensures
        upsert_decision_at(*final(graph), *old(graph), *query_schema, *model, *read_node, *if_node, *update_node),
{
    let ghost g0 = *graph;
    graph.create_edge(
        read_node,
        if_node,
        Dependency::Projected {
            selection: copy_names(&model.primary_identifier),
            sink: RowSink::IfCondition,
            expectation: Option::None,
        },
    );
    let ghost g1 = *graph;
    proof {
        lemma_pushed_edge(g1, g0);
        crate::emulation::lemma_update_kept(g1, g0, *update_node);
    }
    let emulation = insert_emulated_on_update_with_intermediary_node(
        graph,
        query_schema,
        model,
        read_node,
        update_node,
    );
    let ghost g2 = *graph;
    match emulation {
        Option::Some(join) => {
            graph.create_edge(if_node, &join, Dependency::Then);
            let ghost g3 = *graph;
            graph.create_edge(&join, update_node, Dependency::ExecutionOrder);
            proof {
                lemma_pushed_edge(g3, g2);
                lemma_pushed_edge(*graph, g3);
                lemma_extends_trans(*graph, g3, g2);
            }
        },
        Option::None => {
            graph.create_edge(if_node, update_node, Dependency::Then);
            proof { lemma_pushed_edge(*graph, g2); }
        },
    }
    proof {
        let g4 = *graph;
        lemma_extends_trans(g4, g2, g1);
        lemma_extends_trans(g4, g1, g0);
        lemma_extends_keeps(g4, g1);
        lemma_extends_keeps(g4, g2);
        let e0 = g0.edges@.len() as int;
        assert(g4.edges@[e0] == g1.edges@[e0]);
        if query_schema.relation_mode is Prisma {
            let n0 = g0.nodes@.len() as int;
            assert(g4.nodes@[n0] == g2.nodes@[n0]);
            assert(g4.edges@[e0 + 1] == g2.edges@[e0 + 1]);
        }
    }
}

#[verifier::spinoff_prover]
#[verifier::rlimit(60)]
proof fn lemma_emulated_upsert(
    g6: QueryGraph,
    g5: QueryGraph,
    g2: QueryGraph,
    g0: QueryGraph,
    query_schema: QuerySchema,
    field: ParsedField,
    model: Container,
    f: Filter,
    dc: (Seq<(Seq<char>, OpDesc)>, Seq<(Seq<char>, ParsedInputMap)>),
    du: (Seq<(Seq<char>, OpDesc)>, Seq<(Seq<char>, ParsedInputMap)>),
    nc: Seq<(String, ParsedInputMap)>,
    nu: Seq<(String, ParsedInputMap)>,
)
    requires
        g2.wf(),
        g2.grows(g0),
        g2.needs_transaction,
        g2.nodes@.len() == g0.nodes@.len() + 6,
        g2.edges@ == g0.edges@,
        g2.result_nodes@ == g0.result_nodes@.push(NodeRef { id: (g0.nodes@.len() + 3) as usize }).push(
            NodeRef { id: (g0.nodes@.len() + 4) as usize },
        ),
        upsert_nodes_at(g2, g0.nodes@.len() as int, field, model, f, dc, du, nc, nu),
        upsert_decision_at(
            g5,
            g2,
            query_schema,
            model,
            NodeRef { id: g0.nodes@.len() as usize },
            NodeRef { id: (g0.nodes@.len() + 5) as usize },
            NodeRef { id: (g0.nodes@.len() + 2) as usize },
        ),
        crate::write_utils::appended(g6, g5, 0, 3),
        upsert_tail_at(
            g6,
            g5.edges@.len() as int,
            model,
            NodeRef { id: (g0.nodes@.len() + 5) as usize },
            NodeRef { id: (g0.nodes@.len() + 1) as usize },
            NodeRef { id: (g0.nodes@.len() + 2) as usize },
            NodeRef { id: (g0.nodes@.len() + 3) as usize },
            NodeRef { id: (g0.nodes@.len() + 4) as usize },
        ),
    ensures
        emulated_upsert_at(g6, g0, query_schema, field, model, f, dc, du, nc, nu),
{
    reveal(emulated_upsert_at);
    let n0 = g0.nodes@.len() as int;
    lemma_extends_trans(g6, g5, g2);
    lemma_grows_trans(g6, g2, g0);
    lemma_upsert_nodes_kept(g6, g2, n0, field, model, f, dc, du, nc, nu);
    lemma_extends_keeps(g6, g5);
    let e0 = g0.edges@.len() as int;
    let l5 = g5.edges@.len() as int;
    assert(g6.edges@[e0] == g5.edges@[e0]);
    assert(g6.edges@[e0 + 1] == g5.edges@[e0 + 1]);
    if query_schema.relation_mode is Prisma {
        assert(g6.nodes@[n0 + 6] == g5.nodes@[n0 + 6]);
        assert(g6.edges@[l5 - 2] == g5.edges@[l5 - 2]);
        assert(g6.edges@[l5 - 1] == g5.edges@[l5 - 1]);
    }
}

/// `n` creates a record of `model`.
pub open spec fn creates_in(n: Node, model: Container) -> bool {
    n matches Node::Query(Query::Write(WriteQuery::CreateRecord { model: m, .. })) && m@ == model.name@
}

/// `n` updates one record of `model`.
pub open spec fn updates_in(n: Node, model: Container) -> bool {
    n matches Node::Query(Query::Write(WriteQuery::UpdateRecord { model: m, .. })) && m@ == model.name@
}

/// In `g`, the `if` node `i` runs, where its condition holds, an update of a record of
/// `model` (directly, or through a node that runs before that update), and otherwise a
/// creation of one.
pub open spec fn updates_or_creates(g: QueryGraph, i: int, model: Container) -> bool {
    &&& 0 <= i < g.nodes@.len()
    &&& g.nodes@[i] == Node::Flow(Flow::IfNonEmpty)
    &&& exists|k: int|
        #![trigger g.edges@[k]]
        0 <= k < g.edges@.len() && g.edges@[k].from.id == i && g.edges@[k].dependency == Dependency::Else
            && creates_in(g.nodes@[g.edges@[k].to.id as int], model)
    &&& exists|k: int|
        #![trigger g.edges@[k]]
        0 <= k < g.edges@.len() && g.edges@[k].from.id == i && g.edges@[k].dependency == Dependency::Then && (
        updates_in(g.nodes@[g.edges@[k].to.id as int], model) || exists|k2: int|
            #![trigger g.edges@[k2]]
            0 <= k2 < g.edges@.len() && g.edges@[k2].from == g.edges@[k].to && g.edges@[k2].dependency
                == Dependency::ExecutionOrder && updates_in(g.nodes@[g.edges@[k2].to.id as int], model))
}

/// An upsert that is not one statement decides on the existence of the record: an `if` runs
/// the update of the record where it exists, the creation of it otherwise.
pub proof fn lemma_upsert_decides(
    g: QueryGraph,
    old: QueryGraph,
    query_schema: QuerySchema,
    field: ParsedField,
    model: Container,
    f: Filter,
    dc: (Seq<(Seq<char>, OpDesc)>, Seq<(Seq<char>, ParsedInputMap)>),
    du: (Seq<(Seq<char>, OpDesc)>, Seq<(Seq<char>, ParsedInputMap)>),
    nc: Seq<(String, ParsedInputMap)>,
    nu: Seq<(String, ParsedInputMap)>,
)
    requires
        emulated_upsert_at(g, old, query_schema, field, model, f, dc, du, nc, nu),
        g.nodes@.len() <= usize::MAX,
    ensures
        updates_or_creates(g, old.nodes@.len() + 5int, model),
{
    reveal(emulated_upsert_at);
    let n = old.nodes@.len() as int;
    let e = old.edges@.len() as int;
    let l = g.edges@.len() as int;
    let ke = l - 3;
    assert(creates_in(g.nodes@[g.edges@[ke].to.id as int], model));
    if query_schema.relation_mode is Prisma {
        let kt = l - 5;
        let k2 = l - 4;
        assert(updates_in(g.nodes@[g.edges@[k2].to.id as int], model));
        assert(g.edges@[k2].from == g.edges@[kt].to);
    } else {
        let kt = e + 1;
        assert(updates_in(g.nodes@[g.edges@[kt].to.id as int], model));
    }
}

/// Plans an upsert that is not one statement of the connector, as `emulated_upsert_at` says;
/// the nested writes of the create and of the update come back.
#[verifier::rlimit(100)]
fn upsert_emulated(
    graph: &mut QueryGraph,
    query_schema: &QuerySchema,
    model: &Container,
    field: &ParsedField,
    filter: Filter,
    create_map: ParsedInputMap,
    update_map: ParsedInputMap,
) -> (r: Result<(Vec<(String, ParsedInputMap)>, Vec<(String, ParsedInputMap)>), QueryGraphBuilderError>)
    requires
        old(graph).wf(),
        field.nested_fields is Some,
        query_schema.relation_mode is Prisma ==> match args_spec(
            query_schema.data_model,
            *model,
            update_map.entries@,
            update_map.entries@.len(),
        ) {
            Ok(du) => update_emulation_ends(query_schema.data_model, model.name@, desc_fields(du.0)),
            Err(_) => true,
        },
    ensures
        final(graph).wf(),
        final(graph).grows(*old(graph)),
        match args_spec(query_schema.data_model, *model, create_map.entries@, create_map.entries@.len()) {
            Err(e) => r matches Err(x) && error_is(x, e),
            Ok(dc) => match args_spec(query_schema.data_model, *model, update_map.entries@, update_map.entries@.len()) {
                Err(e) => r matches Err(x) && error_is(x, e),
                Ok(du) => r matches Ok((nc, nu)) && emulated_upsert_at(
                    *final(graph),
                    *old(graph),
                    *query_schema,
                    *field,
                    *model,
                    filter,
                    dc,
                    du,
                    nc@,
                    nu@,
                ),
            },
        },
{
    let ghost g0 = *graph;
    let ghost gf = filter;
    let ghost gu = update_map;
    let ghost gc = create_map;
    let ghost dm = query_schema.data_model;
    graph.flag_transactional();
    let ghost g1 = *graph;
    proof {
        assert(g1.nodes@.take(g0.nodes@.len() as int) =~= g0.nodes@);
        assert(g1.edges@.take(g0.edges@.len() as int) =~= g0.edges@);
        assert(g1.marked@.take(g0.marked@.len() as int) =~= g0.marked@);
    }
    let (nc, nu) = match add_upsert_nodes(graph, query_schema, model, field, filter, create_map, update_map) {
        Ok(x) => x,
        Err(e) => {
            proof { lemma_grows_trans(*graph, g1, g0); }
            return Err(e);
        },
    };
    let ghost g2 = *graph;
    let n0 = graph.nodes.len() - 6;
    let read_node = NodeRef { id: n0 };
    let create_node = NodeRef { id: n0 + 1 };
    let update_node = NodeRef { id: n0 + 2 };
    let read_node_create = NodeRef { id: n0 + 3 };
    let read_node_update = NodeRef { id: n0 + 4 };
    let if_node = NodeRef { id: n0 + 5 };
    let ghost du = args_spec(dm, *model, gu.entries@, gu.entries@.len())->Ok_0;
    proof {
        let un = g2.nodes@[n0 + 2];
        assert(is_update_record(un, *model, gf, nu@, du));
        lemma_written_fields(crate::emulation::update_args_of(un), nu@, du);
        assert(keys_at(g2, update_node) == desc_fields(du.0));
    }
    add_upsert_decision(graph, query_schema, model, &read_node, &if_node, &update_node);
    let ghost g5 = *graph;
    add_upsert_tail(graph, model, &if_node, &create_node, &update_node, &read_node_create, &read_node_update);
    proof {
        let g6 = *graph;
        lemma_extends_trans(g6, g5, g2);
        lemma_grows_trans(g6, g2, g1);
        lemma_grows_trans(g6, g1, g0);
        let dc = args_spec(dm, *model, gc.entries@, gc.entries@.len())->Ok_0;
        lemma_emulated_upsert(g6, g5, g2, g0, *query_schema, *field, *model, gf, dc, du, nc@, nu@);
    }
    Ok((nc, nu))
}

/// `n` creates the record of `model` that `f` selects with the writes that `dc` describes,
/// or updates it with those that `du` describes where it exists, in one statement, and then
/// reads it as `is_record_read` says; `nc` and `nu` are the nested writes of the create and
/// of the update.
pub open spec fn is_native_upsert(
    n: Node,
    field: ParsedField,
    model: Container,
    f: Filter,
    dc: (Seq<(Seq<char>, OpDesc)>, Seq<(Seq<char>, ParsedInputMap)>),
    du: (Seq<(Seq<char>, OpDesc)>, Seq<(Seq<char>, ParsedInputMap)>),
    nc: Seq<(String, ParsedInputMap)>,
    nu: Seq<(String, ParsedInputMap)>,
) -> bool {
    n matches Node::Query(
        Query::Write(WriteQuery::NativeUpsert { name, model: m, filter, create, update, read }),
    ) && name@ == field.name@ && m@ == model.name@ && filter == f && writes_are(create, nc, dc) && writes_are(
        update,
        nu,
        du,
    ) && is_record_read(Node::Query(Query::Read(read)), field, model)
}

/// Adds the upsert in one statement of `is_native_upsert`; the nested writes of the create and
/// of the update come back.
fn native_upsert_node(
    graph: &mut QueryGraph,
    query_schema: &QuerySchema,
    model: &Container,
    field: &ParsedField,
    filter: Filter,
    create_map: ParsedInputMap,
    update_map: ParsedInputMap,
) -> (r: Result<(Vec<(String, ParsedInputMap)>, Vec<(String, ParsedInputMap)>), QueryGraphBuilderError>)
    requires
        old(graph).wf(),
        field.nested_fields is Some,
    ensures
        final(graph).wf(),
        final(graph).grows(*old(graph)),
        match args_spec(query_schema.data_model, *model, create_map.entries@, create_map.entries@.len()) {
            Err(e) => r matches Err(x) && error_is(x, e),
            Ok(dc) => match args_spec(query_schema.data_model, *model, update_map.entries@, update_map.entries@.len()) {
                Err(e) => r matches Err(x) && error_is(x, e),
                Ok(du) => r matches Ok((nc, nu)) && crate::write_utils::appended(*final(graph), *old(graph), 1, 0)
                    && is_native_upsert(
                    final(graph).nodes@[old(graph).nodes@.len() as int],
                    *field,
                    *model,
                    filter,
                    dc,
                    du,
                    nc@,
                    nu@,
                ),
            },
        },
{
    let ghost g0 = *graph;
    proof { crate::write_utils::lemma_extends_refl(*graph); }
    let create = match crate::write_args::WriteArgsParser::from(model, create_map, &query_schema.data_model) {
        Ok(p) => p,
        Err(e) => return Err(e),
    };
    let update = match crate::write_args::WriteArgsParser::from(model, update_map, &query_schema.data_model) {
        Ok(p) => p,
        Err(e) => return Err(e),
    };
    let crate::write_args::WriteArgsParser { args: create_args, nested: nc } = create;
    let crate::write_args::WriteArgsParser { args: update_args, nested: nu } = update;
    let read = match record_read(field, model) {
        Node::Query(Query::Read(q)) => q,
        _ => vstd::pervasive::unreached(),
    };
    let _n = graph.create_node(
        Node::Query(
            Query::Write(
                WriteQuery::NativeUpsert {
                    name: field.name.clone(),
                    model: model.name.clone(),
                    filter,
                    create: create_args,
                    update: update_args,
                    read,
                },
            ),
        ),
    );
    proof { lemma_pushed_node(*graph, g0); }
    Ok((nc, nu))
}

/// An upsert with the arguments `args` is one statement of the connector.
pub open spec fn upsert_native(query_schema: QuerySchema, model: Container, args: Seq<(String, ParsedInputValue)>) -> bool {
    match upsert_maps(args) {
        Ok((w, c, u)) => native_upsert_spec(model, w, c, u, query_schema.can_native_upsert),
        Err(_) => false,
    }
}

/// What an upsert with the arguments `args` plans from: the filter of its `where` object, and
/// the writes of its `create` and `update` objects; or the first error among them.
pub open spec fn upsert_desc(dm: crate::schema::DataModel, model: Container, args: Seq<(String, ParsedInputValue)>) -> Result<
    (
        FilterDesc,
        (Seq<(Seq<char>, OpDesc)>, Seq<(Seq<char>, ParsedInputMap)>),
        (Seq<(Seq<char>, OpDesc)>, Seq<(Seq<char>, ParsedInputMap)>),
    ),
    ErrorDesc,
> {
    match upsert_maps(args) {
        Err(e) => Err(e),
        Ok((w, c, u)) => match unique_spec(model, w) {
            Err(e) => Err(e),
            Ok(fd) => match args_spec(dm, model, c.entries@, c.entries@.len()) {
                Err(e) => Err(e),
                Ok(dc) => match args_spec(dm, model, u.entries@, u.entries@.len()) {
                    Err(e) => Err(e),
                    Ok(du) => Ok((fd, dc, du)),
                },
            },
        },
    }
}

/// Where the referential actions are emulated for an upsert that is not one statement, the
/// emulation of the update actions for the fields that its update writes ends.
pub open spec fn upsert_emulation_ends(query_schema: QuerySchema, model: Container, args: Seq<(String, ParsedInputValue)>) -> bool {
    (query_schema.relation_mode is Prisma && !upsert_native(query_schema, model, args)) ==> match upsert_maps(args) {
        Ok((w, c, u)) => match args_spec(query_schema.data_model, model, u.entries@, u.entries@.len()) {
            Ok(du) => update_emulation_ends(query_schema.data_model, model.name@, desc_fields(du.0)),
            Err(_) => true,
        },
        Err(_) => true,
    }
}

/// The graph of an upsert, appended to `old`: the one statement of `is_native_upsert` where
/// `native` holds, the graph of `emulated_upsert_at` otherwise.
pub open spec fn upsert_at(
    g: QueryGraph,
    old: QueryGraph,
    query_schema: QuerySchema,
    field: ParsedField,
    model: Container,
    f: Filter,
    dc: (Seq<(Seq<char>, OpDesc)>, Seq<(Seq<char>, ParsedInputMap)>),
    du: (Seq<(Seq<char>, OpDesc)>, Seq<(Seq<char>, ParsedInputMap)>),
    nc: Seq<(String, ParsedInputMap)>,
    nu: Seq<(String, ParsedInputMap)>,
    native: bool,
) -> bool {
    if native {
        &&& crate::write_utils::appended(g, old, 1, 0)
        &&& is_native_upsert(g.nodes@[old.nodes@.len() as int], field, model, f, dc, du, nc, nu)
    } else {
        emulated_upsert_at(g, old, query_schema, field, model, f, dc, du, nc, nu)
    }
}

/// The graph of an upsert speaks of its field only through the field's name and selection.
proof fn lemma_upsert_at_field(
    g: QueryGraph,
    old: QueryGraph,
    query_schema: QuerySchema,
    field: ParsedField,
    other: ParsedField,
    model: Container,
    f: Filter,
    dc: (Seq<(Seq<char>, OpDesc)>, Seq<(Seq<char>, ParsedInputMap)>),
    du: (Seq<(Seq<char>, OpDesc)>, Seq<(Seq<char>, ParsedInputMap)>),
    nc: Seq<(String, ParsedInputMap)>,
    nu: Seq<(String, ParsedInputMap)>,
    native: bool,
)
    requires
        field.name == other.name,
        field.nested_fields == other.nested_fields,
        upsert_at(g, old, query_schema, other, model, f, dc, du, nc, nu, native),
    ensures
        upsert_at(g, old, query_schema, field, model, f, dc, du, nc, nu, native),
{
    reveal(emulated_upsert_at);
}

/// Plans a top-level upsert of a record of `model`, from the `where`, `create` and `update`
/// arguments of `field`. Where the connector can do it in one statement (as
/// `native_upsert_spec` says), one node does it. Otherwise, in a transaction, the record's
/// identifier is read; an `if` on it runs the update (after the emulation of the update
/// actions, where the referential actions are emulated) where the record exists, the create
/// where it does not; the record created or updated is then read, as a result of the graph.
/// The nested writes of the create and of the update come back, to be planned below them.
pub fn upsert_record(
    graph: &mut QueryGraph,
    query_schema: &QuerySchema,
    model: &Container,
    field: ParsedField,
) -> (r: Result<(Vec<(String, ParsedInputMap)>, Vec<(String, ParsedInputMap)>), QueryGraphBuilderError>)
    requires
        old(graph).wf(),
        field.nested_fields is Some,
        upsert_args_present(field.arguments@),
        upsert_emulation_ends(*query_schema, *model, field.arguments@),
    ensures
        final(graph).wf(),
        final(graph).grows(*old(graph)),
        match upsert_desc(query_schema.data_model, *model, field.arguments@) {
            Err(e) => r matches Err(x) && error_is(x, e),
            Ok((fd, dc, du)) => r matches Ok((nc, nu)) && exists|f: Filter|
                described(f, fd) && #[trigger] upsert_at(
                    *final(graph),
                    *old(graph),
                    *query_schema,
                    field,
                    *model,
                    f,
                    dc,
                    du,
                    nc@,
                    nu@,
                    upsert_native(*query_schema, *model, field.arguments@),
                ),
        },
{
    let ghost f0 = field;
    let mut field = field;
    let (where_map, create_map, update_map) = match upsert_inputs(&mut field.arguments) {
        Ok(x) => x,
        Err(e) => {
            proof { crate::write_utils::lemma_extends_refl(*graph); }
            return Err(e);
        },
    };
    let ghost g0 = *graph;
    let r = plan_upsert(graph, query_schema, model, &field, where_map, create_map, update_map);
    proof {
        if r is Ok {
            let (fd, dc, du) = upsert_desc(query_schema.data_model, *model, f0.arguments@)->Ok_0;
            let nc = r->Ok_0.0@;
            let nu = r->Ok_0.1@;
            let native = upsert_native(*query_schema, *model, f0.arguments@);
            let f = choose|f: Filter|
                described(f, fd) && #[trigger] upsert_at(*graph, g0, *query_schema, field, *model, f, dc, du, nc, nu, native);
            lemma_upsert_at_field(*graph, g0, *query_schema, f0, field, *model, f, dc, du, nc, nu, native);
        }
    }
    r
}

/// Plans an upsert from its `where`, `create` and `update` objects, as `upsert_record` says.
fn plan_upsert(
    graph: &mut QueryGraph,
    query_schema: &QuerySchema,
    model: &Container,
    field: &ParsedField,
    where_map: ParsedInputMap,
    create_map: ParsedInputMap,
    update_map: ParsedInputMap,
) -> (r: Result<(Vec<(String, ParsedInputMap)>, Vec<(String, ParsedInputMap)>), QueryGraphBuilderError>)
    requires
        old(graph).wf(),
        field.nested_fields is Some,
        (query_schema.relation_mode is Prisma && !native_upsert_spec(
            *model,
            where_map,
            create_map,
            update_map,
            query_schema.can_native_upsert,
        )) ==> match args_spec(query_schema.data_model, *model, update_map.entries@, update_map.entries@.len()) {
            Ok(du) => update_emulation_ends(query_schema.data_model, model.name@, desc_fields(du.0)),
            Err(_) => true,
        },
    ensures
        final(graph).wf(),
        final(graph).grows(*old(graph)),
        match unique_spec(*model, where_map) {
            Err(e) => r matches Err(x) && error_is(x, e),
            Ok(fd) => match args_spec(query_schema.data_model, *model, create_map.entries@, create_map.entries@.len()) {
                Err(e) => r matches Err(x) && error_is(x, e),
                Ok(dc) => match args_spec(query_schema.data_model, *model, update_map.entries@, update_map.entries@.len()) {
                    Err(e) => r matches Err(x) && error_is(x, e),
                    Ok(du) => r matches Ok((nc, nu)) && exists|f: Filter|
                        described(f, fd) && #[trigger] upsert_at(
                            *final(graph),
                            *old(graph),
                            *query_schema,
                            *field,
                            *model,
                            f,
                            dc,
                            du,
                            nc@,
                            nu@,
                            native_upsert_spec(*model, where_map, create_map, update_map, query_schema.can_native_upsert),
                        ),
                },
            },
        },
{
    let ghost g0 = *graph;
    let ghost gc = create_map;
    let ghost gu = update_map;
    let ghost dm = query_schema.data_model;
    proof { crate::write_utils::lemma_extends_refl(*graph); }
    let native = can_use_connector_native_upsert(model, &where_map, &create_map, &update_map, query_schema);
    let filter = match extract_unique_filter(where_map, model) {
        Ok(f) => f,
        Err(e) => return Err(e),
    };
    let ghost gf = filter;
    let r = if native {
        native_upsert_node(graph, query_schema, model, field, filter, create_map, update_map)
    } else {
        upsert_emulated(graph, query_schema, model, field, filter, create_map, update_map)
    };
    proof {
        if r is Ok {
            let dc = args_spec(dm, *model, gc.entries@, gc.entries@.len())->Ok_0;
            let du = args_spec(dm, *model, gu.entries@, gu.entries@.len())->Ok_0;
            let nc = r->Ok_0.0@;
            let nu = r->Ok_0.1@;
            assert(upsert_at(*graph, g0, *query_schema, *field, *model, gf, dc, du, nc, nu, native));
        }
    }
    r
}

} // verus!
