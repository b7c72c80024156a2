use vstd::prelude::*;
use crate::builder::QuerySchema;
use crate::copies::copy_filter;
use crate::document::{collect_selected_scalars, collect_selection_order, pair_names, result_key, scalar_names, ParsedField};
use crate::connect_nested::objects_expected_message;
use crate::extract::{ErrorDesc, FilterDesc};
use crate::query_graph::{DataExpectation, Edge, ReadQuery};
use crate::unique::{extract_unique_filter, unique_spec};
use crate::delete_nested::last_edge;
use crate::write_utils::merged;
use crate::delete_nested::finish_delete;
use crate::emulation::{delete_actions_emulated, is_selectors_edge, lemma_delete_emulated_kept};
use crate::equality::same_filter;
use crate::error::QueryGraphBuilderError;
use crate::extract::{described, error_is, extract_object_filter, object_filter_spec};
use crate::filter::Filter;
use crate::query_graph::{names, Dependency, Node, NodeRef, Query, QueryGraph, RowSink, WriteQuery};
use crate::referential::delete_emulation_ends;
use crate::schema::Container;
use crate::text::str_eq;
use crate::values::ParsedInputValue;
use crate::write_utils::{
    copy_names, is_read_many, lemma_extends_keeps, lemma_extends_refl,
    lemma_extends_trans, lemma_grows_trans, new_node, new_ref, read_ids_infallible,
};

verus! {

/// The position of the first argument named `name`.
pub open spec fn arg_position(args: Seq<(String, ParsedInputValue)>, name: Seq<char>) -> Option<int> {
    if exists|i: int| 0 <= i < args.len() && args[i].0@ == name {
        Option::Some(
            choose|i: int| 0 <= i < args.len() && args[i].0@ == name && forall|j: int| 0 <= j < i ==> args[j].0@ != name,
        )
    } else {
        Option::None
    }
}

/// The value of the first argument named `name`, if there is one.
pub open spec fn arg_value(args: Seq<(String, ParsedInputValue)>, name: Seq<char>) -> Option<ParsedInputValue> {
    match arg_position(args, name) {
        Option::Some(i) => Option::Some(args[i].1),
        Option::None => Option::None,
    }
}

proof fn lemma_arg_position(args: Seq<(String, ParsedInputValue)>, name: Seq<char>, k: int)
    requires
        0 <= k <= args.len(),
        forall|j: int| 0 <= j < k ==> args[j].0@ != name,
        k < args.len() ==> args[k].0@ == name,
    ensures
        k < args.len() ==> arg_position(args, name) == Option::Some(k),
        k == args.len() ==> arg_position(args, name) == Option::<int>::None,
{
    if k < args.len() {
        let i = choose|i: int|
            0 <= i < args.len() && args[i].0@ == name && forall|j: int| 0 <= j < i ==> args[j].0@ != name;
        assert(0 <= k < args.len() && args[k].0@ == name && forall|j: int| 0 <= j < k ==> args[j].0@ != name);
        assert(i == k) by {
            if i < k {
                assert(args[i].0@ != name);
            } else if i > k {
                assert(args[k].0@ != name);
            }
        }
    }
}

/// Takes the first argument named `name` out of `args`, as a lookup in an argument list does.
pub fn lookup(args: &mut Vec<(String, ParsedInputValue)>, name: &str) -> (r: Option<ParsedInputValue>)
    ensures
        r == arg_value(old(args)@, name@),
        match arg_position(old(args)@, name@) {
            Option::Some(i) => final(args)@ == old(args)@.update(i, old(args)@.last()).drop_last(),
            Option::None => final(args)@ == old(args)@,
        },
{
    let n = args.len();
    let mut i: usize = 0;
    while i < n
        invariant
            args@ == old(args)@,
            n == args@.len(),
            i <= n,
            forall|j: int| 0 <= j < i ==> args@[j].0@ != name@,
        decreases n - i,
    {
        if str_eq(args[i].0.as_str(), name) {
            proof { lemma_arg_position(args@, name@, i as int); }
            let (_, v) = args.swap_remove(i);
            return Option::Some(v);
        }
        i = i + 1;
    }
    proof { lemma_arg_position(args@, name@, n as int); }
    Option::None
}

/// The filter of a top-level delete-many: the filter of its `where` argument, or none.
pub open spec fn delete_many_filter_spec(dm: crate::schema::DataModel, model: Container, field: ParsedField) -> Result<
    Option<crate::extract::FilterDesc>,
    crate::extract::ErrorDesc,
> {
    match arg_value(field.arguments@, "where"@) {
        Option::Some(v) => match object_filter_spec(dm, model, v) {
            Ok(d) => Ok(Option::Some(d)),
            Err(e) => Err(e),
        },
        Option::None => Ok(Option::None),
    }
}

/// The graph of a top-level delete-many of the records of `model` that `filter` selects,
/// appended to `old`: the deletion, a result of the graph; where the referential actions are
/// emulated, a read of the identifiers of the records to delete, whose rows become the
/// selectors of the deletion once the emulation has run, in a transaction.
pub open spec fn delete_many_at(g: QueryGraph, old: QueryGraph, model: Container, filter: Filter, emulated: bool) -> bool {
    &&& g.wf()
    &&& g.grows(old)
    &&& old.nodes@.len() + 1 <= g.nodes@.len()
    &&& new_node(g, old, 0) matches Node::Query(Query::Write(WriteQuery::DeleteManyRecords { model: m, filter: f }))
    &&& m@ == model.name@
    &&& same_filter(f, filter)
    &&& g.result_nodes@ == old.result_nodes@.push(new_ref(old, 0))
    &&& if emulated {
        &&& g.needs_transaction
        &&& old.nodes@.len() + 2 <= g.nodes@.len()
        &&& is_read_many(
            new_node(g, old, 1),
            "read_ids_infallible"@,
            model.name@,
            names(model.primary_identifier@),
            names(model.primary_identifier@),
            filter,
        )
        &&& g.edges@.len() > old.edges@.len()
        &&& is_selectors_edge(
            g.edges@[g.edges@.len() - 1],
            new_ref(old, 1),
            new_ref(old, 0),
            names(model.primary_identifier@),
        )
    } else {
        &&& g.nodes@.len() == old.nodes@.len() + 1
        &&& g.edges@ == old.edges@
        &&& g.needs_transaction == old.needs_transaction
    }
}

/// Plans a top-level delete-many of the records of `model` that the `where` argument of `field`
/// selects (all of them without one). Where the referential actions are emulated, the records
/// are read first, and the emulation runs before they are deleted.
pub fn delete_many_records(
    graph: &mut QueryGraph,
    query_schema: &QuerySchema,
    model: &Container,
    field: ParsedField,
) -> (r: Result<(), QueryGraphBuilderError>)
    requires
        old(graph).wf(),
        query_schema.relation_mode is Prisma ==> delete_emulation_ends(query_schema.data_model, model.name@),
    ensures
        delete_many_filter_spec(query_schema.data_model, *model, field) matches Err(e) ==> (r matches Err(x)
            && error_is(x, e)) && *final(graph) == *old(graph),
        delete_many_filter_spec(query_schema.data_model, *model, field) matches Ok(od) ==> r is Ok && exists|f: Filter|
            #[trigger] delete_many_at(
                *final(graph),
                *old(graph),
                *model,
                f,
                query_schema.relation_mode is Prisma,
            ) && match od {
                Option::Some(d) => described(f, d),
                Option::None => f == Filter::Empty,
            } && delete_actions_emulated(*final(graph), *old(graph), *query_schema, model.name@, new_ref(*old(graph), 0)),
{
    let ghost g0 = *graph;
    let mut field = field;
    let filter = match lookup(&mut field.arguments, "where") {
        Option::Some(where_arg) => match extract_object_filter(where_arg, model, &query_schema.data_model) {
            Ok(f) => f,
            Err(x) => return Err(x),
        },
        Option::None => Filter::Empty,
    };
    let ghost gf = filter;
    let delete_many_node = graph.create_node(
        Node::Query(
            Query::Write(WriteQuery::DeleteManyRecords { model: model.name.clone(), filter: copy_filter(&filter) }),
        ),
    );
    let ghost g1 = *graph;
    proof {
        assert(g1.nodes@.take(g0.nodes@.len() as int) =~= g0.nodes@);
        assert(g1.edges@.take(g0.edges@.len() as int) =~= g0.edges@);
        assert(g1.marked@.take(g0.marked@.len() as int) =~= g0.marked@);
        assert(g1.result_nodes@.take(g0.result_nodes@.len() as int) =~= g0.result_nodes@);
    }
    if !query_schema.relation_mode.skips_emulation() {
        graph.flag_transactional();
        let ghost gt = *graph;
        proof {
            assert(gt.nodes@.take(g1.nodes@.len() as int) =~= g1.nodes@);
            assert(gt.edges@.take(g1.edges@.len() as int) =~= g1.edges@);
            assert(gt.marked@.take(g1.marked@.len() as int) =~= g1.marked@);
        }
        let read_query = read_ids_infallible(
            model.name.as_str(),
            &model.primary_identifier,
            copy_names(&model.primary_identifier),
            filter,
        );
        let read_query_node = graph.create_node(read_query);
        let ghost g2 = *graph;
        finish_delete(
            graph,
            query_schema,
            model,
            &read_query_node,
            &delete_many_node,
            copy_names(&model.primary_identifier),
            RowSink::Selectors,
            Option::None,
        );
        proof {
            assert(g2.nodes@.take(gt.nodes@.len() as int) =~= gt.nodes@);
            assert(g2.edges@.take(gt.edges@.len() as int) =~= gt.edges@);
            assert(g2.marked@.take(gt.marked@.len() as int) =~= gt.marked@);
            assert(g2.result_nodes@.take(gt.result_nodes@.len() as int) =~= gt.result_nodes@);
            lemma_extends_trans(*graph, g2, gt);
            lemma_extends_keeps(*graph, g2);
            lemma_extends_keeps(gt, g1);
            lemma_grows_trans(*graph, gt, g1);
            assert(graph.nodes@[g0.nodes@.len() as int] == g2.nodes@[g0.nodes@.len() as int]);
            assert(graph.nodes@[g0.nodes@.len() + 1int] == g2.nodes@[g0.nodes@.len() + 1int]);
            lemma_grows_trans(g2, gt, g1);
            lemma_grows_trans(g2, g1, g0);
        }
        let ghost g4 = *graph;
        proof {
            assert(delete_actions_emulated(g4, g2, *query_schema, model.name@, new_ref(g0, 0)));
            if query_schema.relation_mode is Prisma {
                lemma_extends_refl(g4);
                lemma_delete_emulated_kept(g4, g4, g2, g0, query_schema.data_model, model.name@, new_ref(g0, 0));
            }
        }
    } else {
        proof { lemma_extends_refl(*graph); }
    }
    let ghost g5 = *graph;
    graph.add_result_node(&delete_many_node);
    proof {
        assert(graph.nodes@.take(g5.nodes@.len() as int) =~= g5.nodes@);
        assert(graph.edges@.take(g5.edges@.len() as int) =~= g5.edges@);
        assert(graph.marked@.take(g5.marked@.len() as int) =~= g5.marked@);
        assert(graph.result_nodes@.take(g5.result_nodes@.len() as int) =~= g5.result_nodes@);
        assert(g5.grows(g1));
        lemma_grows_trans(g5, g1, g0);
        lemma_grows_trans(*graph, g5, g0);
        assert(delete_many_at(*graph, g0, *model, gf, query_schema.relation_mode is Prisma));
        if query_schema.relation_mode is Prisma {
            lemma_extends_refl(g0);
            lemma_delete_emulated_kept(*graph, g5, g0, g0, query_schema.data_model, model.name@, new_ref(g0, 0));
        }
    }
    Ok(())
}

/// The field selects a relation: one of its selected fields has a selection of its own.
pub open spec fn has_nested_selection(field: ParsedField) -> bool {
    match field.nested_fields {
        Option::Some(o) => exists|i: int| 0 <= i < o.fields@.len() && (#[trigger] o.fields@[i]).parsed_field.nested_fields is Some,
        Option::None => false,
    }
}

fn selects_relation(field: &ParsedField) -> (b: bool)
    ensures
        b == has_nested_selection(*field),
{
    match &field.nested_fields {
        Option::Some(o) => {
            let n = o.fields.len();
            let mut i: usize = 0;
            while i < n
                invariant
                    n == o.fields@.len(),
                    field.nested_fields == Option::Some(*o),
                    i <= n,
                    forall|j: int| 0 <= j < i ==> (#[trigger] o.fields@[j]).parsed_field.nested_fields is None,
                decreases n - i,
            {
                if o.fields[i].parsed_field.nested_fields.is_some() {
                    assert(o.fields@[i as int].parsed_field.nested_fields is Some);
                    return true;
                }
                i = i + 1;
            }
            false
        },
        Option::None => false,
    }
}

/// A top-level delete of one record deletes it in one statement that returns it: the
/// connector can, and the field selects no relation.
pub open spec fn atomic_delete(query_schema: QuerySchema, field: ParsedField) -> bool {
    query_schema.delete_returning && !has_nested_selection(field)
}

/// The filter of the `where` argument of a top-level delete of one record, or the error for a
/// `where` that is no object or selects no record by a unique criterion.
pub open spec fn delete_record_spec(model: Container, field: ParsedField) -> Result<FilterDesc, ErrorDesc> {
    match arg_value(field.arguments@, "where"@) {
        Option::Some(ParsedInputValue::Object(m)) => unique_spec(model, m),
        _ => Err(ErrorDesc::Input(objects_expected_message())),
    }
}

/// The message when the record that a top-level delete reads first does not exist.
pub open spec fn record_to_delete_missing() -> Seq<char> {
    "Record to delete does not exist."@
}

/// The graph of a top-level delete of the record of `model` that `f` selects, appended to
/// `old`, in a transaction. Where `atomic` holds, one node deletes the record and returns the
/// scalar fields that `field` selects, a result of the graph. Otherwise a read of those fields
/// of the record, a result of the graph, runs first; the deletion runs after it (and after the
/// emulation of the delete actions, where the referential actions are emulated), and fails
/// without the record.
pub open spec fn delete_record_at(
    g: QueryGraph,
    old: QueryGraph,
    query_schema: QuerySchema,
    field: ParsedField,
    model: Container,
    f: Filter,
    atomic: bool,
) -> bool {
    let n = old.nodes@.len() as int;
    let pairs = field.nested_fields->Some_0.fields@;
    let selection = merged(names(model.primary_identifier@), scalar_names(model, pair_names(pairs)));
    &&& g.wf()
    &&& g.grows(old)
    &&& g.needs_transaction
    &&& g.result_nodes@ == old.result_nodes@.push(NodeRef { id: n as usize })
    &&& if atomic {
        &&& g.nodes@.len() == n + 1
        &&& g.edges@ == old.edges@
        &&& g.nodes@[n] matches Node::Query(
            Query::Write(WriteQuery::DeleteRecordReturning { name, model: m, filter, selection: s, order }),
        )
        &&& name@ == field.name@ && m@ == model.name@ && filter == f && names(s@) == selection
        &&& order@.len() == pairs.len()
        &&& forall|i: int| 0 <= i < pairs.len() ==> (#[trigger] order@[i])@ == result_key(pairs[i].parsed_field)
    } else {
        &&& n + 2 <= g.nodes@.len()
        &&& g.nodes@[n] matches Node::Query(Query::Read(ReadQuery::Record { name, model: m, filter, selection: s }))
        &&& name@ == field.name@ && m@ == model.name@ && same_filter(filter, f) && names(s@) == selection
        &&& g.nodes@[n + 1] matches Node::Query(Query::Write(WriteQuery::DeleteRecord { model: m, filter }))
        &&& m@ == model.name@ && same_filter(filter, f)
        &&& g.edges@.len() > old.edges@.len()
        &&& is_projected_not_found(
            last_edge(g),
            NodeRef { id: n as usize },
            NodeRef { id: (n + 1) as usize },
            names(model.primary_identifier@),
        )
        &&& delete_actions_emulated(g, old, query_schema, model.name@, NodeRef { id: (n + 1) as usize })
    }
}

/// `e` leads from `from` to `to`, projects `id` and fails without a row, as the missing record
/// to delete.
pub open spec fn is_projected_not_found(e: Edge, from: NodeRef, to: NodeRef, id: Seq<Seq<char>>) -> bool {
    &&& crate::write_utils::is_projected(e, from, to, id)
    &&& e.dependency->sink is Discard
    &&& e.dependency->expectation matches Option::Some(
        DataExpectation::NonEmptyRows(QueryGraphBuilderError::RecordNotFound(m)),
    )
    &&& m@ == record_to_delete_missing()
}

/// Adds the delete in one statement of `delete_record_at`.
fn delete_atomic(graph: &mut QueryGraph, query_schema: &QuerySchema, model: &Container, field: &ParsedField, filter: Filter)
    requires
        old(graph).wf(),
        old(graph).needs_transaction,
        field.nested_fields is Some,
    ensures
        delete_record_at(*final(graph), *old(graph), *query_schema, *field, *model, filter, true),
{
    let ghost g0 = *graph;
    let (selection, order) = match &field.nested_fields {
        Option::Some(o) => (collect_selected_scalars(&o.fields, model), collect_selection_order(&o.fields)),
        Option::None => vstd::pervasive::unreached(),
    };
    let delete_node = graph.create_node(
        Node::Query(
            Query::Write(
                WriteQuery::DeleteRecordReturning {
                    name: field.name.clone(),
                    model: model.name.clone(),
                    filter,
                    selection,
                    order,
                },
            ),
        ),
    );
    graph.add_result_node(&delete_node);
    proof {
        assert(graph.nodes@.take(g0.nodes@.len() as int) =~= g0.nodes@);
        assert(graph.edges@.take(g0.edges@.len() as int) =~= g0.edges@);
        assert(graph.marked@.take(g0.marked@.len() as int) =~= g0.marked@);
    }
}

/// Adds the read of the record, then its deletion, of `delete_record_at` where the delete is
/// not one statement.
fn delete_read_first(graph: &mut QueryGraph, query_schema: &QuerySchema, model: &Container, field: &ParsedField, filter: Filter)
    requires
        old(graph).wf(),
        old(graph).needs_transaction,
        field.nested_fields is Some,
        query_schema.relation_mode is Prisma ==> delete_emulation_ends(query_schema.data_model, model.name@),
    ensures
        delete_record_at(*final(graph), *old(graph), *query_schema, *field, *model, filter, false),
{
    let ghost g0 = *graph;
    let selection = match &field.nested_fields {
        Option::Some(o) => collect_selected_scalars(&o.fields, model),
        Option::None => vstd::pervasive::unreached(),
    };
    let read_node = graph.create_node(
        Node::Query(
            Query::Read(
                ReadQuery::Record {
                    name: field.name.clone(),
                    model: model.name.clone(),
                    filter: copy_filter(&filter),
                    selection,
                },
            ),
        ),
    );
    let delete_node = graph.create_node(
        Node::Query(Query::Write(WriteQuery::DeleteRecord { model: model.name.clone(), filter: copy_filter(&filter) })),
    );
    let ghost g2 = *graph;
    proof {
        assert(g2.nodes@.take(g0.nodes@.len() as int) =~= g0.nodes@);
        assert(g2.edges@.take(g0.edges@.len() as int) =~= g0.edges@);
        assert(g2.marked@.take(g0.marked@.len() as int) =~= g0.marked@);
        assert(g2.result_nodes@.take(g0.result_nodes@.len() as int) =~= g0.result_nodes@);
    }
    finish_delete(
        graph,
        query_schema,
        model,
        &read_node,
        &delete_node,
        copy_names(&model.primary_identifier),
        RowSink::Discard,
        Option::Some(
            DataExpectation::NonEmptyRows(
                QueryGraphBuilderError::RecordNotFound(crate::text::text("Record to delete does not exist.")),
            ),
        ),
    );
    let ghost g3 = *graph;
    graph.add_result_node(&read_node);
    proof {
        let n0 = g0.nodes@.len() as int;
        assert(graph.nodes@ == g3.nodes@);
        assert(graph.edges@ == g3.edges@);
        assert(graph.marked@.take(g3.marked@.len() as int) =~= g3.marked@);
        assert(graph.nodes@.take(g3.nodes@.len() as int) =~= g3.nodes@);
        assert(graph.edges@.take(g3.edges@.len() as int) =~= g3.edges@);
        lemma_extends_trans(g3, g2, g0);
        lemma_extends_keeps(g3, g2);
        lemma_grows_trans(*graph, g3, g0);
        assert(graph.nodes@[n0] == g2.nodes@[n0]);
        assert(graph.nodes@[n0 + 1] == g2.nodes@[n0 + 1]);
        assert(g3.result_nodes@ == g0.result_nodes@);
        if query_schema.relation_mode is Prisma {
            lemma_extends_refl(g2);
            lemma_delete_emulated_kept(*graph, g3, g2, g0, query_schema.data_model, model.name@, delete_node);
        }
    }
}

proof fn lemma_delete_record_base(
    g: QueryGraph,
    g1: QueryGraph,
    g0: QueryGraph,
    query_schema: QuerySchema,
    field: ParsedField,
    f0: ParsedField,
    model: Container,
    f: Filter,
    atomic: bool,
)
    requires
        g1.grows(g0),
        g1.nodes@ == g0.nodes@,
        g1.edges@ == g0.edges@,
        g1.result_nodes@ == g0.result_nodes@,
        field.name == f0.name,
        field.nested_fields == f0.nested_fields,
        delete_record_at(g, g1, query_schema, field, model, f, atomic),
    ensures
        delete_record_at(g, g0, query_schema, f0, model, f, atomic),
{
    lemma_grows_trans(g, g1, g0);
    if !atomic && query_schema.relation_mode is Prisma {
        lemma_extends_refl(g);
        lemma_delete_emulated_kept(g, g, g1, g0, query_schema.data_model, model.name@, NodeRef {
            id: (g0.nodes@.len() + 1) as usize,
        });
    }
}

/// Plans a top-level delete of the record of `model` that the `where` argument of `field`
/// selects, in a transaction: in one statement that returns the record where the connector
/// can and `field` selects no relation; otherwise the record is read first, a result of the
/// graph, and deleted after it (and after the emulation of the delete actions, where the
/// referential actions are emulated), which fails where the record does not exist.
pub fn delete_record(
    graph: &mut QueryGraph,
    query_schema: &QuerySchema,
    model: &Container,
    field: ParsedField,
) -> (r: Result<(), QueryGraphBuilderError>)
    requires
        old(graph).wf(),
        field.nested_fields is Some,
        arg_value(field.arguments@, "where"@) is Some,
        query_schema.relation_mode is Prisma ==> delete_emulation_ends(query_schema.data_model, model.name@),
    ensures
        final(graph).wf(),
        final(graph).grows(*old(graph)),
        match delete_record_spec(*model, field) {
            Err(e) => r matches Err(x) && error_is(x, e),
            Ok(fd) => r is Ok && exists|f: Filter|
                described(f, fd) && #[trigger] delete_record_at(
                    *final(graph),
                    *old(graph),
                    *query_schema,
                    field,
                    *model,
                    f,
                    atomic_delete(*query_schema, field),
                ),
        },
{
    let ghost g0 = *graph;
    let ghost f0 = field;
    graph.flag_transactional();
    let ghost g1 = *graph;
    proof {
        assert(g1.nodes@.take(g0.nodes@.len() as int) =~= g0.nodes@);
        assert(g1.edges@.take(g0.edges@.len() as int) =~= g0.edges@);
        assert(g1.marked@.take(g0.marked@.len() as int) =~= g0.marked@);
    }
    let mut field = field;
    let where_map = match lookup(&mut field.arguments, "where") {
        Option::Some(ParsedInputValue::Object(m)) => m,
        _ => return Err(QueryGraphBuilderError::InputError(crate::text::text("Expected an input object."))),
    };
    let filter = match extract_unique_filter(where_map, model) {
        Ok(f) => f,
        Err(e) => return Err(e),
    };
    let ghost gf = filter;
    let atomic = query_schema.delete_returning && !selects_relation(&field);
    if atomic {
        delete_atomic(graph, query_schema, model, &field, filter);
    } else {
        delete_read_first(graph, query_schema, model, &field, filter);
    }
    proof {
        lemma_delete_record_base(*graph, g1, g0, *query_schema, field, f0, *model, gf, atomic);
        assert(has_nested_selection(field) == has_nested_selection(f0));
        assert(atomic == atomic_delete(*query_schema, f0));
        let fd = delete_record_spec(*model, f0)->Ok_0;
        assert(described(gf, fd));
        assert(delete_record_at(*graph, g0, *query_schema, f0, *model, gf, atomic_delete(*query_schema, f0)));
    }
    Ok(())
}

} // verus!
