use vstd::prelude::*;
use crate::builder::QuerySchema;
use crate::connect_nested::{coerced, extract_selector_filters, objects_expected_message, selector_filters_spec};
use crate::copies::copy_filter;
use crate::emulation::{
    delete_actions_emulated, delete_emulated, emulation_ordered, insert_emulated_on_delete_within, is_leaf_for, is_new_node, is_selectors_edge,
    lemma_delete_emulated_kept, leaf_fields,
};
use crate::relations::pointing_to_model;
use crate::equality::same_filter;
use crate::error::{DataOperation, MissingRelatedRecord, QueryGraphBuilderError};
use crate::extract::{
    described, error_is, extract_filter, extract_object_filter, extract_spec, object_filter_spec, ErrorDesc, FilterDesc,
};
use crate::flatten::GroupKind;
use crate::filter::Filter;
use crate::query_graph::{
    names, CountError, DataExpectation, Dependency, Edge, Node, NodeRef, Query, QueryGraph, ReadQuery, RowSink,
    WriteQuery,
};
use crate::referential::delete_emulation_ends;
use crate::schema::{Container, DataModel, RelationField};
use crate::text::text;
use crate::values::{ParsedInputValue, PrismaValue};
use crate::write_utils::{
    coerce_vec, copy_names, create_execution_order_edges, insert_find_children_by_parent_node, is_find_children,
    is_missing_related, is_parent_records_edge, is_projected, lemma_extends_keeps, lemma_extends_refl,
    lemma_extends_trans, new_edge, new_node, new_ref,
};

verus! {

/// The filter of a read of related records.
pub open spec fn read_filter(n: Node) -> Filter {
    match n {
        Node::Query(Query::Read(ReadQuery::RelatedRecords { filter, .. })) => filter,
        _ => Filter::Empty,
    }
}

/// `g` holds `nodes` nodes and `edges` edges more than `old`.
pub open spec fn added(g: QueryGraph, old: QueryGraph, nodes: nat, edges: nat) -> bool {
    &&& g.nodes@.len() == old.nodes@.len() + nodes
    &&& g.edges@.len() == old.edges@.len() + edges
}

/// The last edge of `g`.
pub open spec fn last_edge(g: QueryGraph) -> Edge {
    g.edges@[g.edges@.len() - 1]
}

/// The graph of a nested delete of the records of `child` related through `rf` to the parent
/// records of `parent` that `filter` selects, appended to `old`: a deletion of records of
/// `child` (its filter a copy of `filter`), a read of the related records that `filter`
/// selects, and, last, the edge that hands the deletion the identifiers of exactly `count`
/// such records, which are otherwise not connected to the parent.
pub open spec fn list_delete_at(
    g: QueryGraph,
    old: QueryGraph,
    parent: NodeRef,
    rf: RelationField,
    child: Seq<char>,
    filter: Filter,
    count: nat,
) -> bool {
    &&& g.wf()
    &&& g.extends(old)
    &&& old.nodes@.len() + 2 <= g.nodes@.len()
    &&& old.edges@.len() + 2 <= g.edges@.len()
    &&& new_node(g, old, 0) matches Node::Query(Query::Write(WriteQuery::DeleteManyRecords { model, filter: f }))
    &&& model@ == child
    &&& same_filter(f, filter)
    &&& is_find_children(new_node(g, old, 1), rf, filter)
    &&& is_parent_records_edge(new_edge(g, old, 0), parent, new_ref(old, 1), rf)
    &&& is_projected(last_edge(g), new_ref(old, 1), new_ref(old, 0), names(rf.related_identifier@))
    &&& last_edge(g).dependency->sink is Selectors
    &&& last_edge(g).dependency->expectation matches Option::Some(
        DataExpectation::ExactRowCount(
            n,
            CountError::Fixed(QueryGraphBuilderError::RecordsNotConnected { relation_name, parent_name, child_name }),
        ),
    )
    &&& n == count
    &&& relation_name@ == rf.relation.name@
    &&& parent_name@ == rf.model@
    &&& child_name@ == child
}

/// A nested delete on a list relation field, of the records that the unique selectors `ds`
/// select: `filter` is the disjunction of their filters.
pub open spec fn list_deleted(
    g: QueryGraph,
    old: QueryGraph,
    parent: NodeRef,
    rf: RelationField,
    child: Seq<char>,
    filter: Filter,
    ds: Seq<FilterDesc>,
) -> bool {
    &&& described(filter, FilterDesc::Group(GroupKind::Or, ds))
    &&& list_delete_at(g, old, parent, rf, child, filter, ds.len())
}

/// The graph of a nested delete of the one record of `child` related through `rf` to the
/// parent record of `parent`, among those that `filter` selects, appended to `old`: a read of
/// the related records (its filter a copy of `filter`), the deletion of the record that
/// `filter` selects, and, last, the edge that hands the deletion the identifier of the related
/// record, which must exist.
pub open spec fn one_delete_at(
    g: QueryGraph,
    old: QueryGraph,
    parent: NodeRef,
    rf: RelationField,
    child: Seq<char>,
    filter: Filter,
) -> bool {
    &&& g.wf()
    &&& g.extends(old)
    &&& old.nodes@.len() + 2 <= g.nodes@.len()
    &&& old.edges@.len() + 2 <= g.edges@.len()
    &&& is_find_children(new_node(g, old, 0), rf, read_filter(new_node(g, old, 0)))
    &&& same_filter(read_filter(new_node(g, old, 0)), filter)
    &&& is_parent_records_edge(new_edge(g, old, 0), parent, new_ref(old, 0), rf)
    &&& new_node(g, old, 1) matches Node::Query(Query::Write(WriteQuery::DeleteRecord { model, filter: f }))
    &&& model@ == child
    &&& f == filter
    &&& is_projected(last_edge(g), new_ref(old, 0), new_ref(old, 1), names(rf.related_identifier@))
    &&& last_edge(g).dependency->sink is ExactlyOneSelector
    &&& last_edge(g).dependency->expectation matches Option::Some(DataExpectation::NonEmptyRows(e))
    &&& is_missing_related(e, child, rf, DataOperation::NestedDelete)
}

/// A nested delete of one record, selected by the filter that `d` describes.
pub open spec fn one_deleted(
    g: QueryGraph,
    old: QueryGraph,
    parent: NodeRef,
    rf: RelationField,
    child: Seq<char>,
    filter: Filter,
    d: FilterDesc,
) -> bool {
    &&& described(filter, d)
    &&& one_delete_at(g, old, parent, rf, child, filter)
}

/// Adds the deletion of the records that `delete_node` deletes, which `find_node` reads, with
/// the emulation of the delete actions of the relations to `child_model` before it and, last,
/// the edge from `find_node` to `delete_node` with `sink` and `expectation`.
pub(crate) fn finish_delete(
    graph: &mut QueryGraph,
    query_schema: &QuerySchema,
    child_model: &Container,
    find_node: &NodeRef,
    delete_node: &NodeRef,
    selection: Vec<String>,
    sink: RowSink,
    expectation: Option<DataExpectation>,
)
    requires
        old(graph).wf(),
        old(graph).has(*find_node),
        old(graph).has(*delete_node),
        query_schema.relation_mode is Prisma ==> delete_emulation_ends(query_schema.data_model, child_model.name@),
    ensures
        final(graph).wf(),
        final(graph).extends(*old(graph)),
        last_edge(*final(graph)) == (Edge {
            from: *find_node,
            to: *delete_node,
            dependency: Dependency::Projected { selection, sink, expectation },
        }),
        final(graph).edges@.len() > old(graph).edges@.len(),
        delete_actions_emulated(*final(graph), *old(graph), *query_schema, child_model.name@, *delete_node),
        !(query_schema.relation_mode is Prisma) ==> final(graph).nodes@.len() == old(graph).nodes@.len()
            && final(graph).edges@.len() == old(graph).edges@.len() + 1,
{
    let ghost g0 = *graph;
    let ghost n = choose|n: nat| crate::referential::delete_bounded(query_schema.data_model, child_model.name@, n);
    let dependencies = insert_emulated_on_delete_within(graph, query_schema, child_model.name.as_str(), find_node, Ghost(n));
    let ghost g1 = *graph;
    proof {
        assert forall|i: int| 0 <= i < dependencies@.len() implies graph.has(#[trigger] dependencies@[i]) by {
            assert(is_new_node(g1, g0, dependencies@[i]));
        }
    }
    create_execution_order_edges(graph, dependencies, *delete_node);
    let ghost g2 = *graph;
    proof {
        if query_schema.relation_mode is Prisma {
            let dm = query_schema.data_model;
            let leaves = leaf_fields(dm, pointing_to_model(dm.containers@, child_model.name@));
            let nodes = dependencies@;
            let e = g1.edges@.len() as int;
            lemma_extends_keeps(g2, g1);
            assert forall|i: int| 0 <= i < nodes.len() implies {
                &&& is_new_node(g2, g0, #[trigger] nodes[i])
                &&& is_leaf_for(g2, nodes[i], dm, leaves[i])
                &&& g2.edges@[e + i] == (Edge {
                    from: nodes[i],
                    to: *delete_node,
                    dependency: Dependency::ExecutionOrder,
                })
            } by {
                assert(is_leaf_for(g1, nodes[i], dm, leaves[i]));
                assert(g2.nodes@[nodes[i].id as int] == g1.nodes@[nodes[i].id as int]);
                assert(new_edge(g2, g1, i) == g2.edges@[e + i]);
            }
            assert(emulation_ordered(g2, g0, dm, child_model.name@, *delete_node, nodes, e));
        }
    }
    graph.create_edge(find_node, delete_node, Dependency::Projected { selection, sink, expectation });
    proof {
        assert(graph.nodes@.take(g2.nodes@.len() as int) =~= g2.nodes@);
        assert(graph.edges@.take(g2.edges@.len() as int) =~= g2.edges@);
        assert(graph.marked@.take(g2.marked@.len() as int) =~= g2.marked@);
        assert(graph.result_nodes@.take(g2.result_nodes@.len() as int) =~= g2.result_nodes@);
        lemma_extends_trans(g2, g1, g0);
        lemma_extends_trans(*graph, g2, g0);
        if query_schema.relation_mode is Prisma {
            lemma_extends_refl(g0);
            lemma_delete_emulated_kept(*graph, g2, g0, g0, query_schema.data_model, child_model.name@, *delete_node);
        }
    }
}

/// Adds the deletion of the records of `child_model` related through `rf` to the parent
/// records of `parent_node` that `filters` select, which must all be connected to the parent.
fn delete_selected_children(
    graph: &mut QueryGraph,
    query_schema: &QuerySchema,
    parent_node: &NodeRef,
    rf: &RelationField,
    filters: Vec<Filter>,
    child_model: &Container,
) -> (f: Ghost<Filter>)
    requires
        old(graph).wf(),
        old(graph).has(*parent_node),
        query_schema.relation_mode is Prisma ==> delete_emulation_ends(query_schema.data_model, child_model.name@),
    ensures
        f@ matches Filter::Or(v) && v@ == filters@,
        list_delete_at(*final(graph), *old(graph), *parent_node, *rf, child_model.name@, f@, filters@.len()),
        delete_actions_emulated(*final(graph), *old(graph), *query_schema, child_model.name@, new_ref(*old(graph), 0)),
        !(query_schema.relation_mode is Prisma) ==> added(*final(graph), *old(graph), 2, 2),
{
    let ghost g0 = *graph;
    let filter_len = filters.len();
    let or_filter = Filter::Or(filters);
    let delete_many_node = graph.create_node(
        Node::Query(
            Query::Write(
                WriteQuery::DeleteManyRecords { model: child_model.name.clone(), filter: copy_filter(&or_filter) },
            ),
        ),
    );
    let ghost ga = *graph;
    let ghost gf = or_filter;
    let find_child_records_node = insert_find_children_by_parent_node(graph, parent_node, rf, or_filter);
    let ghost g1 = *graph;
    proof {
        assert(g1.nodes@.take(g0.nodes@.len() as int) =~= g0.nodes@);
        assert(g1.edges@.take(g0.edges@.len() as int) =~= g0.edges@);
        assert(g1.marked@.take(g0.marked@.len() as int) =~= g0.marked@);
        assert(g1.result_nodes@.take(g0.result_nodes@.len() as int) =~= g0.result_nodes@);
        lemma_extends_keeps(g1, ga);
        assert(g1.nodes@[g0.nodes@.len() as int] == ga.nodes@[g0.nodes@.len() as int]);
    }
    let expectation = Option::Some(
        DataExpectation::ExactRowCount(
            filter_len,
            CountError::Fixed(
                QueryGraphBuilderError::RecordsNotConnected {
                    relation_name: rf.relation.name.clone(),
                    parent_name: rf.model.clone(),
                    child_name: child_model.name.clone(),
                },
            ),
        ),
    );
    finish_delete(
        graph,
        query_schema,
        child_model,
        &find_child_records_node,
        &delete_many_node,
        copy_names(&rf.related_identifier),
        RowSink::Selectors,
        expectation,
    );
    proof {
        lemma_extends_trans(*graph, g1, g0);
        lemma_extends_keeps(*graph, g1);
        assert(graph.nodes@[g0.nodes@.len() as int] == g1.nodes@[g0.nodes@.len() as int]);
        assert(graph.nodes@[g0.nodes@.len() + 1int] == g1.nodes@[g0.nodes@.len() + 1int]);
        assert(graph.edges@[g0.edges@.len() as int] == g1.edges@[g0.edges@.len() as int]);
        if query_schema.relation_mode is Prisma {
            lemma_extends_refl(*graph);
            lemma_delete_emulated_kept(*graph, *graph, g1, g0, query_schema.data_model, child_model.name@, delete_many_node);
        }
    }
    Ghost(gf)
}

/// Adds the deletion of the one record of `child_model` related through `rf` to the parent
/// record of `parent_node`, among those that `filter` selects; the record must exist.
fn delete_related_child(
    graph: &mut QueryGraph,
    query_schema: &QuerySchema,
    parent_node: &NodeRef,
    rf: &RelationField,
    filter: Filter,
    child_model: &Container,
)
    requires
        old(graph).wf(),
        old(graph).has(*parent_node),
        query_schema.relation_mode is Prisma ==> delete_emulation_ends(query_schema.data_model, child_model.name@),
    ensures
        one_delete_at(*final(graph), *old(graph), *parent_node, *rf, child_model.name@, filter),
        delete_actions_emulated(*final(graph), *old(graph), *query_schema, child_model.name@, new_ref(*old(graph), 1)),
        !(query_schema.relation_mode is Prisma) ==> added(*final(graph), *old(graph), 2, 2),
{
    let ghost g0 = *graph;
    let ghost gf = filter;
    let find_child_records_node = insert_find_children_by_parent_node(graph, parent_node, rf, copy_filter(&filter));
    let ghost ga = *graph;
    let delete_record_node = graph.create_node(
        Node::Query(Query::Write(WriteQuery::DeleteRecord { model: child_model.name.clone(), filter })),
    );
    let ghost g1 = *graph;
    proof {
        assert(g1.nodes@.take(g0.nodes@.len() as int) =~= g0.nodes@);
        assert(g1.edges@.take(g0.edges@.len() as int) =~= g0.edges@);
        assert(g1.marked@.take(g0.marked@.len() as int) =~= g0.marked@);
        assert(g1.result_nodes@.take(g0.result_nodes@.len() as int) =~= g0.result_nodes@);
        assert(g1.nodes@.take(ga.nodes@.len() as int) =~= ga.nodes@);
        assert(g1.edges@.take(ga.edges@.len() as int) =~= ga.edges@);
        assert(g1.marked@.take(ga.marked@.len() as int) =~= ga.marked@);
        assert(g1.result_nodes@.take(ga.result_nodes@.len() as int) =~= ga.result_nodes@);
        lemma_extends_keeps(g1, ga);
        assert(g1.nodes@[g0.nodes@.len() as int] == ga.nodes@[g0.nodes@.len() as int]);
        assert(g1.edges@[g0.edges@.len() as int] == ga.edges@[g0.edges@.len() as int]);
    }
    let missing = MissingRelatedRecord::new(
        child_model.name.as_str(),
        &rf.relation,
        DataOperation::NestedDelete,
        Option::None,
    );
    let expectation = Option::Some(DataExpectation::NonEmptyRows(missing.to_runtime_error()));
    finish_delete(
        graph,
        query_schema,
        child_model,
        &find_child_records_node,
        &delete_record_node,
        copy_names(&rf.related_identifier),
        RowSink::ExactlyOneSelector,
        expectation,
    );
    proof {
        lemma_extends_trans(*graph, g1, g0);
        lemma_extends_keeps(*graph, g1);
        assert(graph.nodes@[g0.nodes@.len() as int] == g1.nodes@[g0.nodes@.len() as int]);
        assert(graph.nodes@[g0.nodes@.len() + 1int] == g1.nodes@[g0.nodes@.len() + 1int]);
        assert(graph.edges@[g0.edges@.len() as int] == g1.edges@[g0.edges@.len() as int]);
        if query_schema.relation_mode is Prisma {
            lemma_extends_refl(*graph);
            lemma_delete_emulated_kept(*graph, *graph, g1, g0, query_schema.data_model, child_model.name@, delete_record_node);
        }
    }
}

/// Plans a nested delete of child records of `parent_node` through `parent_relation_field`.
/// On a list relation field `value` holds one or more unique selectors of the records to
/// delete, which must all be connected to the parent. On a single one it is `true` or a filter
/// of the one related record, which is deleted if it exists and matches; `false` deletes
/// nothing.
pub fn nested_delete(
    graph: &mut QueryGraph,
    query_schema: &QuerySchema,
    parent_node: &NodeRef,
    parent_relation_field: &RelationField,
    value: ParsedInputValue,
    child_model: &Container,
) -> (r: Result<(), QueryGraphBuilderError>)
    requires
        old(graph).wf(),
        old(graph).has(*parent_node),
        query_schema.relation_mode is Prisma ==> delete_emulation_ends(query_schema.data_model, child_model.name@),
    ensures
        parent_relation_field.is_list ==> match selector_filters_spec(
            *child_model,
            coerced(value),
            coerced(value).len(),
        ) {
            Err(e) => (r matches Err(x) && error_is(x, e)) && *final(graph) == *old(graph),
            Ok(ds) => r is Ok && (exists|f: Filter|
                #[trigger] list_deleted(
                    *final(graph),
                    *old(graph),
                    *parent_node,
                    *parent_relation_field,
                    child_model.name@,
                    f,
                    ds,
                )) && delete_actions_emulated(
                *final(graph),
                *old(graph),
                *query_schema,
                child_model.name@,
                new_ref(*old(graph), 0),
            ) && (!(query_schema.relation_mode is Prisma) ==> added(*final(graph), *old(graph), 2, 2)),
        },
        !parent_relation_field.is_list ==> match value {
            ParsedInputValue::Object(m) => match extract_spec(query_schema.data_model, *child_model, m) {
                Err(e) => (r matches Err(x) && error_is(x, e)) && *final(graph) == *old(graph),
                Ok(d) => r is Ok && (exists|f: Filter|
                    #[trigger] one_deleted(
                        *final(graph),
                        *old(graph),
                        *parent_node,
                        *parent_relation_field,
                        child_model.name@,
                        f,
                        d,
                    )) && delete_actions_emulated(
                    *final(graph),
                    *old(graph),
                    *query_schema,
                    child_model.name@,
                    new_ref(*old(graph), 1),
                ) && (!(query_schema.relation_mode is Prisma) ==> added(*final(graph), *old(graph), 2, 2)),
            },
            ParsedInputValue::Single(PrismaValue::Boolean(true)) => r is Ok && one_delete_at(
                *final(graph),
                *old(graph),
                *parent_node,
                *parent_relation_field,
                child_model.name@,
                Filter::Empty,
            ) && delete_actions_emulated(
                *final(graph),
                *old(graph),
                *query_schema,
                child_model.name@,
                new_ref(*old(graph), 1),
            ) && (!(query_schema.relation_mode is Prisma) ==> added(*final(graph), *old(graph), 2, 2)),
            _ => r is Ok && *final(graph) == *old(graph),
        },
{
    let rf = parent_relation_field;
    if rf.is_list {
        let ghost vs = coerced(value);
        let filters = match extract_selector_filters(coerce_vec(value), child_model) {
            Ok(f) => f,
            Err(x) => return Err(x),
        };
        let ghost ds = selector_filters_spec(*child_model, vs, vs.len())->Ok_0;
        let Ghost(f) = delete_selected_children(graph, query_schema, parent_node, rf, filters, child_model);
        assert(list_deleted(*graph, *old(graph), *parent_node, *rf, child_model.name@, f, ds));
        Ok(())
    } else {
        let should_delete = match &value {
            ParsedInputValue::Single(PrismaValue::Boolean(b)) => *b,
            ParsedInputValue::Object(_) => true,
            _ => false,
        };
        if !should_delete {
            return Ok(());
        }
        let ghost v0 = value;
        let filter = match value {
            ParsedInputValue::Object(map) => match extract_filter(map, child_model, &query_schema.data_model) {
                Ok(f) => f,
                Err(x) => return Err(x),
            },
            _ => Filter::Empty,
        };
        let ghost gf = filter;
        delete_related_child(graph, query_schema, parent_node, rf, filter, child_model);
        proof {
            match v0 {
                ParsedInputValue::Object(m) => {
                    let d = extract_spec(query_schema.data_model, *child_model, m)->Ok_0;
                    assert(one_deleted(*graph, *old(graph), *parent_node, *rf, child_model.name@, gf, d));
                },
                _ => {},
            }
        }
        Ok(())
    }
}

/// The filters of the objects of a nested delete-many, up to the `k`-th, the first failing one
/// deciding.
pub open spec fn many_filters_spec(dm: DataModel, child: Container, values: Seq<ParsedInputValue>, k: nat) -> Result<
    Seq<FilterDesc>,
    ErrorDesc,
>
    decreases k,
{
    if k == 0 {
        Ok(Seq::empty())
    } else {
        match many_filters_spec(dm, child, values, (k - 1) as nat) {
            Err(e) => Err(e),
            Ok(prev) => if k - 1 < values.len() {
                match object_filter_spec(dm, child, values[k - 1]) {
                    Ok(d) => Ok(prev.push(d)),
                    Err(e) => Err(e),
                }
            } else {
                Err(ErrorDesc::Input(Seq::empty()))
            },
        }
    }
}

/// A delete-many below `parent` in `g`: the read `w.0` of the records related through `rf`,
/// with a filter that `d` describes and the parent records handed in by edge `w.2`, and the
/// deletion `w.1` of records of `child` that takes their identifiers by edge `w.3`.
pub open spec fn delete_many_at(
    g: QueryGraph,
    parent: NodeRef,
    rf: RelationField,
    child: Seq<char>,
    w: (NodeRef, NodeRef, int, int),
    d: FilterDesc,
) -> bool {
    &&& delete_many_shape(g, parent, rf, child, w)
    &&& described(read_filter(g.nodes@[w.0.id as int]), d)
}

/// The nodes and edges of a delete-many, whatever its filter.
pub open spec fn delete_many_shape(
    g: QueryGraph,
    parent: NodeRef,
    rf: RelationField,
    child: Seq<char>,
    w: (NodeRef, NodeRef, int, int),
) -> bool {
    let find = w.0;
    let delete = w.1;
    &&& g.has(find)
    &&& g.has(delete)
    &&& 0 <= w.2 < g.edges@.len()
    &&& 0 <= w.3 < g.edges@.len()
    &&& is_find_children(g.nodes@[find.id as int], rf, read_filter(g.nodes@[find.id as int]))
    &&& is_parent_records_edge(g.edges@[w.2], parent, find, rf)
    &&& g.nodes@[delete.id as int] matches Node::Query(
        Query::Write(WriteQuery::DeleteManyRecords { model, filter }),
    ) && model@ == child && filter == Filter::Empty
    &&& is_selectors_edge(g.edges@[w.3], find, delete, names(rf.related_identifier@))
}

/// One delete-many below `parent` for each of the filters that `ds` describe, at the nodes
/// and edges that `ws` give.
pub open spec fn deleted_many(
    g: QueryGraph,
    parent: NodeRef,
    rf: RelationField,
    child: Seq<char>,
    ds: Seq<FilterDesc>,
    ws: Seq<(NodeRef, NodeRef, int, int)>,
) -> bool {
    &&& ws.len() == ds.len()
    &&& forall|i: int| 0 <= i < ws.len() ==> delete_many_at(g, parent, rf, child, #[trigger] ws[i], ds[i])
}

/// For each of the delete-manys at `ws`, where the schema's relation mode asks for it, the
/// emulation of the delete actions of the relations to `child` before the deletion runs.
pub open spec fn deletes_emulated(
    g: QueryGraph,
    old: QueryGraph,
    query_schema: QuerySchema,
    child: Seq<char>,
    ws: Seq<(NodeRef, NodeRef, int, int)>,
) -> bool {
    forall|i: int| 0 <= i < ws.len() ==> delete_actions_emulated(g, old, query_schema, child, #[trigger] ws[i].1)
}

/// One more delete-many.
proof fn lemma_deleted_many_push(
    g: QueryGraph,
    parent: NodeRef,
    rf: RelationField,
    child: Seq<char>,
    ds: Seq<FilterDesc>,
    ws: Seq<(NodeRef, NodeRef, int, int)>,
    w: (NodeRef, NodeRef, int, int),
    d: FilterDesc,
)
    requires
        deleted_many(g, parent, rf, child, ds, ws),
        delete_many_at(g, parent, rf, child, w, d),
    ensures
        deleted_many(g, parent, rf, child, ds.push(d), ws.push(w)),
{
    let ws2 = ws.push(w);
    let ds2 = ds.push(d);
    assert forall|i: int| 0 <= i < ws2.len() implies delete_many_at(g, parent, rf, child, #[trigger] ws2[i], ds2[i]) by {
        if i < ws.len() {
            assert(ws2[i] == ws[i]);
            assert(ds2[i] == ds[i]);
        }
    }
}

/// An extended graph keeps its delete-manys.
proof fn lemma_deleted_many_kept(
    g2: QueryGraph,
    g1: QueryGraph,
    parent: NodeRef,
    rf: RelationField,
    child: Seq<char>,
    ds: Seq<FilterDesc>,
    ws: Seq<(NodeRef, NodeRef, int, int)>,
)
    requires
        g2.extends(g1),
        deleted_many(g1, parent, rf, child, ds, ws),
    ensures
        deleted_many(g2, parent, rf, child, ds, ws),
{
    lemma_extends_keeps(g2, g1);
    assert forall|i: int| 0 <= i < ws.len() implies delete_many_at(g2, parent, rf, child, #[trigger] ws[i], ds[i]) by {
        let w = ws[i];
        assert(delete_many_at(g1, parent, rf, child, w, ds[i]));
        assert(g2.nodes@[w.0.id as int] == g1.nodes@[w.0.id as int]);
        assert(g2.nodes@[w.1.id as int] == g1.nodes@[w.1.id as int]);
        assert(g2.edges@[w.2] == g1.edges@[w.2]);
        assert(g2.edges@[w.3] == g1.edges@[w.3]);
    }
}

/// Adds the deletion of the records related through `rf` to the parent records of `parent`
/// that `filter` selects; returns where it stands.
fn delete_children_matching(
    graph: &mut QueryGraph,
    query_schema: &QuerySchema,
    parent: &NodeRef,
    rf: &RelationField,
    filter: Filter,
    child_model: &Container,
) -> (w: Ghost<(NodeRef, NodeRef, int, int)>)
    requires
        old(graph).wf(),
        old(graph).has(*parent),
        query_schema.relation_mode is Prisma ==> delete_emulation_ends(query_schema.data_model, child_model.name@),
    ensures
        final(graph).wf(),
        final(graph).extends(*old(graph)),
        delete_many_shape(*final(graph), *parent, *rf, child_model.name@, w@),
        read_filter(final(graph).nodes@[w@.0.id as int]) == filter,
        delete_actions_emulated(*final(graph), *old(graph), *query_schema, child_model.name@, w@.1),
        !(query_schema.relation_mode is Prisma) ==> added(*final(graph), *old(graph), 2, 2),
{
    let ghost gf = filter;
    let ghost g0 = *graph;
    let find_child_records_node = insert_find_children_by_parent_node(graph, parent, rf, filter);
    let ghost ga = *graph;
    let delete_many_node = graph.create_node(
        Node::Query(
            Query::Write(WriteQuery::DeleteManyRecords { model: child_model.name.clone(), filter: Filter::Empty }),
        ),
    );
    let ghost g1 = *graph;
    proof {
        assert(g1.nodes@.take(g0.nodes@.len() as int) =~= g0.nodes@);
        assert(g1.edges@.take(g0.edges@.len() as int) =~= g0.edges@);
        assert(g1.marked@.take(g0.marked@.len() as int) =~= g0.marked@);
        assert(g1.result_nodes@.take(g0.result_nodes@.len() as int) =~= g0.result_nodes@);
        assert(g1.nodes@[g0.nodes@.len() as int] == ga.nodes@[g0.nodes@.len() as int]);
    }
    finish_delete(
        graph,
        query_schema,
        child_model,
        &find_child_records_node,
        &delete_many_node,
        copy_names(&rf.related_identifier),
        RowSink::Selectors,
        Option::None,
    );
    proof {
        lemma_extends_trans(*graph, g1, g0);
        lemma_extends_keeps(*graph, g1);
        assert(graph.nodes@[find_child_records_node.id as int] == g1.nodes@[find_child_records_node.id as int]);
        assert(graph.nodes@[delete_many_node.id as int] == g1.nodes@[delete_many_node.id as int]);
        assert(graph.edges@[g0.edges@.len() as int] == g1.edges@[g0.edges@.len() as int]);
        if query_schema.relation_mode is Prisma {
            lemma_extends_refl(*graph);
            lemma_delete_emulated_kept(*graph, *graph, g1, g0, query_schema.data_model, child_model.name@, delete_many_node);
        }
    }
    Ghost((find_child_records_node, delete_many_node, g0.edges@.len() as int, graph.edges@.len() - 1))
}

/// Plans a nested delete-many below `parent`: for each object of `value` (one object or a
/// list of them), the deletion of the records related through `parent_relation_field` to the
/// parent records that the filter of the object selects.
pub fn nested_delete_many(
    graph: &mut QueryGraph,
    query_schema: &QuerySchema,
    parent: &NodeRef,
    parent_relation_field: &RelationField,
    value: ParsedInputValue,
    child_model: &Container,
) -> (r: Result<(), QueryGraphBuilderError>)
    requires
        old(graph).wf(),
        old(graph).has(*parent),
        query_schema.relation_mode is Prisma ==> delete_emulation_ends(query_schema.data_model, child_model.name@),
    ensures
        final(graph).wf(),
        final(graph).extends(*old(graph)),
        many_filters_spec(query_schema.data_model, *child_model, coerced(value), coerced(value).len()) matches Err(
            e,
        ) ==> r matches Err(x) && error_is(x, e),
        many_filters_spec(query_schema.data_model, *child_model, coerced(value), coerced(value).len()) is Ok ==> r is Ok,
        many_filters_spec(query_schema.data_model, *child_model, coerced(value), coerced(value).len()) matches Ok(ds)
            ==> exists|ws: Seq<(NodeRef, NodeRef, int, int)>|
            #[trigger] deleted_many(*final(graph), *parent, *parent_relation_field, child_model.name@, ds, ws)
                && deletes_emulated(*final(graph), *old(graph), *query_schema, child_model.name@, ws)
                && (!(query_schema.relation_mode is Prisma) ==> added(
                *final(graph),
                *old(graph),
                2 * ds.len(),
                2 * ds.len(),
            )),
{
    let ghost g0 = *graph;
    let ghost vs = coerced(value);
    let ghost dm = query_schema.data_model;
    let rf = parent_relation_field;
    let values = coerce_vec(value);
    let ghost mut ds: Seq<FilterDesc> = Seq::empty();
    let ghost mut ws: Seq<(NodeRef, NodeRef, int, int)> = Seq::empty();
    proof { lemma_extends_refl(*graph); }
    for v in it: values.into_iter()
        invariant
            it.seq() == vs,
            vs == coerced(value),
            g0 == *old(graph),
            dm == query_schema.data_model,
            query_schema.relation_mode is Prisma ==> delete_emulation_ends(dm, child_model.name@),
            many_filters_spec(dm, *child_model, vs, it.index() as nat) == Ok::<Seq<FilterDesc>, ErrorDesc>(ds),
            graph.wf(),
            graph.extends(g0),
            g0.has(*parent),
            deleted_many(*graph, *parent, *rf, child_model.name@, ds, ws),
            deletes_emulated(*graph, g0, *query_schema, child_model.name@, ws),
            !(query_schema.relation_mode is Prisma) ==> added(*graph, g0, 2 * ds.len(), 2 * ds.len()),
    {
        let ghost j = it.index() as int;
        let ghost gv = v;
        let filter = match extract_object_filter(v, child_model, &query_schema.data_model) {
            Ok(f) => f,
            Err(x) => {
                proof {
                    assert(gv == vs[j]);
                    assert(object_filter_spec(dm, *child_model, gv) is Err);
                    assert(many_filters_spec(dm, *child_model, vs, (j + 1) as nat) is Err);
                    lemma_many_filters_err(dm, *child_model, vs, (j + 1) as nat, vs.len());
                }
                return Err(x);
            },
        };
        let ghost d = object_filter_spec(dm, *child_model, gv)->Ok_0;
        let ghost before = *graph;
        let ghost gf = filter;
        let Ghost(w) = delete_children_matching(graph, query_schema, parent, rf, filter, child_model);
        proof {
            lemma_extends_trans(*graph, before, g0);
            lemma_deleted_many_kept(*graph, before, *parent, *rf, child_model.name@, ds, ws);
            lemma_deleted_many_push(*graph, *parent, *rf, child_model.name@, ds, ws, w, d);
            if query_schema.relation_mode is Prisma {
                lemma_extends_refl(*graph);
                lemma_extends_refl(g0);
                let ws2 = ws.push(w);
                assert forall|i: int| 0 <= i < ws2.len() implies delete_actions_emulated(
                    *graph,
                    g0,
                    *query_schema,
                    child_model.name@,
                    #[trigger] ws2[i].1,
                ) by {
                    if i < ws.len() {
                        assert(ws2[i] == ws[i]);
                        assert(delete_actions_emulated(before, g0, *query_schema, child_model.name@, ws[i].1));
                        lemma_delete_emulated_kept(*graph, before, g0, g0, dm, child_model.name@, ws[i].1);
                    } else {
                        lemma_delete_emulated_kept(*graph, *graph, before, g0, dm, child_model.name@, w.1);
                    }
                }
            }
            ws = ws.push(w);
            ds = ds.push(d);
        }
    }
    proof {
        assert(many_filters_spec(dm, *child_model, vs, vs.len()) == Ok::<Seq<FilterDesc>, ErrorDesc>(ds));
        assert(deleted_many(*graph, *parent, *parent_relation_field, child_model.name@, ds, ws));
        assert(deletes_emulated(*graph, *old(graph), *query_schema, child_model.name@, ws));
        assert(many_filters_spec(query_schema.data_model, *child_model, coerced(value), coerced(value).len()) == Ok::<
            Seq<FilterDesc>,
            ErrorDesc,
        >(ds));
        assert(deleted_many(
            *graph,
            *parent,
            *parent_relation_field,
            child_model.name@,
            many_filters_spec(query_schema.data_model, *child_model, coerced(value), coerced(value).len())->Ok_0,
            ws,
        ));
    }
    Ok(())
}

proof fn lemma_many_filters_err(dm: DataModel, child: Container, values: Seq<ParsedInputValue>, k: nat, k2: nat)
    requires
        many_filters_spec(dm, child, values, k) is Err,
        k <= k2,
    ensures
        many_filters_spec(dm, child, values, k2) == many_filters_spec(dm, child, values, k),
    decreases k2 - k,
{
    if k < k2 {
        lemma_many_filters_err(dm, child, values, k, (k2 - 1) as nat);
    }
}

} // verus!
