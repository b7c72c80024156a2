use vstd::prelude::*;
use crate::connect_nested::{coerced, selector_filters_spec, extract_selector_filters};
use crate::equality::{unique_filters, unique_filters_spec};
use crate::error::{QueryGraphBuilderError, RelationViolation};
use crate::extract::{ErrorDesc, FilterDesc, all_described, error_is};
use crate::filter::{Filter, filter_size};
use crate::query_graph::{
    CountError, DataExpectation, Dependency, Edge, Node, NodeRef, Query, QueryGraph, RowSink, WriteQuery, names,
};
use crate::schema::{Container, RelationField, RelationKind};
use crate::text::text;
use crate::values::{ParsedInputValue, PrismaValue};
use crate::write_utils::{
    appended, coerce_vec, insert_find_children_by_parent_node, is_find_children, is_parent_records_edge,
    is_projected, is_update_placeholder, is_violation_of, lemma_extends_keeps, lemma_extends_trans, new_edge,
    new_node, new_ref, update_records_node_placeholder,
};

verus! {

/// `e` hands the identifier of the last parent from `from` to the disconnect `to`, raising an
/// assertion error when there is none.
pub open spec fn is_disconnect_parent_edge(e: Edge, from: NodeRef, to: NodeRef, rf: RelationField) -> bool {
    &&& is_projected(e, from, to, names(rf.model_identifier@))
    &&& e.dependency->sink is ConnectParent
    &&& e.dependency->expectation matches Option::Some(
        DataExpectation::NonEmptyRows(QueryGraphBuilderError::AssertionError(m)),
    )
    &&& m@ == "[Query Graph] Expected a valid parent ID to be present for a nested disconnect on a many-to-many relation."@
}

/// `e` hands exactly `expected` children from `from` to the disconnect `to`; otherwise the
/// records are not connected.
pub open spec fn is_disconnect_children_edge(e: Edge, from: NodeRef, to: NodeRef, rf: RelationField, expected: usize) -> bool {
    &&& is_projected(e, from, to, names(rf.related_identifier@))
    &&& e.dependency->sink is ConnectChildren
    &&& e.dependency->expectation matches Option::Some(
        DataExpectation::ExactRowCount(
            n,
            CountError::Fixed(QueryGraphBuilderError::RecordsNotConnected { relation_name, parent_name, child_name }),
        ),
    )
    &&& n == expected
    &&& relation_name@ == rf.relation.name@
    &&& parent_name@ == rf.model@
    &&& child_name@ == rf.related_model@
}

/// Adds a disconnect of the records of a many-to-many relation field, with the edges that
/// hand it the parent (from `parent_node`) and the children (from `child_node`, exactly
/// `expected_disconnects` of them).
pub fn disconnect_records_node(
    graph: &mut QueryGraph,
    parent_node: &NodeRef,
    child_node: &NodeRef,
    parent_relation_field: &RelationField,
    expected_disconnects: usize,
) -> (r: NodeRef)
    requires
        old(graph).wf(),
        old(graph).has(*parent_node),
        old(graph).has(*child_node),
        parent_relation_field.relation.kind == RelationKind::ManyToMany,
    ensures
        appended(*final(graph), *old(graph), 1, 2),
        r == new_ref(*old(graph), 0),
        new_node(*final(graph), *old(graph), 0) matches Node::Query(
            Query::Write(WriteQuery::DisconnectRecords { relation_field }),
        ) && relation_field@ == parent_relation_field.name@,
        is_disconnect_parent_edge(new_edge(*final(graph), *old(graph), 0), *parent_node, r, *parent_relation_field),
        is_disconnect_children_edge(
            new_edge(*final(graph), *old(graph), 1),
            *child_node,
            r,
            *parent_relation_field,
            expected_disconnects,
        ),
{
    let ghost g0 = *graph;
    let rf = parent_relation_field;
    let disconnect_node = graph.create_node(
        Node::Query(Query::Write(WriteQuery::DisconnectRecords { relation_field: rf.name.clone() })),
    );
    graph.create_edge(
        parent_node,
        &disconnect_node,
        Dependency::Projected {
            selection: rf.model_identifier.clone(),
            sink: RowSink::ConnectParent,
            expectation: Option::Some(
                DataExpectation::NonEmptyRows(
                    QueryGraphBuilderError::AssertionError(
                        text(
                            "[Query Graph] Expected a valid parent ID to be present for a nested disconnect on a many-to-many relation.",
                        ),
                    ),
                ),
            ),
        },
    );
    graph.create_edge(
        child_node,
        &disconnect_node,
        Dependency::Projected {
            selection: rf.related_identifier.clone(),
            sink: RowSink::ConnectChildren,
            expectation: Option::Some(
                DataExpectation::ExactRowCount(
                    expected_disconnects,
                    CountError::Fixed(
                        QueryGraphBuilderError::RecordsNotConnected {
                            relation_name: rf.relation.name.clone(),
                            parent_name: rf.model.clone(),
                            child_name: rf.related_model.clone(),
                        },
                    ),
                ),
            ),
        },
    );
    proof {
        assert(graph.nodes@.take(g0.nodes@.len() as int) =~= g0.nodes@);
        assert(graph.edges@.take(g0.edges@.len() as int) =~= g0.edges@);
        assert(graph.marked@.take(g0.marked@.len() as int) =~= g0.marked@);
        assert(graph.result_nodes@.take(g0.result_nodes@.len() as int) =~= g0.result_nodes@);
    }
    disconnect_node
}

/// The graph of a nested disconnect on a many-to-many relation: nothing for an empty filter;
/// otherwise a read of the children below the parent and a disconnect of exactly as many
/// children as the filter names.
pub open spec fn many_to_many_disconnect(g: QueryGraph, old: QueryGraph, parent: NodeRef, rf: RelationField, filter: Filter) -> bool {
    if filter_size(filter) == 0 {
        g == old
    } else {
        &&& appended(g, old, 2, 3)
        &&& is_find_children(new_node(g, old, 0), rf, filter)
        &&& is_parent_records_edge(new_edge(g, old, 0), parent, new_ref(old, 0), rf)
        &&& new_node(g, old, 1) matches Node::Query(Query::Write(WriteQuery::DisconnectRecords { relation_field }))
        &&& relation_field@ == rf.name@
        &&& is_disconnect_parent_edge(new_edge(g, old, 1), parent, new_ref(old, 1), rf)
        &&& is_disconnect_children_edge(new_edge(g, old, 2), new_ref(old, 0), new_ref(old, 1), rf, filter_size(filter) as usize)
    }
}

/// Plans a nested disconnect on a many-to-many relation.
pub fn handle_many_to_many(
    graph: &mut QueryGraph,
    parent_node: &NodeRef,
    parent_relation_field: &RelationField,
    filter: Filter,
) -> (r: Result<(), QueryGraphBuilderError>)
    requires
        old(graph).wf(),
        old(graph).has(*parent_node),
        parent_relation_field.relation.kind == RelationKind::ManyToMany,
    ensures
        r is Ok,
        many_to_many_disconnect(*final(graph), *old(graph), *parent_node, *parent_relation_field, filter),
{
    let ghost g0 = *graph;
    let expected = filter.size();
    if expected == 0 {
        return Ok(());
    }
    let find_child_records_node = insert_find_children_by_parent_node(graph, parent_node, parent_relation_field, filter);
    let ghost g1 = *graph;
    disconnect_records_node(graph, parent_node, &find_child_records_node, parent_relation_field, expected);
    proof {
        lemma_extends_trans(*graph, g1, g0);
        lemma_extends_keeps(*graph, g1);
        assert(graph.nodes@[g0.nodes@.len() as int] == g1.nodes@[g0.nodes@.len() as int]);
        assert(graph.edges@[g0.edges@.len() as int] == g1.edges@[g0.edges@.len() as int]);
    }
    Ok(())
}

/// The graph of a nested disconnect on a one-to-one or one-to-many relation (`child_rf` the
/// relation field on the child's side): a read of the children below the parent; then, unless
/// a side of the relation is required (which refuses the disconnect), an update that sets the
/// link to null on the side that holds it.
pub open spec fn one_to_x_disconnect(
    g: QueryGraph,
    old: QueryGraph,
    r: Result<(), QueryGraphBuilderError>,
    parent: NodeRef,
    rf: RelationField,
    child_rf: RelationField,
    filter: Filter,
) -> bool {
    let find = new_ref(old, 0);
    &&& is_find_children(new_node(g, old, 0), rf, filter)
    &&& is_parent_records_edge(new_edge(g, old, 0), parent, find, rf)
    &&& if rf.is_required || child_rf.is_required {
        &&& appended(g, old, 1, 1)
        &&& r matches Err(e)
        &&& is_violation_of(e, rf)
    } else {
        &&& appended(g, old, 2, 2)
        &&& r is Ok
        &&& if rf.inlined_in_parent {
            &&& is_update_placeholder(new_node(g, old, 1), rf.model@, Filter::Empty)
            &&& is_projected(new_edge(g, old, 1), parent, new_ref(old, 1), names(rf.model_identifier@))
            &&& new_edge(g, old, 1).dependency->sink matches RowSink::SelectorsWithNulls(l)
            &&& names(l@) == names(rf.linking_fields@)
        } else {
            &&& is_update_placeholder(new_node(g, old, 1), child_rf.model@, Filter::Empty)
            &&& is_projected(new_edge(g, old, 1), find, new_ref(old, 1), names(child_rf.model_identifier@))
            &&& new_edge(g, old, 1).dependency->sink matches RowSink::SelectorsWithNulls(l)
            &&& names(l@) == names(child_rf.linking_fields@)
        }
        &&& new_edge(g, old, 1).dependency->expectation is None
    }
}

/// Plans a nested disconnect on a one-to-one or one-to-many relation.
pub fn handle_one_to_x(
    graph: &mut QueryGraph,
    parent_node: &NodeRef,
    parent_relation_field: &RelationField,
    child_relation_field: &RelationField,
    filter: Filter,
) -> (r: Result<(), QueryGraphBuilderError>)
    requires
        old(graph).wf(),
        old(graph).has(*parent_node),
    ensures
        one_to_x_disconnect(
            *final(graph),
            *old(graph),
            r,
            *parent_node,
            *parent_relation_field,
            *child_relation_field,
            filter,
        ),
{
    let ghost g0 = *graph;
    let rf = parent_relation_field;
    let find_child_records_node = insert_find_children_by_parent_node(graph, parent_node, rf, filter);
    if rf.is_required || child_relation_field.is_required {
        return Err(QueryGraphBuilderError::RelationViolation(RelationViolation::from_relation(&rf.relation)));
    }
    let ghost g1 = *graph;
    let (node_to_attach, model_to_update, extractor_model_id, null_fields) = if rf.inlined_in_parent {
        (parent_node, rf.model.as_str(), &rf.model_identifier, &rf.linking_fields)
    } else {
        (
            &find_child_records_node,
            child_relation_field.model.as_str(),
            &child_relation_field.model_identifier,
            &child_relation_field.linking_fields,
        )
    };
    let update_node = update_records_node_placeholder(graph, Filter::Empty, model_to_update);
    graph.create_edge(
        node_to_attach,
        &update_node,
        Dependency::Projected {
            selection: extractor_model_id.clone(),
            sink: RowSink::SelectorsWithNulls(null_fields.clone()),
            expectation: Option::None,
        },
    );
    proof {
        assert(graph.nodes@.take(g1.nodes@.len() as int) =~= g1.nodes@);
        assert(graph.edges@.take(g1.edges@.len() as int) =~= g1.edges@);
        assert(graph.marked@.take(g1.marked@.len() as int) =~= g1.marked@);
        assert(graph.result_nodes@.take(g1.result_nodes@.len() as int) =~= g1.result_nodes@);
        lemma_extends_trans(*graph, g1, g0);
        lemma_extends_keeps(*graph, g1);
        assert(graph.nodes@[g0.nodes@.len() as int] == g1.nodes@[g0.nodes@.len() as int]);
        assert(graph.edges@[g0.edges@.len() as int] == g1.edges@[g0.edges@.len() as int]);
    }
    Ok(())
}

/// The disconnect needs the unique selectors of its input: on a many-to-many relation, and
/// on a one-to-many relation from its list side.
pub open spec fn disconnect_takes_selectors(rf: RelationField) -> bool {
    rf.relation.kind == RelationKind::ManyToMany || (rf.relation.kind == RelationKind::OneToMany && rf.is_list)
}

/// The plan of a nested disconnect for `f`, the disjunction of the filters `u`.
pub open spec fn or_disconnect(
    g: QueryGraph,
    old: QueryGraph,
    r: Result<(), QueryGraphBuilderError>,
    parent: NodeRef,
    rf: RelationField,
    child_rf: RelationField,
    u: Seq<Filter>,
    f: Filter,
) -> bool {
    &&& f matches Filter::Or(v)
    &&& v@ == u
    &&& if rf.relation.kind == RelationKind::ManyToMany {
        r is Ok && many_to_many_disconnect(g, old, parent, rf, f)
    } else {
        one_to_x_disconnect(g, old, r, parent, rf, child_rf, f)
    }
}

/// The filters `fs` are those that `ds` describes, and the graph is planned for the
/// disjunction of those left once repetitions are dropped.
pub open spec fn disconnect_outcome(
    g: QueryGraph,
    old: QueryGraph,
    r: Result<(), QueryGraphBuilderError>,
    parent: NodeRef,
    rf: RelationField,
    child_rf: RelationField,
    ds: Seq<FilterDesc>,
    fs: Seq<Filter>,
) -> bool {
    &&& all_described(fs, ds)
    &&& exists|f: Filter| #[trigger] or_disconnect(g, old, r, parent, rf, child_rf, unique_filters_spec(fs), f)
}

/// Plans a nested disconnect of the records that `value` names: unique selectors on a
/// many-to-many relation and on the list side of a one-to-many relation; `true` to
/// disconnect the related record of a one-to-one relation (anything else disconnects
/// nothing); anything on the to-one side of a one-to-many relation (the related record is
/// disconnected). `child_relation_field` is the relation field on the child's side.
pub fn nested_disconnect(
    graph: &mut QueryGraph,
    parent_node: NodeRef,
    parent_relation_field: &RelationField,
    child_relation_field: &RelationField,
    value: ParsedInputValue,
    child_model: &Container,
) -> (r: Result<(), QueryGraphBuilderError>)
    requires
        old(graph).wf(),
        old(graph).has(parent_node),
    ensures
        disconnect_takes_selectors(*parent_relation_field) ==> {
            let s = selector_filters_spec(*child_model, coerced(value), coerced(value).len());
            &&& s matches Err(e) ==> (r matches Err(x) && error_is(x, e)) && *final(graph) == *old(graph)
            &&& s is Ok ==> exists|fs: Seq<Filter>|
                #[trigger] disconnect_outcome(
                    *final(graph),
                    *old(graph),
                    r,
                    parent_node,
                    *parent_relation_field,
                    *child_relation_field,
                    s->Ok_0,
                    fs,
                )
        },
        parent_relation_field.relation.kind == RelationKind::OneToOne ==> if value == ParsedInputValue::Single(
            PrismaValue::Boolean(true),
        ) {
            one_to_x_disconnect(
                *final(graph),
                *old(graph),
                r,
                parent_node,
                *parent_relation_field,
                *child_relation_field,
                Filter::Empty,
            )
        } else {
            r is Ok && *final(graph) == *old(graph)
        },
        parent_relation_field.relation.kind == RelationKind::OneToMany && !parent_relation_field.is_list
            ==> one_to_x_disconnect(
            *final(graph),
            *old(graph),
            r,
            parent_node,
            *parent_relation_field,
            *child_relation_field,
            Filter::Empty,
        ),
{
    let rf = parent_relation_field;
    let takes_selectors = match rf.relation.kind {
        RelationKind::ManyToMany => true,
        RelationKind::OneToMany => rf.is_list,
        RelationKind::OneToOne => false,
    };
    if takes_selectors {
        let ghost vs = coerced(value);
        let values = coerce_vec(value);
        let filters = match extract_selector_filters(values, child_model) {
            Ok(f) => f,
            Err(x) => return Err(x),
        };
        let ghost ds = selector_filters_spec(*child_model, vs, vs.len())->Ok_0;
        let ghost fs = filters@;
        let filters = unique_filters(filters);
        let filter = Filter::Or(filters);
        let ghost gf = filter;
        let r = match rf.relation.kind {
            RelationKind::ManyToMany => handle_many_to_many(graph, &parent_node, rf, filter),
            _ => handle_one_to_x(graph, &parent_node, rf, child_relation_field, filter),
        };
        proof {
            assert(or_disconnect(*graph, *old(graph), r, parent_node, *rf, *child_relation_field, unique_filters_spec(fs), gf));
            assert(disconnect_outcome(*graph, *old(graph), r, parent_node, *rf, *child_relation_field, ds, fs));
        }
        r
    } else {
        let should_disconnect = match rf.relation.kind {
            RelationKind::OneToOne => match value.into_prisma_value() {
                PrismaValue::Boolean(b) => b,
                _ => false,
            },
            _ => true,
        };
        if !should_disconnect {
            return Ok(());
        }
        handle_one_to_x(graph, &parent_node, rf, child_relation_field, Filter::Empty)
    }
}

} // verus!
