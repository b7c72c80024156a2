use vstd::prelude::*;
use crate::connect_nested::{coerced, extract_selector_filters, selector_filters_spec};
use crate::equality::{unique_filters, unique_filters_spec};
use crate::error::{
    missing_related_text, DataOperation, DependentOperation, MissingRelatedRecord, QueryGraphBuilderError,
    RelationViolation,
};
use crate::extract::{all_described, error_is, FilterDesc};
use crate::filter::{filter_size, Filter};
use crate::query_graph::{
    names, Computation, DataExpectation, Dependency, Edge, Flow, Node, NodeRef, Query, QueryGraph, RowSink,
    WriteQuery,
};
use crate::schema::{Container, RelationField, RelationKind};
use crate::values::ParsedInputValue;
use crate::write_utils::{
    appended, coerce_vec, connect_records_node, copy_names, insert_find_children_by_parent_node,
    is_connect_children_edge, is_connect_parent_edge, is_find_children, is_parent_records_edge, is_projected,
    is_read_many, is_update_placeholder, is_violation_of, lemma_extends_keeps, lemma_extends_trans, new_edge,
    new_node, new_ref, null_args, nulls_for, read_ids_infallible, update_records_node_placeholder,
    update_records_node_placeholder_with_args,
};

verus! {

/// The error of a missing record of `model` on the relation of `rf` during a nested set,
/// needed for `needed_for`.
pub open spec fn is_missing_for_set(
    e: QueryGraphBuilderError,
    model: Seq<char>,
    rf: RelationField,
    needed_for: Option<DependentOperation>,
) -> bool {
    e matches QueryGraphBuilderError::RecordNotFound(m) && m@ == missing_related_text(
        model,
        rf.relation.name@,
        rf.relation.kind,
        DataOperation::NestedSet,
        needed_for,
    )
}

/// `e` leads from `from` to `to`, projects `selection` as `sink` wants and expects nothing.
pub open spec fn is_plain_edge(e: Edge, from: NodeRef, to: NodeRef, selection: Seq<Seq<char>>, sink: RowSink) -> bool {
    &&& is_projected(e, from, to, selection)
    &&& e.dependency->sink == sink
    &&& e.dependency->expectation is None
}

/// The graph of a nested set on a many-to-many relation: the children of the parent are read
/// and disconnected from it; then, unless `filter` selects nothing, the records it selects
/// are read and connected to the parent, exactly as many as `filter` names.
pub open spec fn many_to_many_set(g: QueryGraph, old: QueryGraph, parent: NodeRef, rf: RelationField, filter: Filter) -> bool {
    let read_old = new_ref(old, 0);
    let disconnect = new_ref(old, 1);
    &&& is_find_children(new_node(g, old, 0), rf, Filter::Empty)
    &&& is_parent_records_edge(new_edge(g, old, 0), parent, read_old, rf)
    &&& new_node(g, old, 1) matches Node::Query(Query::Write(WriteQuery::DisconnectRecords { relation_field }))
    &&& relation_field@ == rf.name@
    &&& is_projected(new_edge(g, old, 1), parent, disconnect, names(rf.model_identifier@))
    &&& new_edge(g, old, 1).dependency->sink is ConnectParent
    &&& new_edge(g, old, 1).dependency->expectation matches Option::Some(DataExpectation::NonEmptyRows(e))
    &&& is_missing_for_set(e, rf.model@, rf, Option::Some(DependentOperation::DisconnectRecords))
    &&& is_plain_edge(new_edge(g, old, 2), read_old, disconnect, names(rf.related_identifier@), RowSink::ConnectChildren)
    &&& if filter_size(filter) == 0 {
        appended(g, old, 2, 3)
    } else {
        &&& appended(g, old, 4, 6)
        &&& is_read_many(
            new_node(g, old, 2),
            "read_ids_infallible"@,
            rf.related_model@,
            names(rf.related_identifier@),
            names(rf.related_identifier@),
            filter,
        )
        &&& new_edge(g, old, 3) == (Edge { from: disconnect, to: new_ref(old, 2), dependency: Dependency::ExecutionOrder })
        &&& new_node(g, old, 3) matches Node::Query(Query::Write(WriteQuery::ConnectRecords { relation_field: c }))
        &&& c@ == rf.name@
        &&& is_connect_parent_edge(new_edge(g, old, 4), parent, new_ref(old, 3), rf)
        &&& is_connect_children_edge(new_edge(g, old, 5), new_ref(old, 2), new_ref(old, 3), rf, filter_size(filter) as usize)
    }
}

/// Plans a nested set on a many-to-many relation: the children of the parent are
/// disconnected, and the records that `filter` selects are connected.
pub fn handle_many_to_many(
    graph: &mut QueryGraph,
    parent_node: &NodeRef,
    parent_relation_field: &RelationField,
    filter: Filter,
) -> (r: Result<(), QueryGraphBuilderError>)
    requires
        old(graph).wf(),
        old(graph).has(*parent_node),
        parent_relation_field.relation.kind == RelationKind::ManyToMany,
    ensures
        r is Ok,
        many_to_many_set(*final(graph), *old(graph), *parent_node, *parent_relation_field, filter),
{
    let ghost g0 = *graph;
    let ghost gf = filter;
    let rf = parent_relation_field;
    let read_old_node = insert_find_children_by_parent_node(graph, parent_node, rf, Filter::Empty);
    let ghost ga = *graph;
    let disconnect_node = graph.create_node(
        Node::Query(Query::Write(WriteQuery::DisconnectRecords { relation_field: rf.name.clone() })),
    );
    let missing = MissingRelatedRecord::new(
        rf.model.as_str(),
        &rf.relation,
        DataOperation::NestedSet,
        Option::Some(DependentOperation::disconnect_records()),
    );
    graph.create_edge(
        parent_node,
        &disconnect_node,
        Dependency::Projected {
            selection: copy_names(&rf.model_identifier),
            sink: RowSink::ConnectParent,
            expectation: Option::Some(DataExpectation::NonEmptyRows(missing.to_runtime_error())),
        },
    );
    graph.create_edge(
        &read_old_node,
        &disconnect_node,
        Dependency::Projected {
            selection: copy_names(&rf.related_identifier),
            sink: RowSink::ConnectChildren,
            expectation: Option::None,
        },
    );
    let ghost g1 = *graph;
    proof {
        assert(g1.nodes@.take(g0.nodes@.len() as int) =~= g0.nodes@);
        assert(g1.edges@.take(g0.edges@.len() as int) =~= g0.edges@);
        assert(g1.marked@.take(g0.marked@.len() as int) =~= g0.marked@);
        assert(g1.nodes@[g0.nodes@.len() as int] == ga.nodes@[g0.nodes@.len() as int]);
        assert(g1.edges@[g0.edges@.len() as int] == ga.edges@[g0.edges@.len() as int]);
    }
    if filter.size() > 0 {
        let expected_connects = filter.size();
        let read_new_query = read_ids_infallible(
            rf.related_model.as_str(),
            &rf.related_identifier,
            copy_names(&rf.related_identifier),
            filter,
        );
        let read_new_node = graph.create_node(read_new_query);
        graph.create_edge(&disconnect_node, &read_new_node, Dependency::ExecutionOrder);
        let ghost g2 = *graph;
        connect_records_node(graph, parent_node, &read_new_node, rf, expected_connects);
        proof {
            assert(g2.nodes@.take(g1.nodes@.len() as int) =~= g1.nodes@);
            assert(g2.edges@.take(g1.edges@.len() as int) =~= g1.edges@);
            assert(g2.marked@.take(g1.marked@.len() as int) =~= g1.marked@);
            lemma_extends_trans(*graph, g2, g1);
            lemma_extends_trans(*graph, g1, g0);
            lemma_extends_keeps(*graph, g2);
            lemma_extends_keeps(*graph, g1);
            assert(graph.nodes@[g0.nodes@.len() + 2int] == g2.nodes@[g0.nodes@.len() + 2int]);
            assert(graph.edges@[g0.edges@.len() + 3int] == g2.edges@[g0.edges@.len() + 3int]);
            assert(graph.nodes@[g0.nodes@.len() as int] == g1.nodes@[g0.nodes@.len() as int]);
            assert(graph.nodes@[g0.nodes@.len() + 1int] == g1.nodes@[g0.nodes@.len() + 1int]);
            assert(graph.edges@[g0.edges@.len() as int] == g1.edges@[g0.edges@.len() as int]);
            assert(graph.edges@[g0.edges@.len() + 1int] == g1.edges@[g0.edges@.len() + 1int]);
            assert(graph.edges@[g0.edges@.len() + 2int] == g1.edges@[g0.edges@.len() + 2int]);
        }
    }
    Ok(())
}

/// The reads and diffs of a nested set on a one-to-many relation, from node `n0` and edge
/// `e0` of `g`: the children the parent has, the records that `filter` selects, and the two
/// diffs between them (the new ones not yet connected, the old ones to disconnect).
pub open spec fn set_diffs_at(g: QueryGraph, n0: int, e0: int, parent: NodeRef, rf: RelationField, filter: Filter) -> bool {
    let read_old = NodeRef { id: n0 as usize };
    let read_new = NodeRef { id: (n0 + 1) as usize };
    let diff_lr = NodeRef { id: (n0 + 2) as usize };
    let diff_rl = NodeRef { id: (n0 + 3) as usize };
    let id = names(rf.related_identifier@);
    &&& 0 <= n0
    &&& n0 + 4 <= g.nodes@.len()
    &&& 0 <= e0
    &&& e0 + 6 <= g.edges@.len()
    &&& is_find_children(g.nodes@[n0], rf, Filter::Empty)
    &&& is_parent_records_edge(g.edges@[e0], parent, read_old, rf)
    &&& is_read_many(g.nodes@[n0 + 1], "read_ids_infallible"@, rf.related_model@, id, id, filter)
    &&& g.nodes@[n0 + 2] matches Node::Computation(Computation::DiffLeftToRight(a)) && names(a@) == id
    &&& g.nodes@[n0 + 3] matches Node::Computation(Computation::DiffRightToLeft(b)) && names(b@) == id
    &&& g.edges@[e0 + 1] == (Edge { from: read_old, to: read_new, dependency: Dependency::ExecutionOrder })
    &&& is_plain_edge(g.edges@[e0 + 2], read_new, diff_lr, id, RowSink::LeftSideDiff)
    &&& is_plain_edge(g.edges@[e0 + 3], read_new, diff_rl, id, RowSink::LeftSideDiff)
    &&& is_plain_edge(g.edges@[e0 + 4], read_old, diff_lr, id, RowSink::RightSideDiff)
    &&& is_plain_edge(g.edges@[e0 + 5], read_old, diff_rl, id, RowSink::RightSideDiff)
}

/// The updates of a nested set on a one-to-many relation, from node `n0` and edge `e0` of
/// `g`, below the diffs at `diff_lr` and `diff_rl`: where new records are not yet connected,
/// they get the parent's link; where old ones are no longer wanted, their link is set to null
/// (a relation violation where the child side is required).
pub open spec fn set_updates_at(
    g: QueryGraph,
    n0: int,
    e0: int,
    parent: NodeRef,
    rf: RelationField,
    diff_lr: NodeRef,
    diff_rl: NodeRef,
) -> bool {
    let connect_if = NodeRef { id: n0 as usize };
    let update_connect = NodeRef { id: (n0 + 1) as usize };
    let disconnect_if = NodeRef { id: (n0 + 2) as usize };
    let update_disconnect = NodeRef { id: (n0 + 3) as usize };
    let id = names(rf.related_identifier@);
    &&& 0 <= n0
    &&& n0 + 4 <= g.nodes@.len()
    &&& 0 <= e0
    &&& e0 + 7 <= g.edges@.len()
    &&& g.nodes@[n0] == Node::Flow(Flow::IfNonEmpty)
    &&& is_update_placeholder(g.nodes@[n0 + 1], rf.related_model@, Filter::Empty)
    &&& g.nodes@[n0 + 2] == Node::Flow(Flow::IfNonEmpty)
    &&& g.nodes@[n0 + 3] matches Node::Query(Query::Write(WriteQuery::UpdateManyRecords { model, filter, args }))
    &&& model@ == rf.related_model@
    &&& filter == Filter::Empty
    &&& nulls_for(args, names(rf.related_linking_fields@))
    &&& is_plain_edge(g.edges@[e0], diff_lr, connect_if, id, RowSink::IfCondition)
    &&& g.edges@[e0 + 1] == (Edge { from: connect_if, to: update_connect, dependency: Dependency::Then })
    &&& is_projected(g.edges@[e0 + 2], parent, update_connect, names(rf.linking_fields@))
    &&& g.edges@[e0 + 2].dependency->sink matches RowSink::InjectLink(l)
    &&& names(l@) == names(rf.related_linking_fields@)
    &&& g.edges@[e0 + 2].dependency->expectation matches Option::Some(DataExpectation::NonEmptyRows(e))
    &&& is_missing_for_set(e, rf.model@, rf, Option::None)
    &&& is_plain_edge(g.edges@[e0 + 3], diff_lr, update_connect, id, RowSink::Selectors)
    &&& is_projected(g.edges@[e0 + 4], diff_rl, disconnect_if, id)
    &&& g.edges@[e0 + 4].dependency->sink is IfCondition
    &&& if rf.related_field_required {
        g.edges@[e0 + 4].dependency->expectation matches Option::Some(DataExpectation::EmptyRows(v)) && is_violation_of(
            v,
            rf,
        )
    } else {
        g.edges@[e0 + 4].dependency->expectation is None
    }
    &&& g.edges@[e0 + 5] == (Edge { from: disconnect_if, to: update_disconnect, dependency: Dependency::Then })
    &&& is_plain_edge(g.edges@[e0 + 6], diff_rl, update_disconnect, id, RowSink::Selectors)
}

/// The graph of a nested set on a one-to-many relation.
pub open spec fn one_to_many_set(g: QueryGraph, old: QueryGraph, parent: NodeRef, rf: RelationField, filter: Filter) -> bool {
    let n0 = old.nodes@.len() as int;
    let e0 = old.edges@.len() as int;
    &&& appended(g, old, 8, 13)
    &&& set_diffs_at(g, n0, e0, parent, rf, filter)
    &&& set_updates_at(
        g,
        n0 + 4,
        e0 + 6,
        parent,
        rf,
        NodeRef { id: (n0 + 2) as usize },
        NodeRef { id: (n0 + 3) as usize },
    )
}

fn insert_set_diffs(
    graph: &mut QueryGraph,
    parent_node: &NodeRef,
    rf: &RelationField,
    filter: Filter,
) -> (r: (NodeRef, NodeRef, NodeRef))
    requires
        old(graph).wf(),
        old(graph).has(*parent_node),
    ensures
        appended(*final(graph), *old(graph), 4, 6),
        set_diffs_at(*final(graph), old(graph).nodes@.len() as int, old(graph).edges@.len() as int, *parent_node, *rf, filter),
        r.0.id == old(graph).nodes@.len() + 2,
        r.1.id == old(graph).nodes@.len() + 3,
        r.2.id == old(graph).nodes@.len(),
{
    let ghost g0 = *graph;
    let id = &rf.related_identifier;
    let read_old_node = insert_find_children_by_parent_node(graph, parent_node, rf, Filter::Empty);
    let ghost ga = *graph;
    let read_new_query = read_ids_infallible(rf.related_model.as_str(), id, copy_names(id), filter);
    let read_new_node = graph.create_node(read_new_query);
    let diff_left_to_right_node = graph.create_node(Node::Computation(Computation::DiffLeftToRight(copy_names(id))));
    let diff_right_to_left_node = graph.create_node(Node::Computation(Computation::DiffRightToLeft(copy_names(id))));
    graph.create_edge(&read_old_node, &read_new_node, Dependency::ExecutionOrder);
    graph.create_edge(
        &read_new_node,
        &diff_left_to_right_node,
        Dependency::Projected { selection: copy_names(id), sink: RowSink::LeftSideDiff, expectation: Option::None },
    );
    graph.create_edge(
        &read_new_node,
        &diff_right_to_left_node,
        Dependency::Projected { selection: copy_names(id), sink: RowSink::LeftSideDiff, expectation: Option::None },
    );
    graph.create_edge(
        &read_old_node,
        &diff_left_to_right_node,
        Dependency::Projected { selection: copy_names(id), sink: RowSink::RightSideDiff, expectation: Option::None },
    );
    graph.create_edge(
        &read_old_node,
        &diff_right_to_left_node,
        Dependency::Projected { selection: copy_names(id), sink: RowSink::RightSideDiff, expectation: Option::None },
    );
    proof {
        assert(graph.nodes@.take(g0.nodes@.len() as int) =~= g0.nodes@);
        assert(graph.edges@.take(g0.edges@.len() as int) =~= g0.edges@);
        assert(graph.marked@.take(g0.marked@.len() as int) =~= g0.marked@);
        assert(graph.nodes@[g0.nodes@.len() as int] == ga.nodes@[g0.nodes@.len() as int]);
        assert(graph.edges@[g0.edges@.len() as int] == ga.edges@[g0.edges@.len() as int]);
    }
    (diff_left_to_right_node, diff_right_to_left_node, read_old_node)
}

fn insert_set_updates(
    graph: &mut QueryGraph,
    parent_node: &NodeRef,
    rf: &RelationField,
    diff_lr: &NodeRef,
    diff_rl: &NodeRef,
)
    requires
        old(graph).wf(),
        old(graph).has(*parent_node),
        old(graph).has(*diff_lr),
        old(graph).has(*diff_rl),
    ensures
        appended(*final(graph), *old(graph), 4, 7),
        set_updates_at(
            *final(graph),
            old(graph).nodes@.len() as int,
            old(graph).edges@.len() as int,
            *parent_node,
            *rf,
            *diff_lr,
            *diff_rl,
        ),
{
    let ghost g0 = *graph;
    let id = &rf.related_identifier;
    let connect_if_node = graph.create_node(Node::Flow(Flow::IfNonEmpty));
    let ghost ga = *graph;
    proof {
        assert(ga.nodes@.take(g0.nodes@.len() as int) =~= g0.nodes@);
        assert(ga.edges@ =~= g0.edges@);
        assert(ga.marked@ =~= g0.marked@);
    }
    let update_connect_node = update_records_node_placeholder(graph, Filter::Empty, rf.related_model.as_str());
    let ghost gb = *graph;
    graph.create_edge(
        diff_lr,
        &connect_if_node,
        Dependency::Projected { selection: copy_names(id), sink: RowSink::IfCondition, expectation: Option::None },
    );
    graph.create_edge(&connect_if_node, &update_connect_node, Dependency::Then);
    let missing = MissingRelatedRecord::new(rf.model.as_str(), &rf.relation, DataOperation::NestedSet, Option::None);
    graph.create_edge(
        parent_node,
        &update_connect_node,
        Dependency::Projected {
            selection: copy_names(&rf.linking_fields),
            sink: RowSink::InjectLink(copy_names(&rf.related_linking_fields)),
            expectation: Option::Some(DataExpectation::NonEmptyRows(missing.to_runtime_error())),
        },
    );
    graph.create_edge(
        diff_lr,
        &update_connect_node,
        Dependency::Projected { selection: copy_names(id), sink: RowSink::Selectors, expectation: Option::None },
    );
    let disconnect_if_node = graph.create_node(Node::Flow(Flow::IfNonEmpty));
    let ghost gc = *graph;
    proof {
        assert(gc.nodes@.take(gb.nodes@.len() as int) =~= gb.nodes@);
        assert(gc.edges@.take(gb.edges@.len() as int) =~= gb.edges@);
        assert(gc.marked@ =~= gb.marked@);
    }
    let update_disconnect_node = update_records_node_placeholder_with_args(
        graph,
        Filter::Empty,
        rf.related_model.as_str(),
        null_args(&rf.related_linking_fields),
    );
    let ghost gd = *graph;
    let expectation = if rf.related_field_required {
        Option::Some(DataExpectation::EmptyRows(RelationViolation::from_relation(&rf.relation).to_runtime_error()))
    } else {
        Option::None
    };
    graph.create_edge(
        diff_rl,
        &disconnect_if_node,
        Dependency::Projected { selection: copy_names(id), sink: RowSink::IfCondition, expectation },
    );
    graph.create_edge(&disconnect_if_node, &update_disconnect_node, Dependency::Then);
    graph.create_edge(
        diff_rl,
        &update_disconnect_node,
        Dependency::Projected { selection: copy_names(id), sink: RowSink::Selectors, expectation: Option::None },
    );
    proof {
        assert(graph.nodes@.take(gd.nodes@.len() as int) =~= gd.nodes@);
        assert(graph.edges@.take(gd.edges@.len() as int) =~= gd.edges@);
        assert(graph.marked@.take(gd.marked@.len() as int) =~= gd.marked@);
        lemma_extends_trans(gd, gc, gb);
        lemma_extends_trans(gd, gb, ga);
        lemma_extends_trans(gd, ga, g0);
        lemma_extends_trans(*graph, gd, g0);
        lemma_extends_keeps(*graph, gd);
        lemma_extends_keeps(gd, gc);
        lemma_extends_keeps(gc, gb);
        lemma_extends_keeps(gb, ga);
        let n0 = g0.nodes@.len() as int;
        let e0 = g0.edges@.len() as int;
        assert(graph.nodes@[n0] == ga.nodes@[n0]);
        assert(graph.nodes@[n0 + 1] == gb.nodes@[n0 + 1]);
        assert(graph.nodes@[n0 + 2] == gc.nodes@[n0 + 2]);
        assert(graph.edges@[e0] == gc.edges@[e0]);
        assert(graph.edges@[e0 + 1] == gc.edges@[e0 + 1]);
        assert(graph.edges@[e0 + 2] == gc.edges@[e0 + 2]);
        assert(graph.edges@[e0 + 3] == gc.edges@[e0 + 3]);
    }
}

/// Plans a nested set on a one-to-many relation: the records that `filter` selects become the
/// only children of the parent.
pub fn handle_one_to_many(
    graph: &mut QueryGraph,
    parent_node: &NodeRef,
    parent_relation_field: &RelationField,
    filter: Filter,
) -> (r: Result<(), QueryGraphBuilderError>)
    requires
        old(graph).wf(),
        old(graph).has(*parent_node),
    ensures
        r is Ok,
        one_to_many_set(*final(graph), *old(graph), *parent_node, *parent_relation_field, filter),
{
    let ghost g0 = *graph;
    let (diff_lr, diff_rl, _read_old) = insert_set_diffs(graph, parent_node, parent_relation_field, filter);
    let ghost g1 = *graph;
    insert_set_updates(graph, parent_node, parent_relation_field, &diff_lr, &diff_rl);
    proof {
        lemma_extends_trans(*graph, g1, g0);
        lemma_extends_keeps(*graph, g1);
        let n0 = g0.nodes@.len() as int;
        let e0 = g0.edges@.len() as int;
        assert forall|i: int| n0 <= i < n0 + 4 implies graph.nodes@[i] == g1.nodes@[i] by {}
        assert forall|i: int| e0 <= i < e0 + 6 implies graph.edges@[i] == g1.edges@[i] by {}
        assert(graph.nodes@[n0] == g1.nodes@[n0]);
        assert(graph.nodes@[n0 + 1] == g1.nodes@[n0 + 1]);
        assert(graph.nodes@[n0 + 2] == g1.nodes@[n0 + 2]);
        assert(graph.nodes@[n0 + 3] == g1.nodes@[n0 + 3]);
        assert(graph.edges@[e0] == g1.edges@[e0]);
        assert(graph.edges@[e0 + 1] == g1.edges@[e0 + 1]);
        assert(graph.edges@[e0 + 2] == g1.edges@[e0 + 2]);
        assert(graph.edges@[e0 + 3] == g1.edges@[e0 + 3]);
        assert(graph.edges@[e0 + 4] == g1.edges@[e0 + 4]);
        assert(graph.edges@[e0 + 5] == g1.edges@[e0 + 5]);
    }
    Ok(())
}

/// The plan of a nested set for the unique selectors that `ds` describes: `filter` is the
/// disjunction of their filters, once repetitions are dropped.
pub open spec fn set_planned(
    g: QueryGraph,
    old: QueryGraph,
    parent: NodeRef,
    rf: RelationField,
    ds: Seq<FilterDesc>,
    fs: Seq<Filter>,
    filter: Filter,
) -> bool {
    &&& all_described(fs, ds)
    &&& filter matches Filter::Or(v)
    &&& v@ == unique_filters_spec(fs)
    &&& if rf.relation.kind == RelationKind::ManyToMany {
        many_to_many_set(g, old, parent, rf, filter)
    } else {
        one_to_many_set(g, old, parent, rf, filter)
    }
}

/// Plans a nested set: the records that the unique selectors of `value` (one object or a list
/// of them) select become the only children of the parent through `parent_relation_field`.
/// A set is not offered on one-to-one relations.
pub fn nested_set(
    graph: &mut QueryGraph,
    parent_node: &NodeRef,
    parent_relation_field: &RelationField,
    value: ParsedInputValue,
    child_model: &Container,
) -> (r: Result<(), QueryGraphBuilderError>)
    requires
        old(graph).wf(),
        old(graph).has(*parent_node),
        parent_relation_field.relation.kind != RelationKind::OneToOne,
    ensures
        match selector_filters_spec(*child_model, coerced(value), coerced(value).len()) {
            Err(e) => (r matches Err(x) && error_is(x, e)) && *final(graph) == *old(graph),
            Ok(ds) => r is Ok && exists|fs: Seq<Filter>, f: Filter|
                #[trigger] set_planned(*final(graph), *old(graph), *parent_node, *parent_relation_field, ds, fs, f),
        },
{
    let ghost vs = coerced(value);
    let filters = match extract_selector_filters(coerce_vec(value), child_model) {
        Ok(f) => f,
        Err(x) => return Err(x),
    };
    let ghost fs = filters@;
    let ghost ds = selector_filters_spec(*child_model, vs, vs.len())->Ok_0;
    let filters = unique_filters(filters);
    let filter = Filter::Or(filters);
    let ghost gf = filter;
    match parent_relation_field.relation.kind {
        RelationKind::ManyToMany => {
            let r = handle_many_to_many(graph, parent_node, parent_relation_field, filter);
            assert(set_planned(*graph, *old(graph), *parent_node, *parent_relation_field, ds, fs, gf));
            r
        },
        _ => {
            let r = handle_one_to_many(graph, parent_node, parent_relation_field, filter);
            assert(set_planned(*graph, *old(graph), *parent_node, *parent_relation_field, ds, fs, gf));
            r
        },
    }
}

} // verus!
