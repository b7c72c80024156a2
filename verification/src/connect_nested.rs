use vstd::prelude::*;
use crate::error::{QueryGraphBuilderError, RelationViolation};
use crate::filter::{Filter, filter_size};
use crate::query_graph::{CountError, DataExpectation, Dependency, Edge, Node, NodeRef, QueryGraph, RowSink, names};
use crate::schema::{Container, RelationField, RelationKind};
use crate::text::text;
use crate::equality::{unique_filters, unique_filters_spec};
use crate::extract::{ErrorDesc, FilterDesc, all_described, error_is, lemma_all_described_push};
use crate::unique::{extract_unique_filter, unique_spec};
use crate::values::ParsedInputValue;
use crate::write_utils::coerce_vec;
use crate::write_utils::{
    appended, appended_with, checks_at, connect_records_node, insert_existing_1to1_related_model_checks,
    is_connect_children_edge, is_connect_parent_edge, is_create_node, is_projected, is_read_many,
    is_update_placeholder, is_violation_of, lemma_checks_kept, lemma_extends_keeps, lemma_extends_trans, new_edge,
    new_node, new_ref, node_is_create, read_ids_infallible, update_records_node_placeholder,
};

verus! {

/// `a` + `x` + `b` + `y` + `c` + `z` + `d`.
fn message3(a: &str, x: &str, b: &str, y: &str, c: &str, z: &str, d: &str) -> (s: String)
    ensures
        s@ == a@ + x@ + b@ + y@ + c@ + z@ + d@,
{
    let mut s = text(a);
    s.append(x);
    s.append(b);
    s.append(y);
    s.append(c);
    s.append(z);
    s.append(d);
    s
}

/// `a` + `x` + `b` + `y` + `c`.
fn message2(a: &str, x: &str, b: &str, y: &str, c: &str) -> (s: String)
    ensures
        s@ == a@ + x@ + b@ + y@ + c@,
{
    let mut s = text(a);
    s.append(x);
    s.append(b);
    s.append(y);
    s.append(c);
    s
}

/// The error of a missing record whose message is `m`.
pub open spec fn not_found(e: Option<DataExpectation>, m: Seq<char>) -> bool {
    e matches Option::Some(DataExpectation::NonEmptyRows(QueryGraphBuilderError::RecordNotFound(x))) && x@ == m
}

/// `e` writes the last row of the fields `selection` of `from` into the arguments of `to`
/// under the fields `link`; without a row, the error with message `m` is raised.
pub open spec fn is_link_edge(e: Edge, from: NodeRef, to: NodeRef, selection: Seq<Seq<char>>, link: Seq<Seq<char>>, m: Seq<char>) -> bool {
    &&& is_projected(e, from, to, selection)
    &&& e.dependency->sink matches RowSink::InjectLink(l)
    &&& names(l@) == link
    &&& not_found(e.dependency->expectation, m)
}

/// `e` adds the last row of the fields `selection` of `from` to the filter of `to`;
/// without a row, the error with message `m` is raised.
pub open spec fn is_filter_edge(e: Edge, from: NodeRef, to: NodeRef, selection: Seq<Seq<char>>, m: Seq<char>) -> bool {
    &&& is_projected(e, from, to, selection)
    &&& e.dependency->sink is AddFilter
    &&& not_found(e.dependency->expectation, m)
}

/// The message when no child was found to inline into the parents of a one-to-many relation.
pub open spec fn inline_message(missing: Seq<char>, target: Seq<char>, relation: Seq<char>) -> Seq<char> {
    "No '"@ + missing + "' record(s) (needed to inline the relation on '"@ + target
        + "' record(s)) was found for a nested connect on one-to-many relation '"@ + relation + "'."@
}

/// The graph of a nested connect on a many-to-many relation: a read of the children, then a
/// connect that takes the parent and exactly as many children as the filter names.
pub open spec fn many_to_many_connect(
    g: QueryGraph,
    old: QueryGraph,
    parent: NodeRef,
    rf: RelationField,
    child: Container,
    filter: Filter,
) -> bool {
    &&& appended(g, old, 2, 3)
    &&& is_read_many(
        new_node(g, old, 0),
        "read_ids_infallible"@,
        child.name@,
        names(child.primary_identifier@),
        names(child.primary_identifier@),
        filter,
    )
    &&& new_edge(g, old, 0) == (Edge { from: parent, to: new_ref(old, 0), dependency: Dependency::ExecutionOrder })
    &&& new_node(g, old, 1) matches Node::Query(
        crate::query_graph::Query::Write(crate::query_graph::WriteQuery::ConnectRecords { relation_field }),
    )
    &&& relation_field@ == rf.name@
    &&& is_connect_parent_edge(new_edge(g, old, 1), parent, new_ref(old, 1), rf)
    &&& is_connect_children_edge(new_edge(g, old, 2), new_ref(old, 0), new_ref(old, 1), rf, filter_size(filter) as usize)
}

/// Plans a nested connect on a many-to-many relation.
pub fn handle_many_to_many(
    graph: &mut QueryGraph,
    parent_node: NodeRef,
    parent_relation_field: &RelationField,
    filter: Filter,
    child_model: &Container,
) -> (r: Result<(), QueryGraphBuilderError>)
    requires
        old(graph).wf(),
        old(graph).has(parent_node),
        parent_relation_field.relation.kind == RelationKind::ManyToMany,
    ensures
        r is Ok,
        many_to_many_connect(*final(graph), *old(graph), parent_node, *parent_relation_field, *child_model, filter),
{
    let ghost g0 = *graph;
    let ghost f0 = filter;
    let expected_connects = filter.size();
    let child_read_query = read_ids_infallible(
        child_model.name.as_str(),
        &child_model.primary_identifier,
        child_model.primary_identifier.clone(),
        filter,
    );
    let child_node = graph.create_node(child_read_query);
    graph.create_edge(&parent_node, &child_node, Dependency::ExecutionOrder);
    let ghost g1 = *graph;
    connect_records_node(graph, &parent_node, &child_node, parent_relation_field, expected_connects);
    proof {
        assert(g1.nodes@.take(g0.nodes@.len() as int) =~= g0.nodes@);
        assert(g1.edges@.take(g0.edges@.len() as int) =~= g0.edges@);
        assert(g1.marked@.take(g0.marked@.len() as int) =~= g0.marked@);
        assert(g1.result_nodes@.take(g0.result_nodes@.len() as int) =~= g0.result_nodes@);
        lemma_extends_trans(*graph, g1, g0);
        lemma_extends_keeps(*graph, g1);
        assert(graph.nodes@[g0.nodes@.len() as int] == g1.nodes@[g0.nodes@.len() as int]);
        assert(graph.edges@[g0.edges@.len() as int] == g1.edges@[g0.edges@.len() as int]);
    }
    Ok(())
}

/// The graph of a nested connect on a one-to-many relation. Inlined on the parent: a read of
/// the child runs in place of the parent and hands its link to it. Inlined on the child: an
/// update of the children takes the parent's link, and a check on the number of updated
/// children follows.
pub open spec fn one_to_many_connect(
    g: QueryGraph,
    old: QueryGraph,
    parent: NodeRef,
    rf: RelationField,
    child: Container,
    filter: Filter,
) -> bool {
    if rf.inlined_in_parent {
        &&& appended_with(g, old, 1, 1, 1)
        &&& g.marked@.last() == (parent, new_ref(old, 0))
        &&& is_read_many(
            new_node(g, old, 0),
            "read_ids_infallible"@,
            child.name@,
            names(child.primary_identifier@),
            names(rf.related_linking_fields@),
            filter,
        )
        &&& is_link_edge(
            new_edge(g, old, 0),
            parent,
            new_ref(old, 0),
            names(rf.related_linking_fields@),
            names(rf.linking_fields@),
            inline_message(child.name@, rf.model@, rf.relation.name@),
        )
    } else {
        &&& appended(g, old, 2, 2)
        &&& is_update_placeholder(new_node(g, old, 0), child.name@, filter)
        &&& new_node(g, old, 1) == Node::Empty
        &&& is_link_edge(
            new_edge(g, old, 0),
            parent,
            new_ref(old, 0),
            names(rf.linking_fields@),
            names(rf.related_linking_fields@),
            inline_message(rf.model@, child.name@, rf.relation.name@),
        )
        &&& new_edge(g, old, 1).from == new_ref(old, 0)
        &&& new_edge(g, old, 1).to == new_ref(old, 1)
        &&& new_edge(g, old, 1).dependency matches Dependency::ResultCount {
            expected,
            error: CountError::NotAllConnected { expected: e2, relation },
        }
        &&& expected == filter_size(filter)
        &&& e2 == expected
        &&& relation@ == rf.relation.name@
    }
}

/// Plans a nested connect on a one-to-many relation.
pub fn handle_one_to_many(
    graph: &mut QueryGraph,
    parent_node: NodeRef,
    parent_relation_field: &RelationField,
    child_filter: Filter,
    child_model: &Container,
) -> (r: Result<(), QueryGraphBuilderError>)
    requires
        old(graph).wf(),
        old(graph).has(parent_node),
    ensures
        r is Ok,
        one_to_many_connect(*final(graph), *old(graph), parent_node, *parent_relation_field, *child_model, child_filter),
{
    let ghost g0 = *graph;
    let rf = parent_relation_field;
    if rf.inlined_in_parent {
        let read_query = read_ids_infallible(
            child_model.name.as_str(),
            &child_model.primary_identifier,
            rf.related_linking_fields.clone(),
            child_filter,
        );
        let read_children_node = graph.create_node(read_query);
        graph.mark_nodes(&parent_node, &read_children_node);
        let m = message3(
            "No '",
            child_model.name.as_str(),
            "' record(s) (needed to inline the relation on '",
            rf.model.as_str(),
            "' record(s)) was found for a nested connect on one-to-many relation '",
            rf.relation.name.as_str(),
            "'.",
        );
        graph.create_edge(
            &parent_node,
            &read_children_node,
            Dependency::Projected {
                selection: rf.related_linking_fields.clone(),
                sink: RowSink::InjectLink(rf.linking_fields.clone()),
                expectation: Option::Some(DataExpectation::NonEmptyRows(QueryGraphBuilderError::RecordNotFound(m))),
            },
        );
        proof {
            assert(graph.nodes@.take(g0.nodes@.len() as int) =~= g0.nodes@);
            assert(graph.edges@.take(g0.edges@.len() as int) =~= g0.edges@);
            assert(graph.marked@.take(g0.marked@.len() as int) =~= g0.marked@);
            assert(graph.result_nodes@.take(g0.result_nodes@.len() as int) =~= g0.result_nodes@);
        }
    } else {
        let expected_id_count = child_filter.size();
        let update_node = update_records_node_placeholder(graph, child_filter, child_model.name.as_str());
        let check_node = graph.create_node(Node::Empty);
        let m = message3(
            "No '",
            rf.model.as_str(),
            "' record(s) (needed to inline the relation on '",
            child_model.name.as_str(),
            "' record(s)) was found for a nested connect on one-to-many relation '",
            rf.relation.name.as_str(),
            "'.",
        );
        graph.create_edge(
            &parent_node,
            &update_node,
            Dependency::Projected {
                selection: rf.linking_fields.clone(),
                sink: RowSink::InjectLink(rf.related_linking_fields.clone()),
                expectation: Option::Some(DataExpectation::NonEmptyRows(QueryGraphBuilderError::RecordNotFound(m))),
            },
        );
        graph.create_edge(
            &update_node,
            &check_node,
            Dependency::ResultCount {
                expected: expected_id_count,
                error: CountError::NotAllConnected { expected: expected_id_count, relation: rf.relation.name.clone() },
            },
        );
        proof {
            assert(graph.nodes@.take(g0.nodes@.len() as int) =~= g0.nodes@);
            assert(graph.edges@.take(g0.edges@.len() as int) =~= g0.edges@);
            assert(graph.marked@.take(g0.marked@.len() as int) =~= g0.marked@);
            assert(graph.result_nodes@.take(g0.result_nodes@.len() as int) =~= g0.result_nodes@);
        }
    }
    Ok(())
}

/// The message when no child was found to inline on the creation of the parent.
pub open spec fn inline_on_create_message(child: Seq<char>, parent: Seq<char>, relation: Seq<char>) -> Seq<char> {
    "No '"@ + child + "' record (needed to inline connect on create for '"@ + parent
        + "' record) was found for a nested connect on one-to-one relation '"@ + relation + "'."@
}

/// The message when no child was found to connect.
pub open spec fn no_child_message(child: Seq<char>, relation: Seq<char>) -> Seq<char> {
    "No '"@ + child + "' record to connect was found was found for a nested connect on one-to-one relation '"@
        + relation + "'."@
}

/// The message when no record was found to update an inlined relation.
pub open spec fn update_inlined_message(parent: Seq<char>, child: Seq<char>, relation: Seq<char>) -> Seq<char> {
    "No '"@ + parent + "' record (needed to update inlined relation on '"@ + child
        + "') was found for a nested connect on one-to-one relation '"@ + relation + "'."@
}

/// The message when no parent was found to update an inlined relation.
pub open spec fn update_parent_message(parent: Seq<char>, child: Seq<char>, relation: Seq<char>) -> Seq<char> {
    "No '"@ + parent + "' record (needed to update inlined relation on '"@ + child
        + "') was found for a nested connect on relation '"@ + relation + "'."@
}

/// A nested connect on a one-to-one relation is refused when both sides are required.
pub open spec fn one_to_one_refused(rf: RelationField, child_rf: RelationField) -> bool {
    rf.is_required && child_rf.is_required
}

/// The graph of a nested connect on a one-to-one relation, `child_rf` being the relation
/// field on the child's side. A read of the new child runs in place of the parent; then come
/// the checks for an existing parent of the child (when the parent side is required or the
/// relation is inlined on the parent), the edge from the parent to the read (which inlines
/// the child's link into a parent being created), the checks for an existing child of the
/// parent (when the parent is no create and the child side is required or the relation is
/// inlined on the child), and an update of the side that holds the relation.
pub open spec fn one_to_one_connect(
    g: QueryGraph,
    old: QueryGraph,
    parent: NodeRef,
    rf: RelationField,
    child_rf: RelationField,
    child: Container,
    filter: Filter,
) -> bool {
    let create = is_create_node(old.nodes@[parent.id as int]);
    let inlined = rf.inlined_in_parent;
    let c1 = rf.is_required || inlined;
    let c2 = !create && (child_rf.is_required || !inlined);
    let n0 = old.nodes@.len() as int;
    let e0 = old.edges@.len() as int;
    let read = NodeRef { id: n0 as usize };
    let nb2 = n0 + 1 + (if c1 { 3int } else { 0int });
    let e_link = e0 + (if c1 { 4int } else { 0int });
    let nt = nb2 + (if c2 { 3int } else { 0int });
    let et = e_link + 1 + (if c2 { 4int } else { 0int });
    let tail = if !inlined || !create { 1int } else { 0int };
    let upd = NodeRef { id: nt as usize };
    &&& appended_with(g, old, (nt + tail - n0) as nat, (et + 2 * tail - e0) as nat, 1)
    &&& g.marked@.last() == (parent, read)
    &&& is_read_many(
        g.nodes@[n0],
        "read_ids_infallible"@,
        child.name@,
        names(child.primary_identifier@),
        names(rf.related_linking_fields@),
        filter,
    )
    &&& c1 ==> checks_at(g, n0 + 1, e0, read, child_rf)
    &&& is_projected(g.edges@[e_link], parent, read, names(rf.related_linking_fields@))
    &&& if inlined && create {
        &&& g.edges@[e_link].dependency->sink matches RowSink::InjectLink(l)
        &&& names(l@) == names(rf.linking_fields@)
        &&& not_found(
            g.edges@[e_link].dependency->expectation,
            inline_on_create_message(child.name@, rf.model@, rf.relation.name@),
        )
    } else {
        &&& g.edges@[e_link].dependency->sink is Discard
        &&& g.edges@[e_link].dependency->expectation is None
    }
    &&& c2 ==> checks_at(g, nb2, e_link + 1, parent, rf)
    &&& if !inlined {
        &&& is_update_placeholder(g.nodes@[nt], child.name@, Filter::Empty)
        &&& is_filter_edge(
            g.edges@[et],
            read,
            upd,
            names(rf.related_identifier@),
            no_child_message(child.name@, rf.relation.name@),
        )
        &&& is_link_edge(
            g.edges@[et + 1],
            parent,
            upd,
            names(rf.linking_fields@),
            names(rf.related_linking_fields@),
            update_inlined_message(rf.model@, child.name@, rf.relation.name@),
        )
    } else if !create {
        &&& is_update_placeholder(g.nodes@[nt], rf.model@, Filter::Empty)
        &&& is_link_edge(
            g.edges@[et],
            read,
            upd,
            names(rf.related_linking_fields@),
            names(rf.linking_fields@),
            update_inlined_message(rf.model@, child.name@, rf.relation.name@),
        )
        &&& is_filter_edge(
            g.edges@[et + 1],
            parent,
            upd,
            names(rf.model_identifier@),
            update_parent_message(rf.model@, child.name@, rf.relation.name@),
        )
    } else {
        true
    }
}

/// Plans a nested connect on a one-to-one relation; `child_relation_field` is the relation
/// field on the child's side. When both sides are required, a connect would leave the
/// child's current parent without its required child: the relation violation is returned
/// and the graph is left as it was.
#[verifier::rlimit(60)]
pub fn handle_one_to_one(
    graph: &mut QueryGraph,
    parent_node: NodeRef,
    parent_relation_field: &RelationField,
    child_relation_field: &RelationField,
    filter: Filter,
    child_model: &Container,
) -> (r: Result<(), QueryGraphBuilderError>)
    requires
        old(graph).wf(),
        old(graph).has(parent_node),
    ensures
        one_to_one_refused(*parent_relation_field, *child_relation_field) ==> (r matches Err(e) && is_violation_of(
            e,
            *parent_relation_field,
        )) && *final(graph) == *old(graph),
        !one_to_one_refused(*parent_relation_field, *child_relation_field) ==> r is Ok && one_to_one_connect(
            *final(graph),
            *old(graph),
            parent_node,
            *parent_relation_field,
            *child_relation_field,
            *child_model,
            filter,
        ),
{
    let ghost g0 = *graph;
    let rf = parent_relation_field;
    let parent_is_create = node_is_create(graph, &parent_node);
    let parent_side_required = rf.is_required;
    let child_side_required = child_relation_field.is_required;
    let relation_inlined_parent = rf.inlined_in_parent;
    let relation_inlined_child = !relation_inlined_parent;
    if parent_side_required && child_side_required {
        return Err(QueryGraphBuilderError::RelationViolation(RelationViolation::from_relation(&rf.relation)));
    }
    let read_query = read_ids_infallible(
        child_model.name.as_str(),
        &child_model.primary_identifier,
        rf.related_linking_fields.clone(),
        filter,
    );
    let read_new_child_node = graph.create_node(read_query);
    graph.mark_nodes(&parent_node, &read_new_child_node);
    let ghost g1 = *graph;
    proof {
        assert(g1.nodes@.take(g0.nodes@.len() as int) =~= g0.nodes@);
        assert(g1.edges@.take(g0.edges@.len() as int) =~= g0.edges@);
        assert(g1.marked@.take(g0.marked@.len() as int) =~= g0.marked@);
        assert(g1.result_nodes@.take(g0.result_nodes@.len() as int) =~= g0.result_nodes@);
    }
    if parent_side_required || relation_inlined_parent {
        insert_existing_1to1_related_model_checks(graph, &read_new_child_node, child_relation_field);
    }
    let ghost g2 = *graph;
    proof {
        if !(parent_side_required || relation_inlined_parent) {
            assert(g2.nodes@.take(g1.nodes@.len() as int) =~= g1.nodes@);
            assert(g2.edges@.take(g1.edges@.len() as int) =~= g1.edges@);
            assert(g2.marked@.take(g1.marked@.len() as int) =~= g1.marked@);
            assert(g2.result_nodes@.take(g1.result_nodes@.len() as int) =~= g1.result_nodes@);
        }
    }
    let (sink, expectation) = if relation_inlined_parent && parent_is_create {
        let m = message3(
            "No '",
            child_model.name.as_str(),
            "' record (needed to inline connect on create for '",
            rf.model.as_str(),
            "' record) was found for a nested connect on one-to-one relation '",
            rf.relation.name.as_str(),
            "'.",
        );
        (
            RowSink::InjectLink(rf.linking_fields.clone()),
            Option::Some(DataExpectation::NonEmptyRows(QueryGraphBuilderError::RecordNotFound(m))),
        )
    } else {
        (RowSink::Discard, Option::None)
    };
    graph.create_edge(
        &parent_node,
        &read_new_child_node,
        Dependency::Projected { selection: rf.related_linking_fields.clone(), sink, expectation },
    );
    let ghost g3 = *graph;
    proof {
        assert(g3.nodes@.take(g2.nodes@.len() as int) =~= g2.nodes@);
        assert(g3.edges@.take(g2.edges@.len() as int) =~= g2.edges@);
        assert(g3.marked@.take(g2.marked@.len() as int) =~= g2.marked@);
        assert(g3.result_nodes@.take(g2.result_nodes@.len() as int) =~= g2.result_nodes@);
    }
    if !parent_is_create && (child_side_required || !relation_inlined_parent) {
        insert_existing_1to1_related_model_checks(graph, &parent_node, rf);
    }
    let ghost g4 = *graph;
    proof {
        if !(!parent_is_create && (child_side_required || !relation_inlined_parent)) {
            assert(g4.nodes@.take(g3.nodes@.len() as int) =~= g3.nodes@);
            assert(g4.edges@.take(g3.edges@.len() as int) =~= g3.edges@);
            assert(g4.marked@.take(g3.marked@.len() as int) =~= g3.marked@);
            assert(g4.result_nodes@.take(g3.result_nodes@.len() as int) =~= g3.result_nodes@);
        }
    }
    if relation_inlined_child {
        let update_children_node = update_records_node_placeholder(graph, Filter::Empty, child_model.name.as_str());
        let m1 = message2(
            "No '",
            child_model.name.as_str(),
            "' record to connect was found was found for a nested connect on one-to-one relation '",
            rf.relation.name.as_str(),
            "'.",
        );
        graph.create_edge(
            &read_new_child_node,
            &update_children_node,
            Dependency::Projected {
                selection: rf.related_identifier.clone(),
                sink: RowSink::AddFilter,
                expectation: Option::Some(DataExpectation::NonEmptyRows(QueryGraphBuilderError::RecordNotFound(m1))),
            },
        );
        let m2 = message3(
            "No '",
            rf.model.as_str(),
            "' record (needed to update inlined relation on '",
            child_model.name.as_str(),
            "') was found for a nested connect on one-to-one relation '",
            rf.relation.name.as_str(),
            "'.",
        );
        graph.create_edge(
            &parent_node,
            &update_children_node,
            Dependency::Projected {
                selection: rf.linking_fields.clone(),
                sink: RowSink::InjectLink(rf.related_linking_fields.clone()),
                expectation: Option::Some(DataExpectation::NonEmptyRows(QueryGraphBuilderError::RecordNotFound(m2))),
            },
        );
    } else if relation_inlined_parent && !parent_is_create {
        let update_parent_node = update_records_node_placeholder(graph, Filter::Empty, rf.model.as_str());
        let m1 = message3(
            "No '",
            rf.model.as_str(),
            "' record (needed to update inlined relation on '",
            child_model.name.as_str(),
            "') was found for a nested connect on one-to-one relation '",
            rf.relation.name.as_str(),
            "'.",
        );
        graph.create_edge(
            &read_new_child_node,
            &update_parent_node,
            Dependency::Projected {
                selection: rf.related_linking_fields.clone(),
                sink: RowSink::InjectLink(rf.linking_fields.clone()),
                expectation: Option::Some(DataExpectation::NonEmptyRows(QueryGraphBuilderError::RecordNotFound(m1))),
            },
        );
        let m2 = message3(
            "No '",
            rf.model.as_str(),
            "' record (needed to update inlined relation on '",
            child_model.name.as_str(),
            "') was found for a nested connect on relation '",
            rf.relation.name.as_str(),
            "'.",
        );
        graph.create_edge(
            &parent_node,
            &update_parent_node,
            Dependency::Projected {
                selection: rf.model_identifier.clone(),
                sink: RowSink::AddFilter,
                expectation: Option::Some(DataExpectation::NonEmptyRows(QueryGraphBuilderError::RecordNotFound(m2))),
            },
        );
    }
    let ghost g5 = *graph;
    proof {
        assert(g5.nodes@.take(g4.nodes@.len() as int) =~= g4.nodes@);
        assert(g5.edges@.take(g4.edges@.len() as int) =~= g4.edges@);
        assert(g5.marked@.take(g4.marked@.len() as int) =~= g4.marked@);
        assert(g5.result_nodes@.take(g4.result_nodes@.len() as int) =~= g4.result_nodes@);
        lemma_extends_trans(g2, g1, g0);
        lemma_extends_trans(g3, g2, g0);
        lemma_extends_trans(g4, g3, g0);
        lemma_extends_trans(g5, g4, g0);
        lemma_extends_trans(g4, g3, g1);
        lemma_extends_trans(g5, g4, g1);
        lemma_extends_trans(g4, g3, g2);
        lemma_extends_trans(g5, g4, g2);
        lemma_extends_trans(g5, g4, g3);
        if parent_side_required || relation_inlined_parent {
            lemma_checks_kept(g5, g2, g0.nodes@.len() + 1int, g0.edges@.len() as int, read_new_child_node, *child_relation_field);
        }
        if !parent_is_create && (child_side_required || !relation_inlined_parent) {
            lemma_checks_kept(g5, g4, g3.nodes@.len() as int, g3.edges@.len() as int, parent_node, *rf);
        }
        lemma_extends_keeps(g5, g1);
        lemma_extends_keeps(g5, g3);
        assert(g5.nodes@[g0.nodes@.len() as int] == g1.nodes@[g0.nodes@.len() as int]);
        assert(g5.edges@[g2.edges@.len() as int] == g3.edges@[g2.edges@.len() as int]);
        assert(g5.marked@.last() == g1.marked@.last()) by {
            assert(g5.marked@.take(g1.marked@.len() as int)[g1.marked@.len() - 1] == g5.marked@[g1.marked@.len() - 1]);
        }
    }
    Ok(())
}

/// The message when an argument that takes an input object holds something else.
pub open spec fn objects_expected_message() -> Seq<char> {
    "Expected an input object."@
}

/// The unique filters of the objects of a nested write (each selects one child record), the
/// first failing one deciding.
pub open spec fn selector_filters_spec(child: Container, values: Seq<ParsedInputValue>, k: nat) -> Result<
    Seq<FilterDesc>,
    ErrorDesc,
>
    decreases k,
{
    if k == 0 {
        Ok(Seq::empty())
    } else {
        match selector_filters_spec(child, values, (k - 1) as nat) {
            Err(e) => Err(e),
            Ok(prev) => if k - 1 < values.len() {
                match values[k - 1] {
                    ParsedInputValue::Object(m) => match unique_spec(child, m) {
                        Ok(d) => Ok(prev.push(d)),
                        Err(e) => Err(e),
                    },
                    _ => Err(ErrorDesc::Input(objects_expected_message())),
                }
            } else {
                Err(ErrorDesc::Input(Seq::empty()))
            },
        }
    }
}

/// The values that a nested write's input stands for: the elements of a list, or the input
/// itself.
pub open spec fn coerced(v: ParsedInputValue) -> Seq<ParsedInputValue> {
    match v {
        ParsedInputValue::List(l) => l@,
        _ => seq![v],
    }
}

/// The graph of a nested connect once its filters `fs` are extracted: nothing when no filter
/// is left once repetitions are dropped; otherwise the plan of the relation's kind for the
/// disjunction of the filters left.
pub open spec fn connect_planned(
    g: QueryGraph,
    old: QueryGraph,
    r: Result<(), QueryGraphBuilderError>,
    parent: NodeRef,
    rf: RelationField,
    child_rf: RelationField,
    child: Container,
    fs: Seq<Filter>,
) -> bool {
    let u = unique_filters_spec(fs);
    if u.len() == 0 {
        r is Ok && g == old
    } else {
        exists|f: Filter| #[trigger] or_planned(g, old, r, parent, rf, child_rf, child, u, f)
    }
}

/// The plan of a nested connect for `f`, the disjunction of the filters `u`.
pub open spec fn or_planned(
    g: QueryGraph,
    old: QueryGraph,
    r: Result<(), QueryGraphBuilderError>,
    parent: NodeRef,
    rf: RelationField,
    child_rf: RelationField,
    child: Container,
    u: Seq<Filter>,
    f: Filter,
) -> bool {
    f matches Filter::Or(v) && v@ == u && connect_dispatched(g, old, r, parent, rf, child_rf, child, f)
}

/// The filters `fs` are those that `ds` describes, and the graph is planned for them.
pub open spec fn connect_outcome(
    g: QueryGraph,
    old: QueryGraph,
    r: Result<(), QueryGraphBuilderError>,
    parent: NodeRef,
    rf: RelationField,
    child_rf: RelationField,
    child: Container,
    ds: Seq<FilterDesc>,
    fs: Seq<Filter>,
) -> bool {
    all_described(fs, ds) && connect_planned(g, old, r, parent, rf, child_rf, child, fs)
}

proof fn lemma_selector_filters_err(child: Container, values: Seq<ParsedInputValue>, k: nat, k2: nat, e: ErrorDesc)
    requires
        selector_filters_spec(child, values, k) == Err::<Seq<FilterDesc>, ErrorDesc>(e),
        k <= k2,
    ensures
        selector_filters_spec(child, values, k2) == Err::<Seq<FilterDesc>, ErrorDesc>(e),
    decreases k2 - k,
{
    if k < k2 {
        lemma_selector_filters_err(child, values, k, (k2 - 1) as nat, e);
    }
}

/// Plans a nested connect of the records that `value` (one object or a list of objects, each
/// a unique selector of the child model) selects; `child_relation_field` is the relation
/// field on the child's side.
pub fn nested_connect(
    graph: &mut QueryGraph,
    parent_node: NodeRef,
    parent_relation_field: &RelationField,
    child_relation_field: &RelationField,
    value: ParsedInputValue,
    child_model: &Container,
) -> (r: Result<(), QueryGraphBuilderError>)
    requires
        old(graph).wf(),
        old(graph).has(parent_node),
    ensures
        selector_filters_spec(*child_model, coerced(value), coerced(value).len()) matches Err(e) ==> (r matches Err(
            x,
        ) && error_is(x, e)) && *final(graph) == *old(graph),
        selector_filters_spec(*child_model, coerced(value), coerced(value).len()) is Ok ==> exists|fs: Seq<Filter>|
            #[trigger] connect_outcome(
                *final(graph),
                *old(graph),
                r,
                parent_node,
                *parent_relation_field,
                *child_relation_field,
                *child_model,
                selector_filters_spec(*child_model, coerced(value), coerced(value).len())->Ok_0,
                fs,
            ),
{
    let ghost vs = coerced(value);
    let values = coerce_vec(value);
    let filters = match extract_selector_filters(values, child_model) {
        Ok(f) => f,
        Err(x) => return Err(x),
    };
    let ghost ds = selector_filters_spec(*child_model, vs, vs.len())->Ok_0;
    let ghost fs = filters@;
    let filters = unique_filters(filters);
    if filters.len() == 0 {
        assert(connect_outcome(*graph, *old(graph), Ok(()), parent_node, *parent_relation_field, *child_relation_field, *child_model, ds, fs));
        return Ok(());
    }
    let (r, Ghost(gf)) = connect_with_filters(
        graph,
        parent_node,
        parent_relation_field,
        child_relation_field,
        filters,
        child_model,
    );
    proof {
        assert(or_planned(*graph, *old(graph), r, parent_node, *parent_relation_field, *child_relation_field, *child_model, unique_filters_spec(fs), gf));
        assert(connect_outcome(*graph, *old(graph), r, parent_node, *parent_relation_field, *child_relation_field, *child_model, ds, fs));
    }
    r
}

/// The unique filters of the objects of a nested write, each selecting one child record.
pub fn extract_selector_filters(values: Vec<ParsedInputValue>, child_model: &Container) -> (r: Result<
    Vec<Filter>,
    QueryGraphBuilderError,
>)
    ensures
        match selector_filters_spec(*child_model, values@, values@.len()) {
            Err(e) => r matches Err(x) && error_is(x, e),
            Ok(ds) => r matches Ok(fs) && all_described(fs@, ds),
        },
{
    let ghost vs = values@;
    let mut filters: Vec<Filter> = Vec::new();
    let ghost mut ds: Seq<FilterDesc> = Seq::empty();
    for v in it: values.into_iter()
        invariant
            it.seq() == vs,
            selector_filters_spec(*child_model, vs, it.index() as nat) == Ok::<Seq<FilterDesc>, ErrorDesc>(ds),
            all_described(filters@, ds),
    {
        let ghost j = it.index() as int;
        match v {
            ParsedInputValue::Object(m) => {
                let ghost gm = m;
                match extract_unique_filter(m, child_model) {
                    Ok(f) => {
                        let ghost d = unique_spec(*child_model, gm)->Ok_0;
                        let ghost before = filters@;
                        let ghost gf = f;
                        filters.push(f);
                        proof {
                            lemma_all_described_push(before, ds, gf, d);
                            ds = ds.push(d);
                        }
                    },
                    Err(x) => {
                        proof {
                            lemma_selector_filters_err(
                                *child_model,
                                vs,
                                (j + 1) as nat,
                                vs.len(),
                                unique_spec(*child_model, gm)->Err_0,
                            );
                        }
                        return Err(x);
                    },
                }
            },
            _ => {
                proof {
                    lemma_selector_filters_err(
                        *child_model,
                        vs,
                        (j + 1) as nat,
                        vs.len(),
                        ErrorDesc::Input(objects_expected_message()),
                    );
                }
                return Err(QueryGraphBuilderError::InputError(text("Expected an input object.")));
            },
        }
    }
    Ok(filters)
}

/// The plan of a nested connect for the disjunction of `filters`, by the relation's kind.
pub open spec fn connect_dispatched(
    g: QueryGraph,
    old: QueryGraph,
    r: Result<(), QueryGraphBuilderError>,
    parent: NodeRef,
    rf: RelationField,
    child_rf: RelationField,
    child: Container,
    f: Filter,
) -> bool {
    match rf.relation.kind {
        RelationKind::ManyToMany => r is Ok && many_to_many_connect(g, old, parent, rf, child, f),
        RelationKind::OneToMany => r is Ok && one_to_many_connect(g, old, parent, rf, child, f),
        RelationKind::OneToOne => if one_to_one_refused(rf, child_rf) {
            (r matches Err(e) && is_violation_of(e, rf)) && g == old
        } else {
            r is Ok && one_to_one_connect(g, old, parent, rf, child_rf, child, f)
        },
    }
}

fn connect_with_filters(
    graph: &mut QueryGraph,
    parent_node: NodeRef,
    parent_relation_field: &RelationField,
    child_relation_field: &RelationField,
    filters: Vec<Filter>,
    child_model: &Container,
) -> (out: (Result<(), QueryGraphBuilderError>, Ghost<Filter>))
    requires
        old(graph).wf(),
        old(graph).has(parent_node),
        filters@.len() > 0,
    ensures
        out.1@ matches Filter::Or(v) && v@ == filters@,
        connect_dispatched(
            *final(graph),
            *old(graph),
            out.0,
            parent_node,
            *parent_relation_field,
            *child_relation_field,
            *child_model,
            out.1@,
        ),
{
    let filter = Filter::Or(filters);
    let ghost gf = filter;
    let r = match parent_relation_field.relation.kind {
        RelationKind::ManyToMany => handle_many_to_many(graph, parent_node, parent_relation_field, filter, child_model),
        RelationKind::OneToMany => handle_one_to_many(graph, parent_node, parent_relation_field, filter, child_model),
        RelationKind::OneToOne => handle_one_to_one(
            graph,
            parent_node,
            parent_relation_field,
            child_relation_field,
            filter,
            child_model,
        ),
    };
    (r, Ghost(gf))
}

} // verus!
