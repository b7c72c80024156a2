use vstd::prelude::*;
use crate::builder::QuerySchema;
use crate::connect_nested::{coerced, is_link_edge, not_found, objects_expected_message};
use crate::connect_or_create::{create_record_node, lemma_pushed_edge, lemma_pushed_node, writes_are};
use crate::copies::copy_filter;
use crate::emulation::{insert_emulated_on_update_with_intermediary_node, is_update_at, keys_at, update_args_of};
use crate::equality::same_filter;
use crate::error::{
    data_operation_text, relation_kind_text, DataOperation, DependentOperation, MissingRelatedRecord,
    QueryGraphBuilderError,
};
use crate::extract::{described, error_is, extract_filter, extract_spec, ErrorDesc, FilterDesc};
use crate::filter::Filter;
use crate::query_graph::{
    names, DataExpectation, Dependency, Edge, Flow, Node, NodeRef, Query, QueryGraph, ReadQuery, RowSink, WriteQuery,
};
use crate::referential::{update_emulation_ends};
use crate::schema::{Container, RelationField, RelationKind};
use crate::set_nested::is_plain_edge;
use crate::unique::{extract_unique_filter, unique_spec};
use crate::update::{is_update_record, update_record_node};
use crate::upsert::{desc_fields, lemma_written_fields};
use crate::values::{key_index, ParsedInputMap, ParsedInputValue};
use crate::write_args::{args_spec, OpDesc};
use crate::write_utils::{
    appended, coerce_vec, connect_records_node, copy_names, insert_find_children_by_parent_node,
    is_connect_children_edge, is_connect_parent_edge, is_find_children, is_parent_records_edge, is_projected,
    is_update_placeholder, lemma_extends_keeps, lemma_extends_refl, lemma_extends_trans,
    update_records_node_placeholder,
};

verus! {

/// The message of a record of `model` missing for a nested upsert on the relation of `rf`,
/// where it was needed to `needed`.
pub open spec fn upsert_missing_text(model: Seq<char>, rf: RelationField, needed: Seq<char>) -> Seq<char> {
    "No '"@ + model + "' record"@ + (" (needed to "@ + needed + ")"@) + " was found for "@ + data_operation_text(
        DataOperation::NestedUpsert,
    ) + " on "@ + relation_kind_text(rf.relation.kind) + " relation '"@ + rf.relation.name@ + "'."@
}

/// What an update of the inlined relation on records of `model` is called in messages.
pub open spec fn update_inlined_text(model: Seq<char>) -> Seq<char> {
    "update inlined relation for '"@ + model + "' record(s)"@
}

fn upsert_missing_error(model: &str, rf: &RelationField, needed: DependentOperation) -> (e: QueryGraphBuilderError)
    ensures
        e matches QueryGraphBuilderError::RecordNotFound(m) && m@ == upsert_missing_text(
            model@,
            *rf,
            crate::error::dependent_operation_text(needed),
        ),
{
    let missing = MissingRelatedRecord::new(model, &rf.relation, DataOperation::NestedUpsert, Option::Some(needed));
    assert(missing.message() =~= upsert_missing_text(model@, *rf, crate::error::dependent_operation_text(needed)));
    missing.to_runtime_error()
}

/// The number of nodes and edges by which a nested upsert links the record it creates to the
/// parent, by the kind of relation of `rf`: a connect on a many-to-many relation, an update
/// of the parent where the relation is inlined on it, an edge into the create otherwise.
pub open spec fn link_counts(rf: RelationField) -> (int, int) {
    if rf.relation.kind == RelationKind::ManyToMany {
        (1, 2)
    } else if rf.inlined_in_parent {
        (1, 2)
    } else {
        (0, 1)
    }
}

/// The link of the record that `create` creates to `parent`, at the nodes from `n` and the
/// edges from `e` of `g`: on a many-to-many relation, a connect of the two; where the relation
/// is inlined on the parent, an update of the parent, which the parent's identifier selects,
/// taking the link of the record created; otherwise the create takes the parent's link.
pub open spec fn upsert_link_at(g: QueryGraph, n: int, e: int, parent: NodeRef, rf: RelationField, create: NodeRef, f: Filter) -> bool {
    let target = NodeRef { id: n as usize };
    let parent_link = names(rf.linking_fields@);
    let child_link = names(rf.related_linking_fields@);
    if rf.relation.kind == RelationKind::ManyToMany {
        &&& g.nodes@[n] matches Node::Query(Query::Write(WriteQuery::ConnectRecords { relation_field }))
        &&& relation_field@ == rf.name@
        &&& is_connect_parent_edge(g.edges@[e], parent, target, rf)
        &&& is_connect_children_edge(g.edges@[e + 1], create, target, rf, 1)
    } else if rf.inlined_in_parent {
        &&& is_update_placeholder(g.nodes@[n], rf.model@, f)
        &&& is_projected(g.edges@[e], parent, target, names(rf.model_identifier@))
        &&& g.edges@[e].dependency->sink is ExactlyOneSelector
        &&& not_found(g.edges@[e].dependency->expectation, upsert_missing_text(rf.model@, rf, update_inlined_text(rf.model@)))
        &&& is_link_edge(
            g.edges@[e + 1],
            create,
            target,
            child_link,
            parent_link,
            upsert_missing_text(rf.related_model@, rf, update_inlined_text(rf.model@)),
        )
    } else {
        is_link_edge(
            g.edges@[e],
            parent,
            create,
            parent_link,
            child_link,
            upsert_missing_text(rf.model@, rf, update_inlined_text(rf.related_model@)),
        )
    }
}

/// Adds the link of `upsert_link_at`.
fn add_upsert_link(graph: &mut QueryGraph, parent_node: &NodeRef, rf: &RelationField, create_node: &NodeRef, filter: Filter)
    requires
        old(graph).wf(),
        old(graph).has(*parent_node),
        old(graph).has(*create_node),
    ensures
        appended(*final(graph), *old(graph), link_counts(*rf).0 as nat, link_counts(*rf).1 as nat),
        upsert_link_at(
            *final(graph),
            old(graph).nodes@.len() as int,
            old(graph).edges@.len() as int,
            *parent_node,
            *rf,
            *create_node,
            filter,
        ),
{
    let ghost g0 = *graph;
    if rf.relation.kind == RelationKind::ManyToMany {
        connect_records_node(graph, parent_node, create_node, rf, 1);
    } else if rf.inlined_in_parent {
        let update_node = update_records_node_placeholder(graph, filter, rf.model.as_str());
        let ghost g1 = *graph;
        let e1 = upsert_missing_error(
            rf.model.as_str(),
            rf,
            DependentOperation::update_inlined_relation(rf.model.as_str()),
        );
        graph.create_edge(
            parent_node,
            &update_node,
            Dependency::Projected {
                selection: copy_names(&rf.model_identifier),
                sink: RowSink::ExactlyOneSelector,
                expectation: Option::Some(DataExpectation::NonEmptyRows(e1)),
            },
        );
        let ghost g2 = *graph;
        let e2 = upsert_missing_error(
            rf.related_model.as_str(),
            rf,
            DependentOperation::update_inlined_relation(rf.model.as_str()),
        );
        graph.create_edge(
            create_node,
            &update_node,
            Dependency::Projected {
                selection: copy_names(&rf.related_linking_fields),
                sink: RowSink::InjectLink(copy_names(&rf.linking_fields)),
                expectation: Option::Some(DataExpectation::NonEmptyRows(e2)),
            },
        );
        let ghost g3 = *graph;
        proof {
            lemma_pushed_edge(g2, g1);
            lemma_pushed_edge(g3, g2);
            lemma_extends_trans(g3, g2, g1);
            lemma_extends_trans(g3, g1, g0);
            lemma_extends_keeps(g3, g1);
            lemma_extends_keeps(g3, g2);
            let n0 = g0.nodes@.len() as int;
            let e0 = g0.edges@.len() as int;
            assert(g3.nodes@[n0] == g1.nodes@[n0]);
            assert(g3.edges@[e0] == g2.edges@[e0]);
        }
    } else {
        let e3 = upsert_missing_error(
            rf.model.as_str(),
            rf,
            DependentOperation::update_inlined_relation(rf.related_model.as_str()),
        );
        graph.create_edge(
            parent_node,
            create_node,
            Dependency::Projected {
                selection: copy_names(&rf.linking_fields),
                sink: RowSink::InjectLink(copy_names(&rf.related_linking_fields)),
                expectation: Option::Some(DataExpectation::NonEmptyRows(e3)),
            },
        );
        proof { lemma_pushed_edge(*graph, g0); }
    }
}

/// The writes that the `create` or `update` value `v` of a nested upsert describes, or the
/// error for a value that is no object.
pub open spec fn value_args(dm: crate::schema::DataModel, child: Container, v: ParsedInputValue) -> Result<
    (Seq<(Seq<char>, OpDesc)>, Seq<(Seq<char>, ParsedInputMap)>),
    ErrorDesc,
> {
    match v {
        ParsedInputValue::Object(m) => args_spec(dm, child, m.entries@, m.entries@.len()),
        _ => Err(ErrorDesc::Input(objects_expected_message())),
    }
}

/// The filter of a read of related records or of an update of one record.
pub open spec fn node_filter(n: Node) -> Filter {
    match n {
        Node::Query(Query::Read(ReadQuery::RelatedRecords { filter, .. })) => filter,
        Node::Query(Query::Write(WriteQuery::UpdateRecord { filter, .. })) => filter,
        _ => Filter::Empty,
    }
}

/// The start of a nested upsert of one record below `parent`, at the nodes from `n` and the
/// edges from `e` of `g`: the read of the children of the parent that (a copy of) `f`
/// selects; an `if` on its rows; the creation of a child with the writes that `dc` describes
/// (its nested writes being `nc`); the update of the child that `f` selects with those that
/// `du` describes (its nested writes being `nu`); and the edges that hand the children read to
/// the `if` and, exactly one, to the update.
pub open spec fn upsert_head_at(
    g: QueryGraph,
    n: int,
    e: int,
    parent: NodeRef,
    rf: RelationField,
    child: Container,
    f: Filter,
    dc: (Seq<(Seq<char>, OpDesc)>, Seq<(Seq<char>, ParsedInputMap)>),
    du: (Seq<(Seq<char>, OpDesc)>, Seq<(Seq<char>, ParsedInputMap)>),
    nc: Seq<(String, ParsedInputMap)>,
    nu: Seq<(String, ParsedInputMap)>,
) -> bool {
    let read = NodeRef { id: n as usize };
    let iff = NodeRef { id: (n + 1) as usize };
    let update = NodeRef { id: (n + 3) as usize };
    let id = names(child.primary_identifier@);
    &&& is_find_children(g.nodes@[n], rf, node_filter(g.nodes@[n]))
    &&& same_filter(node_filter(g.nodes@[n]), f)
    &&& is_parent_records_edge(g.edges@[e], parent, read, rf)
    &&& g.nodes@[n + 1] == Node::Flow(Flow::IfNonEmpty)
    &&& g.nodes@[n + 2] matches Node::Query(Query::Write(WriteQuery::CreateRecord { model: m, args }))
    &&& m@ == child.name@ && writes_are(args, nc, dc)
    &&& is_update_record(g.nodes@[n + 3], child, node_filter(g.nodes@[n + 3]), nu, du)
    &&& same_filter(node_filter(g.nodes@[n + 3]), f)
    &&& is_plain_edge(g.edges@[e + 1], read, iff, id, RowSink::IfCondition)
    &&& is_projected(g.edges@[e + 2], read, update, id)
    &&& g.edges@[e + 2].dependency->sink is ExactlyOneSelector
    &&& not_found(
        g.edges@[e + 2].dependency->expectation,
        upsert_missing_text(child.name@, rf, "perform a nested update"@),
    )
}

/// Adds the start of `upsert_head_at`; the nested writes of the create and of the update come
/// back.
#[verifier::spinoff_prover]
#[verifier::rlimit(60)]
fn add_upsert_head(
    graph: &mut QueryGraph,
    query_schema: &QuerySchema,
    parent_node: &NodeRef,
    rf: &RelationField,
    child_model: &Container,
    filter: &Filter,
    create_value: ParsedInputValue,
    update_value: ParsedInputValue,
) -> (r: Result<(Vec<(String, ParsedInputMap)>, Vec<(String, ParsedInputMap)>), QueryGraphBuilderError>)
    requires
        old(graph).wf(),
        old(graph).has(*parent_node),
    ensures
        final(graph).wf(),
        final(graph).extends(*old(graph)),
        match value_args(query_schema.data_model, *child_model, create_value) {
            Err(e) => r matches Err(x) && error_is(x, e),
            Ok(dc) => match value_args(query_schema.data_model, *child_model, update_value) {
                Err(e) => r matches Err(x) && error_is(x, e),
                Ok(du) => r matches Ok((nc, nu)) && appended(*final(graph), *old(graph), 4, 3) && upsert_head_at(
                    *final(graph),
                    old(graph).nodes@.len() as int,
                    old(graph).edges@.len() as int,
                    *parent_node,
                    *rf,
                    *child_model,
                    *filter,
                    dc,
                    du,
                    nc@,
                    nu@,
                ),
            },
        },
{
    let ghost g0 = *graph;
    let read_node = insert_find_children_by_parent_node(graph, parent_node, rf, copy_filter(filter));
    let ghost g1 = *graph;
    let if_node = graph.create_node(Node::Flow(Flow::IfNonEmpty));
    let ghost g2 = *graph;
    proof { lemma_pushed_node(g2, g1); lemma_extends_trans(g2, g1, g0); }
    let create_map = match create_value {
        ParsedInputValue::Object(m) => m,
        _ => return Err(QueryGraphBuilderError::InputError(crate::text::text("Expected an input object."))),
    };
    let (_create_node, nc) = match create_record_node(graph, query_schema, child_model, create_map) {
        Ok(x) => x,
        Err(e) => return Err(e),
    };
    let ghost g3 = *graph;
    proof { lemma_extends_trans(g3, g2, g0); }
    let update_map = match update_value {
        ParsedInputValue::Object(m) => m,
        _ => return Err(QueryGraphBuilderError::InputError(crate::text::text("Expected an input object."))),
    };
    let (update_node, nu) = match update_record_node(graph, query_schema, copy_filter(filter), child_model, update_map) {
        Ok(x) => x,
        Err(e) => return Err(e),
    };
    let ghost g4 = *graph;
    proof { lemma_extends_trans(g4, g3, g0); }
    graph.create_edge(
        &read_node,
        &if_node,
        Dependency::Projected {
            selection: copy_names(&child_model.primary_identifier),
            sink: RowSink::IfCondition,
            expectation: Option::None,
        },
    );
    let ghost g5 = *graph;
    let e = upsert_missing_error(child_model.name.as_str(), rf, DependentOperation::nested_update());
    graph.create_edge(
        &read_node,
        &update_node,
        Dependency::Projected {
            selection: copy_names(&child_model.primary_identifier),
            sink: RowSink::ExactlyOneSelector,
            expectation: Option::Some(DataExpectation::NonEmptyRows(e)),
        },
    );
    let ghost g6 = *graph;
    proof {
        lemma_pushed_edge(g5, g4);
        lemma_pushed_edge(g6, g5);
        lemma_extends_trans(g6, g5, g4);
        lemma_extends_trans(g6, g4, g0);
        lemma_extends_trans(g6, g4, g3);
        lemma_extends_trans(g6, g3, g2);
        lemma_extends_trans(g6, g2, g1);
        lemma_extends_keeps(g6, g1);
        lemma_extends_keeps(g6, g2);
        lemma_extends_keeps(g6, g3);
        lemma_extends_keeps(g6, g5);
        let n0 = g0.nodes@.len() as int;
        let e0 = g0.edges@.len() as int;
        assert(g6.nodes@[n0] == g1.nodes@[n0]);
        assert(g6.nodes@[n0 + 1] == g2.nodes@[n0 + 1]);
        assert(g6.nodes@[n0 + 2] == g3.nodes@[n0 + 2]);
        assert(g6.edges@[e0] == g1.edges@[e0]);
        assert(g6.edges@[e0 + 1] == g5.edges@[e0 + 1]);
    }
    Ok((nc, nu))
}

/// The decision of a nested upsert of one record, at the nodes from `n` to `nn` and the edges
/// from `e` to `ne` of `g`: where the referential actions are emulated, a node that hands the
/// children read to the emulation of the update actions, which runs before `update`, and
/// which the `if` runs where a child exists; otherwise the `if` runs `update` directly; the
/// `if` runs `create` where there is none.
pub open spec fn upsert_decision_at(
    g: QueryGraph,
    n: int,
    e: int,
    nn: int,
    ne: int,
    query_schema: QuerySchema,
    child: Container,
    read: NodeRef,
    iff: NodeRef,
    update: NodeRef,
    create: NodeRef,
) -> bool {
    let id = names(child.primary_identifier@);
    if query_schema.relation_mode is Prisma {
        let join = NodeRef { id: n as usize };
        &&& n + 1 <= nn
        &&& e + 4 <= ne
        &&& g.nodes@[n] == Node::Flow(Flow::Return)
        &&& is_plain_edge(g.edges@[e], read, join, id, RowSink::Returned)
        &&& g.edges@[ne - 3] == (Edge { from: join, to: update, dependency: Dependency::ExecutionOrder })
        &&& g.edges@[ne - 2] == (Edge { from: iff, to: join, dependency: Dependency::Then })
        &&& g.edges@[ne - 1] == (Edge { from: iff, to: create, dependency: Dependency::Else })
    } else {
        &&& nn == n
        &&& ne == e + 2
        &&& g.edges@[e] == (Edge { from: iff, to: update, dependency: Dependency::Then })
        &&& g.edges@[e + 1] == (Edge { from: iff, to: create, dependency: Dependency::Else })
    }
}

/// Adds the decision of `upsert_decision_at`.
fn add_upsert_decision(
    graph: &mut QueryGraph,
    query_schema: &QuerySchema,
    child_model: &Container,
    read_node: &NodeRef,
    if_node: &NodeRef,
    update_node: &NodeRef,
    create_node: &NodeRef,
)
    requires
        old(graph).wf(),
        old(graph).has(*read_node),
        old(graph).has(*if_node),
        old(graph).has(*create_node),
        is_update_at(*old(graph), *update_node),
        query_schema.relation_mode is Prisma ==> update_emulation_ends(
            query_schema.data_model,
            child_model.name@,
            keys_at(*old(graph), *update_node),
        ),
    ensures
        final(graph).wf(),
        final(graph).extends(*old(graph)),
        upsert_decision_at(
            *final(graph),
            old(graph).nodes@.len() as int,
            old(graph).edges@.len() as int,
            final(graph).nodes@.len() as int,
            final(graph).edges@.len() as int,
            *query_schema,
            *child_model,
            *read_node,
            *if_node,
            *update_node,
            *create_node,
        ),
{
    let ghost g0 = *graph;
    let emulation = insert_emulated_on_update_with_intermediary_node(
        graph,
        query_schema,
        child_model,
        read_node,
        update_node,
    );
    let ghost g1 = *graph;
    let then_node = match emulation {
        Option::Some(join) => {
            graph.create_edge(&join, update_node, Dependency::ExecutionOrder);
            proof { lemma_pushed_edge(*graph, g1); }
            join
        },
        Option::None => {
            proof { lemma_extends_refl(*graph); }
            *update_node
        },
    };
    let ghost g2 = *graph;
    graph.create_edge(if_node, &then_node, Dependency::Then);
    let ghost g3 = *graph;
    graph.create_edge(if_node, create_node, Dependency::Else);
    let ghost g4 = *graph;
    proof {
        lemma_pushed_edge(g3, g2);
        lemma_pushed_edge(g4, g3);
        lemma_extends_trans(g4, g3, g2);
        lemma_extends_trans(g4, g2, g1);
        lemma_extends_trans(g4, g1, g0);
        lemma_extends_keeps(g4, g1);
        lemma_extends_keeps(g4, g2);
        lemma_extends_keeps(g4, g3);
        let n0 = g0.nodes@.len() as int;
        let e0 = g0.edges@.len() as int;
        let l = g4.edges@.len() as int;
        assert(g4.edges@[l - 2] == g3.edges@[l - 2]);
        if query_schema.relation_mode is Prisma {
            assert(g4.nodes@[n0] == g1.nodes@[n0]);
            assert(g4.edges@[e0] == g1.edges@[e0]);
            assert(g4.edges@[l - 3] == g2.edges@[l - 3]);
        }
    }
}

/// The value of the first entry with key `key`, if there is one.
pub open spec fn map_value(es: Seq<(String, ParsedInputValue)>, key: Seq<char>) -> Option<ParsedInputValue> {
    match key_index(es, key) {
        Option::Some(i) => Option::Some(es[i].1),
        Option::None => Option::None,
    }
}

/// The entries left once the first with key `key` is taken out, as `swap_remove` leaves them.
pub open spec fn map_removed(es: Seq<(String, ParsedInputValue)>, key: Seq<char>) -> Seq<(String, ParsedInputValue)> {
    match key_index(es, key) {
        Option::Some(i) => es.update(i, es.last()).drop_last(),
        Option::None => es,
    }
}

/// The `where` (if any), `create` and `update` values of one value of a nested upsert, taken
/// out in the order `create`, `update`, `where`; the error for a value that is no object;
/// `None` where `create` or `update` is missing, which the validation of the query document
/// rules out.
pub open spec fn upsert_parts(v: ParsedInputValue) -> Option<
    Result<(Option<ParsedInputValue>, ParsedInputValue, ParsedInputValue), ErrorDesc>,
> {
    match v {
        ParsedInputValue::Object(m) => {
            let e1 = m.entries@;
            let e2 = map_removed(e1, "create"@);
            let e3 = map_removed(e2, "update"@);
            match (map_value(e1, "create"@), map_value(e2, "update"@)) {
                (Option::Some(c), Option::Some(u)) => Option::Some(Ok((map_value(e3, "where"@), c, u))),
                _ => Option::None,
            }
        },
        _ => Option::Some(Err(ErrorDesc::Input(objects_expected_message()))),
    }
}

/// The filter of the `where` value `w` of a nested upsert: on a list relation field, the
/// unique filter of its object, which must be there; otherwise the filter of its object, or
/// the empty filter (`None`) without one.
pub open spec fn upsert_filter_desc(
    dm: crate::schema::DataModel,
    rf: RelationField,
    child: Container,
    w: Option<ParsedInputValue>,
) -> Option<Result<Option<FilterDesc>, ErrorDesc>> {
    match w {
        Option::Some(ParsedInputValue::Object(wm)) => Option::Some(
            if rf.is_list {
                match unique_spec(child, wm) {
                    Ok(d) => Ok(Option::Some(d)),
                    Err(e) => Err(e),
                }
            } else {
                match extract_spec(dm, child, wm) {
                    Ok(d) => Ok(Option::Some(d)),
                    Err(e) => Err(e),
                }
            },
        ),
        Option::Some(_) => Option::Some(Err(ErrorDesc::Input(objects_expected_message()))),
        Option::None => if rf.is_list {
            Option::None
        } else {
            Option::Some(Ok(Option::None))
        },
    }
}

/// `f` is the filter that `d` describes, or the empty filter where `d` is `None`.
pub open spec fn filter_is(f: Filter, d: Option<FilterDesc>) -> bool {
    match d {
        Option::Some(x) => described(f, x),
        Option::None => f == Filter::Empty,
    }
}

/// What one value of a nested upsert gives: the filter of its `where`, and the writes of its
/// `create` and `update`; or the first error among them.
#[verifier::opaque]
pub open spec fn upsert_one_desc(dm: crate::schema::DataModel, rf: RelationField, child: Container, v: ParsedInputValue) -> Option<
    Result<
        (
            Option<FilterDesc>,
            (Seq<(Seq<char>, OpDesc)>, Seq<(Seq<char>, ParsedInputMap)>),
            (Seq<(Seq<char>, OpDesc)>, Seq<(Seq<char>, ParsedInputMap)>),
        ),
        ErrorDesc,
    >,
> {
    match upsert_parts(v) {
        Option::None => Option::None,
        Option::Some(Err(e)) => Option::Some(Err(e)),
        Option::Some(Ok((w, c, u))) => match upsert_filter_desc(dm, rf, child, w) {
            Option::None => Option::None,
            Option::Some(Err(e)) => Option::Some(Err(e)),
            Option::Some(Ok(fd)) => match value_args(dm, child, c) {
                Err(e) => Option::Some(Err(e)),
                Ok(dc) => match value_args(dm, child, u) {
                    Err(e) => Option::Some(Err(e)),
                    Ok(du) => Option::Some(Ok((fd, dc, du))),
                },
            },
        },
    }
}

/// Takes the values of `upsert_parts` out of `v`.
fn upsert_value_parts(v: ParsedInputValue) -> (r: Result<
    (Option<ParsedInputValue>, ParsedInputValue, ParsedInputValue),
    QueryGraphBuilderError,
>)
    requires
        upsert_parts(v) is Some,
    ensures
        match upsert_parts(v)->Some_0 {
            Err(e) => r matches Err(x) && error_is(x, e),
            Ok(t) => r == Ok::<(Option<ParsedInputValue>, ParsedInputValue, ParsedInputValue), QueryGraphBuilderError>(t),
        },
{
    let mut m = match v {
        ParsedInputValue::Object(m) => m,
        _ => return Err(QueryGraphBuilderError::InputError(crate::text::text("Expected an input object."))),
    };
    let c = m.swap_remove("create");
    let u = m.swap_remove("update");
    let w = m.swap_remove("where");
    match (c, u) {
        (Option::Some(c), Option::Some(u)) => Ok((w, c, u)),
        _ => vstd::pervasive::unreached(),
    }
}

/// The filter of the `where` value `w` of a nested upsert, as `upsert_filter_desc` says.
fn upsert_filter(
    w: Option<ParsedInputValue>,
    rf: &RelationField,
    child_model: &Container,
    dm: &crate::schema::DataModel,
) -> (r: Result<Filter, QueryGraphBuilderError>)
    requires
        upsert_filter_desc(*dm, *rf, *child_model, w) is Some,
    ensures
        match upsert_filter_desc(*dm, *rf, *child_model, w)->Some_0 {
            Err(e) => r matches Err(x) && error_is(x, e),
            Ok(d) => r matches Ok(f) && filter_is(f, d),
        },
{
    match w {
        Option::Some(ParsedInputValue::Object(wm)) => if rf.is_list {
            extract_unique_filter(wm, child_model)
        } else {
            extract_filter(wm, child_model, dm)
        },
        Option::Some(_) => Err(QueryGraphBuilderError::InputError(crate::text::text("Expected an input object."))),
        Option::None => if rf.is_list {
            vstd::pervasive::unreached()
        } else {
            Ok(Filter::Empty)
        },
    }
}

/// A nested upsert of one record below `parent`, at the nodes from `n` up to `nn` and the
/// edges from `e` up to `ne` of `g`: the start of `upsert_head_at`, the decision of
/// `upsert_decision_at`, and the link of `upsert_link_at` last.
#[verifier::opaque]
pub open spec fn upsert_one_at(
    g: QueryGraph,
    n: int,
    e: int,
    nn: int,
    ne: int,
    query_schema: QuerySchema,
    parent: NodeRef,
    rf: RelationField,
    child: Container,
    f: Filter,
    dc: (Seq<(Seq<char>, OpDesc)>, Seq<(Seq<char>, ParsedInputMap)>),
    du: (Seq<(Seq<char>, OpDesc)>, Seq<(Seq<char>, ParsedInputMap)>),
    nc: Seq<(String, ParsedInputMap)>,
    nu: Seq<(String, ParsedInputMap)>,
) -> bool {
    let (kn, ke) = link_counts(rf);
    &&& 0 <= n
    &&& n + 4 <= nn - kn
    &&& nn <= g.nodes@.len()
    &&& 0 <= e
    &&& e + 3 <= ne - ke
    &&& ne <= g.edges@.len()
    &&& upsert_head_at(g, n, e, parent, rf, child, f, dc, du, nc, nu)
    &&& upsert_decision_at(
        g,
        n + 4,
        e + 3,
        nn - kn,
        ne - ke,
        query_schema,
        child,
        NodeRef { id: n as usize },
        NodeRef { id: (n + 1) as usize },
        NodeRef { id: (n + 3) as usize },
        NodeRef { id: (n + 2) as usize },
    )
    &&& upsert_link_at(g, nn - kn, ne - ke, parent, rf, NodeRef { id: (n + 2) as usize }, f)
}

/// A nested upsert of one record decides on the existence of the child: an `if` runs the
/// update of the child where the parent has one that the filter selects, the creation of one
/// otherwise.
pub proof fn lemma_nested_upsert_decides(
    g: QueryGraph,
    n: int,
    e: int,
    nn: int,
    ne: int,
    query_schema: QuerySchema,
    parent: NodeRef,
    rf: RelationField,
    child: Container,
    f: Filter,
    dc: (Seq<(Seq<char>, OpDesc)>, Seq<(Seq<char>, ParsedInputMap)>),
    du: (Seq<(Seq<char>, OpDesc)>, Seq<(Seq<char>, ParsedInputMap)>),
    nc: Seq<(String, ParsedInputMap)>,
    nu: Seq<(String, ParsedInputMap)>,
)
    requires
        upsert_one_at(g, n, e, nn, ne, query_schema, parent, rf, child, f, dc, du, nc, nu),
        g.nodes@.len() <= usize::MAX,
    ensures
        crate::upsert::updates_or_creates(g, n + 1, child),
{
    reveal(upsert_one_at);
    let (kn, ke) = link_counts(rf);
    let l = ne - ke;
    assert(crate::upsert::creates_in(g.nodes@[g.edges@[l - 1].to.id as int], child));
    if query_schema.relation_mode is Prisma {
        assert(crate::upsert::updates_in(g.nodes@[g.edges@[l - 3].to.id as int], child));
        assert(g.edges@[l - 3].from == g.edges@[l - 2].to);
    } else {
        assert(crate::upsert::updates_in(g.nodes@[g.edges@[e + 3].to.id as int], child));
    }
}

/// A nested upsert of one record stays planned as the graph grows.
pub proof fn lemma_upsert_one_kept(
    g2: QueryGraph,
    g1: QueryGraph,
    n: int,
    e: int,
    nn: int,
    ne: int,
    query_schema: QuerySchema,
    parent: NodeRef,
    rf: RelationField,
    child: Container,
    f: Filter,
    dc: (Seq<(Seq<char>, OpDesc)>, Seq<(Seq<char>, ParsedInputMap)>),
    du: (Seq<(Seq<char>, OpDesc)>, Seq<(Seq<char>, ParsedInputMap)>),
    nc: Seq<(String, ParsedInputMap)>,
    nu: Seq<(String, ParsedInputMap)>,
)
    requires
        g2.grows(g1),
        upsert_one_at(g1, n, e, nn, ne, query_schema, parent, rf, child, f, dc, du, nc, nu),
    ensures
        upsert_one_at(g2, n, e, nn, ne, query_schema, parent, rf, child, f, dc, du, nc, nu),
{
    reveal(upsert_one_at);
    lemma_extends_keeps(g2, g1);
    let (kn, ke) = link_counts(rf);
    assert(g2.nodes@[n] == g1.nodes@[n]);
    assert(g2.nodes@[n + 1] == g1.nodes@[n + 1]);
    assert(g2.nodes@[n + 2] == g1.nodes@[n + 2]);
    assert(g2.nodes@[n + 3] == g1.nodes@[n + 3]);
    if query_schema.relation_mode is Prisma {
        assert(g2.nodes@[n + 4] == g1.nodes@[n + 4]);
    }
    if kn == 1 {
        assert(g2.nodes@[nn - kn] == g1.nodes@[nn - kn]);
    }
    assert(g2.edges@[e] == g1.edges@[e]);
    assert(g2.edges@[e + 1] == g1.edges@[e + 1]);
    assert(g2.edges@[e + 2] == g1.edges@[e + 2]);
    assert(g2.edges@[e + 3] == g1.edges@[e + 3]);
    assert(g2.edges@[e + 4] == g1.edges@[e + 4]);
    assert(g2.edges@[ne - ke - 3] == g1.edges@[ne - ke - 3]);
    assert(g2.edges@[ne - ke - 2] == g1.edges@[ne - ke - 2]);
    assert(g2.edges@[ne - ke - 1] == g1.edges@[ne - ke - 1]);
    assert(g2.edges@[ne - ke] == g1.edges@[ne - ke]);
    if ke == 2 {
        assert(g2.edges@[ne - 1] == g1.edges@[ne - 1]);
    }
}

/// Where the referential actions are emulated, the emulation of the update actions of the
/// upsert of the value `v` ends.
pub open spec fn upsert_one_ends(query_schema: QuerySchema, rf: RelationField, child: Container, v: ParsedInputValue) -> bool {
    query_schema.relation_mode is Prisma ==> match upsert_one_desc(query_schema.data_model, rf, child, v) {
        Option::Some(Ok(x)) => update_emulation_ends(query_schema.data_model, child.name@, desc_fields(x.2.0)),
        _ => true,
    }
}

/// Plans the nested upsert of one value `v` below `parent_node`, as `upsert_one_at` says; the
/// nested writes of the create and of the update come back.
#[verifier::spinoff_prover]
#[verifier::rlimit(100)]
fn nested_upsert_one(
    graph: &mut QueryGraph,
    query_schema: &QuerySchema,
    parent_node: &NodeRef,
    rf: &RelationField,
    child_model: &Container,
    v: ParsedInputValue,
) -> (r: Result<(Vec<(String, ParsedInputMap)>, Vec<(String, ParsedInputMap)>), QueryGraphBuilderError>)
    requires
        old(graph).wf(),
        old(graph).has(*parent_node),
        upsert_one_desc(query_schema.data_model, *rf, *child_model, v) is Some,
        upsert_one_ends(*query_schema, *rf, *child_model, v),
    ensures
        final(graph).wf(),
        final(graph).extends(*old(graph)),
        match upsert_one_desc(query_schema.data_model, *rf, *child_model, v)->Some_0 {
            Err(e) => r matches Err(x) && error_is(x, e),
            Ok(x) => r matches Ok((nc, nu)) && exists|f: Filter|
                filter_is(f, x.0) && #[trigger] upsert_one_at(
                    *final(graph),
                    old(graph).nodes@.len() as int,
                    old(graph).edges@.len() as int,
                    final(graph).nodes@.len() as int,
                    final(graph).edges@.len() as int,
                    *query_schema,
                    *parent_node,
                    *rf,
                    *child_model,
                    f,
                    x.1,
                    x.2,
                    nc@,
                    nu@,
                ),
        },
{
    let ghost g0 = *graph;
    let ghost gv = v;
    let ghost dm = query_schema.data_model;
    proof {
        lemma_extends_refl(*graph);
        reveal(upsert_one_desc);
    }
    let (w, c, u) = match upsert_value_parts(v) {
        Ok(t) => t,
        Err(e) => return Err(e),
    };
    let ghost gw = w;
    let ghost gc = c;
    let ghost gu = u;
    let filter = match upsert_filter(w, rf, child_model, &query_schema.data_model) {
        Ok(f) => f,
        Err(e) => return Err(e),
    };
    let ghost gf = filter;
    let (nc, nu) = match add_upsert_head(graph, query_schema, parent_node, rf, child_model, &filter, c, u) {
        Ok(x) => x,
        Err(e) => return Err(e),
    };
    let ghost g1 = *graph;
    let ghost x = upsert_one_desc(dm, *rf, *child_model, gv)->Some_0->Ok_0;
    let n0 = graph.nodes.len() - 4;
    let read_node = NodeRef { id: n0 };
    let if_node = NodeRef { id: n0 + 1 };
    let create_node = NodeRef { id: n0 + 2 };
    let update_node = NodeRef { id: n0 + 3 };
    proof {
        let un = g1.nodes@[n0 + 3];
        lemma_written_fields(update_args_of(un), nu@, x.2);
        assert(keys_at(g1, update_node) == desc_fields(x.2.0));
    }
    add_upsert_decision(
        graph,
        query_schema,
        child_model,
        &read_node,
        &if_node,
        &update_node,
        &create_node,
    );
    let ghost g2 = *graph;
    add_upsert_link(graph, parent_node, rf, &create_node, filter);
    let ghost g3 = *graph;
    proof {
        lemma_extends_trans(g3, g2, g1);
        lemma_extends_trans(g3, g1, g0);
        lemma_extends_keeps(g3, g1);
        lemma_extends_keeps(g3, g2);
        let n = g0.nodes@.len() as int;
        let e = g0.edges@.len() as int;
        let nn = g3.nodes@.len() as int;
        let ne = g3.edges@.len() as int;
        let l2 = g2.edges@.len() as int;
        assert(g3.nodes@[n] == g1.nodes@[n]);
        assert(g3.nodes@[n + 1] == g1.nodes@[n + 1]);
        assert(g3.nodes@[n + 2] == g1.nodes@[n + 2]);
        assert(g3.nodes@[n + 3] == g1.nodes@[n + 3]);
        assert(g3.edges@[e] == g1.edges@[e]);
        assert(g3.edges@[e + 1] == g1.edges@[e + 1]);
        assert(g3.edges@[e + 2] == g1.edges@[e + 2]);
        if query_schema.relation_mode is Prisma {
            assert(g3.nodes@[n + 4] == g2.nodes@[n + 4]);
            assert(g3.edges@[e + 3] == g2.edges@[e + 3]);
            assert(g3.edges@[l2 - 3] == g2.edges@[l2 - 3]);
            assert(g3.edges@[l2 - 2] == g2.edges@[l2 - 2]);
        }
        assert(g3.edges@[l2 - 1] == g2.edges@[l2 - 1]);
        assert(upsert_one_at(g3, n, e, nn, ne, *query_schema, *parent_node, *rf, *child_model, gf, x.1, x.2, nc@, nu@)) by {
            reveal(upsert_one_at);
        }
    }
    Ok((nc, nu))
}

/// What the first `k` values of a nested upsert give, the first error deciding.
pub open spec fn upsert_fold(
    dm: crate::schema::DataModel,
    rf: RelationField,
    child: Container,
    vs: Seq<ParsedInputValue>,
    k: nat,
) -> Option<Result<Seq<(
        Option<FilterDesc>,
        (Seq<(Seq<char>, OpDesc)>, Seq<(Seq<char>, ParsedInputMap)>),
        (Seq<(Seq<char>, OpDesc)>, Seq<(Seq<char>, ParsedInputMap)>),
    )>, ErrorDesc>>
    decreases k,
{
    if k == 0 {
        Option::Some(Ok(Seq::empty()))
    } else {
        match upsert_fold(dm, rf, child, vs, (k - 1) as nat) {
            Option::None => Option::None,
            Option::Some(Err(e)) => Option::Some(Err(e)),
            Option::Some(Ok(s)) => match upsert_one_desc(dm, rf, child, vs[k - 1]) {
                Option::None => Option::None,
                Option::Some(Err(e)) => Option::Some(Err(e)),
                Option::Some(Ok(x)) => Option::Some(Ok(s.push(x))),
            },
        }
    }
}

proof fn lemma_upsert_fold_later(
    dm: crate::schema::DataModel,
    rf: RelationField,
    child: Container,
    vs: Seq<ParsedInputValue>,
    k: nat,
    k2: nat,
)
    requires
        k <= k2,
    ensures
        upsert_fold(dm, rf, child, vs, k) is None ==> upsert_fold(dm, rf, child, vs, k2) is None,
        upsert_fold(dm, rf, child, vs, k) matches Option::Some(Err(e)) ==> upsert_fold(dm, rf, child, vs, k2)
            == upsert_fold(dm, rf, child, vs, k),
    decreases k2 - k,
{
    if k < k2 {
        lemma_upsert_fold_later(dm, rf, child, vs, k, (k2 - 1) as nat);
    }
}

/// Where the referential actions are emulated, the emulation of the update actions of each
/// upsert of `vs` that is planned ends.
pub open spec fn upsert_all_end(query_schema: QuerySchema, rf: RelationField, child: Container, vs: Seq<ParsedInputValue>) -> bool {
    forall|k: int|
        0 <= k < vs.len() && upsert_fold(query_schema.data_model, rf, child, vs, k as nat) is Some
            && upsert_fold(query_schema.data_model, rf, child, vs, k as nat)->Some_0 is Ok ==> #[trigger] upsert_one_ends(
            query_schema,
            rf,
            child,
            vs[k],
        )
}

/// The nested upserts that `ds` describe, below `parent`, at the positions `ps` (first node,
/// first edge, end of nodes, end of edges, filter), with the nested writes `ns` of their
/// creates and updates.
#[verifier::opaque]
pub open spec fn upsert_all_at(
    g: QueryGraph,
    query_schema: QuerySchema,
    parent: NodeRef,
    rf: RelationField,
    child: Container,
    ds: Seq<(
        Option<FilterDesc>,
        (Seq<(Seq<char>, OpDesc)>, Seq<(Seq<char>, ParsedInputMap)>),
        (Seq<(Seq<char>, OpDesc)>, Seq<(Seq<char>, ParsedInputMap)>),
    )>,
    ps: Seq<(int, int, int, int, Filter)>,
    ns: Seq<(Vec<(String, ParsedInputMap)>, Vec<(String, ParsedInputMap)>)>,
) -> bool {
    &&& ps.len() == ds.len()
    &&& ns.len() == ds.len()
    &&& forall|i: int|
        0 <= i < ds.len() ==> filter_is((#[trigger] ps[i]).4, ds[i].0) && upsert_one_at(
            g,
            ps[i].0,
            ps[i].1,
            ps[i].2,
            ps[i].3,
            query_schema,
            parent,
            rf,
            child,
            ps[i].4,
            ds[i].1,
            ds[i].2,
            ns[i].0@,
            ns[i].1@,
        )
}

/// `r` is what a nested upsert gives for the outcome `s` of its values: the error, or the
/// nested writes of each create and update, with the upserts planned in `g`.
pub open spec fn upsert_outcome(
    r: Result<Vec<(Vec<(String, ParsedInputMap)>, Vec<(String, ParsedInputMap)>)>, QueryGraphBuilderError>,
    g: QueryGraph,
    query_schema: QuerySchema,
    parent: NodeRef,
    rf: RelationField,
    child: Container,
    s: Result<Seq<(
        Option<FilterDesc>,
        (Seq<(Seq<char>, OpDesc)>, Seq<(Seq<char>, ParsedInputMap)>),
        (Seq<(Seq<char>, OpDesc)>, Seq<(Seq<char>, ParsedInputMap)>),
    )>, ErrorDesc>,
) -> bool {
    if s is Err {
        r is Err && error_is(r->Err_0, s->Err_0)
    } else {
        r is Ok && exists|ps: Seq<(int, int, int, int, Filter)>| #[trigger] upsert_all_at(
            g,
            query_schema,
            parent,
            rf,
            child,
            s->Ok_0,
            ps,
            r->Ok_0@,
        )
    }
}

/// Plans a nested upsert of each object of `value` (one object or a list of them) below
/// `parent_node`, on `parent_relation_field` of a record of `child_model`'s related model:
/// the children of the parent that the object's `where` selects are read; an `if` on them runs
/// the update of the child (after the emulation of the update actions, where the referential
/// actions are emulated) where one exists, and the creation of a child otherwise; the child
/// created is linked to the parent as the relation needs. The nested writes of each create and
/// update come back, in order, to be planned below them.
pub fn nested_upsert(
    graph: &mut QueryGraph,
    query_schema: &QuerySchema,
    parent_node: &NodeRef,
    parent_relation_field: &RelationField,
    value: ParsedInputValue,
    child_model: &Container,
) -> (r: Result<Vec<(Vec<(String, ParsedInputMap)>, Vec<(String, ParsedInputMap)>)>, QueryGraphBuilderError>)
    requires
        old(graph).wf(),
        old(graph).has(*parent_node),
        upsert_fold(
            query_schema.data_model,
            *parent_relation_field,
            *child_model,
            coerced(value),
            coerced(value).len(),
        ) is Some,
        upsert_all_end(*query_schema, *parent_relation_field, *child_model, coerced(value)),
    ensures
        final(graph).wf(),
        final(graph).extends(*old(graph)),
        upsert_outcome(
            r,
            *final(graph),
            *query_schema,
            *parent_node,
            *parent_relation_field,
            *child_model,
            upsert_fold(
                query_schema.data_model,
                *parent_relation_field,
                *child_model,
                coerced(value),
                coerced(value).len(),
            )->Some_0,
        ),
{
    let ghost g0 = *graph;
    let ghost vs = coerced(value);
    let ghost dm = query_schema.data_model;
    let rf = parent_relation_field;
    let values = coerce_vec(value);
    let ghost mut ds: Seq<(
        Option<FilterDesc>,
        (Seq<(Seq<char>, OpDesc)>, Seq<(Seq<char>, ParsedInputMap)>),
        (Seq<(Seq<char>, OpDesc)>, Seq<(Seq<char>, ParsedInputMap)>),
    )> = Seq::empty();
    let ghost mut ps: Seq<(int, int, int, int, Filter)> = Seq::empty();
    let mut out: Vec<(Vec<(String, ParsedInputMap)>, Vec<(String, ParsedInputMap)>)> = Vec::new();
    proof {
        lemma_extends_refl(*graph);
        reveal(upsert_all_at);
    }
    for v in it: values.into_iter()
        invariant
            it.seq() == vs,
            vs == coerced(value),
            dm == query_schema.data_model,
            *rf == *parent_relation_field,
            g0 == *old(graph),
            g0.has(*parent_node),
            upsert_fold(dm, *rf, *child_model, vs, vs.len()) is Some,
            upsert_all_end(*query_schema, *rf, *child_model, vs),
            upsert_fold(dm, *rf, *child_model, vs, it.index() as nat) == Option::Some(Ok::<Seq<(
        Option<FilterDesc>,
        (Seq<(Seq<char>, OpDesc)>, Seq<(Seq<char>, ParsedInputMap)>),
        (Seq<(Seq<char>, OpDesc)>, Seq<(Seq<char>, ParsedInputMap)>),
    )>, ErrorDesc>(ds)),
            graph.wf(),
            graph.extends(g0),
            upsert_all_at(*graph, *query_schema, *parent_node, *rf, *child_model, ds, ps, out@),
    {
        let ghost j = it.index() as int;
        let ghost gv = v;
        let ghost before = *graph;
        proof {
            assert(gv == vs[j]);
            lemma_upsert_fold_later(dm, *rf, *child_model, vs, (j + 1) as nat, vs.len());
            assert(upsert_one_ends(*query_schema, *rf, *child_model, vs[j]));
        }
        let nested = match nested_upsert_one(graph, query_schema, parent_node, rf, child_model, v) {
            Ok(n) => n,
            Err(e) => {
                proof {
                    lemma_extends_trans(*graph, before, g0);
                    let ed = upsert_one_desc(dm, *rf, *child_model, gv)->Some_0->Err_0;
                    assert(upsert_fold(dm, *rf, *child_model, vs, (j + 1) as nat) == Option::Some(
                        Err::<Seq<(
                            Option<FilterDesc>,
                            (Seq<(Seq<char>, OpDesc)>, Seq<(Seq<char>, ParsedInputMap)>),
                            (Seq<(Seq<char>, OpDesc)>, Seq<(Seq<char>, ParsedInputMap)>),
                        )>, ErrorDesc>(ed),
                    ));
                    lemma_upsert_fold_later(dm, *rf, *child_model, vs, (j + 1) as nat, vs.len());
                }
                return Err(e);
            },
        };
        proof {
            reveal(upsert_all_at);
            let x = upsert_one_desc(dm, *rf, *child_model, gv)->Some_0->Ok_0;
            let f = choose|f: Filter|
                filter_is(f, x.0) && #[trigger] upsert_one_at(
                    *graph,
                    before.nodes@.len() as int,
                    before.edges@.len() as int,
                    graph.nodes@.len() as int,
                    graph.edges@.len() as int,
                    *query_schema,
                    *parent_node,
                    *rf,
                    *child_model,
                    f,
                    x.1,
                    x.2,
                    nested.0@,
                    nested.1@,
                );
            let p = (
                before.nodes@.len() as int,
                before.edges@.len() as int,
                graph.nodes@.len() as int,
                graph.edges@.len() as int,
                f,
            );
            lemma_extends_trans(*graph, before, g0);
            let ds2 = ds.push(x);
            let ps2 = ps.push(p);
            let ns2 = out@.push(nested);
            assert forall|i: int| 0 <= i < ds2.len() implies filter_is((#[trigger] ps2[i]).4, ds2[i].0) && upsert_one_at(
                *graph,
                ps2[i].0,
                ps2[i].1,
                ps2[i].2,
                ps2[i].3,
                *query_schema,
                *parent_node,
                *rf,
                *child_model,
                ps2[i].4,
                ds2[i].1,
                ds2[i].2,
                ns2[i].0@,
                ns2[i].1@,
            ) by {
                if i < ds.len() {
                    assert(ps2[i] == ps[i]);
                    assert(ds2[i] == ds[i]);
                    assert(ns2[i] == out@[i]);
                    lemma_upsert_one_kept(
                        *graph,
                        before,
                        ps[i].0,
                        ps[i].1,
                        ps[i].2,
                        ps[i].3,
                        *query_schema,
                        *parent_node,
                        *rf,
                        *child_model,
                        ps[i].4,
                        ds[i].1,
                        ds[i].2,
                        out@[i].0@,
                        out@[i].1@,
                    );
                }
            }
            ds = ds2;
            ps = ps2;
        }
        out.push(nested);
    }
    let r: Result<Vec<(Vec<(String, ParsedInputMap)>, Vec<(String, ParsedInputMap)>)>, QueryGraphBuilderError> = Ok(out);
    proof {
        let s = upsert_fold(dm, *rf, *child_model, vs, vs.len())->Some_0;
        assert(s == Ok::<Seq<(
        Option<FilterDesc>,
        (Seq<(Seq<char>, OpDesc)>, Seq<(Seq<char>, ParsedInputMap)>),
        (Seq<(Seq<char>, OpDesc)>, Seq<(Seq<char>, ParsedInputMap)>),
    )>, ErrorDesc>(ds));
        assert(upsert_all_at(*graph, *query_schema, *parent_node, *rf, *child_model, s->Ok_0, ps, r->Ok_0@));
    }
    r
}

} // verus!
