use vstd::prelude::*;
use crate::builder::QuerySchema;
use crate::error::QueryGraphBuilderError;
use crate::connect_nested::{coerced, objects_expected_message};
use crate::extract::{described, error_is, ErrorDesc, FilterDesc};
use crate::text::text;
use crate::connect_nested::{is_filter_edge, is_link_edge};
use crate::query_graph::DataExpectation;
use crate::error::{data_operation_text, relation_kind_text, DataOperation, DependentOperation, MissingRelatedRecord};
use crate::write_utils::{is_update_placeholder, update_records_node_placeholder};
use crate::write_utils::coerce_vec;
use crate::filter::Filter;
use crate::query_graph::{
    names, Computation, Dependency, Edge, Flow, Node, NodeRef, Query, QueryGraph, ReadQuery, RowSink, WriteArgs,
    WriteQuery,
};
use crate::schema::{Container, RelationField, RelationKind};
use crate::set_nested::is_plain_edge;
use crate::unique::{extract_unique_filter, unique_spec};
use crate::values::{key_index, ParsedInputMap, ParsedInputValue};
use crate::write_args::{args_spec, entry_is, OpDesc, WriteArgsParser};
use crate::write_utils::{
    appended, connect_records_node, is_connect_children_edge, is_connect_parent_edge, lemma_extends_keeps,
    lemma_extends_trans, new_node, new_ref, read_id_infallible, selected, copy_names,
};
use crate::write_utils::{
    checks_at, insert_existing_1to1_related_model_checks, is_create_node, lemma_checks_kept, node_is_create,
};
use crate::copies::copy_filter;
use crate::equality::same_filter;

verus! {

/// `args` holds the writes, and `nested` the nested writes, that `d` describes.
pub open spec fn writes_are(
    args: WriteArgs,
    nested: Seq<(String, ParsedInputMap)>,
    d: (Seq<(Seq<char>, OpDesc)>, Seq<(Seq<char>, ParsedInputMap)>),
) -> bool {
    &&& args.args@.len() == d.0.len()
    &&& forall|i: int| 0 <= i < d.0.len() ==> #[trigger] entry_is(args.args@[i], d.0[i])
    &&& nested.len() == d.1.len()
    &&& forall|i: int| 0 <= i < d.1.len() ==> (#[trigger] nested[i]).0@ == d.1[i].0 && nested[i].1 == d.1[i].1
}

/// The creation of a record of `model` from its data object `data_map`: the node of the
/// creation, with the writes of the object's scalar and composite fields; the nested writes
/// that the object holds on relation fields come back with the node, by relation field, to be
/// planned below it.
pub fn create_record_node(
    graph: &mut QueryGraph,
    query_schema: &QuerySchema,
    model: &Container,
    data_map: ParsedInputMap,
) -> (r: Result<(NodeRef, Vec<(String, ParsedInputMap)>), QueryGraphBuilderError>)
    requires
        old(graph).wf(),
    ensures
        match args_spec(query_schema.data_model, *model, data_map.entries@, data_map.entries@.len()) {
            Err(e) => (r matches Err(x) && error_is(x, e)) && *final(graph) == *old(graph),
            Ok(d) => r matches Ok((n, nested)) && {
                &&& appended(*final(graph), *old(graph), 1, 0)
                &&& n == new_ref(*old(graph), 0)
                &&& new_node(*final(graph), *old(graph), 0) matches Node::Query(
                    Query::Write(WriteQuery::CreateRecord { model: m, args }),
                ) && m@ == model.name@ && writes_are(args, nested@, d)
            },
        },
{
    let parser = match WriteArgsParser::from(model, data_map, &query_schema.data_model) {
        Ok(p) => p,
        Err(e) => return Err(e),
    };
    let ghost g0 = *graph;
    let WriteArgsParser { args, nested } = parser;
    let n = graph.create_node(Node::Query(Query::Write(WriteQuery::CreateRecord { model: model.name.clone(), args })));
    proof {
        assert(graph.nodes@.take(g0.nodes@.len() as int) =~= g0.nodes@);
        assert(graph.edges@ =~= g0.edges@);
        assert(graph.edges@.take(g0.edges@.len() as int) =~= g0.edges@);
        assert(graph.marked@.take(g0.marked@.len() as int) =~= g0.marked@);
        assert(graph.result_nodes@.take(g0.result_nodes@.len() as int) =~= g0.result_nodes@);
    }
    Ok((n, nested))
}

/// The decision of a connect-or-create in `g`, with its nodes from `n0` and its edges from
/// `e0` on: an `if` that takes the rows of `read`, and two connects to `parent` on the
/// many-to-many relation field `rf`, one of the record read, which runs if there is one, and
/// one of the record that `create` creates, which runs otherwise; the read runs after the
/// parent.
pub open spec fn links_at(
    g: QueryGraph,
    n0: int,
    e0: int,
    parent: NodeRef,
    rf: RelationField,
    child: Container,
    read: NodeRef,
    create: NodeRef,
) -> bool {
    let iff = NodeRef { id: n0 as usize };
    let connect_read = NodeRef { id: (n0 + 1) as usize };
    let connect_created = NodeRef { id: (n0 + 2) as usize };
    &&& 0 <= n0
    &&& 0 <= e0
    &&& n0 + 3 <= g.nodes@.len()
    &&& e0 + 8 <= g.edges@.len()
    &&& g.nodes@[n0] == Node::Flow(Flow::IfNonEmpty)
    &&& g.nodes@[n0 + 1] matches Node::Query(Query::Write(WriteQuery::ConnectRecords { relation_field: r1 }))
    &&& r1@ == rf.name@
    &&& g.nodes@[n0 + 2] matches Node::Query(Query::Write(WriteQuery::ConnectRecords { relation_field: r2 }))
    &&& r2@ == rf.name@
    &&& is_connect_parent_edge(g.edges@[e0], parent, connect_read, rf)
    &&& is_connect_children_edge(g.edges@[e0 + 1], read, connect_read, rf, 1)
    &&& is_connect_parent_edge(g.edges@[e0 + 2], parent, connect_created, rf)
    &&& is_connect_children_edge(g.edges@[e0 + 3], create, connect_created, rf, 1)
    &&& g.edges@[e0 + 4] == (Edge { from: parent, to: read, dependency: Dependency::ExecutionOrder })
    &&& is_plain_edge(g.edges@[e0 + 5], read, iff, names(child.primary_identifier@), RowSink::IfCondition)
    &&& g.edges@[e0 + 6] == (Edge { from: iff, to: connect_read, dependency: Dependency::Then })
    &&& g.edges@[e0 + 7] == (Edge { from: iff, to: create, dependency: Dependency::Else })
}

/// A nested connect-or-create of one record of `child` on the many-to-many relation field
/// `rf` of `parent`, with its nodes from `n` and its edges from `e` on in `g`: the read of the
/// record that `filter` selects, the creation of the record from the writes that `d`
/// describes (its nested writes being `nested`), and the decision between connecting the one
/// and the other (`links_at`).
#[verifier::opaque]
pub open spec fn m2m_at(
    g: QueryGraph,
    n: int,
    e: int,
    parent: NodeRef,
    rf: RelationField,
    child: Container,
    filter: Filter,
    d: (Seq<(Seq<char>, OpDesc)>, Seq<(Seq<char>, ParsedInputMap)>),
    nested: Seq<(String, ParsedInputMap)>,
) -> bool {
    let id = names(child.primary_identifier@);
    &&& 0 <= n
    &&& n + 2 <= g.nodes@.len()
    &&& g.nodes@[n] matches Node::Query(Query::Read(ReadQuery::Record { name, model, filter: f, selection }))
    &&& name@ == "read_ids_infallible"@ && model@ == child.name@ && f == filter && names(selection@) == selected(id, id)
    &&& g.nodes@[n + 1] matches Node::Query(Query::Write(WriteQuery::CreateRecord { model: m, args }))
    &&& m@ == child.name@ && writes_are(args, nested, d)
    &&& links_at(g, n + 2, e, parent, rf, child, NodeRef { id: n as usize }, NodeRef { id: (n + 1) as usize })
}

/// The graph of a nested connect-or-create of one record on a many-to-many relation field,
/// appended to `old` (`m2m_at`, with five nodes and eight edges).
#[verifier::opaque]
pub open spec fn m2m_connect_or_create_at(
    g: QueryGraph,
    old: QueryGraph,
    parent: NodeRef,
    rf: RelationField,
    child: Container,
    filter: Filter,
    d: (Seq<(Seq<char>, OpDesc)>, Seq<(Seq<char>, ParsedInputMap)>),
    nested: Seq<(String, ParsedInputMap)>,
) -> bool {
    &&& appended(g, old, 5, 8)
    &&& m2m_at(g, old.nodes@.len() as int, old.edges@.len() as int, parent, rf, child, filter, d, nested)
}

/// A connect-or-create stays planned as the graph grows.
pub proof fn lemma_m2m_kept(
    g2: QueryGraph,
    g1: QueryGraph,
    n: int,
    e: int,
    parent: NodeRef,
    rf: RelationField,
    child: Container,
    filter: Filter,
    d: (Seq<(Seq<char>, OpDesc)>, Seq<(Seq<char>, ParsedInputMap)>),
    nested: Seq<(String, ParsedInputMap)>,
)
    requires
        g2.grows(g1),
        m2m_at(g1, n, e, parent, rf, child, filter, d, nested),
    ensures
        m2m_at(g2, n, e, parent, rf, child, filter, d, nested),
{
    reveal(m2m_at);
    lemma_extends_keeps(g2, g1);
    assert(g2.nodes@[n] == g1.nodes@[n]);
    assert(g2.nodes@[n + 1] == g1.nodes@[n + 1]);
    assert(g2.nodes@[n + 2] == g1.nodes@[n + 2]);
    assert(g2.nodes@[n + 3] == g1.nodes@[n + 3]);
    assert(g2.nodes@[n + 4] == g1.nodes@[n + 4]);
    assert(g2.edges@[e] == g1.edges@[e]);
    assert(g2.edges@[e + 1] == g1.edges@[e + 1]);
    assert(g2.edges@[e + 2] == g1.edges@[e + 2]);
    assert(g2.edges@[e + 3] == g1.edges@[e + 3]);
    assert(g2.edges@[e + 4] == g1.edges@[e + 4]);
    assert(g2.edges@[e + 5] == g1.edges@[e + 5]);
    assert(g2.edges@[e + 6] == g1.edges@[e + 6]);
    assert(g2.edges@[e + 7] == g1.edges@[e + 7]);
}

/// Adds the decision of a connect-or-create between connecting the record that `read` reads
/// and the one that `create` creates, as `links_at` says.
fn add_links(
    graph: &mut QueryGraph,
    parent_node: &NodeRef,
    parent_relation_field: &RelationField,
    child_model: &Container,
    read_node: &NodeRef,
    create_node: &NodeRef,
)
    requires
        old(graph).wf(),
        old(graph).has(*parent_node),
        old(graph).has(*read_node),
        old(graph).has(*create_node),
        parent_relation_field.relation.kind == RelationKind::ManyToMany,
    ensures
        appended(*final(graph), *old(graph), 3, 8),
        links_at(
            *final(graph),
            old(graph).nodes@.len() as int,
            old(graph).edges@.len() as int,
            *parent_node,
            *parent_relation_field,
            *child_model,
            *read_node,
            *create_node,
        ),
{
    let ghost g0 = *graph;
    let if_node = graph.create_node(Node::Flow(Flow::IfNonEmpty));
    let ghost g1 = *graph;
    proof { lemma_pushed_node(g1, g0); }
    let connect_exists_node = connect_records_node(graph, parent_node, read_node, parent_relation_field, 1);
    let ghost g2 = *graph;
    let _connect_create_node = connect_records_node(graph, parent_node, create_node, parent_relation_field, 1);
    let ghost g3 = *graph;
    graph.create_edge(parent_node, read_node, Dependency::ExecutionOrder);
    let ghost g4 = *graph;
    graph.create_edge(
        read_node,
        &if_node,
        Dependency::Projected {
            selection: child_model.primary_identifier.clone(),
            sink: RowSink::IfCondition,
            expectation: Option::None,
        },
    );
    let ghost g5 = *graph;
    graph.create_edge(&if_node, &connect_exists_node, Dependency::Then);
    let ghost g6 = *graph;
    graph.create_edge(&if_node, create_node, Dependency::Else);
    let ghost g7 = *graph;
    proof {
        lemma_pushed_edge(g4, g3);
        lemma_pushed_edge(g5, g4);
        lemma_pushed_edge(g6, g5);
        lemma_pushed_edge(g7, g6);
        lemma_extends_trans(g2, g1, g0);
        lemma_extends_trans(g3, g2, g0);
        lemma_extends_trans(g5, g4, g3);
        lemma_extends_trans(g6, g5, g3);
        lemma_extends_trans(g7, g6, g3);
        lemma_extends_trans(g7, g3, g2);
        lemma_extends_trans(g7, g2, g1);
        lemma_extends_trans(g7, g1, g0);
        lemma_extends_keeps(g7, g1);
        lemma_extends_keeps(g7, g2);
        lemma_extends_keeps(g7, g3);
        let n0 = g0.nodes@.len() as int;
        let e0 = g0.edges@.len() as int;
        assert(g7.nodes@[n0] == g1.nodes@[n0]);
        assert(g7.nodes@[n0 + 1] == g2.nodes@[n0 + 1]);
        assert(g7.nodes@[n0 + 2] == g3.nodes@[n0 + 2]);
        assert(g7.edges@[e0] == g2.edges@[e0]);
        assert(g7.edges@[e0 + 1] == g2.edges@[e0 + 1]);
        assert(g7.edges@[e0 + 2] == g3.edges@[e0 + 2]);
        assert(g7.edges@[e0 + 3] == g3.edges@[e0 + 3]);
    }
}

/// Adds the read of the record of `child_model` that `filter` selects, the creation of the
/// record that `create_map` describes, and the decision between connecting the one or the
/// other to `parent_node`; the nested writes of `create_map` come back.
fn read_or_create(
    graph: &mut QueryGraph,
    query_schema: &QuerySchema,
    parent_node: &NodeRef,
    parent_relation_field: &RelationField,
    filter: Filter,
    create_map: ParsedInputMap,
    child_model: &Container,
) -> (r: Result<Vec<(String, ParsedInputMap)>, QueryGraphBuilderError>)
    requires
        old(graph).wf(),
        old(graph).has(*parent_node),
        parent_relation_field.relation.kind == RelationKind::ManyToMany,
    ensures
        final(graph).wf(),
        final(graph).extends(*old(graph)),
        match args_spec(query_schema.data_model, *child_model, create_map.entries@, create_map.entries@.len()) {
            Err(e) => r matches Err(x) && error_is(x, e),
            Ok(d) => r matches Ok(nested) && m2m_connect_or_create_at(
                *final(graph),
                *old(graph),
                *parent_node,
                *parent_relation_field,
                *child_model,
                filter,
                d,
                nested@,
            ),
        },
{
    let ghost g0 = *graph;
    let ghost gf = filter;
    let read_node = graph.create_node(
        read_id_infallible(
            child_model.name.as_str(),
            &child_model.primary_identifier,
            child_model.primary_identifier.clone(),
            filter,
        ),
    );
    let ghost g1 = *graph;
    proof { lemma_pushed_node(g1, g0); }
    let (create_node, nested) = match create_record_node(graph, query_schema, child_model, create_map) {
        Ok(x) => x,
        Err(e) => return Err(e),
    };
    let ghost g2 = *graph;
    proof { lemma_extends_trans(g2, g1, g0); }
    add_links(graph, parent_node, parent_relation_field, child_model, &read_node, &create_node);
    let ghost g3 = *graph;
    proof {
        reveal(m2m_connect_or_create_at);
        reveal(m2m_at);
        lemma_extends_trans(g3, g2, g0);
        lemma_extends_trans(g3, g2, g1);
        lemma_extends_keeps(g3, g1);
        lemma_extends_keeps(g3, g2);
        assert(g3.nodes@[g0.nodes@.len() as int] == g1.nodes@[g0.nodes@.len() as int]);
        assert(g3.nodes@[g0.nodes@.len() + 1int] == g2.nodes@[g0.nodes@.len() + 1int]);
    }
    Ok(nested)
}

proof fn lemma_extends_refl_here(g: QueryGraph)
    ensures
        g.extends(g),
{
    crate::write_utils::lemma_extends_refl(g);
}

/// A graph with one node more, and nothing else changed, extends the one before.
pub proof fn lemma_pushed_node(g2: QueryGraph, g1: QueryGraph)
    requires
        g2.nodes@.len() == g1.nodes@.len() + 1,
        g2.nodes@.take(g1.nodes@.len() as int) == g1.nodes@ || g2.nodes@ == g1.nodes@.push(g2.nodes@.last()),
        g2.edges@ == g1.edges@,
        g2.marked@ == g1.marked@,
        g2.result_nodes@ == g1.result_nodes@,
        g2.needs_transaction == g1.needs_transaction,
    ensures
        g2.extends(g1),
{
    assert(g2.nodes@.take(g1.nodes@.len() as int) =~= g1.nodes@);
    assert(g2.edges@.take(g1.edges@.len() as int) =~= g1.edges@);
    assert(g2.marked@.take(g1.marked@.len() as int) =~= g1.marked@);
    assert(g2.result_nodes@.take(g1.result_nodes@.len() as int) =~= g1.result_nodes@);
}

/// A graph with one edge more, and nothing else changed, extends the one before.
pub proof fn lemma_pushed_edge(g2: QueryGraph, g1: QueryGraph)
    requires
        g2.nodes@ == g1.nodes@,
        g2.edges@ == g1.edges@.push(g2.edges@.last()),
        g2.marked@ == g1.marked@,
        g2.result_nodes@ == g1.result_nodes@,
        g2.needs_transaction == g1.needs_transaction,
    ensures
        g2.extends(g1),
{
    assert(g2.nodes@.take(g1.nodes@.len() as int) =~= g1.nodes@);
    assert(g2.edges@.take(g1.edges@.len() as int) =~= g1.edges@);
    assert(g2.marked@.take(g1.marked@.len() as int) =~= g1.marked@);
    assert(g2.result_nodes@.take(g1.result_nodes@.len() as int) =~= g1.result_nodes@);
}

/// The `where` and `create` objects of one connect-or-create, or the error for a value or
/// argument that is no object. `None` where `where` or `create` is missing, which the
/// validation of the query document rules out.
pub open spec fn coc_parts(v: ParsedInputValue) -> Option<Result<(ParsedInputMap, ParsedInputMap), ErrorDesc>> {
    match v {
        ParsedInputValue::Object(m) => match key_index(m.entries@, "where"@) {
            Option::None => Option::None,
            Option::Some(i) => match m.entries@[i].1 {
                ParsedInputValue::Object(w) => {
                    let rest = m.entries@.update(i, m.entries@.last()).drop_last();
                    match key_index(rest, "create"@) {
                        Option::None => Option::None,
                        Option::Some(j) => match rest[j].1 {
                            ParsedInputValue::Object(c) => Option::Some(Ok((w, c))),
                            _ => Option::Some(Err(ErrorDesc::Input(objects_expected_message()))),
                        },
                    }
                },
                _ => Option::Some(Err(ErrorDesc::Input(objects_expected_message()))),
            },
        },
        _ => Option::Some(Err(ErrorDesc::Input(objects_expected_message()))),
    }
}

/// What one connect-or-create value gives: the filter of its `where` and the writes of its
/// `create`, or the first error among them.
#[verifier::opaque]
pub open spec fn coc_desc(dm: crate::schema::DataModel, child: Container, v: ParsedInputValue) -> Option<
    Result<(FilterDesc, (Seq<(Seq<char>, OpDesc)>, Seq<(Seq<char>, ParsedInputMap)>)), ErrorDesc>,
> {
    match coc_parts(v) {
        Option::None => Option::None,
        Option::Some(Err(e)) => Option::Some(Err(e)),
        Option::Some(Ok((w, c))) => match unique_spec(child, w) {
            Err(e) => Option::Some(Err(e)),
            Ok(fd) => match args_spec(dm, child, c.entries@, c.entries@.len()) {
                Err(e) => Option::Some(Err(e)),
                Ok(d) => Option::Some(Ok((fd, d))),
            },
        },
    }
}

/// What the first `k` values of a nested connect-or-create give, the first error deciding.
pub open spec fn coc_fold(dm: crate::schema::DataModel, child: Container, vs: Seq<ParsedInputValue>, k: nat) -> Option<
    Result<Seq<(FilterDesc, (Seq<(Seq<char>, OpDesc)>, Seq<(Seq<char>, ParsedInputMap)>))>, ErrorDesc>,
>
    decreases k,
{
    if k == 0 {
        Option::Some(Ok(Seq::empty()))
    } else {
        match coc_fold(dm, child, vs, (k - 1) as nat) {
            Option::None => Option::None,
            Option::Some(Err(e)) => Option::Some(Err(e)),
            Option::Some(Ok(s)) => match coc_desc(dm, child, vs[k - 1]) {
                Option::None => Option::None,
                Option::Some(Err(e)) => Option::Some(Err(e)),
                Option::Some(Ok(x)) => Option::Some(Ok(s.push(x))),
            },
        }
    }
}

proof fn lemma_fold_later(dm: crate::schema::DataModel, child: Container, vs: Seq<ParsedInputValue>, k: nat, k2: nat)
    requires
        k <= k2,
    ensures
        coc_fold(dm, child, vs, k) is None ==> coc_fold(dm, child, vs, k2) is None,
        coc_fold(dm, child, vs, k) matches Option::Some(Err(e)) ==> coc_fold(dm, child, vs, k2) == coc_fold(
            dm,
            child,
            vs,
            k,
        ),
    decreases k2 - k,
{
    if k < k2 {
        lemma_fold_later(dm, child, vs, k, (k2 - 1) as nat);
    }
}

/// The connect-or-creates of the values `ds` describe, below `parent`, at the positions `ps`
/// (first node, first edge, filter), with the nested writes `ns` of their creations.
/// The relation field is one whose connect-or-create this library plans: many-to-many, or
/// one-to-many inlined on the child.
pub open spec fn handled_kind(rf: RelationField) -> bool {
    rf.relation.kind == RelationKind::ManyToMany || (rf.relation.kind == RelationKind::OneToMany && !rf.inlined_in_parent)
}

/// A connect-or-create of one record below `parent`, with its nodes from `n` and its edges
/// from `e` on: on a many-to-many relation field as `m2m_at` says, on a one-to-many one
/// inlined on the child as `inlined_child_at` says.
pub open spec fn coc_at(
    g: QueryGraph,
    n: int,
    e: int,
    parent: NodeRef,
    rf: RelationField,
    child: Container,
    filter: Filter,
    d: (Seq<(Seq<char>, OpDesc)>, Seq<(Seq<char>, ParsedInputMap)>),
    nested: Seq<(String, ParsedInputMap)>,
) -> bool {
    if rf.relation.kind == RelationKind::ManyToMany {
        m2m_at(g, n, e, parent, rf, child, filter, d, nested)
    } else {
        inlined_child_at(g, n, e, parent, rf, child, filter, d, nested)
    }
}

/// A connect-or-create of one record below `parent`, appended to `old`: five nodes and eight
/// edges on a many-to-many relation field, four nodes and six edges otherwise.
pub open spec fn coc_appended(
    g: QueryGraph,
    old: QueryGraph,
    parent: NodeRef,
    rf: RelationField,
    child: Container,
    filter: Filter,
    d: (Seq<(Seq<char>, OpDesc)>, Seq<(Seq<char>, ParsedInputMap)>),
    nested: Seq<(String, ParsedInputMap)>,
) -> bool {
    &&& if rf.relation.kind == RelationKind::ManyToMany {
        appended(g, old, 5, 8)
    } else {
        appended(g, old, 4, 6)
    }
    &&& coc_at(g, old.nodes@.len() as int, old.edges@.len() as int, parent, rf, child, filter, d, nested)
}

/// A connect-or-create stays planned as the graph grows.
pub proof fn lemma_coc_kept(
    g2: QueryGraph,
    g1: QueryGraph,
    n: int,
    e: int,
    parent: NodeRef,
    rf: RelationField,
    child: Container,
    filter: Filter,
    d: (Seq<(Seq<char>, OpDesc)>, Seq<(Seq<char>, ParsedInputMap)>),
    nested: Seq<(String, ParsedInputMap)>,
)
    requires
        g2.grows(g1),
        coc_at(g1, n, e, parent, rf, child, filter, d, nested),
    ensures
        coc_at(g2, n, e, parent, rf, child, filter, d, nested),
{
    if rf.relation.kind == RelationKind::ManyToMany {
        lemma_m2m_kept(g2, g1, n, e, parent, rf, child, filter, d, nested);
    } else {
        reveal(inlined_child_at);
        lemma_extends_keeps(g2, g1);
        assert(g2.nodes@[n] == g1.nodes@[n]);
        assert(g2.nodes@[n + 1] == g1.nodes@[n + 1]);
        assert(g2.nodes@[n + 2] == g1.nodes@[n + 2]);
        assert(g2.nodes@[n + 3] == g1.nodes@[n + 3]);
        assert(g2.edges@[e] == g1.edges@[e]);
        assert(g2.edges@[e + 1] == g1.edges@[e + 1]);
        assert(g2.edges@[e + 2] == g1.edges@[e + 2]);
        assert(g2.edges@[e + 3] == g1.edges@[e + 3]);
        assert(g2.edges@[e + 4] == g1.edges@[e + 4]);
        assert(g2.edges@[e + 5] == g1.edges@[e + 5]);
    }
}

/// The connect-or-creates of the values `ds` describe, below `parent`, at the positions `ps`
/// (first node, first edge, filter), with the nested writes `ns` of their creations.
#[verifier::opaque]
pub open spec fn coc_all_at(
    g: QueryGraph,
    parent: NodeRef,
    rf: RelationField,
    child: Container,
    ds: Seq<(FilterDesc, (Seq<(Seq<char>, OpDesc)>, Seq<(Seq<char>, ParsedInputMap)>))>,
    ps: Seq<(int, int, Filter)>,
    ns: Seq<Vec<(String, ParsedInputMap)>>,
) -> bool {
    &&& ps.len() == ds.len()
    &&& ns.len() == ds.len()
    &&& forall|i: int|
        0 <= i < ds.len() ==> described((#[trigger] ps[i]).2, ds[i].0) && coc_at(
            g,
            ps[i].0,
            ps[i].1,
            parent,
            rf,
            child,
            ps[i].2,
            ds[i].1,
            ns[i]@,
        )
}

/// `r` is what a nested connect-or-create on a many-to-many relation field gives for the
/// outcome `s` of its values: the error, or the nested writes of each creation, with the
/// connect-or-creates planned in `g`.
pub open spec fn coc_outcome(
    r: Result<Vec<Vec<(String, ParsedInputMap)>>, QueryGraphBuilderError>,
    g: QueryGraph,
    parent: NodeRef,
    rf: RelationField,
    child: Container,
    s: Result<Seq<(FilterDesc, (Seq<(Seq<char>, OpDesc)>, Seq<(Seq<char>, ParsedInputMap)>))>, ErrorDesc>,
) -> bool {
    if s is Err {
        r is Err && error_is(r->Err_0, s->Err_0)
    } else {
        r is Ok && exists|ps: Seq<(int, int, Filter)>| #[trigger] coc_all_at(g, parent, rf, child, s->Ok_0, ps, r->Ok_0@)
    }
}

proof fn lemma_outcome_ok(
    r: Result<Vec<Vec<(String, ParsedInputMap)>>, QueryGraphBuilderError>,
    g: QueryGraph,
    parent: NodeRef,
    rf: RelationField,
    child: Container,
    ds: Seq<(FilterDesc, (Seq<(Seq<char>, OpDesc)>, Seq<(Seq<char>, ParsedInputMap)>))>,
    ps: Seq<(int, int, Filter)>,
)
    requires
        r is Ok,
        coc_all_at(g, parent, rf, child, ds, ps, r->Ok_0@),
    ensures
        coc_outcome(r, g, parent, rf, child, Ok(ds)),
{
    let s: Result<Seq<(FilterDesc, (Seq<(Seq<char>, OpDesc)>, Seq<(Seq<char>, ParsedInputMap)>))>, ErrorDesc> = Ok(ds);
    assert(s->Ok_0 == ds);
    assert(coc_all_at(g, parent, rf, child, s->Ok_0, ps, r->Ok_0@));
}

/// `f` is the filter of the `where` of the connect-or-create value `v` and `c` its `create`
/// object; what `v` gives then rests on the writes of `c`.
pub open spec fn coc_inputs_are(
    dm: crate::schema::DataModel,
    child: Container,
    v: ParsedInputValue,
    f: Filter,
    c: ParsedInputMap,
) -> bool {
    match coc_parts(v) {
        Option::Some(Ok((w, c2))) => c2 == c && match unique_spec(child, w) {
            Ok(fd) => described(f, fd) && coc_desc(dm, child, v) == match args_spec(dm, child, c.entries@, c.entries@.len()) {
                Err(e) => Option::Some(Err(e)),
                Ok(d) => Option::Some(Ok((fd, d))),
            },
            Err(_) => false,
        },
        _ => false,
    }
}

/// The filter of the `where` of a connect-or-create value and its `create` object, as
/// `coc_desc` describes them, or the first error among them.
fn coc_inputs(v: ParsedInputValue, child_model: &Container, Ghost(dm): Ghost<crate::schema::DataModel>) -> (r: Result<
    (Filter, ParsedInputMap),
    QueryGraphBuilderError,
>)
    requires
        coc_desc(dm, *child_model, v) is Some,
    ensures
        match r {
            Err(x) => coc_desc(dm, *child_model, v)->Some_0 matches Err(e) && error_is(x, e),
            Ok((f, c)) => coc_inputs_are(dm, *child_model, v, f, c),
        },
{
    let ghost gv = v;
    let mut m = match v {
        ParsedInputValue::Object(m) => m,
        _ => {
            assert(coc_desc(dm, *child_model, gv) == Option::Some(
                Err::<(FilterDesc, (Seq<(Seq<char>, OpDesc)>, Seq<(Seq<char>, ParsedInputMap)>)), ErrorDesc>(
                    ErrorDesc::Input(objects_expected_message()),
                ),
            )) by {
                reveal(coc_desc);
            }
            return Err(QueryGraphBuilderError::InputError(text("Expected an input object.")));
        },
    };
    let ghost es = m.entries@;
    proof { crate::values::lemma_key_index_valid(es, "where"@); }
    let where_arg = m.swap_remove("where");
    let ghost rest = m.entries@;
    assert(coc_parts(gv) is Some) by {
        reveal(coc_desc);
    }
    let where_map = match where_arg {
        Option::Some(ParsedInputValue::Object(w)) => w,
        Option::Some(_) => {
            assert(coc_desc(dm, *child_model, gv) == Option::Some(
                Err::<(FilterDesc, (Seq<(Seq<char>, OpDesc)>, Seq<(Seq<char>, ParsedInputMap)>)), ErrorDesc>(
                    ErrorDesc::Input(objects_expected_message()),
                ),
            )) by {
                reveal(coc_desc);
            }
            return Err(QueryGraphBuilderError::InputError(text("Expected an input object.")));
        },
        Option::None => vstd::pervasive::unreached(),
    };
    let create_arg = m.swap_remove("create");
    let create_map = match create_arg {
        Option::Some(ParsedInputValue::Object(c)) => c,
        Option::Some(_) => {
            assert(coc_desc(dm, *child_model, gv) == Option::Some(
                Err::<(FilterDesc, (Seq<(Seq<char>, OpDesc)>, Seq<(Seq<char>, ParsedInputMap)>)), ErrorDesc>(
                    ErrorDesc::Input(objects_expected_message()),
                ),
            )) by {
                reveal(coc_desc);
            }
            return Err(QueryGraphBuilderError::InputError(text("Expected an input object.")));
        },
        Option::None => vstd::pervasive::unreached(),
    };
    assert(coc_parts(gv) == Option::Some(
        Ok::<(ParsedInputMap, ParsedInputMap), ErrorDesc>((where_map, create_map)),
    ));
    assert(coc_desc(dm, *child_model, gv) == match unique_spec(*child_model, where_map) {
        Err(e) => Option::Some(Err(e)),
        Ok(fd) => match args_spec(dm, *child_model, create_map.entries@, create_map.entries@.len()) {
            Err(e) => Option::Some(Err(e)),
            Ok(d) => Option::Some(Ok((fd, d))),
        },
    }) by {
        reveal(coc_desc);
    }
    let ghost gw = where_map;
    match extract_unique_filter(where_map, child_model) {
        Ok(f) => Ok((f, create_map)),
        Err(e) => Err(e),
    }
}

/// Plans the connect-or-create of one value of a nested connect-or-create on a many-to-many
/// relation field, as `coc_desc` describes it.
#[verifier::spinoff_prover]
#[verifier::rlimit(100)]
fn connect_or_create_one(
    graph: &mut QueryGraph,
    query_schema: &QuerySchema,
    parent_node: &NodeRef,
    parent_relation_field: &RelationField,
    v: ParsedInputValue,
    child_model: &Container,
) -> (r: Result<Vec<(String, ParsedInputMap)>, QueryGraphBuilderError>)
    requires
        old(graph).wf(),
        old(graph).has(*parent_node),
        handled_kind(*parent_relation_field),
        coc_desc(query_schema.data_model, *child_model, v) is Some,
    ensures
        final(graph).wf(),
        final(graph).extends(*old(graph)),
        match coc_desc(query_schema.data_model, *child_model, v)->Some_0 {
            Err(e) => r matches Err(x) && error_is(x, e),
            Ok(x) => r matches Ok(nested) && exists|f: Filter|
                described(f, x.0) && #[trigger] coc_appended(
                    *final(graph),
                    *old(graph),
                    *parent_node,
                    *parent_relation_field,
                    *child_model,
                    f,
                    x.1,
                    nested@,
                ),
        },
{
    proof { lemma_extends_refl_here(*graph); }
    let ghost gv = v;
    let ghost dm = query_schema.data_model;
    let (filter, create_map) = match coc_inputs(v, child_model, Ghost(dm)) {
        Ok(x) => x,
        Err(e) => return Err(e),
    };
    let ghost gf = filter;
    let ghost gc = create_map;
    let ghost g0 = *graph;
    let r = if parent_relation_field.relation.kind == RelationKind::ManyToMany {
        read_or_create(graph, query_schema, parent_node, parent_relation_field, filter, create_map, child_model)
    } else {
        read_or_create_inlined(graph, query_schema, parent_node, parent_relation_field, filter, create_map, child_model)
    };
    proof {
        match args_spec(dm, *child_model, gc.entries@, gc.entries@.len()) {
            Err(_) => {},
            Ok(d) => {
                let x = coc_desc(dm, *child_model, gv)->Some_0->Ok_0;
                assert(x.1 == d);
                if parent_relation_field.relation.kind == RelationKind::ManyToMany {
                    reveal(m2m_connect_or_create_at);
                }
                assert(coc_appended(*graph, g0, *parent_node, *parent_relation_field, *child_model, gf, x.1, r->Ok_0@));
                assert(described(gf, x.0));
            },
        }
    }
    r
}

/// Plans a nested connect-or-create for each object of `value` (one object or a list of
/// them), as `coc_at` says; the nested writes of each `create` come back, in order.
fn connect_or_create_each(
    graph: &mut QueryGraph,
    query_schema: &QuerySchema,
    parent_node: &NodeRef,
    parent_relation_field: &RelationField,
    value: ParsedInputValue,
    child_model: &Container,
) -> (r: Result<Vec<Vec<(String, ParsedInputMap)>>, QueryGraphBuilderError>)
    requires
        old(graph).wf(),
        old(graph).has(*parent_node),
        handled_kind(*parent_relation_field),
        coc_fold(query_schema.data_model, *child_model, coerced(value), coerced(value).len()) is Some,
    ensures
        final(graph).wf(),
        final(graph).extends(*old(graph)),
        coc_outcome(
            r,
            *final(graph),
            *parent_node,
            *parent_relation_field,
            *child_model,
            coc_fold(query_schema.data_model, *child_model, coerced(value), coerced(value).len())->Some_0,
        ),
{
    let ghost g0 = *graph;
    let ghost vs = coerced(value);
    let ghost dm = query_schema.data_model;
    let values = coerce_vec(value);
    let ghost mut ds: Seq<(FilterDesc, (Seq<(Seq<char>, OpDesc)>, Seq<(Seq<char>, ParsedInputMap)>))> = Seq::empty();
    let ghost mut ps: Seq<(int, int, Filter)> = Seq::empty();
    let mut out: Vec<Vec<(String, ParsedInputMap)>> = Vec::new();
    proof {
        lemma_extends_refl_here(*graph);
        reveal(coc_all_at);
    }
    for v in it: values.into_iter()
        invariant
            it.seq() == vs,
            vs == coerced(value),
            dm == query_schema.data_model,
            g0 == *old(graph),
            g0.has(*parent_node),
            handled_kind(*parent_relation_field),
            coc_fold(dm, *child_model, vs, vs.len()) is Some,
            coc_fold(dm, *child_model, vs, it.index() as nat) == Option::Some(Ok::<
                Seq<(FilterDesc, (Seq<(Seq<char>, OpDesc)>, Seq<(Seq<char>, ParsedInputMap)>))>,
                ErrorDesc,
            >(ds)),
            graph.wf(),
            graph.extends(g0),
            coc_all_at(*graph, *parent_node, *parent_relation_field, *child_model, ds, ps, out@),
    {
        let ghost j = it.index() as int;
        let ghost gv = v;
        let ghost before = *graph;
        proof {
            assert(gv == vs[j]);
            lemma_fold_later(dm, *child_model, vs, (j + 1) as nat, vs.len());
        }
        let nested = match connect_or_create_one(graph, query_schema, parent_node, parent_relation_field, v, child_model) {
            Ok(n) => n,
            Err(e) => {
                proof {
                    lemma_fold_later(dm, *child_model, vs, (j + 1) as nat, vs.len());
                    crate::write_utils::lemma_extends_trans(*graph, before, g0);
                }
                return Err(e);
            },
        };
        proof {
            reveal(coc_all_at);
            let x = coc_desc(dm, *child_model, gv)->Some_0->Ok_0;
            let f = choose|f: Filter|
                described(f, x.0) && #[trigger] coc_appended(
                    *graph,
                    before,
                    *parent_node,
                    *parent_relation_field,
                    *child_model,
                    f,
                    x.1,
                    nested@,
                );
            let p = (before.nodes@.len() as int, before.edges@.len() as int, f);
            crate::write_utils::lemma_extends_trans(*graph, before, g0);
            let ds2 = ds.push(x);
            let ps2 = ps.push(p);
            let ns2 = out@.push(nested);
            assert forall|i: int| 0 <= i < ds2.len() implies described((#[trigger] ps2[i]).2, ds2[i].0) && coc_at(
                *graph,
                ps2[i].0,
                ps2[i].1,
                *parent_node,
                *parent_relation_field,
                *child_model,
                ps2[i].2,
                ds2[i].1,
                ns2[i]@,
            ) by {
                if i < ds.len() {
                    assert(ps2[i] == ps[i]);
                    assert(ds2[i] == ds[i]);
                    assert(ns2[i] == out@[i]);
                    assert(described(ps[i].2, ds[i].0));
                    lemma_coc_kept(
                        *graph,
                        before,
                        ps[i].0,
                        ps[i].1,
                        *parent_node,
                        *parent_relation_field,
                        *child_model,
                        ps[i].2,
                        ds[i].1,
                        out@[i]@,
                    );
                }
            }
            ds = ds2;
            ps = ps2;
        }
        out.push(nested);
    }
    proof {
        assert(coc_fold(dm, *child_model, vs, vs.len()) == Option::Some(Ok::<
            Seq<(FilterDesc, (Seq<(Seq<char>, OpDesc)>, Seq<(Seq<char>, ParsedInputMap)>))>,
            ErrorDesc,
        >(ds)));
        assert(coc_all_at(*graph, *parent_node, *parent_relation_field, *child_model, ds, ps, out@));
    }
    let r: Result<Vec<Vec<(String, ParsedInputMap)>>, QueryGraphBuilderError> = Ok(out);
    assert(coc_all_at(*graph, *parent_node, *parent_relation_field, *child_model, ds, ps, r->Ok_0@));
    assert(vs == coerced(value));
    assert(dm == query_schema.data_model);
    assert(coc_fold(query_schema.data_model, *child_model, coerced(value), coerced(value).len())->Some_0 == Ok::<
        Seq<(FilterDesc, (Seq<(Seq<char>, OpDesc)>, Seq<(Seq<char>, ParsedInputMap)>))>,
        ErrorDesc,
    >(ds));
    proof { lemma_outcome_ok(r, *graph, *parent_node, *parent_relation_field, *child_model, ds, ps); }
    assert(coc_outcome(
        r,
        *graph,
        *parent_node,
        *parent_relation_field,
        *child_model,
        coc_fold(query_schema.data_model, *child_model, coerced(value), coerced(value).len())->Some_0,
    ));
    r
}

/// The message when no parent record is found to inline the relation of `rf` into the child
/// of `child` that a connect-or-create creates (`create`) or updates (otherwise).
pub open spec fn inline_missing_text(child: Seq<char>, rf: RelationField, create: bool) -> Seq<char> {
    let op = if create {
        "create inlined relation for '"@ + rf.model@ + "' record(s)"@
    } else {
        "update inlined relation for '"@ + rf.model@ + "' record(s)"@
    };
    "No '"@ + child + "' record"@ + (" (needed to "@ + op + ")"@) + " was found for "@ + data_operation_text(
        DataOperation::NestedConnectOrCreate,
    ) + " on "@ + relation_kind_text(rf.relation.kind) + " relation '"@ + rf.relation.name@ + "'."@
}

/// A nested connect-or-create of one record of `child` on the one-to-many relation field
/// `rf` of `parent`, inlined on the child, with its nodes from `n` and its edges from `e` on
/// in `g`: the read of the record that `filter` selects (after the parent), an `if` that takes
/// its rows, the update of that record, which runs if there is one, and the creation of the
/// record from the writes that `d` describes (its nested writes being `nested`), which runs
/// otherwise; both take the parent's link into the child's.
#[verifier::opaque]
pub open spec fn inlined_child_at(
    g: QueryGraph,
    n: int,
    e: int,
    parent: NodeRef,
    rf: RelationField,
    child: Container,
    filter: Filter,
    d: (Seq<(Seq<char>, OpDesc)>, Seq<(Seq<char>, ParsedInputMap)>),
    nested: Seq<(String, ParsedInputMap)>,
) -> bool {
    let id = names(child.primary_identifier@);
    let read = NodeRef { id: n as usize };
    let iff = NodeRef { id: (n + 1) as usize };
    let update = NodeRef { id: (n + 2) as usize };
    let create = NodeRef { id: (n + 3) as usize };
    let parent_link = names(rf.linking_fields@);
    let child_link = names(rf.related_linking_fields@);
    &&& 0 <= n
    &&& 0 <= e
    &&& n + 4 <= g.nodes@.len()
    &&& e + 6 <= g.edges@.len()
    &&& g.nodes@[n] matches Node::Query(Query::Read(ReadQuery::Record { name, model, filter: f, selection }))
    &&& name@ == "read_ids_infallible"@ && model@ == child.name@ && same_filter(f, filter) && names(selection@)
        == selected(id, child_link)
    &&& g.nodes@[n + 1] == Node::Flow(Flow::IfNonEmpty)
    &&& is_update_placeholder(g.nodes@[n + 2], child.name@, filter)
    &&& g.nodes@[n + 3] matches Node::Query(Query::Write(WriteQuery::CreateRecord { model: m, args }))
    &&& m@ == child.name@ && writes_are(args, nested, d)
    &&& g.edges@[e] == (Edge { from: parent, to: read, dependency: Dependency::ExecutionOrder })
    &&& g.edges@[e + 1] == (Edge { from: iff, to: update, dependency: Dependency::Then })
    &&& g.edges@[e + 2] == (Edge { from: iff, to: create, dependency: Dependency::Else })
    &&& is_plain_edge(g.edges@[e + 3], read, iff, id, RowSink::IfCondition)
    &&& is_link_edge(g.edges@[e + 4], parent, create, parent_link, child_link, inline_missing_text(child.name@, rf, true))
    &&& is_link_edge(g.edges@[e + 5], parent, update, parent_link, child_link, inline_missing_text(child.name@, rf, false))
}

/// The link edge from `parent` to `target` of a connect-or-create inlined on the child.
fn add_inline_edge(
    graph: &mut QueryGraph,
    parent_node: &NodeRef,
    target: &NodeRef,
    rf: &RelationField,
    child_model: &Container,
    create: bool,
)
    requires
        old(graph).wf(),
        old(graph).has(*parent_node),
        old(graph).has(*target),
    ensures
        final(graph).nodes@ == old(graph).nodes@,
        final(graph).edges@.len() == old(graph).edges@.len() + 1,
        final(graph).marked@ == old(graph).marked@,
        final(graph).extends(*old(graph)),
        final(graph).wf(),
        is_link_edge(
            final(graph).edges@.last(),
            *parent_node,
            *target,
            names(rf.linking_fields@),
            names(rf.related_linking_fields@),
            inline_missing_text(child_model.name@, *rf, create),
        ),
{
    let needed = if create {
        DependentOperation::create_inlined_relation(rf.model.as_str())
    } else {
        DependentOperation::update_inlined_relation(rf.model.as_str())
    };
    let missing = MissingRelatedRecord::new(
        child_model.name.as_str(),
        &rf.relation,
        DataOperation::NestedConnectOrCreate,
        Option::Some(needed),
    );
    let e = missing.to_runtime_error();
    assert(missing.message() =~= inline_missing_text(child_model.name@, *rf, create));
    let ghost g0 = *graph;
    graph.create_edge(
        parent_node,
        target,
        Dependency::Projected {
            selection: copy_names(&rf.linking_fields),
            sink: RowSink::InjectLink(copy_names(&rf.related_linking_fields)),
            expectation: Option::Some(crate::query_graph::DataExpectation::NonEmptyRows(e)),
        },
    );
    proof { lemma_pushed_edge(*graph, g0); }
}

/// Plans a nested connect-or-create of one record of `child_model` on the one-to-many
/// relation field `parent_relation_field` of `parent_node`, inlined on the child: the record
/// that the unique filter of `where_map` selects takes the parent's link if it exists;
/// otherwise the record that `create_map` describes is created with it. The nested writes
/// of `create_map` come back.
fn read_or_create_inlined(
    graph: &mut QueryGraph,
    query_schema: &QuerySchema,
    parent_node: &NodeRef,
    parent_relation_field: &RelationField,
    filter: Filter,
    create_map: ParsedInputMap,
    child_model: &Container,
) -> (r: Result<Vec<(String, ParsedInputMap)>, QueryGraphBuilderError>)
    requires
        old(graph).wf(),
        old(graph).has(*parent_node),
    ensures
        final(graph).wf(),
        final(graph).extends(*old(graph)),
        match args_spec(query_schema.data_model, *child_model, create_map.entries@, create_map.entries@.len()) {
            Err(e) => r matches Err(x) && error_is(x, e),
            Ok(d) => r matches Ok(nested) && appended(*final(graph), *old(graph), 4, 6) && inlined_child_at(
                *final(graph),
                old(graph).nodes@.len() as int,
                old(graph).edges@.len() as int,
                *parent_node,
                *parent_relation_field,
                *child_model,
                filter,
                d,
                nested@,
            ),
        },
{
    let ghost g0 = *graph;
    let rf = parent_relation_field;
    let read_node = graph.create_node(
        read_id_infallible(
            child_model.name.as_str(),
            &child_model.primary_identifier,
            copy_names(&rf.related_linking_fields),
            copy_filter(&filter),
        ),
    );
    let ghost g1 = *graph;
    proof { lemma_pushed_node(g1, g0); }
    let if_node = graph.create_node(Node::Flow(Flow::IfNonEmpty));
    let ghost g2 = *graph;
    proof { lemma_pushed_node(g2, g1); lemma_extends_trans(g2, g1, g0); }
    let update_node = update_records_node_placeholder(graph, filter, child_model.name.as_str());
    let ghost g3 = *graph;
    proof { lemma_extends_trans(g3, g2, g0); }
    let (create_node, nested) = match create_record_node(graph, query_schema, child_model, create_map) {
        Ok(x) => x,
        Err(e) => return Err(e),
    };
    let ghost g4 = *graph;
    proof { lemma_extends_trans(g4, g3, g0); }
    graph.create_edge(parent_node, &read_node, Dependency::ExecutionOrder);
    let ghost g5 = *graph;
    proof { lemma_pushed_edge(g5, g4); }
    graph.create_edge(&if_node, &update_node, Dependency::Then);
    let ghost g6 = *graph;
    proof { lemma_pushed_edge(g6, g5); }
    graph.create_edge(&if_node, &create_node, Dependency::Else);
    let ghost g7 = *graph;
    proof { lemma_pushed_edge(g7, g6); }
    graph.create_edge(
        &read_node,
        &if_node,
        Dependency::Projected {
            selection: child_model.primary_identifier.clone(),
            sink: RowSink::IfCondition,
            expectation: Option::None,
        },
    );
    let ghost g8 = *graph;
    proof { lemma_pushed_edge(g8, g7); }
    add_inline_edge(graph, parent_node, &create_node, rf, child_model, true);
    let ghost g9 = *graph;
    add_inline_edge(graph, parent_node, &update_node, rf, child_model, false);
    let ghost g10 = *graph;
    proof {
        reveal(inlined_child_at);
        lemma_extends_trans(g10, g9, g8);
        lemma_extends_trans(g10, g8, g7);
        lemma_extends_trans(g10, g7, g6);
        lemma_extends_trans(g10, g6, g5);
        lemma_extends_trans(g10, g5, g4);
        lemma_extends_trans(g10, g4, g3);
        lemma_extends_trans(g10, g3, g2);
        lemma_extends_trans(g10, g2, g1);
        lemma_extends_trans(g10, g1, g0);
        lemma_extends_keeps(g10, g1);
        lemma_extends_keeps(g10, g2);
        lemma_extends_keeps(g10, g3);
        lemma_extends_keeps(g10, g4);
        lemma_extends_keeps(g10, g5);
        lemma_extends_keeps(g10, g6);
        lemma_extends_keeps(g10, g7);
        lemma_extends_keeps(g10, g8);
        lemma_extends_keeps(g10, g9);
        let n0 = g0.nodes@.len() as int;
        let e0 = g0.edges@.len() as int;
        assert(g10.nodes@[n0] == g1.nodes@[n0]);
        assert(g10.nodes@[n0 + 1] == g2.nodes@[n0 + 1]);
        assert(g10.nodes@[n0 + 2] == g3.nodes@[n0 + 2]);
        assert(g10.nodes@[n0 + 3] == g4.nodes@[n0 + 3]);
        assert(g10.edges@[e0] == g5.edges@[e0]);
        assert(g10.edges@[e0 + 1] == g6.edges@[e0 + 1]);
        assert(g10.edges@[e0 + 2] == g7.edges@[e0 + 2]);
        assert(g10.edges@[e0 + 3] == g8.edges@[e0 + 3]);
        assert(g10.edges@[e0 + 4] == g9.edges@[e0 + 4]);
        assert(appended(g10, g0, 4, 6));
        let d = args_spec(query_schema.data_model, *child_model, create_map.entries@, create_map.entries@.len())->Ok_0;
        assert(inlined_child_at(g10, n0, e0, *parent_node, *parent_relation_field, *child_model, filter, d, nested@));
    }
    Ok(nested)
}

/// Plans a nested connect-or-create on a many-to-many relation field: for each object of
/// `value` (one object or a list of them) the record that its `where` selects is connected
/// to the parent if it exists, and the record that its `create` describes is created and
/// connected otherwise. The nested writes of each `create` come back, in order, to be planned
/// below its record.
pub fn handle_many_to_many(
    graph: &mut QueryGraph,
    query_schema: &QuerySchema,
    parent_node: &NodeRef,
    parent_relation_field: &RelationField,
    value: ParsedInputValue,
    child_model: &Container,
) -> (r: Result<Vec<Vec<(String, ParsedInputMap)>>, QueryGraphBuilderError>)
    requires
        old(graph).wf(),
        old(graph).has(*parent_node),
        parent_relation_field.relation.kind == RelationKind::ManyToMany,
        coc_fold(query_schema.data_model, *child_model, coerced(value), coerced(value).len()) is Some,
    ensures
        final(graph).wf(),
        final(graph).extends(*old(graph)),
        coc_outcome(
            r,
            *final(graph),
            *parent_node,
            *parent_relation_field,
            *child_model,
            coc_fold(query_schema.data_model, *child_model, coerced(value), coerced(value).len())->Some_0,
        ),
{
    connect_or_create_each(graph, query_schema, parent_node, parent_relation_field, value, child_model)
}

/// Plans a nested connect-or-create on a one-to-many relation field inlined on the child:
/// for each object of `value` (one object or a list of them) the record that its `where`
/// selects is updated with the parent's link if it exists, and the record that its `create`
/// describes is created with it otherwise. The nested writes of each `create` come back, in
/// order, to be planned below its record.
pub fn one_to_many_inlined_child(
    graph: &mut QueryGraph,
    query_schema: &QuerySchema,
    parent_node: &NodeRef,
    parent_relation_field: &RelationField,
    value: ParsedInputValue,
    child_model: &Container,
) -> (r: Result<Vec<Vec<(String, ParsedInputMap)>>, QueryGraphBuilderError>)
    requires
        old(graph).wf(),
        old(graph).has(*parent_node),
        parent_relation_field.relation.kind == RelationKind::OneToMany,
        !parent_relation_field.inlined_in_parent,
        coc_fold(query_schema.data_model, *child_model, coerced(value), coerced(value).len()) is Some,
    ensures
        final(graph).wf(),
        final(graph).extends(*old(graph)),
        coc_outcome(
            r,
            *final(graph),
            *parent_node,
            *parent_relation_field,
            *child_model,
            coc_fold(query_schema.data_model, *child_model, coerced(value), coerced(value).len())->Some_0,
        ),
{
    connect_or_create_each(graph, query_schema, parent_node, parent_relation_field, value, child_model)
}


/// The decision of a connect-or-create on a relation inlined on the parent, at the nodes from
/// `n` and the edges from `e` of `g`: two returns of the child's link, the `if` on the rows
/// of `read` choosing the first or else `create`, the parent taking the link that the `if`
/// hands on, and each return fed by the record read or created.
#[verifier::opaque]
pub open spec fn parent_link_at(
    g: QueryGraph,
    n: int,
    e: int,
    parent: NodeRef,
    rf: RelationField,
    child: Container,
    read: NodeRef,
    iff: NodeRef,
    create: NodeRef,
) -> bool {
    let id = names(child.primary_identifier@);
    let return_existing = NodeRef { id: n as usize };
    let return_created = NodeRef { id: (n + 1) as usize };
    let parent_link = names(rf.linking_fields@);
    let child_link = names(rf.related_linking_fields@);
    &&& g.nodes@[n] == Node::Flow(Flow::Return)
    &&& g.nodes@[n + 1] == Node::Flow(Flow::Return)
    &&& is_plain_edge(g.edges@[e], read, iff, id, RowSink::IfCondition)
    &&& g.edges@[e + 1] == (Edge { from: iff, to: return_existing, dependency: Dependency::Then })
    &&& g.edges@[e + 2] == (Edge { from: iff, to: create, dependency: Dependency::Else })
    &&& crate::write_utils::is_projected(g.edges@[e + 3], iff, parent, child_link)
    &&& g.edges@[e + 3].dependency->sink matches RowSink::InjectLink(l)
    &&& names(l@) == parent_link
    &&& g.edges@[e + 3].dependency->expectation is None
    &&& is_plain_edge(g.edges@[e + 4], read, return_existing, child_link, RowSink::Returned)
    &&& is_plain_edge(g.edges@[e + 5], create, return_created, child_link, RowSink::Returned)
}

/// Adds the decision of a connect-or-create on a relation inlined on the parent, as
/// `parent_link_at` says.
fn add_parent_link(
    graph: &mut QueryGraph,
    parent_node: &NodeRef,
    rf: &RelationField,
    child_model: &Container,
    read_node: &NodeRef,
    if_node: &NodeRef,
    create_node: &NodeRef,
)
    requires
        old(graph).wf(),
        old(graph).has(*parent_node),
        old(graph).has(*read_node),
        old(graph).has(*if_node),
        old(graph).has(*create_node),
    ensures
        appended(*final(graph), *old(graph), 2, 6),
        parent_link_at(
            *final(graph),
            old(graph).nodes@.len() as int,
            old(graph).edges@.len() as int,
            *parent_node,
            *rf,
            *child_model,
            *read_node,
            *if_node,
            *create_node,
        ),
{
    let ghost g0 = *graph;
    let return_existing = graph.create_node(Node::Flow(Flow::Return));
    let ghost g1 = *graph;
    proof { lemma_pushed_node(g1, g0); }
    let return_create = graph.create_node(Node::Flow(Flow::Return));
    let ghost g2 = *graph;
    proof { lemma_pushed_node(g2, g1); lemma_extends_trans(g2, g1, g0); }
    graph.create_edge(
        read_node,
        if_node,
        Dependency::Projected {
            selection: child_model.primary_identifier.clone(),
            sink: RowSink::IfCondition,
            expectation: Option::None,
        },
    );
    let ghost g3 = *graph;
    graph.create_edge(if_node, &return_existing, Dependency::Then);
    let ghost g4 = *graph;
    graph.create_edge(if_node, create_node, Dependency::Else);
    let ghost g5 = *graph;
    graph.create_edge(
        if_node,
        parent_node,
        Dependency::Projected {
            selection: copy_names(&rf.related_linking_fields),
            sink: RowSink::InjectLink(copy_names(&rf.linking_fields)),
            expectation: Option::None,
        },
    );
    let ghost g6 = *graph;
    graph.create_edge(
        read_node,
        &return_existing,
        Dependency::Projected {
            selection: copy_names(&rf.related_linking_fields),
            sink: RowSink::Returned,
            expectation: Option::None,
        },
    );
    let ghost g7 = *graph;
    graph.create_edge(
        create_node,
        &return_create,
        Dependency::Projected {
            selection: copy_names(&rf.related_linking_fields),
            sink: RowSink::Returned,
            expectation: Option::None,
        },
    );
    let ghost g8 = *graph;
    proof {
        reveal(parent_link_at);
        lemma_pushed_edge(g3, g2);
        lemma_pushed_edge(g4, g3);
        lemma_pushed_edge(g5, g4);
        lemma_pushed_edge(g6, g5);
        lemma_pushed_edge(g7, g6);
        lemma_pushed_edge(g8, g7);
        lemma_extends_trans(g8, g7, g6);
        lemma_extends_trans(g8, g6, g5);
        lemma_extends_trans(g8, g5, g4);
        lemma_extends_trans(g8, g4, g3);
        lemma_extends_trans(g8, g3, g2);
        lemma_extends_trans(g8, g2, g0);
        lemma_extends_keeps(g8, g3);
        lemma_extends_keeps(g8, g4);
        lemma_extends_keeps(g8, g5);
        lemma_extends_keeps(g8, g6);
        lemma_extends_keeps(g8, g7);
        let n0 = g0.nodes@.len() as int;
        let e0 = g0.edges@.len() as int;
        assert(g8.nodes@[n0] == g1.nodes@[n0]);
        assert(g8.nodes@[n0 + 1] == g2.nodes@[n0 + 1]);
        assert(g8.edges@[e0] == g3.edges@[e0]);
        assert(g8.edges@[e0 + 1] == g4.edges@[e0 + 1]);
        assert(g8.edges@[e0 + 2] == g5.edges@[e0 + 2]);
        assert(g8.edges@[e0 + 3] == g6.edges@[e0 + 3]);
        assert(g8.edges@[e0 + 4] == g7.edges@[e0 + 4]);
    }
}

/// The start of a nested connect-or-create on a relation inlined on the parent, at the
/// nodes from `n` and the edges from `e` of `g`: the read of the child record that `filter`
/// selects, which runs after `parent` (and last of the marked pairs, in its place); an `if`
/// on its rows; and the creation of the record from the writes that `d` describes, its
/// nested writes being `nested`.
#[verifier::opaque]
pub open spec fn parent_head_at(
    g: QueryGraph,
    n: int,
    e: int,
    parent: NodeRef,
    rf: RelationField,
    child: Container,
    filter: Filter,
    d: (Seq<(Seq<char>, OpDesc)>, Seq<(Seq<char>, ParsedInputMap)>),
    nested: Seq<(String, ParsedInputMap)>,
) -> bool {
    let read = NodeRef { id: n as usize };
    &&& g.marked@.last() == (parent, read)
    &&& g.nodes@[n] matches Node::Query(Query::Read(ReadQuery::Record { name, model, filter: f, selection }))
    &&& name@ == "read_ids_infallible"@ && model@ == child.name@ && f == filter && names(selection@) == selected(
        names(child.primary_identifier@),
        names(rf.related_linking_fields@),
    )
    &&& g.nodes@[n + 1] == Node::Flow(Flow::IfNonEmpty)
    &&& g.nodes@[n + 2] matches Node::Query(Query::Write(WriteQuery::CreateRecord { model: m, args }))
    &&& m@ == child.name@ && writes_are(args, nested, d)
    &&& g.edges@[e] == (Edge { from: parent, to: read, dependency: Dependency::ExecutionOrder })
}

/// The graph of a nested connect-or-create on the one-to-many relation field `rf` of
/// `parent`, inlined on the parent, appended to `old`: the start of `parent_head_at`, then the
/// decision of `parent_link_at`, by which the parent takes the link of the record read or
/// created.
#[verifier::opaque]
pub open spec fn inlined_parent_at(
    g: QueryGraph,
    old: QueryGraph,
    parent: NodeRef,
    rf: RelationField,
    child: Container,
    filter: Filter,
    d: (Seq<(Seq<char>, OpDesc)>, Seq<(Seq<char>, ParsedInputMap)>),
    nested: Seq<(String, ParsedInputMap)>,
) -> bool {
    let n = old.nodes@.len() as int;
    let e = old.edges@.len() as int;
    &&& crate::write_utils::appended_with(g, old, 5, 7, 1)
    &&& parent_head_at(g, n, e, parent, rf, child, filter, d, nested)
    &&& parent_link_at(
        g,
        n + 3,
        e + 1,
        parent,
        rf,
        child,
        NodeRef { id: n as usize },
        NodeRef { id: (n + 1) as usize },
        NodeRef { id: (n + 2) as usize },
    )
}

/// The start of a connect-or-create inlined on the parent stays as the graph grows with no
/// node marked.
pub proof fn lemma_parent_head_kept(
    g2: QueryGraph,
    g1: QueryGraph,
    n: int,
    e: int,
    parent: NodeRef,
    rf: RelationField,
    child: Container,
    filter: Filter,
    d: (Seq<(Seq<char>, OpDesc)>, Seq<(Seq<char>, ParsedInputMap)>),
    nested: Seq<(String, ParsedInputMap)>,
)
    requires
        g2.grows(g1),
        g2.marked@.len() == g1.marked@.len(),
        0 <= n && n + 3 <= g1.nodes@.len(),
        0 <= e && e + 1 <= g1.edges@.len(),
        parent_head_at(g1, n, e, parent, rf, child, filter, d, nested),
    ensures
        parent_head_at(g2, n, e, parent, rf, child, filter, d, nested),
{
    reveal(parent_head_at);
    lemma_extends_keeps(g2, g1);
    assert(g2.marked@ =~= g1.marked@) by {
        assert(g2.marked@.take(g1.marked@.len() as int) == g1.marked@);
    }
    assert(g2.nodes@[n] == g1.nodes@[n]);
    assert(g2.nodes@[n + 1] == g1.nodes@[n + 1]);
    assert(g2.nodes@[n + 2] == g1.nodes@[n + 2]);
    assert(g2.edges@[e] == g1.edges@[e]);
}

/// Adds the start of a nested connect-or-create on a relation inlined on the parent, as
/// `parent_head_at` says, and returns the creation node and the nested writes of
/// `create_map`.
fn add_parent_head(
    graph: &mut QueryGraph,
    query_schema: &QuerySchema,
    parent_node: &NodeRef,
    rf: &RelationField,
    filter: Filter,
    create_map: ParsedInputMap,
    child_model: &Container,
) -> (r: Result<Vec<(String, ParsedInputMap)>, QueryGraphBuilderError>)
    requires
        old(graph).wf(),
        old(graph).has(*parent_node),
    ensures
        final(graph).wf(),
        final(graph).grows(*old(graph)),
        match args_spec(query_schema.data_model, *child_model, create_map.entries@, create_map.entries@.len()) {
            Err(e) => r matches Err(x) && error_is(x, e),
            Ok(d) => r matches Ok(nested) && crate::write_utils::appended_with(*final(graph), *old(graph), 3, 1, 1)
                && parent_head_at(
                *final(graph),
                old(graph).nodes@.len() as int,
                old(graph).edges@.len() as int,
                *parent_node,
                *rf,
                *child_model,
                filter,
                d,
                nested@,
            ),
        },
{
    let ghost g0 = *graph;
    let read_node = graph.create_node(
        read_id_infallible(
            child_model.name.as_str(),
            &child_model.primary_identifier,
            copy_names(&rf.related_linking_fields),
            filter,
        ),
    );
    let ghost g1 = *graph;
    proof { lemma_pushed_node(g1, g0); }
    graph.mark_nodes(parent_node, &read_node);
    let ghost g2 = *graph;
    proof {
        assert(g2.nodes@.take(g1.nodes@.len() as int) =~= g1.nodes@);
        assert(g2.edges@.take(g1.edges@.len() as int) =~= g1.edges@);
        assert(g2.marked@.take(g1.marked@.len() as int) =~= g1.marked@);
        assert(g2.result_nodes@.take(g1.result_nodes@.len() as int) =~= g1.result_nodes@);
        lemma_extends_trans(g2, g1, g0);
    }
    graph.create_edge(parent_node, &read_node, Dependency::ExecutionOrder);
    let ghost g3 = *graph;
    proof { lemma_pushed_edge(g3, g2); lemma_extends_trans(g3, g2, g0); }
    let _if_node = graph.create_node(Node::Flow(Flow::IfNonEmpty));
    let ghost g4 = *graph;
    proof { lemma_pushed_node(g4, g3); lemma_extends_trans(g4, g3, g0); }
    let (_create_node, nested) = match create_record_node(graph, query_schema, child_model, create_map) {
        Ok(x) => x,
        Err(e) => return Err(e),
    };
    let ghost g5 = *graph;
    proof {
        lemma_extends_trans(g5, g4, g3);
        lemma_extends_trans(g5, g3, g2);
        lemma_extends_trans(g5, g2, g1);
        lemma_extends_trans(g5, g1, g0);
        lemma_extends_keeps(g5, g1);
        lemma_extends_keeps(g5, g3);
        lemma_extends_keeps(g5, g4);
        let n0 = g0.nodes@.len() as int;
        let e0 = g0.edges@.len() as int;
        assert(g5.nodes@[n0] == g1.nodes@[n0]);
        assert(g5.nodes@[n0 + 1] == g4.nodes@[n0 + 1]);
        assert(g5.edges@[e0] == g3.edges@[e0]);
        assert(g5.marked@ == g2.marked@);
        reveal(parent_head_at);
    }
    Ok(nested)
}

/// Adds the read of the record of `child_model` that `filter` selects, run in place of
/// `parent_node`, the creation of the record that `create_map` describes, and the decision by
/// which the parent takes the link of the one or the other; the nested writes of `create_map`
/// come back.
fn read_or_create_for_parent(
    graph: &mut QueryGraph,
    query_schema: &QuerySchema,
    parent_node: &NodeRef,
    rf: &RelationField,
    filter: Filter,
    create_map: ParsedInputMap,
    child_model: &Container,
) -> (r: Result<Vec<(String, ParsedInputMap)>, QueryGraphBuilderError>)
    requires
        old(graph).wf(),
        old(graph).has(*parent_node),
    ensures
        final(graph).wf(),
        final(graph).grows(*old(graph)),
        match args_spec(query_schema.data_model, *child_model, create_map.entries@, create_map.entries@.len()) {
            Err(e) => r matches Err(x) && error_is(x, e),
            Ok(d) => r matches Ok(nested) && inlined_parent_at(
                *final(graph),
                *old(graph),
                *parent_node,
                *rf,
                *child_model,
                filter,
                d,
                nested@,
            ),
        },
{
    let ghost g0 = *graph;
    let ghost gc = create_map;
    let ghost gf = filter;
    let nested = match add_parent_head(graph, query_schema, parent_node, rf, filter, create_map, child_model) {
        Ok(x) => x,
        Err(e) => return Err(e),
    };
    let ghost g1 = *graph;
    let n0 = graph.nodes.len() - 3;
    let read_node = NodeRef { id: n0 };
    let if_node = NodeRef { id: n0 + 1 };
    let create_node = NodeRef { id: n0 + 2 };
    add_parent_link(graph, parent_node, rf, child_model, &read_node, &if_node, &create_node);
    proof {
        let n = g0.nodes@.len() as int;
        let e = g0.edges@.len() as int;
        let d = args_spec(query_schema.data_model, *child_model, gc.entries@, gc.entries@.len())->Ok_0;
        lemma_extends_trans(*graph, g1, g0);
        lemma_parent_head_kept(*graph, g1, n, e, *parent_node, *rf, *child_model, gf, d, nested@);
        reveal(inlined_parent_at);
    }
    Ok(nested)
}

/// Plans a nested connect-or-create on a one-to-many relation field inlined on the parent,
/// of the last object of `value`: the child record that its `where` selects, or else the one
/// that its `create` describes, created, hands its link to the parent. The nested writes of
/// the `create` come back.
pub fn one_to_many_inlined_parent(
    graph: &mut QueryGraph,
    query_schema: &QuerySchema,
    parent_node: &NodeRef,
    parent_relation_field: &RelationField,
    value: ParsedInputValue,
    child_model: &Container,
) -> (r: Result<Vec<(String, ParsedInputMap)>, QueryGraphBuilderError>)
    requires
        old(graph).wf(),
        old(graph).has(*parent_node),
        parent_relation_field.relation.kind == RelationKind::OneToMany,
        parent_relation_field.inlined_in_parent,
        coerced(value).len() > 0,
        coc_desc(query_schema.data_model, *child_model, coerced(value).last()) is Some,
    ensures
        final(graph).wf(),
        final(graph).grows(*old(graph)),
        match coc_desc(query_schema.data_model, *child_model, coerced(value).last())->Some_0 {
            Err(e) => r matches Err(x) && error_is(x, e),
            Ok(x) => r matches Ok(nested) && exists|f: Filter|
                described(f, x.0) && #[trigger] inlined_parent_at(
                    *final(graph),
                    *old(graph),
                    *parent_node,
                    *parent_relation_field,
                    *child_model,
                    f,
                    x.1,
                    nested@,
                ),
        },
{
    let ghost dm = query_schema.data_model;
    let ghost g0 = *graph;
    proof { lemma_extends_refl_here(*graph); }
    let mut values = coerce_vec(value);
    let v = values.pop().unwrap();
    let ghost gv = v;
    let (filter, create_map) = match coc_inputs(v, child_model, Ghost(dm)) {
        Ok(x) => x,
        Err(e) => return Err(e),
    };
    let ghost gf = filter;
    let ghost gc = create_map;
    let r = read_or_create_for_parent(graph, query_schema, parent_node, parent_relation_field, filter, create_map, child_model);
    proof {
        match args_spec(dm, *child_model, gc.entries@, gc.entries@.len()) {
            Err(_) => {},
            Ok(d) => {
                let x = coc_desc(dm, *child_model, gv)->Some_0->Ok_0;
                assert(x.1 == d);
                assert(inlined_parent_at(*graph, g0, *parent_node, *parent_relation_field, *child_model, gf, x.1, r->Ok_0@));
                assert(described(gf, x.0));
            },
        }
    }
    r
}

/// The decision of a connect-or-create on a one-to-one relation inlined on the parent, at
/// the nodes from `n` and the edges from `e` of `g`: two returns of the child's link; the
/// `if` on the rows of `read`; the checks for a parent that the record read has already
/// (through `crf`, the relation field on the child's side), run if it exists and followed by
/// the return of its link; and else the creation `create`, followed by the return of the
/// link of the record created.
#[verifier::opaque]
pub open spec fn one_to_one_decision_at(
    g: QueryGraph,
    n: int,
    e: int,
    rf: RelationField,
    crf: RelationField,
    child: Container,
    read: NodeRef,
    iff: NodeRef,
    create: NodeRef,
) -> bool {
    let return_existing = NodeRef { id: n as usize };
    let return_created = NodeRef { id: (n + 1) as usize };
    let read_existing_parent = NodeRef { id: (n + 2) as usize };
    let child_link = names(rf.related_linking_fields@);
    &&& g.nodes@[n] == Node::Flow(Flow::Return)
    &&& g.nodes@[n + 1] == Node::Flow(Flow::Return)
    &&& is_plain_edge(g.edges@[e], read, iff, names(child.primary_identifier@), RowSink::IfCondition)
    &&& checks_at(g, n + 2, e + 1, read, crf)
    &&& g.edges@[e + 5] == (Edge { from: iff, to: read_existing_parent, dependency: Dependency::Then })
    &&& g.edges@[e + 6] == (Edge {
        from: read_existing_parent,
        to: return_existing,
        dependency: Dependency::ExecutionOrder,
    })
    &&& is_plain_edge(g.edges@[e + 7], read, return_existing, child_link, RowSink::Returned)
    &&& g.edges@[e + 8] == (Edge { from: iff, to: create, dependency: Dependency::Else })
    &&& is_plain_edge(g.edges@[e + 9], create, return_created, child_link, RowSink::Returned)
}

/// The decision of a connect-or-create on a one-to-one relation stays as the graph grows.
pub proof fn lemma_one_to_one_decision_kept(
    g2: QueryGraph,
    g1: QueryGraph,
    n: int,
    e: int,
    rf: RelationField,
    crf: RelationField,
    child: Container,
    read: NodeRef,
    iff: NodeRef,
    create: NodeRef,
)
    requires
        g2.extends(g1),
        0 <= n && n + 5 <= g1.nodes@.len(),
        0 <= e && e + 10 <= g1.edges@.len(),
        one_to_one_decision_at(g1, n, e, rf, crf, child, read, iff, create),
    ensures
        one_to_one_decision_at(g2, n, e, rf, crf, child, read, iff, create),
{
    reveal(one_to_one_decision_at);
    lemma_extends_keeps(g2, g1);
    lemma_checks_kept(g2, g1, n + 2, e + 1, read, crf);
    assert(g2.nodes@[n] == g1.nodes@[n]);
    assert(g2.nodes@[n + 1] == g1.nodes@[n + 1]);
    assert(g2.edges@[e] == g1.edges@[e]);
    assert(g2.edges@[e + 5] == g1.edges@[e + 5]);
    assert(g2.edges@[e + 6] == g1.edges@[e + 6]);
    assert(g2.edges@[e + 7] == g1.edges@[e + 7]);
    assert(g2.edges@[e + 8] == g1.edges@[e + 8]);
    assert(g2.edges@[e + 9] == g1.edges@[e + 9]);
}

/// Adds the decision of a connect-or-create on a one-to-one relation inlined on the parent,
/// as `one_to_one_decision_at` says.
fn add_one_to_one_decision(
    graph: &mut QueryGraph,
    rf: &RelationField,
    crf: &RelationField,
    child_model: &Container,
    read_node: &NodeRef,
    if_node: &NodeRef,
    create_node: &NodeRef,
)
    requires
        old(graph).wf(),
        old(graph).has(*read_node),
        old(graph).has(*if_node),
        old(graph).has(*create_node),
    ensures
        appended(*final(graph), *old(graph), 5, 10),
        one_to_one_decision_at(
            *final(graph),
            old(graph).nodes@.len() as int,
            old(graph).edges@.len() as int,
            *rf,
            *crf,
            *child_model,
            *read_node,
            *if_node,
            *create_node,
        ),
{
    let ghost g0 = *graph;
    let return_existing = graph.create_node(Node::Flow(Flow::Return));
    let ghost g1 = *graph;
    proof { lemma_pushed_node(g1, g0); }
    let return_create = graph.create_node(Node::Flow(Flow::Return));
    let ghost g2 = *graph;
    proof { lemma_pushed_node(g2, g1); lemma_extends_trans(g2, g1, g0); }
    graph.create_edge(
        read_node,
        if_node,
        Dependency::Projected {
            selection: child_model.primary_identifier.clone(),
            sink: RowSink::IfCondition,
            expectation: Option::None,
        },
    );
    let ghost g3 = *graph;
    proof { lemma_pushed_edge(g3, g2); lemma_extends_trans(g3, g2, g0); }
    let read_ex_parent_node = insert_existing_1to1_related_model_checks(graph, read_node, crf);
    let ghost g4 = *graph;
    proof { lemma_extends_trans(g4, g3, g0); }
    graph.create_edge(if_node, &read_ex_parent_node, Dependency::Then);
    let ghost g5 = *graph;
    graph.create_edge(&read_ex_parent_node, &return_existing, Dependency::ExecutionOrder);
    let ghost g6 = *graph;
    graph.create_edge(
        read_node,
        &return_existing,
        Dependency::Projected {
            selection: copy_names(&rf.related_linking_fields),
            sink: RowSink::Returned,
            expectation: Option::None,
        },
    );
    let ghost g7 = *graph;
    graph.create_edge(if_node, create_node, Dependency::Else);
    let ghost g8 = *graph;
    graph.create_edge(
        create_node,
        &return_create,
        Dependency::Projected {
            selection: copy_names(&rf.related_linking_fields),
            sink: RowSink::Returned,
            expectation: Option::None,
        },
    );
    let ghost g9 = *graph;
    proof {
        reveal(one_to_one_decision_at);
        lemma_pushed_edge(g5, g4);
        lemma_pushed_edge(g6, g5);
        lemma_pushed_edge(g7, g6);
        lemma_pushed_edge(g8, g7);
        lemma_pushed_edge(g9, g8);
        lemma_extends_trans(g9, g8, g7);
        lemma_extends_trans(g9, g7, g6);
        lemma_extends_trans(g9, g6, g5);
        lemma_extends_trans(g9, g5, g4);
        lemma_extends_trans(g9, g4, g3);
        lemma_extends_trans(g9, g3, g2);
        lemma_extends_trans(g9, g2, g0);
        lemma_extends_keeps(g9, g3);
        lemma_extends_keeps(g9, g5);
        lemma_extends_keeps(g9, g6);
        lemma_extends_keeps(g9, g7);
        lemma_extends_keeps(g9, g8);
        let n0 = g0.nodes@.len() as int;
        let e0 = g0.edges@.len() as int;
        lemma_checks_kept(g9, g4, n0 + 2, e0 + 1, *read_node, *crf);
        assert(g9.nodes@[n0] == g1.nodes@[n0]);
        assert(g9.nodes@[n0 + 1] == g2.nodes@[n0 + 1]);
        assert(g9.edges@[e0] == g3.edges@[e0]);
        assert(g9.edges@[e0 + 5] == g5.edges@[e0 + 5]);
        assert(g9.edges@[e0 + 6] == g6.edges@[e0 + 6]);
        assert(g9.edges@[e0 + 7] == g7.edges@[e0 + 7]);
        assert(g9.edges@[e0 + 8] == g8.edges@[e0 + 8]);
    }
}

/// How the parent of a connect-or-create on a one-to-one relation inlined on it takes the
/// link that the `if` hands on, at the nodes from `n` and the edges from `e` of `g`. A parent
/// being created (`create`) takes it into its own arguments. Any other parent runs after the
/// `if`, with the checks for a child that it has already, and an update of the parent, which
/// the parent's identifier selects, takes the link; each of the two edges of that update
/// raises the error of a missing record without a row.
#[verifier::opaque]
pub open spec fn one_to_one_parent_at(
    g: QueryGraph,
    n: int,
    e: int,
    parent: NodeRef,
    rf: RelationField,
    child: Container,
    iff: NodeRef,
    create: bool,
) -> bool {
    let child_link = names(rf.related_linking_fields@);
    let parent_link = names(rf.linking_fields@);
    let update = NodeRef { id: (n + 3) as usize };
    let m = inline_missing_text(child.name@, rf, false);
    if create {
        &&& crate::write_utils::is_projected(g.edges@[e], iff, parent, child_link)
        &&& g.edges@[e].dependency->sink matches RowSink::InjectLink(l)
        &&& names(l@) == parent_link
        &&& g.edges@[e].dependency->expectation is None
    } else {
        &&& g.edges@[e] == (Edge { from: iff, to: parent, dependency: Dependency::ExecutionOrder })
        &&& checks_at(g, n, e + 1, parent, rf)
        &&& is_update_placeholder(g.nodes@[n + 3], rf.model@, Filter::Empty)
        &&& is_filter_edge(g.edges@[e + 5], parent, update, names(rf.model_identifier@), m)
        &&& is_link_edge(g.edges@[e + 6], iff, update, child_link, parent_link, m)
    }
}

/// Adds how the parent of a connect-or-create on a one-to-one relation inlined on it takes
/// the link, as `one_to_one_parent_at` says.
fn add_one_to_one_parent_update(
    graph: &mut QueryGraph,
    parent_node: &NodeRef,
    rf: &RelationField,
    child_model: &Container,
    if_node: &NodeRef,
)
    requires
        old(graph).wf(),
        old(graph).has(*parent_node),
        old(graph).has(*if_node),
    ensures
        is_create_node(old(graph).nodes@[parent_node.id as int]) ==> appended(*final(graph), *old(graph), 0, 1),
        !is_create_node(old(graph).nodes@[parent_node.id as int]) ==> appended(*final(graph), *old(graph), 4, 7),
        one_to_one_parent_at(
            *final(graph),
            old(graph).nodes@.len() as int,
            old(graph).edges@.len() as int,
            *parent_node,
            *rf,
            *child_model,
            *if_node,
            is_create_node(old(graph).nodes@[parent_node.id as int]),
        ),
{
    let ghost g0 = *graph;
    let n0 = graph.nodes.len();
    if node_is_create(graph, parent_node) {
        graph.create_edge(
            if_node,
            parent_node,
            Dependency::Projected {
                selection: copy_names(&rf.related_linking_fields),
                sink: RowSink::InjectLink(copy_names(&rf.linking_fields)),
                expectation: Option::None,
            },
        );
        proof {
            reveal(one_to_one_parent_at);
            lemma_pushed_edge(*graph, g0);
        }
    } else {
        graph.create_edge(if_node, parent_node, Dependency::ExecutionOrder);
        let ghost g1 = *graph;
        proof { lemma_pushed_edge(g1, g0); }
        insert_existing_1to1_related_model_checks(graph, parent_node, rf);
        let ghost g2 = *graph;
        let update_parent_node = update_records_node_placeholder(graph, Filter::Empty, rf.model.as_str());
        let ghost g3 = *graph;
        let missing = MissingRelatedRecord::new(
            child_model.name.as_str(),
            &rf.relation,
            DataOperation::NestedConnectOrCreate,
            Option::Some(DependentOperation::update_inlined_relation(rf.model.as_str())),
        );
        assert(missing.message() =~= inline_missing_text(child_model.name@, *rf, false));
        graph.create_edge(
            parent_node,
            &update_parent_node,
            Dependency::Projected {
                selection: copy_names(&rf.model_identifier),
                sink: RowSink::AddFilter,
                expectation: Option::Some(DataExpectation::NonEmptyRows(missing.to_runtime_error())),
            },
        );
        let ghost g4 = *graph;
        graph.create_edge(
            if_node,
            &update_parent_node,
            Dependency::Projected {
                selection: copy_names(&rf.related_linking_fields),
                sink: RowSink::InjectLink(copy_names(&rf.linking_fields)),
                expectation: Option::Some(DataExpectation::NonEmptyRows(missing.to_runtime_error())),
            },
        );
        let ghost g5 = *graph;
        proof {
            reveal(one_to_one_parent_at);
            lemma_pushed_edge(g4, g3);
            lemma_pushed_edge(g5, g4);
            lemma_extends_trans(g5, g4, g3);
            lemma_extends_trans(g5, g3, g2);
            lemma_extends_trans(g5, g2, g1);
            lemma_extends_trans(g5, g1, g0);
            lemma_extends_keeps(g5, g1);
            lemma_extends_keeps(g5, g3);
            lemma_extends_keeps(g5, g4);
            let e0 = g0.edges@.len() as int;
            lemma_checks_kept(g5, g2, n0 as int, e0 + 1, *parent_node, *rf);
            assert(g5.edges@[e0] == g1.edges@[e0]);
            assert(g5.nodes@[n0 + 3] == g3.nodes@[n0 + 3]);
            assert(g5.edges@[e0 + 5] == g4.edges@[e0 + 5]);
        }
    }
}

/// The graph of a nested connect-or-create on the one-to-one relation field `rf` of
/// `parent`, inlined on the parent, appended to `old` (`crf` being the relation field on the
/// child's side): the start of `parent_head_at`, the decision of `one_to_one_decision_at` and
/// the taking of the link by the parent of `one_to_one_parent_at`, which depends on whether
/// the parent is being created.
#[verifier::opaque]
pub open spec fn one_to_one_inlined_parent_at(
    g: QueryGraph,
    old: QueryGraph,
    parent: NodeRef,
    rf: RelationField,
    crf: RelationField,
    child: Container,
    filter: Filter,
    d: (Seq<(Seq<char>, OpDesc)>, Seq<(Seq<char>, ParsedInputMap)>),
    nested: Seq<(String, ParsedInputMap)>,
) -> bool {
    let n = old.nodes@.len() as int;
    let e = old.edges@.len() as int;
    let c = is_create_node(old.nodes@[parent.id as int]);
    let read = NodeRef { id: n as usize };
    let iff = NodeRef { id: (n + 1) as usize };
    let create = NodeRef { id: (n + 2) as usize };
    &&& crate::write_utils::appended_with(g, old, if c { 8 } else { 12 }, if c { 12 } else { 18 }, 1)
    &&& parent_head_at(g, n, e, parent, rf, child, filter, d, nested)
    &&& one_to_one_decision_at(g, n + 3, e + 1, rf, crf, child, read, iff, create)
    &&& one_to_one_parent_at(g, n + 8, e + 11, parent, rf, child, iff, c)
}

/// Plans a nested connect-or-create on a one-to-one relation field inlined on the parent:
/// the child record that `filter` selects, or else the one that `create_map` describes,
/// created, hands its link to the parent; `child_relation_field` is the relation field on the
/// child's side. The nested writes of `create_map` come back.
pub fn one_to_one_inlined_parent(
    graph: &mut QueryGraph,
    query_schema: &QuerySchema,
    parent_node: &NodeRef,
    parent_relation_field: &RelationField,
    child_relation_field: &RelationField,
    filter: Filter,
    create_map: ParsedInputMap,
    child_model: &Container,
) -> (r: Result<Vec<(String, ParsedInputMap)>, QueryGraphBuilderError>)
    requires
        old(graph).wf(),
        old(graph).has(*parent_node),
    ensures
        final(graph).wf(),
        final(graph).grows(*old(graph)),
        match args_spec(query_schema.data_model, *child_model, create_map.entries@, create_map.entries@.len()) {
            Err(e) => r matches Err(x) && error_is(x, e),
            Ok(d) => r matches Ok(nested) && one_to_one_inlined_parent_at(
                *final(graph),
                *old(graph),
                *parent_node,
                *parent_relation_field,
                *child_relation_field,
                *child_model,
                filter,
                d,
                nested@,
            ),
        },
{
    let ghost g0 = *graph;
    let ghost gc = create_map;
    let ghost gf = filter;
    let rf = parent_relation_field;
    let nested = match add_parent_head(graph, query_schema, parent_node, rf, filter, create_map, child_model) {
        Ok(x) => x,
        Err(e) => return Err(e),
    };
    let ghost g1 = *graph;
    let n0 = graph.nodes.len() - 3;
    let read_node = NodeRef { id: n0 };
    let if_node = NodeRef { id: n0 + 1 };
    let create_node = NodeRef { id: n0 + 2 };
    add_one_to_one_decision(graph, rf, child_relation_field, child_model, &read_node, &if_node, &create_node);
    let ghost g2 = *graph;
    add_one_to_one_parent_update(graph, parent_node, rf, child_model, &if_node);
    proof {
        let n = g0.nodes@.len() as int;
        let e = g0.edges@.len() as int;
        let d = args_spec(query_schema.data_model, *child_model, gc.entries@, gc.entries@.len())->Ok_0;
        lemma_extends_trans(g2, g1, g0);
        lemma_extends_trans(*graph, g2, g1);
        lemma_extends_trans(*graph, g1, g0);
        lemma_extends_keeps(g2, g0);
        assert(g2.nodes@[parent_node.id as int] == g0.nodes@[parent_node.id as int]);
        lemma_parent_head_kept(*graph, g1, n, e, *parent_node, *rf, *child_model, gf, d, nested@);
        lemma_one_to_one_decision_kept(*graph, g2, n + 3, e + 1, *rf, *child_relation_field, *child_model, read_node, if_node, create_node);
        reveal(one_to_one_inlined_parent_at);
    }
    Ok(nested)
}

/// The message when no parent record of `rf` is found for the child of `child` that a
/// connect-or-create on a one-to-one relation inlined on the child creates (`create`) or
/// finds and updates (otherwise).
pub open spec fn child_missing_text(child: Seq<char>, rf: RelationField, create: bool) -> Seq<char> {
    let op = if create {
        "create inlined relation for '"@ + child + "' record(s)"@
    } else {
        "find '"@ + child + "' record(s)"@
    };
    "No '"@ + rf.model@ + "' record"@ + (" (needed to "@ + op + ")"@) + " was found for "@ + data_operation_text(
        DataOperation::NestedConnectOrCreate,
    ) + " on "@ + relation_kind_text(rf.relation.kind) + " relation '"@ + rf.relation.name@ + "'."@
}

/// The error of a missing parent record of `rf` for a connect-or-create of a child of
/// `child_model` inlined on the child, as `child_missing_text` says.
fn child_missing_error(rf: &RelationField, child_model: &Container, create: bool) -> (e: QueryGraphBuilderError)
    ensures
        e matches QueryGraphBuilderError::RecordNotFound(m) && m@ == child_missing_text(child_model.name@, *rf, create),
{
    let needed = if create {
        DependentOperation::create_inlined_relation(child_model.name.as_str())
    } else {
        DependentOperation::find_records(child_model.name.as_str())
    };
    let missing = MissingRelatedRecord::new(
        rf.model.as_str(),
        &rf.relation,
        DataOperation::NestedConnectOrCreate,
        Option::Some(needed),
    );
    assert(missing.message() =~= child_missing_text(child_model.name@, *rf, create));
    missing.to_runtime_error()
}

/// The three edges by which a connect-or-create on a one-to-one relation inlined on the
/// child, at the edges from `e` of `g`, ties the parent to the child: the parent's link goes
/// into the update of the record found and into the record created, and the identifier of
/// the record read selects the record that the update writes.
#[verifier::opaque]
pub open spec fn child_links_at(
    g: QueryGraph,
    e: int,
    parent: NodeRef,
    rf: RelationField,
    child: Container,
    read: NodeRef,
    create: NodeRef,
    update: NodeRef,
) -> bool {
    let parent_link = names(rf.linking_fields@);
    let child_link = names(rf.related_linking_fields@);
    &&& is_link_edge(g.edges@[e], parent, update, parent_link, child_link, child_missing_text(child.name@, rf, false))
    &&& is_link_edge(g.edges@[e + 1], parent, create, parent_link, child_link, child_missing_text(child.name@, rf, true))
    &&& is_filter_edge(
        g.edges@[e + 2],
        read,
        update,
        names(child.primary_identifier@),
        child_missing_text(child.name@, rf, false),
    )
}

/// Adds the edges of `child_links_at`.
fn add_child_links(
    graph: &mut QueryGraph,
    parent_node: &NodeRef,
    rf: &RelationField,
    child_model: &Container,
    read_node: &NodeRef,
    create_node: &NodeRef,
    update_node: &NodeRef,
)
    requires
        old(graph).wf(),
        old(graph).has(*parent_node),
        old(graph).has(*read_node),
        old(graph).has(*create_node),
        old(graph).has(*update_node),
    ensures
        appended(*final(graph), *old(graph), 0, 3),
        child_links_at(*final(graph), old(graph).edges@.len() as int, *parent_node, *rf, *child_model, *read_node, *create_node, *update_node),
{
    let ghost g0 = *graph;
    graph.create_edge(
        parent_node,
        update_node,
        Dependency::Projected {
            selection: copy_names(&rf.linking_fields),
            sink: RowSink::InjectLink(copy_names(&rf.related_linking_fields)),
            expectation: Option::Some(DataExpectation::NonEmptyRows(child_missing_error(rf, child_model, false))),
        },
    );
    let ghost g1 = *graph;
    graph.create_edge(
        parent_node,
        create_node,
        Dependency::Projected {
            selection: copy_names(&rf.linking_fields),
            sink: RowSink::InjectLink(copy_names(&rf.related_linking_fields)),
            expectation: Option::Some(DataExpectation::NonEmptyRows(child_missing_error(rf, child_model, true))),
        },
    );
    let ghost g2 = *graph;
    graph.create_edge(
        read_node,
        update_node,
        Dependency::Projected {
            selection: copy_names(&child_model.primary_identifier),
            sink: RowSink::AddFilter,
            expectation: Option::Some(DataExpectation::NonEmptyRows(child_missing_error(rf, child_model, false))),
        },
    );
    let ghost g3 = *graph;
    proof {
        reveal(child_links_at);
        lemma_pushed_edge(g1, g0);
        lemma_pushed_edge(g2, g1);
        lemma_pushed_edge(g3, g2);
        lemma_extends_trans(g3, g2, g1);
        lemma_extends_trans(g3, g1, g0);
        lemma_extends_keeps(g3, g1);
        lemma_extends_keeps(g3, g2);
        let e0 = g0.edges@.len() as int;
        assert(g3.edges@[e0] == g1.edges@[e0]);
        assert(g3.edges@[e0 + 1] == g2.edges@[e0 + 1]);
    }
}

/// The start of a nested connect-or-create on a one-to-one relation inlined on the child, at
/// the nodes from `n` and the edges from `e` of `g`: the read of the child record that
/// `filter` selects, which runs after `parent`; an `if` on its rows; the creation of the
/// record from the writes that `d` describes (its nested writes being `nested`), which runs
/// if there is none; an update of the record found; and the edges of `child_links_at`.
#[verifier::opaque]
pub open spec fn child_head_at(
    g: QueryGraph,
    n: int,
    e: int,
    parent: NodeRef,
    rf: RelationField,
    child: Container,
    filter: Filter,
    d: (Seq<(Seq<char>, OpDesc)>, Seq<(Seq<char>, ParsedInputMap)>),
    nested: Seq<(String, ParsedInputMap)>,
) -> bool {
    let read = NodeRef { id: n as usize };
    let iff = NodeRef { id: (n + 1) as usize };
    let create = NodeRef { id: (n + 2) as usize };
    let update = NodeRef { id: (n + 3) as usize };
    &&& g.nodes@[n] matches Node::Query(Query::Read(ReadQuery::Record { name, model, filter: f, selection }))
    &&& name@ == "read_ids_infallible"@ && model@ == child.name@ && f == filter && names(selection@) == selected(
        names(child.primary_identifier@),
        names(rf.related_linking_fields@),
    )
    &&& g.nodes@[n + 1] == Node::Flow(Flow::IfNonEmpty)
    &&& g.nodes@[n + 2] matches Node::Query(Query::Write(WriteQuery::CreateRecord { model: m, args }))
    &&& m@ == child.name@ && writes_are(args, nested, d)
    &&& is_update_placeholder(g.nodes@[n + 3], child.name@, Filter::Empty)
    &&& g.edges@[e] == (Edge { from: parent, to: read, dependency: Dependency::ExecutionOrder })
    &&& is_plain_edge(g.edges@[e + 1], read, iff, names(child.primary_identifier@), RowSink::IfCondition)
    &&& g.edges@[e + 2] == (Edge { from: iff, to: create, dependency: Dependency::Else })
    &&& child_links_at(g, e + 3, parent, rf, child, read, create, update)
}

/// The start of a connect-or-create inlined on the child stays as the graph grows.
pub proof fn lemma_child_head_kept(
    g2: QueryGraph,
    g1: QueryGraph,
    n: int,
    e: int,
    parent: NodeRef,
    rf: RelationField,
    child: Container,
    filter: Filter,
    d: (Seq<(Seq<char>, OpDesc)>, Seq<(Seq<char>, ParsedInputMap)>),
    nested: Seq<(String, ParsedInputMap)>,
)
    requires
        g2.grows(g1),
        0 <= n && n + 4 <= g1.nodes@.len(),
        0 <= e && e + 6 <= g1.edges@.len(),
        child_head_at(g1, n, e, parent, rf, child, filter, d, nested),
    ensures
        child_head_at(g2, n, e, parent, rf, child, filter, d, nested),
{
    reveal(child_head_at);
    reveal(child_links_at);
    lemma_extends_keeps(g2, g1);
    assert(g2.nodes@[n] == g1.nodes@[n]);
    assert(g2.nodes@[n + 1] == g1.nodes@[n + 1]);
    assert(g2.nodes@[n + 2] == g1.nodes@[n + 2]);
    assert(g2.nodes@[n + 3] == g1.nodes@[n + 3]);
    assert(g2.edges@[e] == g1.edges@[e]);
    assert(g2.edges@[e + 1] == g1.edges@[e + 1]);
    assert(g2.edges@[e + 2] == g1.edges@[e + 2]);
    assert(g2.edges@[e + 3] == g1.edges@[e + 3]);
    assert(g2.edges@[e + 4] == g1.edges@[e + 4]);
    assert(g2.edges@[e + 5] == g1.edges@[e + 5]);
}

/// Adds the start of a nested connect-or-create on a one-to-one relation inlined on the
/// child, as `child_head_at` says; the nested writes of `create_map` come back.
fn add_child_head(
    graph: &mut QueryGraph,
    query_schema: &QuerySchema,
    parent_node: &NodeRef,
    rf: &RelationField,
    filter: Filter,
    create_map: ParsedInputMap,
    child_model: &Container,
) -> (r: Result<Vec<(String, ParsedInputMap)>, QueryGraphBuilderError>)
    requires
        old(graph).wf(),
        old(graph).has(*parent_node),
    ensures
        final(graph).wf(),
        final(graph).grows(*old(graph)),
        match args_spec(query_schema.data_model, *child_model, create_map.entries@, create_map.entries@.len()) {
            Err(e) => r matches Err(x) && error_is(x, e),
            Ok(d) => r matches Ok(nested) && appended(*final(graph), *old(graph), 4, 6) && child_head_at(
                *final(graph),
                old(graph).nodes@.len() as int,
                old(graph).edges@.len() as int,
                *parent_node,
                *rf,
                *child_model,
                filter,
                d,
                nested@,
            ),
        },
{
    let ghost g0 = *graph;
    let read_node = graph.create_node(
        read_id_infallible(
            child_model.name.as_str(),
            &child_model.primary_identifier,
            copy_names(&rf.related_linking_fields),
            filter,
        ),
    );
    let ghost g1 = *graph;
    proof { lemma_pushed_node(g1, g0); }
    graph.create_edge(parent_node, &read_node, Dependency::ExecutionOrder);
    let ghost g2 = *graph;
    proof { lemma_pushed_edge(g2, g1); lemma_extends_trans(g2, g1, g0); }
    let if_node = graph.create_node(Node::Flow(Flow::IfNonEmpty));
    let ghost g3 = *graph;
    proof { lemma_pushed_node(g3, g2); lemma_extends_trans(g3, g2, g0); }
    let (create_node, nested) = match create_record_node(graph, query_schema, child_model, create_map) {
        Ok(x) => x,
        Err(e) => return Err(e),
    };
    let ghost g4 = *graph;
    proof { lemma_extends_trans(g4, g3, g0); }
    graph.create_edge(
        &read_node,
        &if_node,
        Dependency::Projected {
            selection: child_model.primary_identifier.clone(),
            sink: RowSink::IfCondition,
            expectation: Option::None,
        },
    );
    let ghost g5 = *graph;
    proof { lemma_pushed_edge(g5, g4); }
    graph.create_edge(&if_node, &create_node, Dependency::Else);
    let ghost g6 = *graph;
    proof { lemma_pushed_edge(g6, g5); }
    let update_node = update_records_node_placeholder(graph, Filter::Empty, child_model.name.as_str());
    let ghost g7 = *graph;
    add_child_links(graph, parent_node, rf, child_model, &read_node, &create_node, &update_node);
    let ghost g8 = *graph;
    proof {
        reveal(child_head_at);
        lemma_extends_trans(g8, g7, g6);
        lemma_extends_trans(g8, g6, g5);
        lemma_extends_trans(g8, g5, g4);
        lemma_extends_trans(g8, g4, g3);
        lemma_extends_trans(g8, g3, g2);
        lemma_extends_trans(g8, g2, g1);
        lemma_extends_trans(g8, g1, g0);
        lemma_extends_keeps(g8, g1);
        lemma_extends_keeps(g8, g2);
        lemma_extends_keeps(g8, g3);
        lemma_extends_keeps(g8, g4);
        lemma_extends_keeps(g8, g5);
        lemma_extends_keeps(g8, g6);
        lemma_extends_keeps(g8, g7);
        let n0 = g0.nodes@.len() as int;
        let e0 = g0.edges@.len() as int;
        assert(g8.nodes@[n0] == g1.nodes@[n0]);
        assert(g8.nodes@[n0 + 1] == g3.nodes@[n0 + 1]);
        assert(g8.nodes@[n0 + 2] == g4.nodes@[n0 + 2]);
        assert(g8.nodes@[n0 + 3] == g7.nodes@[n0 + 3]);
        assert(g8.edges@[e0] == g2.edges@[e0]);
        assert(g8.edges@[e0 + 1] == g5.edges@[e0 + 1]);
        assert(g8.edges@[e0 + 2] == g6.edges@[e0 + 2]);
    }
    Ok(nested)
}

/// The disconnect of the child that an existing parent had before, in a connect-or-create on
/// a one-to-one relation inlined on the child, at the nodes from `n` and the edges from `e`
/// of `g`: when the `if` finds the record that `read` reads, the parent's current child is
/// read; a diff keeps it unless it is the record read; an `if` on the diff runs an update
/// that sets the link of the old child to null (where `crf`, the relation field on the child's
/// side, is required, finding one is a relation violation); and that update runs before
/// `update`.
#[verifier::opaque]
pub open spec fn old_child_disconnect_at(
    g: QueryGraph,
    n: int,
    e: int,
    parent: NodeRef,
    rf: RelationField,
    crf: RelationField,
    child: Container,
    read: NodeRef,
    iff: NodeRef,
    update: NodeRef,
) -> bool {
    let read_old = NodeRef { id: n as usize };
    let diff = NodeRef { id: (n + 1) as usize };
    let if_diff = NodeRef { id: (n + 2) as usize };
    let update_old = NodeRef { id: (n + 3) as usize };
    let id = names(child.primary_identifier@);
    &&& crate::write_utils::is_find_children(g.nodes@[n], rf, Filter::Empty)
    &&& crate::write_utils::is_parent_records_edge(g.edges@[e], parent, read_old, rf)
    &&& g.edges@[e + 1] == (Edge { from: iff, to: read_old, dependency: Dependency::Then })
    &&& g.nodes@[n + 1] matches Node::Computation(Computation::DiffLeftToRight(a)) && names(a@) == id
    &&& is_plain_edge(g.edges@[e + 2], read, diff, id, RowSink::LeftSideDiff)
    &&& is_plain_edge(g.edges@[e + 3], read_old, diff, id, RowSink::RightSideDiff)
    &&& g.nodes@[n + 2] == Node::Flow(Flow::IfNonEmpty)
    &&& is_plain_edge(g.edges@[e + 4], diff, if_diff, id, RowSink::IfCondition)
    &&& is_update_placeholder(g.nodes@[n + 3], child.name@, Filter::Empty)
    &&& crate::write_utils::is_projected(g.edges@[e + 5], read_old, update_old, id)
    &&& g.edges@[e + 5].dependency->sink matches RowSink::SelectorsWithNulls(l)
    &&& names(l@) == names(rf.related_linking_fields@)
    &&& if crf.is_required {
        g.edges@[e + 5].dependency->expectation matches Option::Some(DataExpectation::EmptyRows(x))
            && crate::write_utils::is_violation_of(x, rf)
    } else {
        g.edges@[e + 5].dependency->expectation is None
    }
    &&& g.edges@[e + 6] == (Edge { from: if_diff, to: update_old, dependency: Dependency::Then })
    &&& g.edges@[e + 7] == (Edge { from: update_old, to: update, dependency: Dependency::ExecutionOrder })
}

/// Adds the disconnect of `old_child_disconnect_at`.
fn add_old_child_disconnect(
    graph: &mut QueryGraph,
    parent_node: &NodeRef,
    rf: &RelationField,
    crf: &RelationField,
    child_model: &Container,
    read_node: &NodeRef,
    if_node: &NodeRef,
    update_node: &NodeRef,
)
    requires
        old(graph).wf(),
        old(graph).has(*parent_node),
        old(graph).has(*read_node),
        old(graph).has(*if_node),
        old(graph).has(*update_node),
    ensures
        appended(*final(graph), *old(graph), 4, 8),
        old_child_disconnect_at(
            *final(graph),
            old(graph).nodes@.len() as int,
            old(graph).edges@.len() as int,
            *parent_node,
            *rf,
            *crf,
            *child_model,
            *read_node,
            *if_node,
            *update_node,
        ),
{
    let ghost g0 = *graph;
    let read_old_child_node = crate::write_utils::insert_find_children_by_parent_node(graph, parent_node, rf, Filter::Empty);
    let ghost g1 = *graph;
    graph.create_edge(if_node, &read_old_child_node, Dependency::Then);
    let ghost g2 = *graph;
    proof { lemma_pushed_edge(g2, g1); }
    let diff_node = graph.create_node(
        Node::Computation(Computation::DiffLeftToRight(copy_names(&child_model.primary_identifier))),
    );
    let ghost g3 = *graph;
    proof { lemma_pushed_node(g3, g2); }
    graph.create_edge(
        read_node,
        &diff_node,
        Dependency::Projected {
            selection: copy_names(&child_model.primary_identifier),
            sink: RowSink::LeftSideDiff,
            expectation: Option::None,
        },
    );
    let ghost g4 = *graph;
    graph.create_edge(
        &read_old_child_node,
        &diff_node,
        Dependency::Projected {
            selection: copy_names(&child_model.primary_identifier),
            sink: RowSink::RightSideDiff,
            expectation: Option::None,
        },
    );
    let ghost g5 = *graph;
    let if_diff_node = graph.create_node(Node::Flow(Flow::IfNonEmpty));
    let ghost g6 = *graph;
    graph.create_edge(
        &diff_node,
        &if_diff_node,
        Dependency::Projected {
            selection: copy_names(&child_model.primary_identifier),
            sink: RowSink::IfCondition,
            expectation: Option::None,
        },
    );
    let ghost g7 = *graph;
    let update_old_child_node = update_records_node_placeholder(graph, Filter::Empty, child_model.name.as_str());
    let ghost g8 = *graph;
    let expectation = if crf.is_required {
        Option::Some(
            DataExpectation::EmptyRows(
                QueryGraphBuilderError::RelationViolation(
                    crate::error::RelationViolation::from_relation(&rf.relation),
                ),
            ),
        )
    } else {
        Option::None
    };
    graph.create_edge(
        &read_old_child_node,
        &update_old_child_node,
        Dependency::Projected {
            selection: copy_names(&child_model.primary_identifier),
            sink: RowSink::SelectorsWithNulls(copy_names(&rf.related_linking_fields)),
            expectation,
        },
    );
    let ghost g9 = *graph;
    graph.create_edge(&if_diff_node, &update_old_child_node, Dependency::Then);
    let ghost g10 = *graph;
    graph.create_edge(&update_old_child_node, update_node, Dependency::ExecutionOrder);
    let ghost g11 = *graph;
    proof {
        reveal(old_child_disconnect_at);
        lemma_pushed_edge(g4, g3);
        lemma_pushed_edge(g5, g4);
        lemma_pushed_node(g6, g5);
        lemma_pushed_edge(g7, g6);
        lemma_pushed_edge(g9, g8);
        lemma_pushed_edge(g10, g9);
        lemma_pushed_edge(g11, g10);
        lemma_extends_trans(g11, g10, g9);
        lemma_extends_trans(g11, g9, g8);
        lemma_extends_trans(g11, g8, g7);
        lemma_extends_trans(g11, g7, g6);
        lemma_extends_trans(g11, g6, g5);
        lemma_extends_trans(g11, g5, g4);
        lemma_extends_trans(g11, g4, g3);
        lemma_extends_trans(g11, g3, g2);
        lemma_extends_trans(g11, g2, g1);
        lemma_extends_trans(g11, g1, g0);
        lemma_extends_keeps(g11, g1);
        lemma_extends_keeps(g11, g2);
        lemma_extends_keeps(g11, g3);
        lemma_extends_keeps(g11, g4);
        lemma_extends_keeps(g11, g5);
        lemma_extends_keeps(g11, g6);
        lemma_extends_keeps(g11, g7);
        lemma_extends_keeps(g11, g8);
        lemma_extends_keeps(g11, g9);
        lemma_extends_keeps(g11, g10);
        let n0 = g0.nodes@.len() as int;
        let e0 = g0.edges@.len() as int;
        assert(g11.nodes@[n0] == g1.nodes@[n0]);
        assert(g11.nodes@[n0 + 1] == g3.nodes@[n0 + 1]);
        assert(g11.nodes@[n0 + 2] == g6.nodes@[n0 + 2]);
        assert(g11.nodes@[n0 + 3] == g8.nodes@[n0 + 3]);
        assert(g11.edges@[e0] == g1.edges@[e0]);
        assert(g11.edges@[e0 + 1] == g2.edges@[e0 + 1]);
        assert(g11.edges@[e0 + 2] == g4.edges@[e0 + 2]);
        assert(g11.edges@[e0 + 3] == g5.edges@[e0 + 3]);
        assert(g11.edges@[e0 + 4] == g7.edges@[e0 + 4]);
        assert(g11.edges@[e0 + 5] == g9.edges@[e0 + 5]);
        assert(g11.edges@[e0 + 6] == g10.edges@[e0 + 6]);
    }
}

/// The graph of a nested connect-or-create on the one-to-one relation field `rf` of
/// `parent`, inlined on the child, appended to `old` (`crf` being the relation field on the
/// child's side): the start of `child_head_at`; then, for a parent being created, the update
/// of the record found runs if there is one; for any other parent, the disconnect of its old
/// child of `old_child_disconnect_at` runs then, before that update.
#[verifier::opaque]
pub open spec fn one_to_one_inlined_child_at(
    g: QueryGraph,
    old: QueryGraph,
    parent: NodeRef,
    rf: RelationField,
    crf: RelationField,
    child: Container,
    filter: Filter,
    d: (Seq<(Seq<char>, OpDesc)>, Seq<(Seq<char>, ParsedInputMap)>),
    nested: Seq<(String, ParsedInputMap)>,
) -> bool {
    let n = old.nodes@.len() as int;
    let e = old.edges@.len() as int;
    let c = is_create_node(old.nodes@[parent.id as int]);
    let read = NodeRef { id: n as usize };
    let iff = NodeRef { id: (n + 1) as usize };
    let update = NodeRef { id: (n + 3) as usize };
    &&& appended(g, old, if c { 4 } else { 8 }, if c { 7 } else { 14 })
    &&& child_head_at(g, n, e, parent, rf, child, filter, d, nested)
    &&& if c {
        g.edges@[e + 6] == (Edge { from: iff, to: update, dependency: Dependency::Then })
    } else {
        old_child_disconnect_at(g, n + 4, e + 6, parent, rf, crf, child, read, iff, update)
    }
}

/// Plans a nested connect-or-create on a one-to-one relation field inlined on the child: the
/// child record that `filter` selects is updated with the parent's link if it exists, and
/// the record that `create_map` describes is created with it otherwise; an existing parent's
/// old child is disconnected first. `child_relation_field` is the relation field on the
/// child's side. The nested writes of `create_map` come back.
pub fn one_to_one_inlined_child(
    graph: &mut QueryGraph,
    query_schema: &QuerySchema,
    parent_node: &NodeRef,
    parent_relation_field: &RelationField,
    child_relation_field: &RelationField,
    filter: Filter,
    create_map: ParsedInputMap,
    child_model: &Container,
) -> (r: Result<Vec<(String, ParsedInputMap)>, QueryGraphBuilderError>)
    requires
        old(graph).wf(),
        old(graph).has(*parent_node),
    ensures
        final(graph).wf(),
        final(graph).grows(*old(graph)),
        match args_spec(query_schema.data_model, *child_model, create_map.entries@, create_map.entries@.len()) {
            Err(e) => r matches Err(x) && error_is(x, e),
            Ok(d) => r matches Ok(nested) && one_to_one_inlined_child_at(
                *final(graph),
                *old(graph),
                *parent_node,
                *parent_relation_field,
                *child_relation_field,
                *child_model,
                filter,
                d,
                nested@,
            ),
        },
{
    let ghost g0 = *graph;
    let ghost gc = create_map;
    let ghost gf = filter;
    let rf = parent_relation_field;
    let nested = match add_child_head(graph, query_schema, parent_node, rf, filter, create_map, child_model) {
        Ok(x) => x,
        Err(e) => return Err(e),
    };
    let ghost g1 = *graph;
    let n0 = graph.nodes.len() - 4;
    let read_node = NodeRef { id: n0 };
    let if_node = NodeRef { id: n0 + 1 };
    let update_node = NodeRef { id: n0 + 3 };
    proof {
        lemma_extends_keeps(g1, g0);
        assert(g1.nodes@[parent_node.id as int] == g0.nodes@[parent_node.id as int]);
    }
    if node_is_create(graph, parent_node) {
        graph.create_edge(&if_node, &update_node, Dependency::Then);
        proof { lemma_pushed_edge(*graph, g1); }
    } else {
        add_old_child_disconnect(
            graph,
            parent_node,
            rf,
            child_relation_field,
            child_model,
            &read_node,
            &if_node,
            &update_node,
        );
    }
    proof {
        let n = g0.nodes@.len() as int;
        let e = g0.edges@.len() as int;
        let d = args_spec(query_schema.data_model, *child_model, gc.entries@, gc.entries@.len())->Ok_0;
        lemma_extends_trans(*graph, g1, g0);
        lemma_extends_keeps(*graph, g1);
        lemma_child_head_kept(*graph, g1, n, e, *parent_node, *rf, *child_model, gf, d, nested@);
        reveal(one_to_one_inlined_child_at);
    }
    Ok(nested)
}

/// The graph of a nested connect-or-create on the one-to-one relation field `rf` of
/// `parent`, appended to `old`, as `one_to_one_inlined_parent_at` or
/// `one_to_one_inlined_child_at` says, by the side on which the relation is inlined.
pub open spec fn one_to_one_at(
    g: QueryGraph,
    old: QueryGraph,
    parent: NodeRef,
    rf: RelationField,
    crf: RelationField,
    child: Container,
    filter: Filter,
    d: (Seq<(Seq<char>, OpDesc)>, Seq<(Seq<char>, ParsedInputMap)>),
    nested: Seq<(String, ParsedInputMap)>,
) -> bool {
    if rf.inlined_in_parent {
        one_to_one_inlined_parent_at(g, old, parent, rf, crf, child, filter, d, nested)
    } else {
        one_to_one_inlined_child_at(g, old, parent, rf, crf, child, filter, d, nested)
    }
}

/// Plans a nested connect-or-create on a one-to-one relation field, of the last object of
/// `value`, on the side on which the relation is inlined; `child_relation_field` is the
/// relation field on the child's side. The nested writes of the `create` come back.
pub fn handle_one_to_one(
    graph: &mut QueryGraph,
    query_schema: &QuerySchema,
    parent_node: &NodeRef,
    parent_relation_field: &RelationField,
    child_relation_field: &RelationField,
    value: ParsedInputValue,
    child_model: &Container,
) -> (r: Result<Vec<(String, ParsedInputMap)>, QueryGraphBuilderError>)
    requires
        old(graph).wf(),
        old(graph).has(*parent_node),
        coerced(value).len() > 0,
        coc_desc(query_schema.data_model, *child_model, coerced(value).last()) is Some,
    ensures
        final(graph).wf(),
        final(graph).grows(*old(graph)),
        match coc_desc(query_schema.data_model, *child_model, coerced(value).last())->Some_0 {
            Err(e) => r matches Err(x) && error_is(x, e),
            Ok(x) => r matches Ok(nested) && exists|f: Filter|
                described(f, x.0) && #[trigger] one_to_one_at(
                    *final(graph),
                    *old(graph),
                    *parent_node,
                    *parent_relation_field,
                    *child_relation_field,
                    *child_model,
                    f,
                    x.1,
                    nested@,
                ),
        },
{
    let ghost dm = query_schema.data_model;
    let ghost g0 = *graph;
    proof { lemma_extends_refl_here(*graph); }
    let mut values = coerce_vec(value);
    let v = values.pop().unwrap();
    let ghost gv = v;
    let (filter, create_map) = match coc_inputs(v, child_model, Ghost(dm)) {
        Ok(x) => x,
        Err(e) => return Err(e),
    };
    let ghost gf = filter;
    let ghost gc = create_map;
    let rf = parent_relation_field;
    let crf = child_relation_field;
    let r = if rf.inlined_in_parent {
        one_to_one_inlined_parent(graph, query_schema, parent_node, rf, crf, filter, create_map, child_model)
    } else {
        one_to_one_inlined_child(graph, query_schema, parent_node, rf, crf, filter, create_map, child_model)
    };
    proof {
        match args_spec(dm, *child_model, gc.entries@, gc.entries@.len()) {
            Err(_) => {},
            Ok(d) => {
                let x = coc_desc(dm, *child_model, gv)->Some_0->Ok_0;
                assert(x.1 == d);
                assert(one_to_one_at(*graph, g0, *parent_node, *rf, *crf, *child_model, gf, x.1, r->Ok_0@));
                assert(described(gf, x.0));
            },
        }
    }
    r
}

/// Whether a nested connect-or-create on `rf` plans each object of its value: on a
/// many-to-many relation, and on a one-to-many relation inlined on the child. Otherwise only
/// the last object is planned.
pub open spec fn plans_each(rf: RelationField) -> bool {
    rf.relation.kind == RelationKind::ManyToMany || (rf.relation.kind == RelationKind::OneToMany
        && !rf.inlined_in_parent)
}

/// The graph of a nested connect-or-create of one object on `rf`, appended to `old`: inlined
/// on the parent of a one-to-many relation, or on a one-to-one relation.
pub open spec fn single_at(
    g: QueryGraph,
    old: QueryGraph,
    parent: NodeRef,
    rf: RelationField,
    crf: RelationField,
    child: Container,
    filter: Filter,
    d: (Seq<(Seq<char>, OpDesc)>, Seq<(Seq<char>, ParsedInputMap)>),
    nested: Seq<(String, ParsedInputMap)>,
) -> bool {
    if rf.relation.kind == RelationKind::OneToMany {
        inlined_parent_at(g, old, parent, rf, child, filter, d, nested)
    } else {
        one_to_one_at(g, old, parent, rf, crf, child, filter, d, nested)
    }
}

/// Plans a nested connect-or-create of `value` (one object or a list of them) on
/// `parent_relation_field`, by the kind of its relation and the side on which it is inlined;
/// `child_relation_field` is the relation field on the child's side. The nested writes of
/// each `create` planned come back, in order: of each object where `plans_each` holds, of
/// the last one otherwise.
pub fn nested_connect_or_create(
    graph: &mut QueryGraph,
    query_schema: &QuerySchema,
    parent_node: &NodeRef,
    parent_relation_field: &RelationField,
    child_relation_field: &RelationField,
    value: ParsedInputValue,
    child_model: &Container,
) -> (r: Result<Vec<Vec<(String, ParsedInputMap)>>, QueryGraphBuilderError>)
    requires
        old(graph).wf(),
        old(graph).has(*parent_node),
        plans_each(*parent_relation_field) ==> coc_fold(
            query_schema.data_model,
            *child_model,
            coerced(value),
            coerced(value).len(),
        ) is Some,
        !plans_each(*parent_relation_field) ==> coerced(value).len() > 0 && coc_desc(
            query_schema.data_model,
            *child_model,
            coerced(value).last(),
        ) is Some,
    ensures
        final(graph).wf(),
        final(graph).grows(*old(graph)),
        plans_each(*parent_relation_field) ==> coc_outcome(
            r,
            *final(graph),
            *parent_node,
            *parent_relation_field,
            *child_model,
            coc_fold(query_schema.data_model, *child_model, coerced(value), coerced(value).len())->Some_0,
        ),
        !plans_each(*parent_relation_field) ==> match coc_desc(
            query_schema.data_model,
            *child_model,
            coerced(value).last(),
        )->Some_0 {
            Err(e) => r matches Err(x) && error_is(x, e),
            Ok(x) => r matches Ok(v) && v@.len() == 1 && exists|f: Filter|
                described(f, x.0) && #[trigger] single_at(
                    *final(graph),
                    *old(graph),
                    *parent_node,
                    *parent_relation_field,
                    *child_relation_field,
                    *child_model,
                    f,
                    x.1,
                    v@[0]@,
                ),
        },
{
    let ghost g0 = *graph;
    let ghost gv = value;
    let ghost dm = query_schema.data_model;
    let rf = parent_relation_field;
    if rf.relation.kind == RelationKind::ManyToMany {
        handle_many_to_many(graph, query_schema, parent_node, rf, value, child_model)
    } else if rf.relation.kind == RelationKind::OneToMany {
        if rf.inlined_in_parent {
            match one_to_many_inlined_parent(graph, query_schema, parent_node, rf, value, child_model) {
                Ok(nested) => {
                    let ghost gn = nested;
                    let mut v = Vec::new();
                    v.push(nested);
                    proof {
                        let x = coc_desc(dm, *child_model, coerced(gv).last())->Some_0->Ok_0;
                        let f = choose|f: Filter|
                            described(f, x.0) && #[trigger] inlined_parent_at(
                                *graph,
                                g0,
                                *parent_node,
                                *rf,
                                *child_model,
                                f,
                                x.1,
                                gn@,
                            );
                        assert(v@[0] == gn);
                        assert(single_at(*graph, g0, *parent_node, *rf, *child_relation_field, *child_model, f, x.1, v@[0]@));
                    }
                    Ok(v)
                },
                Err(e) => Err(e),
            }
        } else {
            one_to_many_inlined_child(graph, query_schema, parent_node, rf, value, child_model)
        }
    } else {
        match handle_one_to_one(graph, query_schema, parent_node, rf, child_relation_field, value, child_model) {
            Ok(nested) => {
                let ghost gn = nested;
                let mut v = Vec::new();
                v.push(nested);
                proof {
                    let x = coc_desc(dm, *child_model, coerced(gv).last())->Some_0->Ok_0;
                    let f = choose|f: Filter|
                        described(f, x.0) && #[trigger] one_to_one_at(
                            *graph,
                            g0,
                            *parent_node,
                            *rf,
                            *child_relation_field,
                            *child_model,
                            f,
                            x.1,
                            gn@,
                        );
                    assert(v@[0] == gn);
                    assert(single_at(*graph, g0, *parent_node, *rf, *child_relation_field, *child_model, f, x.1, v@[0]@));
                }
                Ok(v)
            },
            Err(e) => Err(e),
        }
    }
}

} // verus!
