use vstd::prelude::*;
use crate::builder::QuerySchema;
use crate::copies::{copy_write, same_write};
use crate::error::RelationViolation;
use crate::filter::Filter;
use crate::query_graph::{
    names, DataExpectation, Dependency, Edge, Flow, Node, NodeRef, Query, QueryGraph, RowSink, WriteArgs, WriteOperation,
    WriteQuery,
};
use crate::referential::{
    cascade_bounded, cascade_keys, cascade_ops, cascaded, child_fks, delete_bounded, delete_field_bounded, fields_of,
    lemma_cascade_bounded, lemma_delete_bounded, lemma_delete_field_bounded, lemma_model_update_bounded,
    lemma_set_null_bounded, lemma_update_bounded, model_update_bounded, pair_count, parent_pks, set_null_bounded,
    update_bounded, update_nulls, write_index, writes_any, written_fields, update_emulation_ends,
    delete_emulation_ends,
};
use crate::relations::{nullable_fks, overlapping, pointing_to_model, spec_back_field};
use crate::schema::{Container, DataModel, ReferentialAction, RelationField};
use crate::text::str_eq;
use crate::write_utils::{
    copy_names, create_execution_order_edges, insert_find_children_by_parent_node, is_find_children, is_parent_records_edge, is_projected,
    is_violation_of, lemma_extends_keeps, lemma_extends_refl, lemma_extends_trans, new_edge, new_node, new_ref, null_args, nulls_for,
};

verus! {

/// Of the fields `fields`, those whose delete emulation leaves a node behind: all but the
/// set-null ones without an optional foreign key field.
pub open spec fn leaves_of(dm: DataModel, fields: Seq<RelationField>) -> nat
    decreases fields.len(),
{
    if fields.len() == 0 {
        0
    } else {
        leaves_of(dm, fields.drop_last()) + if fields.last().relation.on_delete == ReferentialAction::SetNull
            && nullable_fks(dm, fields.last()).len() == 0 {
            0nat
        } else {
            1nat
        }
    }
}

/// Of the fields `fields`, in order, those whose delete emulation leaves a node behind.
pub open spec fn leaf_fields(dm: DataModel, fields: Seq<RelationField>) -> Seq<RelationField>
    decreases fields.len(),
{
    if fields.len() == 0 {
        Seq::empty()
    } else {
        let rest = leaf_fields(dm, fields.drop_last());
        if fields.last().relation.on_delete == ReferentialAction::SetNull && nullable_fks(dm, fields.last()).len()
            == 0 {
            rest
        } else {
            rest.push(fields.last())
        }
    }
}

/// There is one left node for each field that leaves one.
pub proof fn lemma_leaf_count(dm: DataModel, fields: Seq<RelationField>)
    ensures
        leaves_of(dm, fields) == leaf_fields(dm, fields).len(),
    decreases fields.len(),
{
    if fields.len() > 0 {
        lemma_leaf_count(dm, fields.drop_last());
    }
}

/// `node` of `g` is the node that the delete emulation along `f` leaves: the empty node
/// after the check of a restricted relation, the update that sets the foreign key of the
/// related records to null, or the deletion of the related records.
pub open spec fn is_leaf_for(g: QueryGraph, node: NodeRef, dm: DataModel, f: RelationField) -> bool {
    &&& node.id < g.nodes@.len()
    &&& match f.relation.on_delete {
        ReferentialAction::NoAction | ReferentialAction::Restrict => g.nodes@[node.id as int] == Node::Empty,
        ReferentialAction::SetNull => is_set_null(g.nodes@[node.id as int], f.model@, nullable_fks(dm, f)),
        ReferentialAction::Cascade => g.nodes@[node.id as int] matches Node::Query(
            Query::Write(WriteQuery::DeleteManyRecords { model, filter }),
        ) && model@ == f.model@ && filter == Filter::Empty,
        ReferentialAction::SetDefault => false,
    }
}

/// The writes of an update node.
pub open spec fn update_args_of(node: Node) -> WriteArgs {
    match node {
        Node::Query(Query::Write(WriteQuery::UpdateManyRecords { args, .. })) => args,
        Node::Query(Query::Write(WriteQuery::UpdateRecord { args, .. })) => args,
        _ => vstd::pervasive::arbitrary(),
    }
}

/// `n` is an update node of `g`.
pub open spec fn is_update_at(g: QueryGraph, n: NodeRef) -> bool {
    &&& g.has(n)
    &&& is_update_node(g.nodes@[n.id as int])
}

/// `n` updates records: one, or many.
pub open spec fn is_update_node(n: Node) -> bool {
    ||| n matches Node::Query(Query::Write(WriteQuery::UpdateManyRecords { .. }))
    ||| n matches Node::Query(Query::Write(WriteQuery::UpdateRecord { .. }))
}

/// The fields that the update node `n` of `g` writes.
pub open spec fn keys_at(g: QueryGraph, n: NodeRef) -> Seq<Seq<char>> {
    written_fields(update_args_of(g.nodes@[n.id as int]))
}

/// `n` is a node that a call added to `old`.
pub open spec fn is_new_node(g: QueryGraph, old: QueryGraph, n: NodeRef) -> bool {
    old.nodes@.len() <= n.id < g.nodes@.len()
}

/// The emulation of the delete actions of the relations that point to `model`, planned in `g`
/// after `old` for the deletion `delete_node`: for the `i`-th leaf field of those relations,
/// the node `nodes[i]`, added after `old`, that emulates its action, and the edge `e + i`, added
/// after `old` too, that makes the deletion wait for it.
pub open spec fn emulation_ordered(
    g: QueryGraph,
    old: QueryGraph,
    dm: DataModel,
    model: Seq<char>,
    delete_node: NodeRef,
    nodes: Seq<NodeRef>,
    e: int,
) -> bool {
    let leaves = leaf_fields(dm, pointing_to_model(dm.containers@, model));
    &&& nodes.len() == leaves.len()
    &&& old.edges@.len() <= e
    &&& e + nodes.len() <= g.edges@.len()
    &&& forall|i: int|
        0 <= i < nodes.len() ==> {
            &&& is_new_node(g, old, #[trigger] nodes[i])
            &&& is_leaf_for(g, nodes[i], dm, leaves[i])
            &&& g.edges@[e + i] == (Edge { from: nodes[i], to: delete_node, dependency: Dependency::ExecutionOrder })
        }
}

/// The delete actions of the relations that point to `model` are emulated in `g`, after `old`,
/// before the deletion `delete_node` runs.
pub open spec fn delete_emulated(g: QueryGraph, old: QueryGraph, dm: DataModel, model: Seq<char>, delete_node: NodeRef) -> bool {
    exists|nodes: Seq<NodeRef>, e: int| #[trigger] emulation_ordered(g, old, dm, model, delete_node, nodes, e)
}

/// Where the schema's relation mode asks for it, the delete actions of the relations that point
/// to `model` are emulated in `g`, after `old`, before the deletion `delete_node` runs.
pub open spec fn delete_actions_emulated(
    g: QueryGraph,
    old: QueryGraph,
    query_schema: QuerySchema,
    model: Seq<char>,
    delete_node: NodeRef,
) -> bool {
    query_schema.relation_mode is Prisma ==> delete_emulated(g, old, query_schema.data_model, model, delete_node)
}

/// A planned emulation stays planned as the graph grows, and is new after any earlier graph.
pub proof fn lemma_delete_emulated_kept(
    g2: QueryGraph,
    g1: QueryGraph,
    base: QueryGraph,
    b0: QueryGraph,
    dm: DataModel,
    model: Seq<char>,
    delete_node: NodeRef,
)
    requires
        g2.grows(g1),
        base.grows(b0),
        delete_emulated(g1, base, dm, model, delete_node),
    ensures
        delete_emulated(g2, b0, dm, model, delete_node),
{
    let (nodes, e) = choose|nodes: Seq<NodeRef>, e: int| #[trigger]
        emulation_ordered(g1, base, dm, model, delete_node, nodes, e);
    lemma_extends_keeps(g2, g1);
    let leaves = leaf_fields(dm, pointing_to_model(dm.containers@, model));
    assert forall|i: int| 0 <= i < nodes.len() implies {
        &&& is_new_node(g2, b0, #[trigger] nodes[i])
        &&& is_leaf_for(g2, nodes[i], dm, leaves[i])
        &&& g2.edges@[e + i] == (Edge { from: nodes[i], to: delete_node, dependency: Dependency::ExecutionOrder })
    } by {
        assert(is_leaf_for(g1, nodes[i], dm, leaves[i]));
        assert(g2.nodes@[nodes[i].id as int] == g1.nodes@[nodes[i].id as int]);
        assert(g2.edges@[e + i] == g1.edges@[e + i]);
    }
    assert(emulation_ordered(g2, b0, dm, model, delete_node, nodes, e));
}

/// An extended graph keeps its update nodes and what they write.
pub proof fn lemma_update_kept(g2: QueryGraph, g1: QueryGraph, n: NodeRef)
    requires
        g2.extends(g1),
        is_update_at(g1, n),
    ensures
        is_update_at(g2, n),
        keys_at(g2, n) == keys_at(g1, n),
{
    lemma_extends_keeps(g2, g1);
    assert(g2.nodes@[n.id as int] == g1.nodes@[n.id as int]);
}

proof fn lemma_write_index(args: Seq<(String, WriteOperation)>, name: Seq<char>, k: int)
    requires
        0 <= k <= args.len(),
        forall|j: int| 0 <= j < k ==> args[j].0@ != name,
        k < args.len() ==> args[k].0@ == name,
    ensures
        k < args.len() ==> write_index(args, name) == Option::Some(k),
        k == args.len() ==> write_index(args, name) == Option::<int>::None,
{
    if k < args.len() {
        let i = choose|i: int|
            0 <= i < args.len() && args[i].0@ == name && forall|j: int| 0 <= j < i ==> args[j].0@ != name;
        assert(0 <= k < args.len() && args[k].0@ == name && forall|j: int| 0 <= j < k ==> args[j].0@ != name);
        assert(i == k) by {
            if i < k {
                assert(args[i].0@ != name);
            } else if i > k {
                assert(args[k].0@ != name);
            }
        }
    }
}

/// The write of the field `name` in `args`, if it has one.
pub fn get_field_value<'a>(args: &'a WriteArgs, name: &str) -> (r: Option<&'a WriteOperation>)
    ensures
        match write_index(args.args@, name@) {
            Option::Some(i) => r is Some && *r->0 == args.args@[i].1,
            Option::None => r is None,
        },
        r is Some == written_fields(*args).contains(name@),
{
    let n = args.args.len();
    let mut i: usize = 0;
    while i < n
        invariant
            n == args.args@.len(),
            i <= n,
            forall|j: int| 0 <= j < i ==> args.args@[j].0@ != name@,
        decreases n - i,
    {
        if str_eq(args.args[i].0.as_str(), name) {
            proof {
                lemma_write_index(args.args@, name@, i as int);
                assert(written_fields(*args)[i as int] == name@);
            }
            return Option::Some(&args.args[i].1);
        }
        i = i + 1;
    }
    proof {
        lemma_write_index(args.args@, name@, n as int);
        assert(!written_fields(*args).contains(name@)) by {
            if written_fields(*args).contains(name@) {
                let k = choose|k: int| 0 <= k < written_fields(*args).len() && written_fields(*args)[k] == name@;
                assert(args.args@[k].0@ == name@);
            }
        }
    }
    Option::None
}

/// Whether `args` writes one of `fields`.
fn writes_any_of(args: &WriteArgs, fields: &Vec<String>) -> (b: bool)
    ensures
        b == writes_any(written_fields(*args), names(fields@)),
{
    let n = fields.len();
    let mut i: usize = 0;
    while i < n
        invariant
            n == fields@.len(),
            i <= n,
            forall|j: int| 0 <= j < i ==> !written_fields(*args).contains(#[trigger] names(fields@)[j]),
        decreases n - i,
    {
        if get_field_value(args, fields[i].as_str()).is_some() {
            assert(written_fields(*args).contains(names(fields@)[i as int]));
            return true;
        }
        i = i + 1;
    }
    false
}

/// The writes that an update writing `parent` carries over to the records that refer
/// through `rf` to the updated ones: each referring field takes the write of the field it
/// refers to, where `parent` writes it.
#[verifier::spinoff_prover]
#[verifier::rlimit(60)]
fn cascade_args(parent: &WriteArgs, rf: &RelationField) -> (r: WriteArgs)
    ensures
        written_fields(r) == cascaded(written_fields(*parent), *rf),
        r.args@.len() == cascade_ops(parent.args@, parent_pks(*rf), pair_count(*rf)).len(),
        forall|j: int|
            0 <= j < r.args@.len() ==> same_write(
                #[trigger] r.args@[j].1,
                cascade_ops(parent.args@, parent_pks(*rf), pair_count(*rf))[j],
            ),
{
    let pks = &rf.related_linking_fields;
    let fks = &rf.linking_fields;
    let k = if pks.len() <= fks.len() {
        pks.len()
    } else {
        fks.len()
    };
    let ghost keys = written_fields(*parent);
    let mut out: Vec<(String, WriteOperation)> = Vec::new();
    let mut i: usize = 0;
    while i < k
        invariant
            k == pair_count(*rf),
            k <= pks@.len(),
            k <= fks@.len(),
            pks == &rf.related_linking_fields,
            fks == &rf.linking_fields,
            keys == written_fields(*parent),
            i <= k,
            fields_of(out@) == cascade_keys(
                keys,
                parent_pks(*rf),
                child_fks(*rf),
                i as nat,
            ),
            out@.len() == cascade_ops(parent.args@, parent_pks(*rf), i as nat).len(),
            forall|j: int|
                0 <= j < out@.len() ==> same_write(
                    #[trigger] out@[j].1,
                    cascade_ops(parent.args@, parent_pks(*rf), i as nat)[j],
                ),
        decreases k - i,
    {
        assert(parent_pks(*rf)[i as int] == pks@[i as int]@);
        assert(child_fks(*rf)[i as int] == fks@[i as int]@);
        let ghost before = out@;
        match get_field_value(parent, pks[i].as_str()) {
            Option::Some(op) => {
                let c = copy_write(op);
                out.push((fks[i].clone(), c));
                proof {
                    lemma_cascade_step(keys, parent.args@, parent_pks(*rf), child_fks(*rf), i as nat);
                    assert(fields_of(out@) =~= fields_of(before).push(fks@[i as int]@));
                }
            },
            Option::None => {
                proof { lemma_cascade_step(keys, parent.args@, parent_pks(*rf), child_fks(*rf), i as nat); }
            },
        }
        i = i + 1;
    }
    WriteArgs { args: out }
}

proof fn lemma_cascade_step(
    keys: Seq<Seq<char>>,
    args: Seq<(String, WriteOperation)>,
    pks: Seq<Seq<char>>,
    fks: Seq<Seq<char>>,
    i: nat,
)
    ensures
        cascade_keys(keys, pks, fks, i + 1) == if keys.contains(pks[i as int]) {
            cascade_keys(keys, pks, fks, i).push(fks[i as int])
        } else {
            cascade_keys(keys, pks, fks, i)
        },
        cascade_ops(args, pks, i + 1) == match write_index(args, pks[i as int]) {
            Option::Some(j) => cascade_ops(args, pks, i).push(args[j].1),
            Option::None => cascade_ops(args, pks, i),
        },
{
}

/// The writes of an update node.
fn extract_update_args(node: &Node) -> (args: &WriteArgs)
    requires
        is_update_node(*node),
    ensures
        *args == update_args_of(*node),
{
    match node {
        Node::Query(Query::Write(WriteQuery::UpdateManyRecords { args, .. })) => args,
        Node::Query(Query::Write(WriteQuery::UpdateRecord { args, .. })) => args,
        _ => vstd::pervasive::unreached(),
    }
}

/// The update node that sets the fields `nulls` of the records of `model` to null.
pub open spec fn is_set_null(n: Node, model: Seq<char>, nulls: Seq<Seq<char>>) -> bool {
    n matches Node::Query(Query::Write(WriteQuery::UpdateManyRecords { model: m, filter, args })) && m@ == model
        && filter == Filter::Empty && nulls_for(args, nulls)
}

/// `e` hands the identifiers of the rows of `from` to `to` as its record selectors.
pub open spec fn is_selectors_edge(e: Edge, from: NodeRef, to: NodeRef, identifier: Seq<Seq<char>>) -> bool {
    &&& is_projected(e, from, to, identifier)
    &&& e.dependency->sink is Selectors
    &&& e.dependency->expectation is None
}

/// The restrict emulation of the update or delete along `b`: a read of the records related
/// through `b` to `parent`, starting at node `nb` and edge `eb` of `g`, that hands its rows to
/// the empty node `noop`.
pub open spec fn restrict_at(g: QueryGraph, nb: int, eb: int, parent: NodeRef, b: RelationField) -> bool {
    let noop = NodeRef { id: nb as usize };
    let read = NodeRef { id: (nb + 1) as usize };
    &&& 0 <= nb
    &&& nb + 2 <= g.nodes@.len()
    &&& 0 <= eb
    &&& eb + 2 <= g.edges@.len()
    &&& g.nodes@[nb] == Node::Empty
    &&& is_find_children(g.nodes@[nb + 1], b, Filter::Empty)
    &&& is_parent_records_edge(g.edges@[eb], parent, read, b)
    &&& is_projected(g.edges@[eb + 1], read, noop, names(b.related_identifier@))
    &&& g.edges@[eb + 1].dependency->sink is Discard
}

/// The error of a restricted relation, raised where `b` relates records.
pub open spec fn fails_on_rows(e: Edge, b: RelationField) -> bool {
    e.dependency->expectation matches Option::Some(DataExpectation::EmptyRows(err)) && is_violation_of(err, b)
}

/// Adds the check that no record relates through the back field of `relation_field` to the
/// records whose update `child_node` makes, in case the update writes the fields they refer
/// to; `child_node` waits for the check.
pub fn emulate_on_update_restrict(
    graph: &mut QueryGraph,
    query_schema: &QuerySchema,
    relation_field: &RelationField,
    parent_node: &NodeRef,
    child_node: &NodeRef,
)
    requires
        old(graph).wf(),
        old(graph).has(*parent_node),
        is_update_at(*old(graph), *child_node),
        spec_back_field(query_schema.data_model, *relation_field) is Some,
    ensures
        ({
            let b = spec_back_field(query_schema.data_model, *relation_field)->0;
            &&& crate::write_utils::appended(*final(graph), *old(graph), 2, 3)
            &&& restrict_at(
                *final(graph),
                old(graph).nodes@.len() as int,
                old(graph).edges@.len() as int,
                *parent_node,
                b,
            )
            &&& if writes_any(keys_at(*old(graph), *child_node), names(b.linking_fields@)) {
                fails_on_rows(new_edge(*final(graph), *old(graph), 1), b)
            } else {
                new_edge(*final(graph), *old(graph), 1).dependency->expectation is None
            }
            &&& new_edge(*final(graph), *old(graph), 2) == (Edge {
                from: new_ref(*old(graph), 0),
                to: *child_node,
                dependency: Dependency::ExecutionOrder,
            })
        }),
{
    let ghost g0 = *graph;
    let back = match query_schema.data_model.back_field(relation_field) {
        Option::Some(b) => b,
        Option::None => vstd::pervasive::unreached(),
    };
    let noop_node = graph.create_node(Node::Empty);
    let ghost g1 = *graph;
    let read_node = insert_find_children_by_parent_node(graph, parent_node, back, Filter::Empty);
    let ghost g2 = *graph;
    proof {
        lemma_extends_keeps(g2, g1);
        assert(g2.nodes@[noop_node.id as int] == Node::Empty);
        assert(graph.nodes@.take(g0.nodes@.len() as int) =~= g0.nodes@);
        assert(graph.edges@.take(g0.edges@.len() as int) =~= g0.edges@);
        assert(graph.marked@.take(g0.marked@.len() as int) =~= g0.marked@);
        assert(graph.result_nodes@.take(g0.result_nodes@.len() as int) =~= g0.result_nodes@);
        lemma_update_kept(*graph, g0, *child_node);
    }
    let parent_update_args = extract_update_args(graph.node_content(child_node));
    let linking_fields_updated = writes_any_of(parent_update_args, &back.linking_fields);
    let expectation = if linking_fields_updated {
        Option::Some(DataExpectation::EmptyRows(RelationViolation::from_relation(&back.relation).to_runtime_error()))
    } else {
        Option::None
    };
    graph.create_edge(
        &read_node,
        &noop_node,
        Dependency::Projected { selection: copy_names(&back.related_identifier), sink: RowSink::Discard, expectation },
    );
    graph.create_edge(&noop_node, child_node, Dependency::ExecutionOrder);
    proof {
        let b = spec_back_field(query_schema.data_model, *relation_field)->0;
        assert(*back == b);
        assert(graph.nodes@ == g2.nodes@);
        assert(graph.edges@[g0.edges@.len() as int] == g2.edges@[g0.edges@.len() as int]);
        assert(restrict_at(*graph, g0.nodes@.len() as int, g0.edges@.len() as int, *parent_node, b));
        assert(linking_fields_updated ==> fails_on_rows(new_edge(*graph, g0, 1), b));
        assert(graph.nodes@.take(g0.nodes@.len() as int) =~= g0.nodes@);
        assert(graph.edges@.take(g0.edges@.len() as int) =~= g0.edges@);
        assert(graph.marked@.take(g0.marked@.len() as int) =~= g0.marked@);
        assert(graph.result_nodes@.take(g0.result_nodes@.len() as int) =~= g0.result_nodes@);
    }
}

/// The read of the records related through `b` to the records that `parent` gives, at node
/// `nb` and edge `eb` of `g`, and an update of them at node `nb + 1` that takes their
/// identifiers, by edge `eb + 1`.
pub open spec fn dependents_at(g: QueryGraph, nb: int, eb: int, parent: NodeRef, b: RelationField) -> bool {
    let read = NodeRef { id: nb as usize };
    let update = NodeRef { id: (nb + 1) as usize };
    &&& 0 <= nb
    &&& nb + 2 <= g.nodes@.len()
    &&& 0 <= eb
    &&& eb + 1 <= g.edges@.len()
    &&& is_find_children(g.nodes@[nb], b, Filter::Empty)
    &&& is_parent_records_edge(g.edges@[eb], parent, read, b)
}

/// The set-null emulation of the update `child` along `b`, at node `nb` and edge `eb` of `g`:
/// the read of the related records, the update that sets the fields `nulls` of the records of
/// `model` to null, and the edges that order them before `child`.
pub open spec fn set_null_at(
    g: QueryGraph,
    nb: int,
    eb: int,
    parent: NodeRef,
    child: NodeRef,
    b: RelationField,
    model: Seq<char>,
    nulls: Seq<Seq<char>>,
) -> bool {
    let read = NodeRef { id: nb as usize };
    let update = NodeRef { id: (nb + 1) as usize };
    &&& dependents_at(g, nb, eb, parent, b)
    &&& eb + 3 <= g.edges@.len()
    &&& is_set_null(g.nodes@[nb + 1], model, nulls)
    &&& is_selectors_edge(g.edges@[eb + 1], read, update, names(b.related_identifier@))
    &&& g.edges@[eb + 2] == (Edge { from: update, to: child, dependency: Dependency::ExecutionOrder })
}

/// What a graph holds at positions below its length stays once it is extended.
pub proof fn lemma_set_null_kept(
    g2: QueryGraph,
    g1: QueryGraph,
    nb: int,
    eb: int,
    parent: NodeRef,
    child: NodeRef,
    b: RelationField,
    model: Seq<char>,
    nulls: Seq<Seq<char>>,
)
    requires
        g2.extends(g1),
        set_null_at(g1, nb, eb, parent, child, b, model, nulls),
    ensures
        set_null_at(g2, nb, eb, parent, child, b, model, nulls),
{
    lemma_extends_keeps(g2, g1);
    assert(g2.nodes@[nb] == g1.nodes@[nb]);
    assert(g2.nodes@[nb + 1] == g1.nodes@[nb + 1]);
    assert(g2.edges@[eb] == g1.edges@[eb]);
    assert(g2.edges@[eb + 1] == g1.edges@[eb + 1]);
    assert(g2.edges@[eb + 2] == g1.edges@[eb + 2]);
}

/// Adds the read of the records related through `back` to the records that `parent_node`
/// gives, and an update of the records of `model` with `args` that takes their identifiers;
/// returns the two nodes.
fn insert_dependents_update(
    graph: &mut QueryGraph,
    parent_node: &NodeRef,
    back: &RelationField,
    model: &String,
    args: WriteArgs,
) -> (r: (NodeRef, NodeRef))
    requires
        old(graph).wf(),
        old(graph).has(*parent_node),
    ensures
        crate::write_utils::appended(*final(graph), *old(graph), 2, 2),
        r.0 == new_ref(*old(graph), 0),
        r.1 == new_ref(*old(graph), 1),
        r.0.id == old(graph).nodes@.len(),
        r.1.id == old(graph).nodes@.len() + 1,
        dependents_at(*final(graph), old(graph).nodes@.len() as int, old(graph).edges@.len() as int, *parent_node, *back),
        new_node(*final(graph), *old(graph), 1) matches Node::Query(
            Query::Write(WriteQuery::UpdateManyRecords { model: m, filter, args: a }),
        ) && m@ == model@ && filter == Filter::Empty && a == args,
        is_selectors_edge(new_edge(*final(graph), *old(graph), 1), r.0, r.1, names(back.related_identifier@)),
{
    let ghost g0 = *graph;
    let read_node = insert_find_children_by_parent_node(graph, parent_node, back, Filter::Empty);
    let ghost ga = *graph;
    let update_node = graph.create_node(
        Node::Query(Query::Write(WriteQuery::UpdateManyRecords { model: model.clone(), filter: Filter::Empty, args })),
    );
    graph.create_edge(
        &read_node,
        &update_node,
        Dependency::Projected {
            selection: copy_names(&back.related_identifier),
            sink: RowSink::Selectors,
            expectation: Option::None,
        },
    );
    proof {
        assert(graph.nodes@.take(g0.nodes@.len() as int) =~= g0.nodes@);
        assert(graph.edges@.take(g0.edges@.len() as int) =~= g0.edges@);
        assert(graph.marked@.take(g0.marked@.len() as int) =~= g0.marked@);
        assert(graph.result_nodes@.take(g0.result_nodes@.len() as int) =~= g0.result_nodes@);
        assert(graph.nodes@[g0.nodes@.len() as int] == ga.nodes@[g0.nodes@.len() as int]);
        assert(graph.edges@[g0.edges@.len() as int] == ga.edges@[g0.edges@.len() as int]);
    }
    (read_node, update_node)
}

/// Runs the update emulation of each of the relation fields `fields`, at positions `ps` of the
/// data model, for the update `child_node` of the records that `parent_node` gives.
fn emulate_updates(
    graph: &mut QueryGraph,
    query_schema: &QuerySchema,
    ps: &Vec<(usize, usize)>,
    Ghost(fields): Ghost<Seq<RelationField>>,
    parent_node: &NodeRef,
    child_node: &NodeRef,
    Ghost(n): Ghost<nat>,
)
    requires
        old(graph).wf(),
        old(graph).has(*parent_node),
        is_update_at(*old(graph), *child_node),
        ps@.len() == fields.len(),
        forall|k: int| 0 <= k < ps@.len() ==> query_schema.data_model.locates(#[trigger] ps@[k], fields[k]),
        forall|k: int|
            0 <= k < fields.len() ==> update_bounded(
                query_schema.data_model,
                #[trigger] fields[k],
                keys_at(*old(graph), *child_node),
                n,
            ),
    ensures
        final(graph).wf(),
        final(graph).extends(*old(graph)),
        is_update_at(*final(graph), *child_node),
        keys_at(*final(graph), *child_node) == keys_at(*old(graph), *child_node),
    decreases n, 2int,
{
    let ghost g0 = *graph;
    proof {
        assert(graph.nodes@.take(g0.nodes@.len() as int) =~= g0.nodes@);
        assert(graph.edges@.take(g0.edges@.len() as int) =~= g0.edges@);
        assert(graph.marked@.take(g0.marked@.len() as int) =~= g0.marked@);
        assert(graph.result_nodes@.take(g0.result_nodes@.len() as int) =~= g0.result_nodes@);
    }
    let m = ps.len();
    let mut k: usize = 0;
    while k < m
        invariant
            m == ps@.len(),
            k <= m,
            ps@.len() == fields.len(),
            forall|j: int| 0 <= j < ps@.len() ==> query_schema.data_model.locates(#[trigger] ps@[j], fields[j]),
            forall|j: int|
                0 <= j < fields.len() ==> update_bounded(
                    query_schema.data_model,
                    #[trigger] fields[j],
                    keys_at(g0, *child_node),
                    n,
                ),
            graph.wf(),
            graph.extends(g0),
            g0.has(*parent_node),
            is_update_at(g0, *child_node),
            is_update_at(*graph, *child_node),
            keys_at(*graph, *child_node) == keys_at(g0, *child_node),
        decreases m - k,
    {
        assert(query_schema.data_model.locates(ps@[k as int], fields[k as int]));
        let rf = query_schema.data_model.relation_at(ps[k]);
        assert(*rf == fields[k as int]);
        let ghost before = *graph;
        emulate_referential_update(graph, query_schema, rf, parent_node, child_node, Ghost(n));
        proof {
            lemma_extends_trans(*graph, before, g0);
            lemma_update_kept(*graph, before, *child_node);
        }
        k = k + 1;
    }
}

/// Runs the emulation of the update action of `relation_field`.
fn emulate_referential_update(
    graph: &mut QueryGraph,
    query_schema: &QuerySchema,
    relation_field: &RelationField,
    parent_node: &NodeRef,
    child_node: &NodeRef,
    Ghost(n): Ghost<nat>,
)
    requires
        old(graph).wf(),
        old(graph).has(*parent_node),
        is_update_at(*old(graph), *child_node),
        update_bounded(query_schema.data_model, *relation_field, keys_at(*old(graph), *child_node), n),
    ensures
        final(graph).wf(),
        final(graph).extends(*old(graph)),
    decreases n, 1int,
{
    proof { lemma_update_bounded(query_schema.data_model, *relation_field, keys_at(*graph, *child_node), n); }
    match relation_field.relation.on_update {
        ReferentialAction::NoAction | ReferentialAction::Restrict => {
            emulate_on_update_restrict(graph, query_schema, relation_field, parent_node, child_node);
        },
        ReferentialAction::SetNull => {
            emulate_on_update_set_null_within(graph, relation_field, query_schema, parent_node, child_node, Ghost(n));
        },
        ReferentialAction::Cascade => {
            emulate_on_update_cascade_within(graph, relation_field, query_schema, parent_node, child_node, Ghost(n));
        },
        ReferentialAction::SetDefault => vstd::pervasive::unreached(),
    }
}

/// As `emulate_on_update_set_null`, with the emulation ending within `n` levels.
pub(crate) fn emulate_on_update_set_null_within(
    graph: &mut QueryGraph,
    relation_field: &RelationField,
    query_schema: &QuerySchema,
    parent_node: &NodeRef,
    child_node: &NodeRef,
    Ghost(n): Ghost<nat>,
)
    requires
        old(graph).wf(),
        old(graph).has(*parent_node),
        is_update_at(*old(graph), *child_node),
        spec_back_field(query_schema.data_model, *relation_field) is Some,
        set_null_bounded(query_schema.data_model, *relation_field, keys_at(*old(graph), *child_node), n),
    ensures
        final(graph).wf(),
        final(graph).extends(*old(graph)),
        !writes_any(keys_at(*old(graph), *child_node), parent_pks(*relation_field)) ==> *final(graph)
            == *old(graph),
        writes_any(keys_at(*old(graph), *child_node), parent_pks(*relation_field)) ==> set_null_at(
            *final(graph),
            old(graph).nodes@.len() as int,
            old(graph).edges@.len() as int,
            *parent_node,
            *child_node,
            spec_back_field(query_schema.data_model, *relation_field)->0,
            relation_field.model@,
            update_nulls(query_schema.data_model, *relation_field),
        ),
    decreases n, 0int,
{
    let ghost g0 = *graph;
    let dm = &query_schema.data_model;
    let back = match dm.back_field(relation_field) {
        Option::Some(b) => b,
        Option::None => vstd::pervasive::unreached(),
    };
    let parent_update_args = extract_update_args(graph.node_content(child_node));
    let parent_updates_pk = writes_any_of(parent_update_args, &relation_field.related_linking_fields);
    if !parent_updates_pk {
        proof { lemma_extends_refl(*graph); }
        return;
    }
    proof { lemma_set_null_bounded(*dm, *relation_field, keys_at(g0, *child_node), n); }
    let nulls = dm.nullable_among(relation_field.model.as_str(), &relation_field.linking_fields);
    let args = null_args(&nulls);
    assert(fields_of(args.args@) =~= update_nulls(*dm, *relation_field));
    let (dependent_records_node, set_null_node) = insert_dependents_update(
        graph,
        parent_node,
        back,
        &relation_field.model,
        args,
    );
    let ghost ga = *graph;
    graph.create_edge(&set_null_node, child_node, Dependency::ExecutionOrder);
    let ghost g1 = *graph;
    proof {
        assert(g1.nodes@.take(g0.nodes@.len() as int) =~= g0.nodes@);
        assert(g1.edges@.take(g0.edges@.len() as int) =~= g0.edges@);
        assert(g1.marked@.take(g0.marked@.len() as int) =~= g0.marked@);
        assert(g1.result_nodes@.take(g0.result_nodes@.len() as int) =~= g0.result_nodes@);
        assert(g1.edges@[g0.edges@.len() as int] == ga.edges@[g0.edges@.len() as int]);
        assert(g1.edges@[g0.edges@.len() + 1int] == ga.edges@[g0.edges@.len() + 1int]);
        assert(*back == spec_back_field(*dm, *relation_field)->0);
        assert(keys_at(g1, set_null_node) == update_nulls(*dm, *relation_field));
    }
    let overlapping_fields = dm.collect_overlapping_relation_fields(relation_field);
    emulate_updates(
        graph,
        query_schema,
        &overlapping_fields,
        Ghost(overlapping(*dm, *relation_field)),
        &dependent_records_node,
        &set_null_node,
        Ghost((n - 1) as nat),
    );
    proof {
        lemma_extends_trans(*graph, g1, g0);
        lemma_set_null_kept(
            *graph,
            g1,
            g0.nodes@.len() as int,
            g0.edges@.len() as int,
            *parent_node,
            *child_node,
            *back,
            relation_field.model@,
            update_nulls(*dm, *relation_field),
        );
    }
}

/// The cascade emulation of the update `child` along `b`, appended to `old` in `g`: the read
/// of the related records, the update of the records of `model` that carries the writes
/// `keys` over to them, and, last, the edges that hand the update the identifiers of the
/// related records and order it before `child`.
/// The writes of the update node `update` of `g` copy, in order, the new values that the
/// update node `child` of `old` writes to the fields the relation `rf` refers to, each onto
/// the field of the relation that refers to it.
pub open spec fn cascade_values_at(g: QueryGraph, update: NodeRef, old: QueryGraph, child: NodeRef, rf: RelationField) -> bool {
    let written = update_args_of(g.nodes@[update.id as int]).args@;
    let copied = cascade_ops(update_args_of(old.nodes@[child.id as int]).args@, parent_pks(rf), pair_count(rf));
    &&& written.len() == copied.len()
    &&& forall|j: int| 0 <= j < written.len() ==> same_write(#[trigger] written[j].1, copied[j])
}

pub open spec fn cascade_at(
    g: QueryGraph,
    old: QueryGraph,
    parent: NodeRef,
    child: NodeRef,
    b: RelationField,
    model: Seq<char>,
    keys: Seq<Seq<char>>,
) -> bool {
    let read = new_ref(old, 0);
    let update = new_ref(old, 1);
    &&& dependents_at(g, old.nodes@.len() as int, old.edges@.len() as int, parent, b)
    &&& old.edges@.len() + 3 <= g.edges@.len()
    &&& new_node(g, old, 1) matches Node::Query(Query::Write(WriteQuery::UpdateManyRecords { model: m, filter, args }))
    &&& m@ == model
    &&& filter == Filter::Empty
    &&& written_fields(args) == keys
    &&& is_selectors_edge(g.edges@[g.edges@.len() - 2], read, update, names(b.related_identifier@))
    &&& g.edges@[g.edges@.len() - 1] == (Edge { from: update, to: child, dependency: Dependency::ExecutionOrder })
}

/// As `emulate_on_update_cascade`, with the emulation ending within `n` levels.
pub(crate) fn emulate_on_update_cascade_within(
    graph: &mut QueryGraph,
    relation_field: &RelationField,
    query_schema: &QuerySchema,
    parent_node: &NodeRef,
    child_node: &NodeRef,
    Ghost(n): Ghost<nat>,
)
    requires
        old(graph).wf(),
        old(graph).has(*parent_node),
        is_update_at(*old(graph), *child_node),
        spec_back_field(query_schema.data_model, *relation_field) is Some,
        cascade_bounded(query_schema.data_model, *relation_field, keys_at(*old(graph), *child_node), n),
    ensures
        final(graph).wf(),
        final(graph).extends(*old(graph)),
        cascaded(keys_at(*old(graph), *child_node), *relation_field).len() == 0 ==> *final(graph) == *old(graph),
        cascaded(keys_at(*old(graph), *child_node), *relation_field).len() > 0 ==> cascade_at(
            *final(graph),
            *old(graph),
            *parent_node,
            *child_node,
            spec_back_field(query_schema.data_model, *relation_field)->0,
            relation_field.model@,
            cascaded(keys_at(*old(graph), *child_node), *relation_field),
        ) && cascade_values_at(*final(graph), new_ref(*old(graph), 1), *old(graph), *child_node, *relation_field),
    decreases n, 0int,
{
    let ghost g0 = *graph;
    let dm = &query_schema.data_model;
    let back = match dm.back_field(relation_field) {
        Option::Some(b) => b,
        Option::None => vstd::pervasive::unreached(),
    };
    let parent_update_args = extract_update_args(graph.node_content(child_node));
    let child_update_args = cascade_args(parent_update_args, relation_field);
    let ghost cargs = child_update_args;
    if child_update_args.args.len() == 0 {
        proof { lemma_extends_refl(*graph); }
        return;
    }
    proof { lemma_cascade_bounded(*dm, *relation_field, keys_at(g0, *child_node), n); }
    let dependent_records_node = insert_find_children_by_parent_node(graph, parent_node, back, Filter::Empty);
    let ghost ga = *graph;
    let update_dependents_node = graph.create_node(
        Node::Query(
            Query::Write(
                WriteQuery::UpdateManyRecords {
                    model: relation_field.model.clone(),
                    filter: Filter::Empty,
                    args: child_update_args,
                },
            ),
        ),
    );
    let ghost g1 = *graph;
    proof {
        assert(g1.nodes@.take(g0.nodes@.len() as int) =~= g0.nodes@);
        assert(g1.edges@.take(g0.edges@.len() as int) =~= g0.edges@);
        assert(g1.marked@.take(g0.marked@.len() as int) =~= g0.marked@);
        assert(g1.result_nodes@.take(g0.result_nodes@.len() as int) =~= g0.result_nodes@);
        assert(g1.nodes@.take(ga.nodes@.len() as int) =~= ga.nodes@);
        assert(g1.edges@.take(ga.edges@.len() as int) =~= ga.edges@);
        assert(g1.marked@.take(ga.marked@.len() as int) =~= ga.marked@);
        assert(g1.result_nodes@.take(ga.result_nodes@.len() as int) =~= ga.result_nodes@);
        lemma_extends_keeps(g1, ga);
        assert(g1.nodes@[g0.nodes@.len() as int] == ga.nodes@[g0.nodes@.len() as int]);
        assert(*back == spec_back_field(*dm, *relation_field)->0);
        assert(dependents_at(g1, g0.nodes@.len() as int, g0.edges@.len() as int, *parent_node, *back));
    }
    insert_emulated_on_update_within(
        graph,
        query_schema,
        relation_field.model.as_str(),
        &dependent_records_node,
        &update_dependents_node,
        Ghost((n - 1) as nat),
    );
    let ghost g2 = *graph;
    graph.create_edge(
        &dependent_records_node,
        &update_dependents_node,
        Dependency::Projected {
            selection: copy_names(&back.related_identifier),
            sink: RowSink::Selectors,
            expectation: Option::None,
        },
    );
    graph.create_edge(&update_dependents_node, child_node, Dependency::ExecutionOrder);
    proof {
        lemma_extends_trans(g2, g1, g0);
        assert(graph.nodes@.take(g2.nodes@.len() as int) =~= g2.nodes@);
        assert(graph.edges@.take(g2.edges@.len() as int) =~= g2.edges@);
        assert(graph.marked@.take(g2.marked@.len() as int) =~= g2.marked@);
        assert(graph.result_nodes@.take(g2.result_nodes@.len() as int) =~= g2.result_nodes@);
        lemma_extends_keeps(*graph, g2);
        lemma_extends_keeps(g2, g1);
        assert(graph.nodes@.take(g0.nodes@.len() as int) =~= g0.nodes@);
        assert(graph.edges@.take(g0.edges@.len() as int) =~= g0.edges@) by {
            lemma_extends_keeps(g2, g0);
        }
        assert(graph.marked@.take(g0.marked@.len() as int) =~= g0.marked@) by {
            assert(g2.marked@.take(g0.marked@.len() as int) == g0.marked@);
        }
        assert(graph.result_nodes@.take(g0.result_nodes@.len() as int) =~= g0.result_nodes@) by {
            assert(g2.result_nodes@.take(g0.result_nodes@.len() as int) == g0.result_nodes@);
        }
        assert(graph.nodes@[g0.nodes@.len() as int] == g1.nodes@[g0.nodes@.len() as int]);
        assert(graph.nodes@[g0.nodes@.len() + 1int] == g1.nodes@[g0.nodes@.len() + 1int]);
        assert(graph.edges@[g0.edges@.len() as int] == g1.edges@[g0.edges@.len() as int]);
        assert(update_args_of(graph.nodes@[g0.nodes@.len() + 1int]) == cargs);
        assert(cascade_values_at(*graph, new_ref(g0, 1), g0, *child_node, *relation_field));
    }
}

/// As `insert_emulated_on_update`, with the emulation ending within `n` levels.
pub(crate) fn insert_emulated_on_update_within(
    graph: &mut QueryGraph,
    query_schema: &QuerySchema,
    model_to_update: &str,
    parent_node: &NodeRef,
    child_node: &NodeRef,
    Ghost(n): Ghost<nat>,
)
    requires
        old(graph).wf(),
        old(graph).has(*parent_node),
        is_update_at(*old(graph), *child_node),
        query_schema.relation_mode is Prisma ==> model_update_bounded(
            query_schema.data_model,
            model_to_update@,
            keys_at(*old(graph), *child_node),
            n,
        ),
    ensures
        final(graph).wf(),
        final(graph).extends(*old(graph)),
        !(query_schema.relation_mode is Prisma) ==> *final(graph) == *old(graph),
        is_update_at(*final(graph), *child_node),
        keys_at(*final(graph), *child_node) == keys_at(*old(graph), *child_node),
    decreases n, 3int,
{
    if query_schema.relation_mode.skips_emulation() {
        proof { lemma_extends_refl(*graph); }
        return;
    }
    let ps = query_schema.data_model.fields_pointing_to_model(model_to_update);
    proof {
        lemma_model_update_bounded(query_schema.data_model, model_to_update@, keys_at(*graph, *child_node), n);
    }
    emulate_updates(
        graph,
        query_schema,
        &ps,
        Ghost(pointing_to_model(query_schema.data_model.containers@, model_to_update@)),
        parent_node,
        child_node,
        Ghost(n),
    );
}

/// As `insert_emulated_on_update_with_intermediary_node`, with the emulation ending within `n` levels.
pub(crate) fn insert_emulated_on_update_with_intermediary_node_within(
    graph: &mut QueryGraph,
    query_schema: &QuerySchema,
    model_to_update: &Container,
    parent_node: &NodeRef,
    child_node: &NodeRef,
    Ghost(n): Ghost<nat>,
) -> (r: Option<NodeRef>)
    requires
        old(graph).wf(),
        old(graph).has(*parent_node),
        is_update_at(*old(graph), *child_node),
        query_schema.relation_mode is Prisma ==> model_update_bounded(
            query_schema.data_model,
            model_to_update.name@,
            keys_at(*old(graph), *child_node),
            n,
        ),
    ensures
        final(graph).wf(),
        final(graph).extends(*old(graph)),
        !(query_schema.relation_mode is Prisma) ==> r is None && *final(graph) == *old(graph),
        query_schema.relation_mode is Prisma ==> {
            &&& r == Option::Some(new_ref(*old(graph), 0))
            &&& old(graph).nodes@.len() + 1 <= final(graph).nodes@.len()
            &&& old(graph).edges@.len() + 1 <= final(graph).edges@.len()
            &&& new_node(*final(graph), *old(graph), 0) == Node::Flow(Flow::Return)
            &&& is_projected(
                new_edge(*final(graph), *old(graph), 0),
                *parent_node,
                new_ref(*old(graph), 0),
                names(model_to_update.primary_identifier@),
            )
            &&& new_edge(*final(graph), *old(graph), 0).dependency->sink is Returned
            &&& new_edge(*final(graph), *old(graph), 0).dependency->expectation is None
        },
{
    if query_schema.relation_mode.skips_emulation() {
        proof { lemma_extends_refl(*graph); }
        return Option::None;
    }
    let ghost g0 = *graph;
    let join_node = graph.create_node(Node::Flow(Flow::Return));
    graph.create_edge(
        parent_node,
        &join_node,
        Dependency::Projected {
            selection: copy_names(&model_to_update.primary_identifier),
            sink: RowSink::Returned,
            expectation: Option::None,
        },
    );
    let ghost g1 = *graph;
    proof {
        assert(g1.nodes@.take(g0.nodes@.len() as int) =~= g0.nodes@);
        assert(g1.edges@.take(g0.edges@.len() as int) =~= g0.edges@);
        assert(g1.marked@.take(g0.marked@.len() as int) =~= g0.marked@);
        assert(g1.result_nodes@.take(g0.result_nodes@.len() as int) =~= g0.result_nodes@);
        lemma_update_kept(g1, g0, *child_node);
    }
    insert_emulated_on_update_within(graph, query_schema, model_to_update.name.as_str(), &join_node, child_node, Ghost(n));
    proof {
        lemma_extends_trans(*graph, g1, g0);
        lemma_extends_keeps(*graph, g1);
        assert(graph.nodes@[g0.nodes@.len() as int] == g1.nodes@[g0.nodes@.len() as int]);
        assert(graph.edges@[g0.edges@.len() as int] == g1.edges@[g0.edges@.len() as int]);
    }
    Option::Some(join_node)
}

/// Adds the check that no record relates through the back field of `relation_field` to the
/// records that `node_providing_ids` gives, which are to be deleted; returns the empty node
/// that the delete is to wait for.
pub fn emulate_on_delete_restrict(
    graph: &mut QueryGraph,
    query_schema: &QuerySchema,
    relation_field: &RelationField,
    node_providing_ids: &NodeRef,
) -> (r: NodeRef)
    requires
        old(graph).wf(),
        old(graph).has(*node_providing_ids),
        spec_back_field(query_schema.data_model, *relation_field) is Some,
    ensures
        crate::write_utils::appended(*final(graph), *old(graph), 2, 2),
        r == new_ref(*old(graph), 0),
        is_new_node(*final(graph), *old(graph), r),
        restrict_at(
            *final(graph),
            old(graph).nodes@.len() as int,
            old(graph).edges@.len() as int,
            *node_providing_ids,
            spec_back_field(query_schema.data_model, *relation_field)->0,
        ),
        fails_on_rows(
            new_edge(*final(graph), *old(graph), 1),
            spec_back_field(query_schema.data_model, *relation_field)->0,
        ),
{
    let ghost g0 = *graph;
    let noop_node = graph.create_node(Node::Empty);
    let back = match query_schema.data_model.back_field(relation_field) {
        Option::Some(b) => b,
        Option::None => vstd::pervasive::unreached(),
    };
    let ghost g1 = *graph;
    let read_node = insert_find_children_by_parent_node(graph, node_providing_ids, back, Filter::Empty);
    let ghost g2 = *graph;
    proof {
        lemma_extends_keeps(g2, g1);
    }
    graph.create_edge(
        &read_node,
        &noop_node,
        Dependency::Projected {
            selection: copy_names(&back.related_identifier),
            sink: RowSink::Discard,
            expectation: Option::Some(
                DataExpectation::EmptyRows(RelationViolation::from_relation(&back.relation).to_runtime_error()),
            ),
        },
    );
    proof {
        assert(graph.nodes@ == g2.nodes@);
        assert(graph.edges@[g0.edges@.len() as int] == g2.edges@[g0.edges@.len() as int]);
        assert(graph.nodes@.take(g0.nodes@.len() as int) =~= g0.nodes@);
        assert(graph.edges@.take(g0.edges@.len() as int) =~= g0.edges@);
        assert(graph.marked@.take(g0.marked@.len() as int) =~= g0.marked@);
        assert(graph.result_nodes@.take(g0.result_nodes@.len() as int) =~= g0.result_nodes@);
    }
    noop_node
}

/// Adds the read of the records related through `back` to the records that `parent_node`
/// gives, and a deletion of records of `model` whose selectors come later; returns the two
/// nodes.
fn insert_dependents_delete(
    graph: &mut QueryGraph,
    parent_node: &NodeRef,
    back: &RelationField,
    model: &String,
) -> (r: (NodeRef, NodeRef))
    requires
        old(graph).wf(),
        old(graph).has(*parent_node),
    ensures
        crate::write_utils::appended(*final(graph), *old(graph), 2, 1),
        r.0 == new_ref(*old(graph), 0),
        r.1 == new_ref(*old(graph), 1),
        r.0.id == old(graph).nodes@.len(),
        r.1.id == old(graph).nodes@.len() + 1,
        dependents_at(*final(graph), old(graph).nodes@.len() as int, old(graph).edges@.len() as int, *parent_node, *back),
        new_node(*final(graph), *old(graph), 1) matches Node::Query(
            Query::Write(WriteQuery::DeleteManyRecords { model: m, filter }),
        ) && m@ == model@ && filter == Filter::Empty,
{
    let ghost g0 = *graph;
    let read_node = insert_find_children_by_parent_node(graph, parent_node, back, Filter::Empty);
    let ghost ga = *graph;
    let delete_node = graph.create_node(
        Node::Query(Query::Write(WriteQuery::DeleteManyRecords { model: model.clone(), filter: Filter::Empty })),
    );
    proof {
        assert(graph.nodes@.take(g0.nodes@.len() as int) =~= g0.nodes@);
        assert(graph.edges@.take(g0.edges@.len() as int) =~= g0.edges@);
        assert(graph.marked@.take(g0.marked@.len() as int) =~= g0.marked@);
        assert(graph.result_nodes@.take(g0.result_nodes@.len() as int) =~= g0.result_nodes@);
        assert(graph.nodes@[g0.nodes@.len() as int] == ga.nodes@[g0.nodes@.len() as int]);
    }
    (read_node, delete_node)
}

/// As `emulate_on_delete_cascade`, with the emulation ending within `n` levels.
pub(crate) fn emulate_on_delete_cascade_within(
    graph: &mut QueryGraph,
    relation_field: &RelationField,
    query_schema: &QuerySchema,
    node_providing_ids: &NodeRef,
    Ghost(n): Ghost<nat>,
) -> (r: NodeRef)
    requires
        old(graph).wf(),
        old(graph).has(*node_providing_ids),
        spec_back_field(query_schema.data_model, *relation_field) is Some,
        n > 0,
        query_schema.relation_mode is Prisma ==> delete_bounded(
            query_schema.data_model,
            relation_field.model@,
            (n - 1) as nat,
        ),
    ensures
        final(graph).wf(),
        final(graph).extends(*old(graph)),
        r == new_ref(*old(graph), 1),
        r.id == old(graph).nodes@.len() + 1,
        is_new_node(*final(graph), *old(graph), r),
        dependents_at(
            *final(graph),
            old(graph).nodes@.len() as int,
            old(graph).edges@.len() as int,
            *node_providing_ids,
            spec_back_field(query_schema.data_model, *relation_field)->0,
        ),
        new_node(*final(graph), *old(graph), 1) matches Node::Query(
            Query::Write(WriteQuery::DeleteManyRecords { model, filter }),
        ) && model@ == relation_field.model@ && filter == Filter::Empty,
        is_selectors_edge(
            final(graph).edges@[final(graph).edges@.len() - 1],
            new_ref(*old(graph), 0),
            r,
            names(spec_back_field(query_schema.data_model, *relation_field)->0.related_identifier@),
        ),
    decreases n, 0int,
{
    let ghost g0 = *graph;
    let back = match query_schema.data_model.back_field(relation_field) {
        Option::Some(b) => b,
        Option::None => vstd::pervasive::unreached(),
    };
    let (dependent_records_node, delete_dependents_node) = insert_dependents_delete(
        graph,
        node_providing_ids,
        back,
        &relation_field.model,
    );
    let ghost g1 = *graph;
    let dependencies = insert_emulated_on_delete_within(
        graph,
        query_schema,
        relation_field.model.as_str(),
        &dependent_records_node,
        Ghost((n - 1) as nat),
    );
    let ghost g2 = *graph;
    proof {
        assert forall|i: int| 0 <= i < dependencies@.len() implies graph.has(#[trigger] dependencies@[i]) by {
            assert(is_new_node(g2, g1, dependencies@[i]));
        }
    }
    create_execution_order_edges(graph, dependencies, delete_dependents_node);
    let ghost g3 = *graph;
    graph.create_edge(
        &dependent_records_node,
        &delete_dependents_node,
        Dependency::Projected {
            selection: copy_names(&back.related_identifier),
            sink: RowSink::Selectors,
            expectation: Option::None,
        },
    );
    proof {
        assert(graph.nodes@.take(g3.nodes@.len() as int) =~= g3.nodes@);
        assert(graph.edges@.take(g3.edges@.len() as int) =~= g3.edges@);
        assert(graph.marked@.take(g3.marked@.len() as int) =~= g3.marked@);
        assert(graph.result_nodes@.take(g3.result_nodes@.len() as int) =~= g3.result_nodes@);
        lemma_extends_trans(g3, g2, g1);
        lemma_extends_trans(*graph, g3, g1);
        lemma_extends_trans(*graph, g1, g0);
        lemma_extends_keeps(*graph, g1);
        assert(graph.nodes@[g0.nodes@.len() as int] == g1.nodes@[g0.nodes@.len() as int]);
        assert(graph.nodes@[g0.nodes@.len() + 1int] == g1.nodes@[g0.nodes@.len() + 1int]);
        assert(graph.edges@[g0.edges@.len() as int] == g1.edges@[g0.edges@.len() as int]);
        assert(*back == spec_back_field(query_schema.data_model, *relation_field)->0);
    }
    delete_dependents_node
}

/// The emulations of the update actions that setting the nullable foreign keys of `rf` to
/// null starts, on the relations that share those fields, end within `n` levels.
pub open spec fn set_null_updates_within(dm: DataModel, rf: RelationField, n: nat) -> bool {
    forall|k: int|
        0 <= k < overlapping(dm, rf).len() ==> update_bounded(
            dm,
            #[trigger] overlapping(dm, rf)[k],
            nullable_fks(dm, rf),
            n,
        )
}

/// As `emulate_on_delete_set_null`, with the emulation ending within `n` levels.
pub(crate) fn emulate_on_delete_set_null_within(
    graph: &mut QueryGraph,
    query_schema: &QuerySchema,
    relation_field: &RelationField,
    node_providing_ids: &NodeRef,
    Ghost(n): Ghost<nat>,
) -> (r: Option<NodeRef>)
    requires
        old(graph).wf(),
        old(graph).has(*node_providing_ids),
        spec_back_field(query_schema.data_model, *relation_field) is Some,
        nullable_fks(query_schema.data_model, *relation_field).len() > 0 ==> n > 0 && forall|k: int|
            0 <= k < overlapping(query_schema.data_model, *relation_field).len() ==> update_bounded(
                query_schema.data_model,
                #[trigger] overlapping(query_schema.data_model, *relation_field)[k],
                nullable_fks(query_schema.data_model, *relation_field),
                (n - 1) as nat,
            ),
    ensures
        final(graph).wf(),
        final(graph).extends(*old(graph)),
        nullable_fks(query_schema.data_model, *relation_field).len() == 0 ==> r is None && *final(graph)
            == *old(graph),
        nullable_fks(query_schema.data_model, *relation_field).len() > 0 ==> {
            &&& r == Option::Some(new_ref(*old(graph), 1))
            &&& r->0.id == old(graph).nodes@.len() + 1
            &&& is_new_node(*final(graph), *old(graph), r->0)
            &&& dependents_at(
                *final(graph),
                old(graph).nodes@.len() as int,
                old(graph).edges@.len() as int,
                *node_providing_ids,
                spec_back_field(query_schema.data_model, *relation_field)->0,
            )
            &&& old(graph).edges@.len() + 2 <= final(graph).edges@.len()
            &&& is_set_null(
                new_node(*final(graph), *old(graph), 1),
                relation_field.model@,
                nullable_fks(query_schema.data_model, *relation_field),
            )
            &&& is_selectors_edge(
                new_edge(*final(graph), *old(graph), 1),
                new_ref(*old(graph), 0),
                new_ref(*old(graph), 1),
                names(spec_back_field(query_schema.data_model, *relation_field)->0.related_identifier@),
            )
        },
    decreases n, 0int,
{
    let ghost g0 = *graph;
    let dm = &query_schema.data_model;
    let back = match dm.back_field(relation_field) {
        Option::Some(b) => b,
        Option::None => vstd::pervasive::unreached(),
    };
    let nulls = dm.nullable_fks(relation_field);
    if nulls.len() == 0 {
        proof { lemma_extends_refl(*graph); }
        return Option::None;
    }
    let args = null_args(&nulls);
    assert(fields_of(args.args@) =~= nullable_fks(*dm, *relation_field));
    let ghost args_g = args;
    let (dependent_records_node, set_null_node) = insert_dependents_update(
        graph,
        node_providing_ids,
        back,
        &relation_field.model,
        args,
    );
    let ghost g1 = *graph;
    proof {
        assert(set_null_node.id == g0.nodes@.len() + 1);
        assert(g1.nodes@[set_null_node.id as int] == new_node(g1, g0, 1));
        assert(update_args_of(g1.nodes@[set_null_node.id as int]) == args_g);
        assert(keys_at(g1, set_null_node) == nullable_fks(*dm, *relation_field));
    }
    let overlapping_fields = dm.collect_overlapping_relation_fields(relation_field);
    emulate_updates(
        graph,
        query_schema,
        &overlapping_fields,
        Ghost(overlapping(*dm, *relation_field)),
        &dependent_records_node,
        &set_null_node,
        Ghost((n - 1) as nat),
    );
    proof {
        lemma_extends_trans(*graph, g1, g0);
        lemma_extends_keeps(*graph, g1);
        assert(graph.nodes@[g0.nodes@.len() as int] == g1.nodes@[g0.nodes@.len() as int]);
        assert(graph.nodes@[g0.nodes@.len() + 1int] == g1.nodes@[g0.nodes@.len() + 1int]);
        assert(graph.edges@[g0.edges@.len() as int] == g1.edges@[g0.edges@.len() as int]);
        assert(graph.edges@[g0.edges@.len() + 1int] == g1.edges@[g0.edges@.len() + 1int]);
        assert(*back == spec_back_field(*dm, *relation_field)->0);
    }
    Option::Some(set_null_node)
}

/// As `insert_emulated_on_delete`, with the emulation ending within `n` levels.
pub(crate) fn insert_emulated_on_delete_within(
    graph: &mut QueryGraph,
    query_schema: &QuerySchema,
    model_to_delete: &str,
    node_providing_ids: &NodeRef,
    Ghost(n): Ghost<nat>,
) -> (r: Vec<NodeRef>)
    requires
        old(graph).wf(),
        old(graph).has(*node_providing_ids),
        query_schema.relation_mode is Prisma ==> delete_bounded(query_schema.data_model, model_to_delete@, n),
    ensures
        final(graph).wf(),
        final(graph).extends(*old(graph)),
        !(query_schema.relation_mode is Prisma) ==> r@.len() == 0 && *final(graph) == *old(graph),
        query_schema.relation_mode is Prisma ==> r@.len() == leaves_of(
            query_schema.data_model,
            pointing_to_model(query_schema.data_model.containers@, model_to_delete@),
        ),
        forall|i: int| 0 <= i < r@.len() ==> is_new_node(*final(graph), *old(graph), #[trigger] r@[i]),
        query_schema.relation_mode is Prisma ==> {
            let leaves = leaf_fields(
                query_schema.data_model,
                pointing_to_model(query_schema.data_model.containers@, model_to_delete@),
            );
            &&& r@.len() == leaves.len()
            &&& forall|i: int|
                0 <= i < r@.len() ==> is_leaf_for(*final(graph), #[trigger] r@[i], query_schema.data_model, leaves[i])
        },
    decreases n, 1int,
{
    let mut leaf_nodes: Vec<NodeRef> = Vec::new();
    if query_schema.relation_mode.skips_emulation() {
        proof { lemma_extends_refl(*graph); }
        return leaf_nodes;
    }
    let ghost g0 = *graph;
    let dm = &query_schema.data_model;
    let ghost fields = pointing_to_model(dm.containers@, model_to_delete@);
    let ps = dm.fields_pointing_to_model(model_to_delete);
    proof {
        lemma_extends_refl(*graph);
        lemma_delete_bounded(*dm, model_to_delete@, n);
    }
    let m = ps.len();
    let mut k: usize = 0;
    while k < m
        invariant
            m == ps@.len(),
            k <= m,
            ps@.len() == fields.len(),
            fields == pointing_to_model(dm.containers@, model_to_delete@),
            dm == &query_schema.data_model,
            query_schema.relation_mode is Prisma,
            forall|j: int| 0 <= j < ps@.len() ==> dm.locates(#[trigger] ps@[j], fields[j]),
            forall|j: int| 0 <= j < fields.len() ==> delete_field_bounded(*dm, #[trigger] fields[j], n),
            graph.wf(),
            graph.extends(g0),
            g0.has(*node_providing_ids),
            leaf_nodes@.len() == leaves_of(*dm, fields.take(k as int)),
            leaf_nodes@.len() == leaf_fields(*dm, fields.take(k as int)).len(),
            forall|i: int| 0 <= i < leaf_nodes@.len() ==> is_new_node(*graph, g0, #[trigger] leaf_nodes@[i]),
            forall|i: int|
                0 <= i < leaf_nodes@.len() ==> is_leaf_for(
                    *graph,
                    #[trigger] leaf_nodes@[i],
                    *dm,
                    leaf_fields(*dm, fields.take(k as int))[i],
                ),
        decreases m - k,
    {
        assert(dm.locates(ps@[k as int], fields[k as int]));
        let rf = dm.relation_at(ps[k]);
        assert(*rf == fields[k as int]);
        proof { lemma_delete_field_bounded(*dm, fields[k as int], n); }
        assert(fields.take(k + 1).drop_last() =~= fields.take(k as int));
        assert(fields.take(k + 1).last() == fields[k as int]);
        let ghost before = *graph;
        let ghost leaves_before = leaf_nodes@;
        match rf.relation.on_delete {
            ReferentialAction::NoAction | ReferentialAction::Restrict => {
                let node = emulate_on_delete_restrict(graph, query_schema, rf, node_providing_ids);
                proof {
                    assert(node.id == before.nodes@.len());
                    assert(is_leaf_for(*graph, node, *dm, fields[k as int]));
                }
                leaf_nodes.push(node);
            },
            ReferentialAction::SetNull => {
                let node = emulate_on_delete_set_null_within(graph, query_schema, rf, node_providing_ids, Ghost(n));
                match node {
                    Option::Some(node) => {
                        proof {
                            assert(node.id == before.nodes@.len() + 1);
                            assert(is_leaf_for(*graph, node, *dm, fields[k as int]));
                        }
                        leaf_nodes.push(node);
                    },
                    Option::None => {},
                }
            },
            ReferentialAction::Cascade => {
                let node = emulate_on_delete_cascade_within(graph, rf, query_schema, node_providing_ids, Ghost(n));
                proof {
                    assert(node.id == before.nodes@.len() + 1);
                    assert(is_leaf_for(*graph, node, *dm, fields[k as int]));
                }
                leaf_nodes.push(node);
            },
            ReferentialAction::SetDefault => vstd::pervasive::unreached(),
        }
        proof {
            lemma_extends_trans(*graph, before, g0);
            lemma_extends_keeps(*graph, before);
            let lf_before = leaf_fields(*dm, fields.take(k as int));
            let lf_after = leaf_fields(*dm, fields.take(k + 1));
            assert forall|i: int| 0 <= i < leaf_nodes@.len() implies is_new_node(*graph, g0, #[trigger] leaf_nodes@[i]) by {
                if i < leaves_before.len() {
                    assert(leaf_nodes@[i] == leaves_before[i]);
                }
            }
            assert forall|i: int| 0 <= i < leaf_nodes@.len() implies is_leaf_for(
                *graph,
                #[trigger] leaf_nodes@[i],
                *dm,
                lf_after[i],
            ) by {
                if i < leaves_before.len() {
                    assert(leaf_nodes@[i] == leaves_before[i]);
                    assert(lf_after[i] == lf_before[i]);
                    assert(is_leaf_for(before, leaves_before[i], *dm, lf_before[i]));
                }
            }
        }
        k = k + 1;
    }
    assert(fields.take(m as int) =~= fields);
    proof { lemma_leaf_count(*dm, fields); }
    leaf_nodes
}

/// Adds the emulation of a set-null update action along `relation_field`: where the update
/// `child_node` of the records that `parent_node` gives writes a field that the foreign key of
/// `relation_field` refers to, the records that refer to them get their optional foreign key
/// fields set to null first, with the emulation of the relations that share those fields.
pub fn emulate_on_update_set_null(
    graph: &mut QueryGraph,
    relation_field: &RelationField,
    query_schema: &QuerySchema,
    parent_node: &NodeRef,
    child_node: &NodeRef,
)
    requires
        old(graph).wf(),
        old(graph).has(*parent_node),
        is_update_at(*old(graph), *child_node),
        spec_back_field(query_schema.data_model, *relation_field) is Some,
        exists|n: nat| set_null_bounded(query_schema.data_model, *relation_field, keys_at(*old(graph), *child_node), n),
    ensures
        final(graph).wf(),
        final(graph).extends(*old(graph)),
        !writes_any(keys_at(*old(graph), *child_node), parent_pks(*relation_field)) ==> *final(graph)
            == *old(graph),
        writes_any(keys_at(*old(graph), *child_node), parent_pks(*relation_field)) ==> set_null_at(
            *final(graph),
            old(graph).nodes@.len() as int,
            old(graph).edges@.len() as int,
            *parent_node,
            *child_node,
            spec_back_field(query_schema.data_model, *relation_field)->0,
            relation_field.model@,
            update_nulls(query_schema.data_model, *relation_field),
        ),
{
    let ghost n = choose|n: nat| set_null_bounded(query_schema.data_model, *relation_field, keys_at(*graph, *child_node), n);
    emulate_on_update_set_null_within(graph, relation_field, query_schema, parent_node, child_node, Ghost(n))
}

/// Adds the emulation of a cascading update action along `relation_field`: where the update
/// `child_node` of the records that `parent_node` gives writes fields that the foreign key of
/// `relation_field` refers to, the records that refer to them get the same writes of their
/// foreign key fields first, with the emulation of the relations to their model.
pub fn emulate_on_update_cascade(
    graph: &mut QueryGraph,
    relation_field: &RelationField,
    query_schema: &QuerySchema,
    parent_node: &NodeRef,
    child_node: &NodeRef,
)
    requires
        old(graph).wf(),
        old(graph).has(*parent_node),
        is_update_at(*old(graph), *child_node),
        spec_back_field(query_schema.data_model, *relation_field) is Some,
        exists|n: nat| cascade_bounded(query_schema.data_model, *relation_field, keys_at(*old(graph), *child_node), n),
    ensures
        final(graph).wf(),
        final(graph).extends(*old(graph)),
        cascaded(keys_at(*old(graph), *child_node), *relation_field).len() == 0 ==> *final(graph) == *old(graph),
        cascaded(keys_at(*old(graph), *child_node), *relation_field).len() > 0 ==> cascade_at(
            *final(graph),
            *old(graph),
            *parent_node,
            *child_node,
            spec_back_field(query_schema.data_model, *relation_field)->0,
            relation_field.model@,
            cascaded(keys_at(*old(graph), *child_node), *relation_field),
        ) && cascade_values_at(*final(graph), new_ref(*old(graph), 1), *old(graph), *child_node, *relation_field),
{
    let ghost n = choose|n: nat| cascade_bounded(query_schema.data_model, *relation_field, keys_at(*graph, *child_node), n);
    emulate_on_update_cascade_within(graph, relation_field, query_schema, parent_node, child_node, Ghost(n))
}

/// Adds the emulation of the update actions of the relations to `model_to_update`, for the
/// update `child_node` of the records that `parent_node` gives; nothing where the database
/// keeps the integrity of relations, or where nobody does.
pub fn insert_emulated_on_update(
    graph: &mut QueryGraph,
    query_schema: &QuerySchema,
    model_to_update: &str,
    parent_node: &NodeRef,
    child_node: &NodeRef,
)
    requires
        old(graph).wf(),
        old(graph).has(*parent_node),
        is_update_at(*old(graph), *child_node),
        query_schema.relation_mode is Prisma ==> update_emulation_ends(
            query_schema.data_model,
            model_to_update@,
            keys_at(*old(graph), *child_node),
        ),
    ensures
        final(graph).wf(),
        final(graph).extends(*old(graph)),
        !(query_schema.relation_mode is Prisma) ==> *final(graph) == *old(graph),
        is_update_at(*final(graph), *child_node),
        keys_at(*final(graph), *child_node) == keys_at(*old(graph), *child_node),
{
    let ghost n: nat = if query_schema.relation_mode is Prisma {
        choose|n: nat| model_update_bounded(query_schema.data_model, model_to_update@, keys_at(*graph, *child_node), n)
    } else {
        0
    };
    insert_emulated_on_update_within(graph, query_schema, model_to_update, parent_node, child_node, Ghost(n))
}

/// Adds a node that returns the identifiers of the records that `parent_node` gives, and below
/// it the emulation of the update actions of the relations to `model_to_update`, for the
/// update `child_node`; returns that node, or nothing where the referential actions are not
/// emulated.
pub fn insert_emulated_on_update_with_intermediary_node(
    graph: &mut QueryGraph,
    query_schema: &QuerySchema,
    model_to_update: &Container,
    parent_node: &NodeRef,
    child_node: &NodeRef,
) -> (r: Option<NodeRef>)
    requires
        old(graph).wf(),
        old(graph).has(*parent_node),
        is_update_at(*old(graph), *child_node),
        query_schema.relation_mode is Prisma ==> update_emulation_ends(
            query_schema.data_model,
            model_to_update.name@,
            keys_at(*old(graph), *child_node),
        ),
    ensures
        final(graph).wf(),
        final(graph).extends(*old(graph)),
        !(query_schema.relation_mode is Prisma) ==> r is None && *final(graph) == *old(graph),
        query_schema.relation_mode is Prisma ==> {
            &&& r == Option::Some(new_ref(*old(graph), 0))
            &&& old(graph).nodes@.len() + 1 <= final(graph).nodes@.len()
            &&& old(graph).edges@.len() + 1 <= final(graph).edges@.len()
            &&& new_node(*final(graph), *old(graph), 0) == Node::Flow(Flow::Return)
            &&& is_projected(
                new_edge(*final(graph), *old(graph), 0),
                *parent_node,
                new_ref(*old(graph), 0),
                names(model_to_update.primary_identifier@),
            )
            &&& new_edge(*final(graph), *old(graph), 0).dependency->sink is Returned
            &&& new_edge(*final(graph), *old(graph), 0).dependency->expectation is None
        },
{
    let ghost n: nat = if query_schema.relation_mode is Prisma {
        choose|n: nat| model_update_bounded(query_schema.data_model, model_to_update.name@, keys_at(*graph, *child_node), n)
    } else {
        0
    };
    insert_emulated_on_update_with_intermediary_node_within(graph, query_schema, model_to_update, parent_node, child_node, Ghost(n))
}

/// Adds the deletion of the records that relate through the back field of `relation_field` to
/// the records that `node_providing_ids` gives, which are to be deleted, with the emulation of
/// the delete actions of the relations to their model; returns the delete node.
pub fn emulate_on_delete_cascade(
    graph: &mut QueryGraph,
    relation_field: &RelationField,
    query_schema: &QuerySchema,
    node_providing_ids: &NodeRef,
) -> (r: NodeRef)
    requires
        old(graph).wf(),
        old(graph).has(*node_providing_ids),
        spec_back_field(query_schema.data_model, *relation_field) is Some,
        query_schema.relation_mode is Prisma ==> delete_emulation_ends(query_schema.data_model, relation_field.model@),
    ensures
        final(graph).wf(),
        final(graph).extends(*old(graph)),
        r == new_ref(*old(graph), 1),
        r.id == old(graph).nodes@.len() + 1,
        is_new_node(*final(graph), *old(graph), r),
        dependents_at(
            *final(graph),
            old(graph).nodes@.len() as int,
            old(graph).edges@.len() as int,
            *node_providing_ids,
            spec_back_field(query_schema.data_model, *relation_field)->0,
        ),
        new_node(*final(graph), *old(graph), 1) matches Node::Query(
            Query::Write(WriteQuery::DeleteManyRecords { model, filter }),
        ) && model@ == relation_field.model@ && filter == Filter::Empty,
        is_selectors_edge(
            final(graph).edges@[final(graph).edges@.len() - 1],
            new_ref(*old(graph), 0),
            r,
            names(spec_back_field(query_schema.data_model, *relation_field)->0.related_identifier@),
        ),
{
    let ghost n: nat = if query_schema.relation_mode is Prisma {
        (choose|n: nat| delete_bounded(query_schema.data_model, relation_field.model@, n)) + 1
    } else {
        1
    };
    emulate_on_delete_cascade_within(graph, relation_field, query_schema, node_providing_ids, Ghost(n))
}

/// Adds the update that sets the optional foreign key fields of the records that relate
/// through the back field of `relation_field` to the records that `node_providing_ids` gives,
/// which are to be deleted, to null, with the emulation of the update actions of the
/// relations that share those fields; returns the update node, or nothing where no foreign
/// key field is optional.
pub fn emulate_on_delete_set_null(
    graph: &mut QueryGraph,
    query_schema: &QuerySchema,
    relation_field: &RelationField,
    node_providing_ids: &NodeRef,
) -> (r: Option<NodeRef>)
    requires
        old(graph).wf(),
        old(graph).has(*node_providing_ids),
        spec_back_field(query_schema.data_model, *relation_field) is Some,
        nullable_fks(query_schema.data_model, *relation_field).len() > 0 ==> exists|n: nat| #[trigger] set_null_updates_within(
            query_schema.data_model,
            *relation_field,
            n,
        ),
    ensures
        final(graph).wf(),
        final(graph).extends(*old(graph)),
        nullable_fks(query_schema.data_model, *relation_field).len() == 0 ==> r is None && *final(graph)
            == *old(graph),
        nullable_fks(query_schema.data_model, *relation_field).len() > 0 ==> {
            &&& r == Option::Some(new_ref(*old(graph), 1))
            &&& r->0.id == old(graph).nodes@.len() + 1
            &&& is_new_node(*final(graph), *old(graph), r->0)
            &&& dependents_at(
                *final(graph),
                old(graph).nodes@.len() as int,
                old(graph).edges@.len() as int,
                *node_providing_ids,
                spec_back_field(query_schema.data_model, *relation_field)->0,
            )
            &&& old(graph).edges@.len() + 2 <= final(graph).edges@.len()
            &&& is_set_null(
                new_node(*final(graph), *old(graph), 1),
                relation_field.model@,
                nullable_fks(query_schema.data_model, *relation_field),
            )
            &&& is_selectors_edge(
                new_edge(*final(graph), *old(graph), 1),
                new_ref(*old(graph), 0),
                new_ref(*old(graph), 1),
                names(spec_back_field(query_schema.data_model, *relation_field)->0.related_identifier@),
            )
        },
{
    let ghost n: nat = if nullable_fks(query_schema.data_model, *relation_field).len() > 0 {
        (choose|n: nat| set_null_updates_within(query_schema.data_model, *relation_field, n)) + 1
    } else {
        1
    };
    emulate_on_delete_set_null_within(graph, query_schema, relation_field, node_providing_ids, Ghost(n))
}

/// Adds the emulation of the delete actions of the relations to `model_to_delete`, for the
/// deletion of the records that `node_providing_ids` gives; returns the nodes that the delete
/// is to wait for: none where the referential actions are not emulated.
pub fn insert_emulated_on_delete(
    graph: &mut QueryGraph,
    query_schema: &QuerySchema,
    model_to_delete: &str,
    node_providing_ids: &NodeRef,
) -> (r: Vec<NodeRef>)
    requires
        old(graph).wf(),
        old(graph).has(*node_providing_ids),
        query_schema.relation_mode is Prisma ==> delete_emulation_ends(query_schema.data_model, model_to_delete@),
    ensures
        final(graph).wf(),
        final(graph).extends(*old(graph)),
        !(query_schema.relation_mode is Prisma) ==> r@.len() == 0 && *final(graph) == *old(graph),
        query_schema.relation_mode is Prisma ==> r@.len() == leaves_of(
            query_schema.data_model,
            pointing_to_model(query_schema.data_model.containers@, model_to_delete@),
        ),
        forall|i: int| 0 <= i < r@.len() ==> is_new_node(*final(graph), *old(graph), #[trigger] r@[i]),
        query_schema.relation_mode is Prisma ==> {
            let leaves = leaf_fields(
                query_schema.data_model,
                pointing_to_model(query_schema.data_model.containers@, model_to_delete@),
            );
            &&& r@.len() == leaves.len()
            &&& forall|i: int|
                0 <= i < r@.len() ==> is_leaf_for(*final(graph), #[trigger] r@[i], query_schema.data_model, leaves[i])
        },
{
    let ghost n: nat = if query_schema.relation_mode is Prisma {
        choose|n: nat| delete_bounded(query_schema.data_model, model_to_delete@, n)
    } else {
        0
    };
    insert_emulated_on_delete_within(graph, query_schema, model_to_delete, node_providing_ids, Ghost(n))
}

} // verus!
