use vstd::prelude::*;
use crate::error::{
    DataOperation, MissingRelatedRecord, QueryGraphBuilderError, RelationViolation, missing_related_text,
};
use crate::filter::Filter;
use crate::query_graph::{
    Computation, CountError, DataExpectation, Dependency, Edge, Flow, Node, NodeRef, Query, QueryGraph, ReadQuery, RowSink,
    WriteArgs, WriteOperation, WriteQuery, names,
};
use crate::schema::{RelationField, RelationKind};
use crate::text::{str_eq, text};
use crate::values::{ParsedInputValue, PrismaValue};
use crate::error::IncompleteConnectInput;

verus! {

/// The elements of `s`, each once, at its first occurrence.
pub open spec fn distinct(s: Seq<Seq<char>>) -> Seq<Seq<char>>
    decreases s.len(),
{
    if s.len() == 0 {
        s
    } else {
        let d = distinct(s.drop_last());
        if d.contains(s.last()) {
            d
        } else {
            d.push(s.last())
        }
    }
}

/// The fields of `a`, then those of `b`, each once, as merging two field selections gives.
pub open spec fn merged(a: Seq<Seq<char>>, b: Seq<Seq<char>>) -> Seq<Seq<char>> {
    distinct(a + b)
}

/// The fields that a read selects for `selection`: the identifier of the model is always
/// selected as well.
pub open spec fn selected(identifier: Seq<Seq<char>>, selection: Seq<Seq<char>>) -> Seq<Seq<char>> {
    if selection == identifier {
        selection
    } else {
        merged(identifier, selection)
    }
}

/// Coerces a single value or object into a list of one; a list stays as it is.
pub fn coerce_vec(val: ParsedInputValue) -> (r: Vec<ParsedInputValue>)
    ensures
        match val {
            ParsedInputValue::List(l) => r@ == l@,
            _ => r@ == seq![val],
        },
{
    match val {
        ParsedInputValue::List(l) => l,
        single => vec![single],
    }
}

/// `n` creates a record.
pub open spec fn is_create_node(n: Node) -> bool {
    n matches Node::Query(Query::Write(WriteQuery::CreateRecord { .. }))
}

/// Whether the node is the creation of a record.
pub fn node_is_create(graph: &QueryGraph, node: &NodeRef) -> (b: bool)
    requires
        graph.has(*node),
    ensures
        b == is_create_node(graph.nodes@[node.id as int]),
{
    match graph.node_content(node) {
        Node::Query(Query::Write(WriteQuery::CreateRecord { .. })) => true,
        _ => false,
    }
}

/// Whether the list of names holds `x`.
fn contains_name(v: &Vec<String>, x: &str) -> (b: bool)
    ensures
        b == names(v@).contains(x@),
{
    let n = v.len();
    let mut i: usize = 0;
    while i < n
        invariant
            n == v@.len(),
            i <= n,
            forall|j: int| 0 <= j < i ==> v@[j]@ != x@,
        decreases n - i,
    {
        if str_eq(v[i].as_str(), x) {
            assert(names(v@)[i as int] == x@);
            return true;
        }
        i = i + 1;
    }
    assert(!names(v@).contains(x@)) by {
        if names(v@).contains(x@) {
            let k = choose|k: int| 0 <= k < names(v@).len() && names(v@)[k] == x@;
            assert(v@[k]@ == x@);
        }
    }
    false
}

/// The fields of `a`, then those of `b`, each once.
pub fn merge_fields(a: &Vec<String>, b: &Vec<String>) -> (r: Vec<String>)
    ensures
        names(r@) == merged(names(a@), names(b@)),
{
    let ghost all = names(a@) + names(b@);
    let mut out: Vec<String> = Vec::new();
    let mut i: usize = 0;
    while i < a.len()
        invariant
            all == names(a@) + names(b@),
            i <= a@.len(),
            names(out@) == distinct(all.take(i as int)),
        decreases a@.len() - i,
    {
        let x = &a[i];
        assert(all[i as int] == x@);
        assert(all.take(i as int + 1).drop_last() =~= all.take(i as int));
        if !contains_name(&out, x.as_str()) {
            out.push(x.clone());
            assert(names(out@) =~= distinct(all.take(i as int)).push(x@));
        }
        i = i + 1;
    }
    let mut j: usize = 0;
    while j < b.len()
        invariant
            all == names(a@) + names(b@),
            j <= b@.len(),
            names(out@) == distinct(all.take(a@.len() + j as int)),
        decreases b@.len() - j,
    {
        let x = &b[j];
        let ghost k: int = a@.len() + j;
        assert(all[k] == x@);
        assert(all.take(k + 1).drop_last() =~= all.take(k));
        if !contains_name(&out, x.as_str()) {
            out.push(x.clone());
            assert(names(out@) =~= distinct(all.take(k)).push(x@));
        }
        j = j + 1;
    }
    assert(all.take((a@.len() + b@.len()) as int) =~= all);
    out
}

/// Whether two lists of names are equal.
fn same_names(a: &Vec<String>, b: &Vec<String>) -> (r: bool)
    ensures
        r == (names(a@) == names(b@)),
{
    if a.len() != b.len() {
        assert(names(a@).len() != names(b@).len());
        return false;
    }
    let n = a.len();
    let mut i: usize = 0;
    while i < n
        invariant
            n == a@.len(),
            n == b@.len(),
            i <= n,
            forall|j: int| 0 <= j < i ==> a@[j]@ == b@[j]@,
        decreases n - i,
    {
        if !str_eq(a[i].as_str(), b[i].as_str()) {
            assert(names(a@)[i as int] != names(b@)[i as int]);
            return false;
        }
        i = i + 1;
    }
    assert(names(a@) =~= names(b@));
    true
}

/// The fields that a read of `selection` selects on a model with `identifier`.
pub fn get_selected_fields(identifier: &Vec<String>, selection: Vec<String>) -> (r: Vec<String>)
    ensures
        names(r@) == selected(names(identifier@), names(selection@)),
{
    if !same_names(&selection, identifier) {
        merge_fields(identifier, &selection)
    } else {
        selection
    }
}

/// `n` reads the fields selected for `selection` of the records of `model` that `filter`
/// selects, under the name `name`.
pub open spec fn is_read_many(
    n: Node,
    name: Seq<char>,
    model: Seq<char>,
    identifier: Seq<Seq<char>>,
    selection: Seq<Seq<char>>,
    filter: Filter,
) -> bool {
    n matches Node::Query(Query::Read(ReadQuery::ManyRecords { name: nm, model: m, filter: f, selection: s }))
        && nm@ == name && m@ == model && f == filter && names(s@) == selected(identifier, selection)
}

/// A read of the records of `model` that `filter` selects; it does not fail when there is none.
pub fn read_ids_infallible(model: &str, identifier: &Vec<String>, selection: Vec<String>, filter: Filter) -> (n: Node)
    ensures
        is_read_many(n, "read_ids_infallible"@, model@, names(identifier@), names(selection@), filter),
{
    let selected_fields = get_selected_fields(identifier, selection);
    Node::Query(
        Query::Read(
            ReadQuery::ManyRecords {
                name: text("read_ids_infallible"),
                model: text(model),
                filter,
                selection: selected_fields,
            },
        ),
    )
}

/// A read of the one record of `model` that `filter` selects; it does not fail when there is none.
pub fn read_id_infallible(model: &str, identifier: &Vec<String>, selection: Vec<String>, filter: Filter) -> (n: Node)
    ensures
        n matches Node::Query(Query::Read(ReadQuery::Record { name: nm, model: m, filter: f, selection: s }))
            && nm@ == "read_ids_infallible"@ && m@ == model@ && f == filter && names(s@) == selected(
            names(identifier@),
            names(selection@),
        ),
{
    let selected_fields = get_selected_fields(identifier, selection);
    Node::Query(
        Query::Read(
            ReadQuery::Record { name: text("read_ids_infallible"), model: text(model), filter, selection: selected_fields },
        ),
    )
}

/// `n` reads the records related through `rf` to the parent records, among those that
/// `filter` selects.
pub open spec fn is_find_children(n: Node, rf: RelationField, filter: Filter) -> bool {
    n matches Node::Query(
        Query::Read(ReadQuery::RelatedRecords { name, parent_field, model, filter: f, selection: s }),
    ) && name@ == "find_children_by_parent"@ && parent_field@ == rf.name@ && model@ == rf.related_model@ && f
        == filter && names(s@) == selected(names(rf.related_identifier@), names(rf.related_linking_fields@))
}

/// `e` hands the records of the parent of `rf` (their identifier and linking fields) from
/// `from` to the related records read `to`.
pub open spec fn is_parent_records_edge(e: Edge, from: NodeRef, to: NodeRef, rf: RelationField) -> bool {
    &&& is_projected(e, from, to, merged(names(rf.model_identifier@), names(rf.linking_fields@)))
    &&& e.dependency->sink is ParentRecords
    &&& e.dependency->expectation is None
}

/// `e` leads from `from` to `to` and projects the fields `selection` of the rows of `from`.
pub open spec fn is_projected(e: Edge, from: NodeRef, to: NodeRef, selection: Seq<Seq<char>>) -> bool {
    &&& e.from == from
    &&& e.to == to
    &&& e.dependency is Projected
    &&& names(e.dependency->selection@) == selection
}

/// The graph is `old` with the nodes and edges that follow appended: the count of each, and
/// everything `old` held kept in place.
pub open spec fn appended(g: QueryGraph, old: QueryGraph, nodes: nat, edges: nat) -> bool {
    appended_with(g, old, nodes, edges, 0)
}

/// As `appended`, with `marks` pairs of marked nodes appended too.
pub open spec fn appended_with(g: QueryGraph, old: QueryGraph, nodes: nat, edges: nat, marks: nat) -> bool {
    &&& g.wf()
    &&& g.extends(old)
    &&& g.nodes@.len() == old.nodes@.len() + nodes
    &&& g.edges@.len() == old.edges@.len() + edges
    &&& g.marked@.len() == old.marked@.len() + marks
}

/// The `k`-th node appended to `old`.
pub open spec fn new_node(g: QueryGraph, old: QueryGraph, k: int) -> Node {
    g.nodes@[old.nodes@.len() + k]
}

/// The `k`-th edge appended to `old`.
pub open spec fn new_edge(g: QueryGraph, old: QueryGraph, k: int) -> Edge {
    g.edges@[old.edges@.len() + k]
}

/// The handle of the `k`-th node appended to `old`.
pub open spec fn new_ref(old: QueryGraph, k: int) -> NodeRef {
    NodeRef { id: (old.nodes@.len() + k) as usize }
}

/// Adds a read of the records related through `parent_relation_field` to the records that
/// `parent_node` gives, narrowed by `filter`, and the edge that hands it the parents.
pub fn insert_find_children_by_parent_node(
    graph: &mut QueryGraph,
    parent_node: &NodeRef,
    parent_relation_field: &RelationField,
    filter: Filter,
) -> (r: NodeRef)
    requires
        old(graph).wf(),
        old(graph).has(*parent_node),
    ensures
        appended(*final(graph), *old(graph), 1, 1),
        r == new_ref(*old(graph), 0),
        is_find_children(new_node(*final(graph), *old(graph), 0), *parent_relation_field, filter),
        is_parent_records_edge(new_edge(*final(graph), *old(graph), 0), *parent_node, r, *parent_relation_field),
{
    let selection = merge_fields(&parent_relation_field.model_identifier, &parent_relation_field.linking_fields);
    let related_selection = parent_relation_field.related_linking_fields.clone();
    assert(names(related_selection@) == names(parent_relation_field.related_linking_fields@));
    let selected_fields = get_selected_fields(&parent_relation_field.related_identifier, related_selection);
    let node = Node::Query(
        Query::Read(
            ReadQuery::RelatedRecords {
                name: text("find_children_by_parent"),
                parent_field: parent_relation_field.name.clone(),
                model: parent_relation_field.related_model.clone(),
                filter,
                selection: selected_fields,
            },
        ),
    );
    let read_children_node = graph.create_node(node);
    graph.create_edge(
        parent_node,
        &read_children_node,
        Dependency::Projected { selection, sink: RowSink::ParentRecords, expectation: Option::None },
    );
    proof {
        assert(graph.nodes@.take(old(graph).nodes@.len() as int) =~= old(graph).nodes@);
        assert(graph.edges@.take(old(graph).edges@.len() as int) =~= old(graph).edges@);
        assert(graph.marked@.take(old(graph).marked@.len() as int) =~= old(graph).marked@);
        assert(graph.result_nodes@.take(old(graph).result_nodes@.len() as int) =~= old(graph).result_nodes@);
    }
    read_children_node
}

/// `n` updates the records of `model` that `filter` selects with `args`.
pub open spec fn is_update_many(n: Node, model: Seq<char>, filter: Filter, args: WriteArgs) -> bool {
    n matches Node::Query(Query::Write(WriteQuery::UpdateManyRecords { model: m, filter: f, args: a })) && m@
        == model && f == filter && a == args
}

/// `n` updates the records of `model` that `filter` selects, with no arguments yet: they are
/// injected at run time.
pub open spec fn is_update_placeholder(n: Node, model: Seq<char>, filter: Filter) -> bool {
    n matches Node::Query(Query::Write(WriteQuery::UpdateManyRecords { model: m, filter: f, args: a })) && m@
        == model && f == filter && a.args@.len() == 0
}

/// Adds an update of the records of `model` that `filter` selects, with `args`; no edge.
pub fn update_records_node_placeholder_with_args(
    graph: &mut QueryGraph,
    filter: Filter,
    model: &str,
    args: WriteArgs,
) -> (r: NodeRef)
    requires
        old(graph).wf(),
    ensures
        appended(*final(graph), *old(graph), 1, 0),
        r == new_ref(*old(graph), 0),
        is_update_many(new_node(*final(graph), *old(graph), 0), model@, filter, args),
{
    let r = graph.create_node(
        Node::Query(Query::Write(WriteQuery::UpdateManyRecords { model: text(model), filter, args })),
    );
    proof {
        assert(graph.nodes@.take(old(graph).nodes@.len() as int) =~= old(graph).nodes@);
        assert(graph.edges@.take(old(graph).edges@.len() as int) =~= old(graph).edges@);
        assert(graph.marked@.take(old(graph).marked@.len() as int) =~= old(graph).marked@);
        assert(graph.result_nodes@.take(old(graph).result_nodes@.len() as int) =~= old(graph).result_nodes@);
    }
    r
}

/// Adds an update of the records of `model` that `filter` selects, whose arguments are
/// injected at run time; no edge.
pub fn update_records_node_placeholder(graph: &mut QueryGraph, filter: Filter, model: &str) -> (r: NodeRef)
    requires
        old(graph).wf(),
    ensures
        appended(*final(graph), *old(graph), 1, 0),
        r == new_ref(*old(graph), 0),
        is_update_placeholder(new_node(*final(graph), *old(graph), 0), model@, filter),
{
    update_records_node_placeholder_with_args(graph, filter, model, WriteArgs { args: Vec::new() })
}

/// The arguments that set each of `fields` to null.
pub open spec fn nulls_for(args: WriteArgs, fields: Seq<Seq<char>>) -> bool {
    &&& args.args@.len() == fields.len()
    &&& forall|i: int|
        0 <= i < fields.len() ==> (#[trigger] args.args@[i]).0@ == fields[i] && args.args@[i].1
            == WriteOperation::ScalarSet(PrismaValue::Null)
}

/// The writes that set each of `fields` to null.
pub fn null_args(fields: &Vec<String>) -> (args: WriteArgs)
    ensures
        nulls_for(args, names(fields@)),
{
    let mut out: Vec<(String, WriteOperation)> = Vec::new();
    let n = fields.len();
    let mut i: usize = 0;
    while i < n
        invariant
            n == fields@.len(),
            i <= n,
            out@.len() == i,
            forall|j: int|
                0 <= j < i ==> (#[trigger] out@[j]).0@ == fields@[j]@ && out@[j].1 == WriteOperation::ScalarSet(
                    PrismaValue::Null,
                ),
        decreases n - i,
    {
        out.push((fields[i].clone(), WriteOperation::ScalarSet(PrismaValue::Null)));
        i = i + 1;
    }
    WriteArgs { args: out }
}

/// The error of a missing record of `model` on the relation of `rf` for `operation`.
pub open spec fn is_missing_related(
    e: QueryGraphBuilderError,
    model: Seq<char>,
    rf: RelationField,
    operation: DataOperation,
) -> bool {
    e matches QueryGraphBuilderError::RecordNotFound(m) && m@ == missing_related_text(
        model,
        rf.relation.name@,
        rf.relation.kind,
        operation,
        Option::None,
    )
}

/// The error of a connect that would violate the relation of `rf`.
pub open spec fn is_violation_of(e: QueryGraphBuilderError, rf: RelationField) -> bool {
    e matches QueryGraphBuilderError::RelationViolation(v) && v.relation@ == rf.relation.name@ && v.model_a@
        == rf.relation.model_a@ && v.model_b@ == rf.relation.model_b@
}

/// The nodes and edges that the checks for an existing related record add for `rf` below
/// `parent`, starting at node `nb` and edge `eb` of `g`: a read of the related records, an
/// update that disconnects them and an `if` that decides on the update; the update needs
/// exactly one related record.
pub open spec fn checks_at(g: QueryGraph, nb: int, eb: int, parent: NodeRef, rf: RelationField) -> bool {
    let read = NodeRef { id: nb as usize };
    let update = NodeRef { id: (nb + 1) as usize };
    let if_node = NodeRef { id: (nb + 2) as usize };
    &&& 0 <= nb
    &&& nb + 3 <= g.nodes@.len()
    &&& 0 <= eb
    &&& eb + 4 <= g.edges@.len()
    &&& is_find_children(g.nodes@[nb], rf, Filter::Empty)
    &&& is_parent_records_edge(g.edges@[eb], parent, read, rf)
    &&& g.nodes@[nb + 1] matches Node::Query(Query::Write(WriteQuery::UpdateManyRecords { model, filter, args }))
    &&& model@ == rf.related_model@
    &&& filter == Filter::Empty
    &&& nulls_for(args, names(rf.related_linking_fields@))
    &&& g.nodes@[nb + 2] == Node::Flow(if rf.inlined_in_parent { Flow::IfFalse } else { Flow::IfNonEmpty })
    &&& is_projected(g.edges@[eb + 1], read, if_node, names(rf.related_identifier@))
    &&& g.edges@[eb + 1].dependency->sink is IfCondition
    &&& if rf.related_field_required {
        &&& g.edges@[eb + 1].dependency->expectation matches Option::Some(DataExpectation::EmptyRows(e))
        &&& is_violation_of(e, rf)
    } else {
        g.edges@[eb + 1].dependency->expectation is None
    }
    &&& g.edges@[eb + 2] == (Edge { from: if_node, to: update, dependency: Dependency::Then })
    &&& is_projected(g.edges@[eb + 3], read, update, names(rf.related_identifier@))
    &&& g.edges@[eb + 3].dependency->sink is ExactlyOneSelector
    &&& g.edges@[eb + 3].dependency->expectation matches Option::Some(DataExpectation::NonEmptyRows(e))
    &&& is_missing_related(e, rf.model@, rf, DataOperation::NestedConnect)
}

/// The checks for an existing related record, appended to `old`.
pub open spec fn existing_1to1_checks(g: QueryGraph, old: QueryGraph, parent: NodeRef, rf: RelationField) -> bool {
    &&& appended(g, old, 3, 4)
    &&& checks_at(g, old.nodes@.len() as int, old.edges@.len() as int, parent, rf)
}

/// What a graph holds at positions below its length stays once it is extended.
pub proof fn lemma_extends_keeps(g2: QueryGraph, g1: QueryGraph)
    requires
        g2.grows(g1),
    ensures
        forall|i: int| 0 <= i < g1.nodes@.len() ==> #[trigger] g2.nodes@[i] == g1.nodes@[i],
        forall|i: int| 0 <= i < g1.edges@.len() ==> #[trigger] g2.edges@[i] == g1.edges@[i],
{
    assert forall|i: int| 0 <= i < g1.nodes@.len() implies #[trigger] g2.nodes@[i] == g1.nodes@[i] by {
        assert(g2.nodes@.take(g1.nodes@.len() as int)[i] == g2.nodes@[i]);
    }
    assert forall|i: int| 0 <= i < g1.edges@.len() implies #[trigger] g2.edges@[i] == g1.edges@[i] by {
        assert(g2.edges@.take(g1.edges@.len() as int)[i] == g2.edges@[i]);
    }
}

/// Extending a graph keeps the checks it holds.
pub proof fn lemma_checks_kept(g2: QueryGraph, g1: QueryGraph, nb: int, eb: int, parent: NodeRef, rf: RelationField)
    requires
        g2.extends(g1),
        checks_at(g1, nb, eb, parent, rf),
    ensures
        checks_at(g2, nb, eb, parent, rf),
{
    lemma_extends_keeps(g2, g1);
    assert(g2.nodes@[nb] == g1.nodes@[nb]);
    assert(g2.nodes@[nb + 1] == g1.nodes@[nb + 1]);
    assert(g2.nodes@[nb + 2] == g1.nodes@[nb + 2]);
    assert(g2.edges@[eb] == g1.edges@[eb]);
    assert(g2.edges@[eb + 1] == g1.edges@[eb + 1]);
    assert(g2.edges@[eb + 2] == g1.edges@[eb + 2]);
    assert(g2.edges@[eb + 3] == g1.edges@[eb + 3]);
}

/// Growth is transitive.
pub proof fn lemma_grows_trans(g3: QueryGraph, g2: QueryGraph, g1: QueryGraph)
    requires
        g3.grows(g2),
        g2.grows(g1),
    ensures
        g3.grows(g1),
{
    lemma_extends_keeps(g3, g2);
    lemma_extends_keeps(g2, g1);
    assert(g3.nodes@.take(g1.nodes@.len() as int) =~= g1.nodes@);
    assert(g3.edges@.take(g1.edges@.len() as int) =~= g1.edges@);
    assert(g3.marked@.take(g1.marked@.len() as int) =~= g1.marked@) by {
        assert forall|i: int| 0 <= i < g1.marked@.len() implies g3.marked@[i] == g1.marked@[i] by {
            assert(g3.marked@.take(g2.marked@.len() as int)[i] == g3.marked@[i]);
            assert(g2.marked@.take(g1.marked@.len() as int)[i] == g2.marked@[i]);
        }
    }
}

/// A graph extends itself.
pub proof fn lemma_extends_refl(g: QueryGraph)
    ensures
        g.extends(g),
{
    assert(g.nodes@.take(g.nodes@.len() as int) =~= g.nodes@);
    assert(g.edges@.take(g.edges@.len() as int) =~= g.edges@);
    assert(g.marked@.take(g.marked@.len() as int) =~= g.marked@);
    assert(g.result_nodes@.take(g.result_nodes@.len() as int) =~= g.result_nodes@);
}

/// Extension is transitive.
pub proof fn lemma_extends_trans(g3: QueryGraph, g2: QueryGraph, g1: QueryGraph)
    requires
        g3.extends(g2),
        g2.extends(g1),
    ensures
        g3.extends(g1),
{
    lemma_extends_keeps(g3, g2);
    lemma_extends_keeps(g2, g1);
    assert(g3.nodes@.take(g1.nodes@.len() as int) =~= g1.nodes@);
    assert(g3.edges@.take(g1.edges@.len() as int) =~= g1.edges@);
    assert(g3.marked@.take(g1.marked@.len() as int) =~= g1.marked@) by {
        assert forall|i: int| 0 <= i < g1.marked@.len() implies g3.marked@[i] == g1.marked@[i] by {
            assert(g3.marked@.take(g2.marked@.len() as int)[i] == g3.marked@[i]);
            assert(g2.marked@.take(g1.marked@.len() as int)[i] == g2.marked@[i]);
        }
    }
    assert(g3.result_nodes@.take(g1.result_nodes@.len() as int) =~= g1.result_nodes@) by {
        assert forall|i: int| 0 <= i < g1.result_nodes@.len() implies g3.result_nodes@[i] == g1.result_nodes@[i] by {
            assert(g3.result_nodes@.take(g2.result_nodes@.len() as int)[i] == g3.result_nodes@[i]);
            assert(g2.result_nodes@.take(g1.result_nodes@.len() as int)[i] == g2.result_nodes@[i]);
        }
    }
}

/// A copy of a list of field names.
pub fn copy_names(v: &Vec<String>) -> (r: Vec<String>)
    ensures
        names(r@) == names(v@),
{
    let mut out: Vec<String> = Vec::new();
    let n = v.len();
    let mut i: usize = 0;
    while i < n
        invariant
            n == v@.len(),
            i <= n,
            out@.len() == i,
            forall|j: int| 0 <= j < i ==> (#[trigger] out@[j])@ == v@[j]@,
        decreases n - i,
    {
        out.push(v[i].clone());
        i = i + 1;
    }
    assert(names(out@) =~= names(v@));
    out
}

/// Inserts the checks (and the disconnect) of an existing record related through a one-to-one
/// relation field to the record that `parent_node` gives, and returns the read of it.
pub fn insert_existing_1to1_related_model_checks(
    graph: &mut QueryGraph,
    parent_node: &NodeRef,
    parent_relation_field: &RelationField,
) -> (r: NodeRef)
    requires
        old(graph).wf(),
        old(graph).has(*parent_node),
    ensures
        existing_1to1_checks(*final(graph), *old(graph), *parent_node, *parent_relation_field),
        r == new_ref(*old(graph), 0),
{
    let ghost g0 = *graph;
    let rf = parent_relation_field;
    let read_existing_children = insert_find_children_by_parent_node(graph, parent_node, rf, Filter::Empty);
    let ghost g1 = *graph;
    let write_args = null_args(&rf.related_linking_fields);
    let update_existing_child = update_records_node_placeholder_with_args(
        graph,
        Filter::Empty,
        rf.related_model.as_str(),
        write_args,
    );
    let ghost g2 = *graph;
    let if_node = graph.create_node(
        Node::Flow(
            if rf.inlined_in_parent {
                Flow::IfFalse
            } else {
                Flow::IfNonEmpty
            },
        ),
    );
    let expectation = if rf.related_field_required {
        Option::Some(
            DataExpectation::EmptyRows(
                QueryGraphBuilderError::RelationViolation(RelationViolation::from_relation(&rf.relation)),
            ),
        )
    } else {
        Option::None
    };
    graph.create_edge(
        &read_existing_children,
        &if_node,
        Dependency::Projected { selection: copy_names(&rf.related_identifier), sink: RowSink::IfCondition, expectation },
    );
    graph.create_edge(&if_node, &update_existing_child, Dependency::Then);
    let missing = MissingRelatedRecord::new(
        rf.model.as_str(),
        &rf.relation,
        DataOperation::NestedConnect,
        Option::None,
    );
    graph.create_edge(
        &read_existing_children,
        &update_existing_child,
        Dependency::Projected {
            selection: copy_names(&rf.related_identifier),
            sink: RowSink::ExactlyOneSelector,
            expectation: Option::Some(DataExpectation::NonEmptyRows(missing.to_runtime_error())),
        },
    );
    proof {
        assert(graph.nodes@.take(g0.nodes@.len() as int) =~= g0.nodes@);
        assert(graph.edges@.take(g0.edges@.len() as int) =~= g0.edges@);
        assert(graph.marked@.take(g0.marked@.len() as int) =~= g0.marked@);
        assert(graph.result_nodes@.take(g0.result_nodes@.len() as int) =~= g0.result_nodes@);
        assert(graph.nodes@[g0.nodes@.len() as int] == g1.nodes@[g0.nodes@.len() as int]);
        assert(graph.nodes@[g0.nodes@.len() + 1int] == g2.nodes@[g0.nodes@.len() + 1int]);
        assert(graph.edges@[g0.edges@.len() as int] == g1.edges@[g0.edges@.len() as int]);
    }
    read_existing_children
}

/// `e` hands the identifier of the last record of `from` to the connect `to`, raising an
/// assertion error when there is none.
pub open spec fn is_connect_parent_edge(e: Edge, from: NodeRef, to: NodeRef, rf: RelationField) -> bool {
    &&& is_projected(e, from, to, names(rf.model_identifier@))
    &&& e.dependency->sink is ConnectParent
    &&& e.dependency->expectation matches Option::Some(
        DataExpectation::NonEmptyRows(QueryGraphBuilderError::AssertionError(m)),
    )
    &&& m@ == "Required exactly one parent ID to be present for connect query, found 0."@
}

/// `e` hands exactly `expected` children from `from` to the connect `to`.
pub open spec fn is_connect_children_edge(e: Edge, from: NodeRef, to: NodeRef, rf: RelationField, expected: usize) -> bool {
    &&& is_projected(e, from, to, names(rf.related_identifier@))
    &&& e.dependency->sink is ConnectChildren
    &&& e.dependency->expectation matches Option::Some(
        DataExpectation::ExactRowCount(n, CountError::IncompleteConnect(i)),
    )
    &&& n == expected
    &&& i.expected_rows == expected
}

/// Adds a connect of the records of a many-to-many relation field, with the edges that hand it
/// the parent (from `parent_node`) and the children (from `child_node`, exactly
/// `expected_connects` of them).
pub fn connect_records_node(
    graph: &mut QueryGraph,
    parent_node: &NodeRef,
    child_node: &NodeRef,
    parent_relation_field: &RelationField,
    expected_connects: usize,
) -> (r: NodeRef)
    requires
        old(graph).wf(),
        old(graph).has(*parent_node),
        old(graph).has(*child_node),
        parent_relation_field.relation.kind == RelationKind::ManyToMany,
    ensures
        appended(*final(graph), *old(graph), 1, 2),
        r == new_ref(*old(graph), 0),
        new_node(*final(graph), *old(graph), 0) matches Node::Query(
            Query::Write(WriteQuery::ConnectRecords { relation_field }),
        ) && relation_field@ == parent_relation_field.name@,
        is_connect_parent_edge(new_edge(*final(graph), *old(graph), 0), *parent_node, r, *parent_relation_field),
        is_connect_children_edge(
            new_edge(*final(graph), *old(graph), 1),
            *child_node,
            r,
            *parent_relation_field,
            expected_connects,
        ),
{
    let ghost g0 = *graph;
    let connect_node = graph.create_node(
        Node::Query(Query::Write(WriteQuery::ConnectRecords { relation_field: parent_relation_field.name.clone() })),
    );
    graph.create_edge(
        parent_node,
        &connect_node,
        Dependency::Projected {
            selection: copy_names(&parent_relation_field.model_identifier),
            sink: RowSink::ConnectParent,
            expectation: Option::Some(
                DataExpectation::NonEmptyRows(
                    QueryGraphBuilderError::AssertionError(
                        text("Required exactly one parent ID to be present for connect query, found 0."),
                    ),
                ),
            ),
        },
    );
    graph.create_edge(
        child_node,
        &connect_node,
        Dependency::Projected {
            selection: copy_names(&parent_relation_field.related_identifier),
            sink: RowSink::ConnectChildren,
            expectation: Option::Some(
                DataExpectation::ExactRowCount(
                    expected_connects,
                    CountError::IncompleteConnect(IncompleteConnectInput::new(expected_connects)),
                ),
            ),
        },
    );
    proof {
        assert(graph.nodes@.take(g0.nodes@.len() as int) =~= g0.nodes@);
        assert(graph.edges@.take(g0.edges@.len() as int) =~= g0.edges@);
        assert(graph.marked@.take(g0.marked@.len() as int) =~= g0.marked@);
        assert(graph.result_nodes@.take(g0.result_nodes@.len() as int) =~= g0.result_nodes@);
    }
    connect_node
}

/// Adds an execution order edge from each of `from` to `to`.
pub fn create_execution_order_edges(graph: &mut QueryGraph, from: Vec<NodeRef>, to: NodeRef)
    requires
        old(graph).wf(),
        old(graph).has(to),
        forall|i: int| 0 <= i < from@.len() ==> old(graph).has(#[trigger] from@[i]),
    ensures
        appended(*final(graph), *old(graph), 0, from@.len()),
        forall|i: int|
            0 <= i < from@.len() ==> #[trigger] new_edge(*final(graph), *old(graph), i) == (Edge {
                from: from@[i],
                to,
                dependency: Dependency::ExecutionOrder,
            }),
{
    let ghost g0 = *graph;
    let n = from.len();
    let mut i: usize = 0;
    proof {
        assert(graph.nodes@.take(g0.nodes@.len() as int) =~= g0.nodes@);
        assert(graph.edges@.take(g0.edges@.len() as int) =~= g0.edges@);
        assert(graph.marked@.take(g0.marked@.len() as int) =~= g0.marked@);
        assert(graph.result_nodes@.take(g0.result_nodes@.len() as int) =~= g0.result_nodes@);
    }
    while i < n
        invariant
            n == from@.len(),
            i <= n,
            appended(*graph, g0, 0, i as nat),
            g0.has(to),
            forall|j: int| 0 <= j < from@.len() ==> g0.has(#[trigger] from@[j]),
            forall|j: int|
                0 <= j < i ==> #[trigger] new_edge(*graph, g0, j) == (Edge {
                    from: from@[j],
                    to,
                    dependency: Dependency::ExecutionOrder,
                }),
        decreases n - i,
    {
        let ghost before = *graph;
        graph.create_edge(&from[i], &to, Dependency::ExecutionOrder);
        proof {
            assert(graph.edges@.take(g0.edges@.len() as int) =~= before.edges@.take(g0.edges@.len() as int));
            assert forall|j: int| 0 <= j < i + 1 implies #[trigger] new_edge(*graph, g0, j) == (Edge {
                from: from@[j],
                to,
                dependency: Dependency::ExecutionOrder,
            }) by {
                if j < i {
                    assert(new_edge(*graph, g0, j) == new_edge(before, g0, j));
                }
            }
        }
        i = i + 1;
    }
}

/// Adds the checks that let a one-to-one nested connect go on only where the new child differs
/// from the old one: a diff of the child that `read_new_child_node` reads (which must exist)
/// against the child that the parent of `parent_node` has, an `if` on the diff, and the empty
/// node that the `then` branch leads to, which is returned.
pub fn insert_1to1_idempotent_connect_checks(
    graph: &mut QueryGraph,
    parent_node: &NodeRef,
    read_new_child_node: &NodeRef,
    parent_relation_field: &RelationField,
) -> (r: NodeRef)
    requires
        old(graph).wf(),
        old(graph).has(*parent_node),
        old(graph).has(*read_new_child_node),
    ensures
        appended(*final(graph), *old(graph), 4, 5),
        r == new_ref(*old(graph), 3),
        new_node(*final(graph), *old(graph), 0) matches Node::Computation(Computation::DiffLeftToRight(id))
            && names(id@) == names(parent_relation_field.related_identifier@),
        is_find_children(new_node(*final(graph), *old(graph), 1), *parent_relation_field, Filter::Empty),
        new_node(*final(graph), *old(graph), 2) == Node::Flow(Flow::IfNonEmpty),
        new_node(*final(graph), *old(graph), 3) == Node::Empty,
        is_projected(
            new_edge(*final(graph), *old(graph), 0),
            *read_new_child_node,
            new_ref(*old(graph), 0),
            names(parent_relation_field.related_identifier@),
        ),
        new_edge(*final(graph), *old(graph), 0).dependency->sink is LeftSideDiff,
        new_edge(*final(graph), *old(graph), 0).dependency->expectation matches Option::Some(
            DataExpectation::NonEmptyRows(e),
        ) && is_missing_related(
            e,
            parent_relation_field.related_model@,
            *parent_relation_field,
            DataOperation::NestedConnect,
        ),
        is_parent_records_edge(
            new_edge(*final(graph), *old(graph), 1),
            *parent_node,
            new_ref(*old(graph), 1),
            *parent_relation_field,
        ),
        is_projected(
            new_edge(*final(graph), *old(graph), 2),
            new_ref(*old(graph), 1),
            new_ref(*old(graph), 0),
            names(parent_relation_field.related_identifier@),
        ),
        new_edge(*final(graph), *old(graph), 2).dependency->sink is RightSideDiff,
        new_edge(*final(graph), *old(graph), 2).dependency->expectation is None,
        is_projected(
            new_edge(*final(graph), *old(graph), 3),
            new_ref(*old(graph), 0),
            new_ref(*old(graph), 2),
            names(parent_relation_field.related_identifier@),
        ),
        new_edge(*final(graph), *old(graph), 3).dependency->sink is IfCondition,
        new_edge(*final(graph), *old(graph), 3).dependency->expectation is None,
        new_edge(*final(graph), *old(graph), 4) == (Edge {
            from: new_ref(*old(graph), 2),
            to: r,
            dependency: Dependency::Then,
        }),
{
    let ghost g0 = *graph;
    let rf = parent_relation_field;
    let diff_node = graph.create_node(Node::Computation(Computation::DiffLeftToRight(copy_names(&rf.related_identifier))));
    let missing = MissingRelatedRecord::new(rf.related_model.as_str(), &rf.relation, DataOperation::NestedConnect, Option::None);
    graph.create_edge(
        read_new_child_node,
        &diff_node,
        Dependency::Projected {
            selection: copy_names(&rf.related_identifier),
            sink: RowSink::LeftSideDiff,
            expectation: Option::Some(DataExpectation::NonEmptyRows(missing.to_runtime_error())),
        },
    );
    let ghost g1 = *graph;
    let read_old_child_node = insert_find_children_by_parent_node(graph, parent_node, rf, Filter::Empty);
    let ghost g2 = *graph;
    graph.create_edge(
        &read_old_child_node,
        &diff_node,
        Dependency::Projected {
            selection: copy_names(&rf.related_identifier),
            sink: RowSink::RightSideDiff,
            expectation: Option::None,
        },
    );
    let if_node = graph.create_node(Node::Flow(Flow::IfNonEmpty));
    graph.create_edge(
        &diff_node,
        &if_node,
        Dependency::Projected {
            selection: copy_names(&rf.related_identifier),
            sink: RowSink::IfCondition,
            expectation: Option::None,
        },
    );
    let empty_node = graph.create_node(Node::Empty);
    graph.create_edge(&if_node, &empty_node, Dependency::Then);
    proof {
        lemma_extends_keeps(g2, g1);
        assert(graph.nodes@.take(g0.nodes@.len() as int) =~= g0.nodes@);
        assert(graph.edges@.take(g0.edges@.len() as int) =~= g0.edges@);
        assert(graph.marked@.take(g0.marked@.len() as int) =~= g0.marked@);
        assert(graph.result_nodes@.take(g0.result_nodes@.len() as int) =~= g0.result_nodes@);
        assert(graph.nodes@[g0.nodes@.len() as int] == g1.nodes@[g0.nodes@.len() as int]);
        assert(graph.nodes@[g0.nodes@.len() + 1int] == g2.nodes@[g0.nodes@.len() + 1int]);
        assert(graph.edges@[g0.edges@.len() as int] == g1.edges@[g0.edges@.len() as int]);
        assert(graph.edges@[g0.edges@.len() + 1int] == g2.edges@[g0.edges@.len() + 1int]);
    }
    empty_node
}

/// Merging two field selections loses no field and adds none: a field is in the merge if and
/// only if it is in one of them, and no field occurs twice.
pub proof fn lemma_merged_fields(a: Seq<Seq<char>>, b: Seq<Seq<char>>)
    ensures
        forall|x: Seq<char>| #[trigger] merged(a, b).contains(x) <==> a.contains(x) || b.contains(x),
        forall|i: int, j: int| 0 <= i < j < merged(a, b).len() ==> merged(a, b)[i] != merged(a, b)[j],
{
    lemma_distinct(a + b);
    assert forall|x: Seq<char>| (a + b).contains(x) <==> a.contains(x) || b.contains(x) by {
        if (a + b).contains(x) {
            let k = choose|k: int| 0 <= k < (a + b).len() && (a + b)[k] == x;
            if k < a.len() {
                assert(a[k] == x);
            } else {
                assert(b[k - a.len()] == x);
            }
        }
        if a.contains(x) {
            let k = choose|k: int| 0 <= k < a.len() && a[k] == x;
            assert((a + b)[k] == x);
        }
        if b.contains(x) {
            let k = choose|k: int| 0 <= k < b.len() && b[k] == x;
            assert((a + b)[a.len() + k] == x);
        }
    }
}

/// What `distinct` keeps: each element of `s`, once.
proof fn lemma_distinct(s: Seq<Seq<char>>)
    ensures
        forall|x: Seq<char>| #[trigger] distinct(s).contains(x) <==> s.contains(x),
        forall|i: int, j: int| 0 <= i < j < distinct(s).len() ==> distinct(s)[i] != distinct(s)[j],
    decreases s.len(),
{
    if s.len() > 0 {
        let p = s.drop_last();
        lemma_distinct(p);
        let d = distinct(p);
        assert forall|x: Seq<char>| s.contains(x) <==> p.contains(x) || x == s.last() by {
            if s.contains(x) {
                let k = choose|k: int| 0 <= k < s.len() && s[k] == x;
                if k < s.len() - 1 {
                    assert(p[k] == x);
                }
            }
            if p.contains(x) {
                let k = choose|k: int| 0 <= k < p.len() && p[k] == x;
                assert(s[k] == x);
            }
            if x == s.last() {
                assert(s[s.len() - 1] == x);
            }
        }
        if !d.contains(s.last()) {
            let e = d.push(s.last());
            assert forall|x: Seq<char>| e.contains(x) <==> d.contains(x) || x == s.last() by {
                if e.contains(x) {
                    let k = choose|k: int| 0 <= k < e.len() && e[k] == x;
                    if k < d.len() {
                        assert(d[k] == x);
                    }
                }
                if d.contains(x) {
                    let k = choose|k: int| 0 <= k < d.len() && d[k] == x;
                    assert(e[k] == x);
                }
                if x == s.last() {
                    assert(e[d.len() as int] == x);
                }
            }
            assert forall|i: int, j: int| 0 <= i < j < e.len() implies e[i] != e[j] by {
                if j == d.len() {
                    assert(e[i] == d[i]);
                }
            }
        }
    }
}

} // verus!
