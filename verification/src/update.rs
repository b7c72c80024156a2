use vstd::prelude::*;
use crate::builder::QuerySchema;
use crate::connect_or_create::writes_are;
use crate::error::QueryGraphBuilderError;
use crate::extract::error_is;
use crate::filter::Filter;
use crate::query_graph::{Node, NodeRef, Query, QueryGraph, WriteQuery};
use crate::schema::Container;
use crate::values::ParsedInputMap;
use crate::write_args::{args_spec, WriteArgsParser};
use crate::write_utils::{appended, new_node, new_ref};

verus! {

/// `n` updates the one record of `model` that `filter` selects, with the writes that `d`
/// describes, the nested writes of the data object being `nested`.
pub open spec fn is_update_record(
    n: Node,
    model: Container,
    filter: Filter,
    nested: Seq<(String, ParsedInputMap)>,
    d: (Seq<(Seq<char>, crate::write_args::OpDesc)>, Seq<(Seq<char>, ParsedInputMap)>),
) -> bool {
    n matches Node::Query(Query::Write(WriteQuery::UpdateRecord { model: m, filter: f, args })) && m@ == model.name@
        && f == filter && writes_are(args, nested, d)
}

/// The update of the record of `model` that `filter` selects from its data object
/// `data_map`: the node of the update, with the writes of the object's scalar and composite
/// fields; the nested writes that the object holds on relation fields come back with the
/// node, by relation field, to be planned below it.
pub fn update_record_node(
    graph: &mut QueryGraph,
    query_schema: &QuerySchema,
    filter: Filter,
    model: &Container,
    data_map: ParsedInputMap,
) -> (r: Result<(NodeRef, Vec<(String, ParsedInputMap)>), QueryGraphBuilderError>)
    requires
        old(graph).wf(),
    ensures
        match args_spec(query_schema.data_model, *model, data_map.entries@, data_map.entries@.len()) {
            Err(e) => (r matches Err(x) && error_is(x, e)) && *final(graph) == *old(graph),
            Ok(d) => r matches Ok((n, nested)) && {
                &&& appended(*final(graph), *old(graph), 1, 0)
                &&& n == new_ref(*old(graph), 0)
                &&& is_update_record(new_node(*final(graph), *old(graph), 0), *model, filter, nested@, d)
            },
        },
{
    let parser = match WriteArgsParser::from(model, data_map, &query_schema.data_model) {
        Ok(p) => p,
        Err(e) => return Err(e),
    };
    let ghost g0 = *graph;
    let WriteArgsParser { args, nested } = parser;
    let n = graph.create_node(
        Node::Query(Query::Write(WriteQuery::UpdateRecord { model: model.name.clone(), filter, args })),
    );
    proof {
        assert(graph.nodes@.take(g0.nodes@.len() as int) =~= g0.nodes@);
        assert(graph.edges@.take(g0.edges@.len() as int) =~= g0.edges@);
        assert(graph.marked@.take(g0.marked@.len() as int) =~= g0.marked@);
        assert(graph.result_nodes@.take(g0.result_nodes@.len() as int) =~= g0.result_nodes@);
    }
    Ok((n, nested))
}

} // verus!
