use vstd::prelude::*;
use crate::error::{IncompleteConnectInput, QueryGraphBuilderError};
use crate::text::{decimal, push_decimal, text};
use crate::filter::Filter;
use crate::values::PrismaValue;

verus! {

/// A handle on a node of a query graph: its position among the graph's nodes.
#[derive(Debug, Clone, Copy, PartialEq, Eq, Structural)]
pub struct NodeRef {
    pub id: usize,
}

/// The names of a list of fields.
pub open spec fn names(v: Seq<String>) -> Seq<Seq<char>> {
    v.map_values(|s: String| s@)
}

/// A write to one field.
#[derive(Debug)]
pub enum WriteOperation {
    ScalarSet(PrismaValue),
    ScalarAdd(PrismaValue),
    ScalarSubtract(PrismaValue),
    ScalarMultiply(PrismaValue),
    ScalarDivide(PrismaValue),
    CompositeSet(PrismaValue),
    CompositeUnset(bool),
    /// The writes to the fields of a composite value, in input order.
    CompositeUpdate(Vec<(String, WriteOperation)>),
}

/// The writes of a create or update, field by field, in input order.
#[derive(Debug)]
pub struct WriteArgs {
    pub args: Vec<(String, WriteOperation)>,
}

/// A read of records.
#[derive(Debug)]
pub enum ReadQuery {
    /// Reads the fields `selection` of the records of `model` that `filter` selects.
    ManyRecords { name: String, model: String, filter: Filter, selection: Vec<String> },
    /// Reads the fields `selection` of the one record of `model` that `filter` selects.
    Record { name: String, model: String, filter: Filter, selection: Vec<String> },
    /// Reads the fields `selection` of the records of `model` related through `parent_field`
    /// to the parent records handed in at run time, among those that `filter` selects.
    RelatedRecords { name: String, parent_field: String, model: String, filter: Filter, selection: Vec<String> },
}

/// A write of records.
#[derive(Debug)]
pub enum WriteQuery {
    CreateRecord { model: String, args: WriteArgs },
    /// Updates the one record of `model` that `filter` selects.
    UpdateRecord { model: String, filter: Filter, args: WriteArgs },
    UpdateManyRecords { model: String, filter: Filter, args: WriteArgs },
    /// Creates the record of `model` that `filter` selects with `create`, or updates it with
    /// `update` where it exists, in one statement; then reads it as `read` says.
    NativeUpsert { name: String, model: String, filter: Filter, create: WriteArgs, update: WriteArgs, read: ReadQuery },
    DeleteRecord { model: String, filter: Filter },
    /// Deletes the one record of `model` that `filter` selects and returns its fields
    /// `selection`, to be answered under the keys `order`.
    DeleteRecordReturning { name: String, model: String, filter: Filter, selection: Vec<String>, order: Vec<String> },
    DeleteManyRecords { model: String, filter: Filter },
    /// Connects the parent record to the child records of a many-to-many relation field.
    ConnectRecords { relation_field: String },
    /// Disconnects the child records from the parent record on a many-to-many relation field.
    DisconnectRecords { relation_field: String },
}

#[derive(Debug)]
pub enum Query {
    Read(ReadQuery),
    Write(WriteQuery),
}

/// A decision in the graph.
#[derive(Debug, Clone, Copy, PartialEq, Eq, Structural)]
pub enum Flow {
    /// Takes the `then` edges if the rows handed in are not empty, the `else` edges otherwise.
    IfNonEmpty,
    /// Takes the `else` edges.
    IfFalse,
    /// Returns the rows handed in.
    Return,
}

/// A computation on the results of other nodes.
#[derive(Debug)]
pub enum Computation {
    /// The rows of the left input that the right input lacks, compared on `identifier`.
    DiffLeftToRight(Vec<String>),
    /// The rows of the right input that the left input lacks, compared on `identifier`.
    DiffRightToLeft(Vec<String>),
}

#[derive(Debug)]
pub enum Node {
    Query(Query),
    Flow(Flow),
    Computation(Computation),
    /// A node that does nothing, a place to hang checks on.
    Empty,
}

/// Where the rows projected along an edge go in the node it leads to.
#[derive(Debug)]
pub enum RowSink {
    /// The rows are not used: the edge only orders the two nodes.
    Discard,
    /// All rows, as the record selectors of the target (a filter on their identifiers).
    Selectors,
    /// Exactly one row, as the record selector of the target.
    ExactlyOneSelector,
    /// All rows, as the record selectors of the target, whose writes then set the fields
    /// named to null; without rows the target stays as it is.
    SelectorsWithNulls(Vec<String>),
    /// The last row, as a filter added to the target's filter.
    AddFilter,
    /// The last row, written into the target's arguments under the fields `link`.
    InjectLink(Vec<String>),
    /// All rows, as the condition of an `if` node.
    IfCondition,
    /// All rows, as the left input of a diff.
    LeftSideDiff,
    /// All rows, as the right input of a diff.
    RightSideDiff,
    /// All rows, as the parents of a related records read.
    ParentRecords,
    /// The last row, as the parent of a connect or disconnect.
    ConnectParent,
    /// All rows, as the children of a connect or disconnect.
    ConnectChildren,
    /// All rows, as the rows that a return node gives back.
    Returned,
}

/// The error raised when a number of rows differs from the one expected, which may name
/// the number found.
#[derive(Debug)]
pub enum CountError {
    /// A connect found fewer records to connect than it was given.
    IncompleteConnect(IncompleteConnectInput),
    /// A connect on the named one-to-many relation updated fewer records than expected.
    NotAllConnected { expected: usize, relation: String },
    /// An error that does not depend on the number found.
    Fixed(QueryGraphBuilderError),
}

/// The message of a count error raised for `actual` rows.
pub open spec fn count_error_message(e: CountError, actual: nat) -> Option<Seq<char>> {
    match e {
        CountError::IncompleteConnect(i) => Option::Some(i.message(actual)),
        CountError::NotAllConnected { expected, relation } => Option::Some(
            "Expected "@ + decimal(expected as nat)
                + " records to be connected after connect operation on one-to-many relation '"@ + relation@
                + "', found "@ + decimal(actual) + "."@,
        ),
        CountError::Fixed(_) => Option::None,
    }
}

impl CountError {
    /// The error raised when `actual` rows were found.
    pub fn to_runtime_error(self, actual: usize) -> (e: QueryGraphBuilderError)
        ensures
            match self {
                CountError::Fixed(f) => e == f,
                _ => e matches QueryGraphBuilderError::RecordNotFound(m) && Option::Some(m@) == count_error_message(
                    self,
                    actual as nat,
                ),
            },
    {
        match self {
            CountError::IncompleteConnect(i) => i.to_runtime_error(actual),
            CountError::NotAllConnected { expected, relation } => {
                let mut s = text("Expected ");
                push_decimal(&mut s, expected as u64);
                s.append(" records to be connected after connect operation on one-to-many relation '");
                s.append(relation.as_str());
                s.append("', found ");
                push_decimal(&mut s, actual as u64);
                s.append(".");
                QueryGraphBuilderError::RecordNotFound(s)
            },
            CountError::Fixed(f) => f,
        }
    }
}

/// What must hold of the rows projected along an edge, and the error raised when it does not.
#[derive(Debug)]
pub enum DataExpectation {
    NonEmptyRows(QueryGraphBuilderError),
    EmptyRows(QueryGraphBuilderError),
    ExactRowCount(usize, CountError),
}

/// How the node that an edge leads to depends on the node it leaves.
#[derive(Debug)]
pub enum Dependency {
    /// The target runs after the source.
    ExecutionOrder,
    /// The target runs if the source `if` holds.
    Then,
    /// The target runs if the source `if` does not hold.
    Else,
    /// The values of the fields `selection` of the source's rows go to the target as `sink`
    /// says, once `expectation`, if any, holds of them.
    Projected { selection: Vec<String>, sink: RowSink, expectation: Option<DataExpectation> },
    /// The target runs once the source, a write, has affected the expected number of records;
    /// otherwise `error` is raised.
    ResultCount { expected: usize, error: CountError },
}

#[derive(Debug)]
pub struct Edge {
    pub from: NodeRef,
    pub to: NodeRef,
    pub dependency: Dependency,
}

/// A graph of queries, flows and computations, with the dependencies between them.
#[derive(Debug)]
pub struct QueryGraph {
    pub nodes: Vec<Node>,
    pub edges: Vec<Edge>,
    /// Pairs of nodes whose positions are swapped when the graph is finalized: the second
    /// runs in place of the first.
    pub marked: Vec<(NodeRef, NodeRef)>,
    /// The nodes whose results are the results of the graph, in order.
    pub result_nodes: Vec<NodeRef>,
    /// The graph must run in a transaction.
    pub needs_transaction: bool,
}

impl QueryGraph {
    /// Every edge and every marked pair joins nodes of the graph.
    pub open spec fn wf(&self) -> bool {
        &&& forall|i: int|
            0 <= i < self.edges@.len() ==> (#[trigger] self.edges@[i]).from.id < self.nodes@.len()
                && self.edges@[i].to.id < self.nodes@.len()
        &&& forall|i: int|
            0 <= i < self.marked@.len() ==> (#[trigger] self.marked@[i]).0.id < self.nodes@.len()
                && self.marked@[i].1.id < self.nodes@.len()
        &&& forall|i: int| 0 <= i < self.result_nodes@.len() ==> (#[trigger] self.result_nodes@[i]).id < self.nodes@.len()
    }

    /// `n` is a node of the graph.
    pub open spec fn has(&self, n: NodeRef) -> bool {
        n.id < self.nodes@.len()
    }

    /// The graph extends `old` by nodes and edges only: what `old` held stays in place, and
    /// the results of the graph and its need of a transaction stay as they are.
    pub open spec fn extends(&self, old: QueryGraph) -> bool {
        &&& self.grows(old)
        &&& self.result_nodes@ == old.result_nodes@
        &&& self.needs_transaction == old.needs_transaction
    }

    /// The graph holds what `old` held, in place, and perhaps more.
    pub open spec fn grows(&self, old: QueryGraph) -> bool {
        &&& old.nodes@.len() <= self.nodes@.len()
        &&& old.edges@.len() <= self.edges@.len()
        &&& self.nodes@.take(old.nodes@.len() as int) == old.nodes@
        &&& self.edges@.take(old.edges@.len() as int) == old.edges@
        &&& old.marked@.len() <= self.marked@.len()
        &&& self.marked@.take(old.marked@.len() as int) == old.marked@
    }

    /// An empty graph.
    pub fn new() -> (g: QueryGraph)
        ensures
            g.nodes@.len() == 0,
            g.edges@.len() == 0,
            g.marked@.len() == 0,
            g.result_nodes@.len() == 0,
            !g.needs_transaction,
            g.wf(),
    {
        QueryGraph {
            nodes: Vec::new(),
            edges: Vec::new(),
            marked: Vec::new(),
            result_nodes: Vec::new(),
            needs_transaction: false,
        }
    }

    /// Adds a node and returns its handle.
    pub fn create_node(&mut self, node: Node) -> (r: NodeRef)
        requires
            old(self).wf(),
        ensures
            r.id == old(self).nodes@.len(),
            final(self).nodes@ == old(self).nodes@.push(node),
            final(self).edges@ == old(self).edges@,
            final(self).marked@ == old(self).marked@,
            final(self).result_nodes@ == old(self).result_nodes@,
            final(self).needs_transaction == old(self).needs_transaction,
            final(self).wf(),
    {
        let id = self.nodes.len();
        self.nodes.push(node);
        NodeRef { id }
    }

    /// Adds an edge from `from` to `to`.
    pub fn create_edge(&mut self, from: &NodeRef, to: &NodeRef, dependency: Dependency)
        requires
            old(self).wf(),
            old(self).has(*from),
            old(self).has(*to),
        ensures
            final(self).nodes@ == old(self).nodes@,
            final(self).edges@ == old(self).edges@.push(Edge { from: *from, to: *to, dependency }),
            final(self).marked@ == old(self).marked@,
            final(self).result_nodes@ == old(self).result_nodes@,
            final(self).needs_transaction == old(self).needs_transaction,
            final(self).wf(),
    {
        self.edges.push(Edge { from: *from, to: *to, dependency });
    }

    /// Marks `to` to run in place of `from` once the graph is finalized.
    pub fn mark_nodes(&mut self, from: &NodeRef, to: &NodeRef)
        requires
            old(self).wf(),
            old(self).has(*from),
            old(self).has(*to),
        ensures
            final(self).nodes@ == old(self).nodes@,
            final(self).edges@ == old(self).edges@,
            final(self).marked@ == old(self).marked@.push((*from, *to)),
            final(self).result_nodes@ == old(self).result_nodes@,
            final(self).needs_transaction == old(self).needs_transaction,
            final(self).wf(),
    {
        self.marked.push((*from, *to));
    }

    /// Makes the results of `n` results of the graph.
    pub fn add_result_node(&mut self, n: &NodeRef)
        requires
            old(self).wf(),
            old(self).has(*n),
        ensures
            final(self).nodes@ == old(self).nodes@,
            final(self).edges@ == old(self).edges@,
            final(self).marked@ == old(self).marked@,
            final(self).result_nodes@ == old(self).result_nodes@.push(*n),
            final(self).needs_transaction == old(self).needs_transaction,
            final(self).wf(),
    {
        self.result_nodes.push(*n);
    }

    /// Marks the graph to run in a transaction.
    pub fn flag_transactional(&mut self)
        requires
            old(self).wf(),
        ensures
            final(self).nodes@ == old(self).nodes@,
            final(self).edges@ == old(self).edges@,
            final(self).marked@ == old(self).marked@,
            final(self).result_nodes@ == old(self).result_nodes@,
            final(self).needs_transaction,
            final(self).wf(),
    {
        self.needs_transaction = true;
    }

    /// The node that `n` refers to.
    pub fn node_content(&self, n: &NodeRef) -> (c: &Node)
        requires
            self.has(*n),
        ensures
            *c == self.nodes@[n.id as int],
    {
        &self.nodes[n.id]
    }
}

} // verus!
