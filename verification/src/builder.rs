use vstd::prelude::*;
use crate::schema::{DataModel, RelationMode};

verus! {

/// What the query graph builder knows of the schema: the data model, and what the
/// connector can do.
#[derive(Debug)]
pub struct QuerySchema {
    pub data_model: DataModel,
    /// The connector can upsert a record in one statement.
    pub can_native_upsert: bool,
    pub relation_mode: RelationMode,
    /// The connector can join a subquery laterally.
    pub lateral_join: bool,
    /// Relations may be loaded by joins (a preview feature).
    pub relation_joins: bool,
    /// The connector can return the record it deletes, in the statement that deletes it.
    pub delete_returning: bool,
}

/// Builds query graphs for the operations of a query document on a schema.
#[derive(Debug)]
pub struct QueryGraphBuilder<'a> {
    pub query_schema: &'a QuerySchema,
}

impl<'a> QueryGraphBuilder<'a> {
    /// A builder on `query_schema`.
    pub fn new(query_schema: &'a QuerySchema) -> (b: Self)
        ensures
            b.query_schema == query_schema,
    {
        QueryGraphBuilder { query_schema }
    }
}

} // verus!
