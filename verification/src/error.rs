use vstd::prelude::*;
use crate::schema::{Relation, RelationKind};
use crate::text::{text, push_decimal, decimal};

verus! {

/// The errors that building a query graph can end in.
#[derive(Debug)]
pub enum QueryGraphBuilderError {
    /// Logic error in the construction of the schema. Not a user error.
    SchemaError(String),
    /// User input error that the validation of the query document could not catch.
    InputError(String),
    /// An argument is missing for a field on a specific model.
    MissingRequiredArgument { argument_name: String, field_name: String, object_name: String },
    /// An error of the query document parser, by its message.
    QueryParserError(String),
    /// An error of the data model, by its message.
    DomainError(String),
    /// General assertion error.
    AssertionError(String),
    RelationViolation(RelationViolation),
    RecordsNotConnected { relation_name: String, parent_name: String, child_name: String },
    RecordNotFound(String),
    /// An error of the query graph, by its message.
    QueryGraphError(String),
}

/// A relation whose requirements a write would violate.
#[derive(Debug)]
pub struct RelationViolation {
    pub relation: String,
    pub model_a: String,
    pub model_b: String,
}

impl RelationViolation {
    /// The violation of `relation`, naming its two models.
    pub fn from_relation(relation: &Relation) -> (v: RelationViolation)
        ensures
            v.relation@ == relation.name@,
            v.model_a@ == relation.model_a@,
            v.model_b@ == relation.model_b@,
    {
        RelationViolation {
            relation: relation.name.clone(),
            model_a: relation.model_a.clone(),
            model_b: relation.model_b.clone(),
        }
    }

    pub fn id(&self) -> (id: &'static str)
        ensures
            id@ == "RELATION_VIOLATION"@,
    {
        "RELATION_VIOLATION"
    }

    /// The error that the violation becomes at run time.
    pub fn to_runtime_error(&self) -> (e: QueryGraphBuilderError)
        ensures
            e matches QueryGraphBuilderError::RelationViolation(v) && v.relation@ == self.relation@
                && v.model_a@ == self.model_a@ && v.model_b@ == self.model_b@,
    {
        QueryGraphBuilderError::RelationViolation(RelationViolation {
            relation: self.relation.clone(),
            model_a: self.model_a.clone(),
            model_b: self.model_b.clone(),
        })
    }
}

/// The operation during which a record was found missing.
#[derive(Debug, Clone, Copy, PartialEq, Eq, Structural)]
pub enum DataOperation {
    Query,
    Update,
    Upsert,
    Delete,
    Disconnect,
    NestedCreate,
    NestedUpdate,
    NestedUpsert,
    NestedDelete,
    NestedSet,
    NestedConnect,
    NestedConnectOrCreate,
}

/// How a data operation is named in messages.
pub open spec fn data_operation_text(op: DataOperation) -> Seq<char> {
    match op {
        DataOperation::Query => "a query"@,
        DataOperation::Update => "an update"@,
        DataOperation::Upsert => "an upsert"@,
        DataOperation::Delete => "a delete"@,
        DataOperation::Disconnect => "a disconnect"@,
        DataOperation::NestedCreate => "a nested create"@,
        DataOperation::NestedUpdate => "a nested update"@,
        DataOperation::NestedUpsert => "a nested upsert"@,
        DataOperation::NestedDelete => "a nested delete"@,
        DataOperation::NestedSet => "a nested set"@,
        DataOperation::NestedConnect => "a nested connect"@,
        DataOperation::NestedConnectOrCreate => "a nested connect or create"@,
    }
}

impl DataOperation {
    /// The name of the operation in messages.
    pub fn as_str(&self) -> (s: &'static str)
        ensures
            s@ == data_operation_text(*self),
    {
        match self {
            DataOperation::Query => "a query",
            DataOperation::Update => "an update",
            DataOperation::Upsert => "an upsert",
            DataOperation::Delete => "a delete",
            DataOperation::Disconnect => "a disconnect",
            DataOperation::NestedCreate => "a nested create",
            DataOperation::NestedUpdate => "a nested update",
            DataOperation::NestedUpsert => "a nested upsert",
            DataOperation::NestedDelete => "a nested delete",
            DataOperation::NestedSet => "a nested set",
            DataOperation::NestedConnect => "a nested connect",
            DataOperation::NestedConnectOrCreate => "a nested connect or create",
        }
    }

    /// The name of the operation in messages, as a string.
    pub fn to_message(&self) -> (s: String)
        ensures
            s@ == data_operation_text(*self),
    {
        text(self.as_str())
    }
}

/// What a missing record was needed for.
#[derive(Debug)]
pub enum DependentOperation {
    NestedUpdate,
    DisconnectRecords,
    FindRecords { model: String },
    InlineRelation { model: String },
    UpdateInlinedRelation { model: String },
    CreateInlinedRelation { model: String },
    ConnectOrCreateInlinedRelation { model: String },
}

/// How a dependent operation is named in messages.
pub open spec fn dependent_operation_text(op: DependentOperation) -> Seq<char> {
    match op {
        DependentOperation::NestedUpdate => "perform a nested update"@,
        DependentOperation::DisconnectRecords => "disconnect existing child records"@,
        DependentOperation::FindRecords { model } => "find '"@ + model@ + "' record(s)"@,
        DependentOperation::InlineRelation { model } => "inline the relation on '"@ + model@ + "' record(s)"@,
        DependentOperation::UpdateInlinedRelation { model } =>
            "update inlined relation for '"@ + model@ + "' record(s)"@,
        DependentOperation::CreateInlinedRelation { model } =>
            "create inlined relation for '"@ + model@ + "' record(s)"@,
        DependentOperation::ConnectOrCreateInlinedRelation { model } =>
            "create or connect inlined relation for '"@ + model@ + "' record(s)"@,
    }
}

fn quoted(prefix: &str, model: &String, suffix: &str) -> (s: String)
    ensures
        s@ == prefix@ + model@ + suffix@,
{
    let mut s = text(prefix);
    s.append(model.as_str());
    s.append(suffix);
    s
}

impl DependentOperation {
    pub fn nested_update() -> (op: DependentOperation)
        ensures
            op is NestedUpdate,
    {
        DependentOperation::NestedUpdate
    }

    pub fn disconnect_records() -> (op: DependentOperation)
        ensures
            op is DisconnectRecords,
    {
        DependentOperation::DisconnectRecords
    }

    pub fn find_records(model: &str) -> (op: DependentOperation)
        ensures
            op matches DependentOperation::FindRecords { model: m } && m@ == model@,
    {
        DependentOperation::FindRecords { model: text(model) }
    }

    pub fn inline_relation(model: &str) -> (op: DependentOperation)
        ensures
            op matches DependentOperation::InlineRelation { model: m } && m@ == model@,
    {
        DependentOperation::InlineRelation { model: text(model) }
    }

    pub fn update_inlined_relation(model: &str) -> (op: DependentOperation)
        ensures
            op matches DependentOperation::UpdateInlinedRelation { model: m } && m@ == model@,
    {
        DependentOperation::UpdateInlinedRelation { model: text(model) }
    }

    pub fn create_inlined_relation(model: &str) -> (op: DependentOperation)
        ensures
            op matches DependentOperation::CreateInlinedRelation { model: m } && m@ == model@,
    {
        DependentOperation::CreateInlinedRelation { model: text(model) }
    }

    pub fn connect_or_create_inlined_relation(model: &str) -> (op: DependentOperation)
        ensures
            op matches DependentOperation::ConnectOrCreateInlinedRelation { model: m } && m@ == model@,
    {
        DependentOperation::ConnectOrCreateInlinedRelation { model: text(model) }
    }

    /// What the operation is named in messages.
    pub fn to_message(&self) -> (s: String)
        ensures
            s@ == dependent_operation_text(*self),
    {
        match self {
            DependentOperation::NestedUpdate => text("perform a nested update"),
            DependentOperation::DisconnectRecords => text("disconnect existing child records"),
            DependentOperation::FindRecords { model } => quoted("find '", model, "' record(s)"),
            DependentOperation::InlineRelation { model } => quoted("inline the relation on '", model, "' record(s)"),
            DependentOperation::UpdateInlinedRelation { model } =>
                quoted("update inlined relation for '", model, "' record(s)"),
            DependentOperation::CreateInlinedRelation { model } =>
                quoted("create inlined relation for '", model, "' record(s)"),
            DependentOperation::ConnectOrCreateInlinedRelation { model } =>
                quoted("create or connect inlined relation for '", model, "' record(s)"),
        }
    }
}

/// How the cardinality of a relation is named in messages.
pub open spec fn relation_kind_text(kind: RelationKind) -> Seq<char> {
    match kind {
        RelationKind::OneToOne => "one-to-one"@,
        RelationKind::OneToMany => "one-to-many"@,
        RelationKind::ManyToMany => "many-to-many"@,
    }
}

fn relation_kind_str(kind: RelationKind) -> (s: &'static str)
    ensures
        s@ == relation_kind_text(kind),
{
    match kind {
        RelationKind::OneToOne => "one-to-one",
        RelationKind::OneToMany => "one-to-many",
        RelationKind::ManyToMany => "many-to-many",
    }
}

/// No record was found where an operation needed one.
#[derive(Debug)]
pub struct MissingRecord {
    pub operation: DataOperation,
}

impl MissingRecord {
    pub fn new(operation: DataOperation) -> (r: MissingRecord)
        ensures
            r.operation == operation,
    {
        MissingRecord { operation }
    }

    pub open spec fn message(&self) -> Seq<char> {
        "No record was found for "@ + data_operation_text(self.operation) + "."@
    }

    /// The message of the error.
    pub fn to_message(&self) -> (s: String)
        ensures
            s@ == self.message(),
    {
        let mut s = text("No record was found for ");
        s.append(self.operation.as_str());
        s.append(".");
        s
    }

    pub fn id(&self) -> (id: &'static str)
        ensures
            id@ == "MISSING_RECORD"@,
    {
        "MISSING_RECORD"
    }

    /// The error that the missing record becomes at run time.
    pub fn to_runtime_error(&self) -> (e: QueryGraphBuilderError)
        ensures
            e matches QueryGraphBuilderError::RecordNotFound(m) && m@ == self.message(),
    {
        QueryGraphBuilderError::RecordNotFound(self.to_message())
    }
}

/// The message of a missing related record of `model` on the relation named `relation`.
pub open spec fn missing_related_text(
    model: Seq<char>,
    relation: Seq<char>,
    kind: RelationKind,
    operation: DataOperation,
    needed_for: Option<DependentOperation>,
) -> Seq<char> {
    let needed = match needed_for {
        Option::Some(op) => " (needed to "@ + dependent_operation_text(op) + ")"@,
        Option::None => Seq::empty(),
    };
    "No '"@ + model + "' record"@ + needed + " was found for "@ + data_operation_text(operation) + " on "@
        + relation_kind_text(kind) + " relation '"@ + relation + "'."@
}

/// No record related to another one was found where an operation needed one.
#[derive(Debug)]
pub struct MissingRelatedRecord {
    pub model: String,
    pub relation: String,
    pub relation_type: RelationKind,
    pub operation: DataOperation,
    pub needed_for: Option<DependentOperation>,
}

impl MissingRelatedRecord {
    /// The missing record of `model` on `relation`.
    pub fn new(
        model: &str,
        relation: &Relation,
        operation: DataOperation,
        needed_for: Option<DependentOperation>,
    ) -> (r: MissingRelatedRecord)
        ensures
            r.model@ == model@,
            r.relation@ == relation.name@,
            r.relation_type == relation.kind,
            r.operation == operation,
            r.needed_for == needed_for,
    {
        MissingRelatedRecord {
            model: text(model),
            relation: relation.name.clone(),
            relation_type: relation.kind,
            operation,
            needed_for,
        }
    }

    pub open spec fn message(&self) -> Seq<char> {
        missing_related_text(self.model@, self.relation@, self.relation_type, self.operation, self.needed_for)
    }

    /// The message of the error.
    pub fn to_message(&self) -> (s: String)
        ensures
            s@ == self.message(),
    {
        let mut s = text("No '");
        s.append(self.model.as_str());
        s.append("' record");
        match &self.needed_for {
            Option::Some(op) => {
                s.append(" (needed to ");
                let t = op.to_message();
                s.append(t.as_str());
                s.append(")");
            },
            Option::None => {},
        }
        s.append(" was found for ");
        s.append(self.operation.as_str());
        s.append(" on ");
        s.append(relation_kind_str(self.relation_type));
        s.append(" relation '");
        s.append(self.relation.as_str());
        s.append("'.");
        assert(s@ =~= self.message());
        s
    }

    pub fn id(&self) -> (id: &'static str)
        ensures
            id@ == "MISSING_RELATED_RECORD"@,
    {
        "MISSING_RELATED_RECORD"
    }

    /// The error that the missing record becomes at run time.
    pub fn to_runtime_error(&self) -> (e: QueryGraphBuilderError)
        ensures
            e matches QueryGraphBuilderError::RecordNotFound(m) && m@ == self.message(),
    {
        QueryGraphBuilderError::RecordNotFound(self.to_message())
    }
}

/// Fewer records than expected were found for a connect.
#[derive(Debug)]
pub struct IncompleteConnectInput {
    pub expected_rows: usize,
}

impl IncompleteConnectInput {
    pub fn new(expected_rows: usize) -> (r: IncompleteConnectInput)
        ensures
            r.expected_rows == expected_rows,
    {
        IncompleteConnectInput { expected_rows }
    }

    pub fn id(&self) -> (id: &'static str)
        ensures
            id@ == "INCOMPLETE_CONNECT_INPUT"@,
    {
        "INCOMPLETE_CONNECT_INPUT"
    }

    /// The message when `actual` records were found.
    pub open spec fn message(&self, actual: nat) -> Seq<char> {
        "Expected "@ + decimal(self.expected_rows as nat) + " records to be connected, found only "@
            + decimal(actual) + "."@
    }

    /// The error at run time when `actual` records were found.
    pub fn to_runtime_error(&self, actual: usize) -> (e: QueryGraphBuilderError)
        ensures
            e matches QueryGraphBuilderError::RecordNotFound(m) && m@ == self.message(actual as nat),
    {
        let mut s = text("Expected ");
        push_decimal(&mut s, self.expected_rows as u64);
        s.append(" records to be connected, found only ");
        push_decimal(&mut s, actual as u64);
        s.append(".");
        QueryGraphBuilderError::RecordNotFound(s)
    }
}

/// Two records were expected to be connected and are not.
#[derive(Debug)]
pub struct RecordsNotConnected {
    pub relation: String,
    pub parent: String,
    pub child: String,
}

impl RecordsNotConnected {
    pub fn new(relation: &Relation, parent: &str, child: &str) -> (r: RecordsNotConnected)
        ensures
            r.relation@ == relation.name@,
            r.parent@ == parent@,
            r.child@ == child@,
    {
        RecordsNotConnected { relation: relation.name.clone(), parent: text(parent), child: text(child) }
    }

    pub fn id(&self) -> (id: &'static str)
        ensures
            id@ == "RECORDS_NOT_CONNECTED"@,
    {
        "RECORDS_NOT_CONNECTED"
    }

    /// The error that the missing connection becomes at run time.
    pub fn to_runtime_error(&self) -> (e: QueryGraphBuilderError)
        ensures
            e matches QueryGraphBuilderError::RecordsNotConnected { relation_name, parent_name, child_name }
                && relation_name@ == self.relation@ && parent_name@ == self.parent@ && child_name@ == self.child@,
    {
        QueryGraphBuilderError::RecordsNotConnected {
            relation_name: self.relation.clone(),
            parent_name: self.parent.clone(),
            child_name: self.child.clone(),
        }
    }
}

} // verus!
