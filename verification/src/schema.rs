use vstd::prelude::*;
use crate::text::str_eq;

verus! {

/// The cardinality of a relation.
#[derive(Debug, Clone, Copy, PartialEq, Eq, Structural)]
pub enum RelationKind {
    OneToOne,
    OneToMany,
    ManyToMany,
}

/// What happens to the records that refer to a record through a relation when that record
/// is deleted, or when the fields they refer to are updated.
#[derive(Debug, Clone, Copy, PartialEq, Eq, Structural)]
pub enum ReferentialAction {
    Cascade,
    Restrict,
    NoAction,
    SetNull,
    SetDefault,
}

/// How the integrity of relations is kept.
#[derive(Debug, Clone, Copy, PartialEq, Eq, Structural)]
pub enum RelationMode {
    /// The database keeps it with foreign keys.
    ForeignKeys,
    /// The query engine keeps it, by emulating the referential actions.
    Prisma,
    /// Nobody keeps it.
    PrismaSkipIntegrity,
}

impl RelationMode {
    /// The referential actions are not emulated.
    pub fn skips_emulation(&self) -> (b: bool)
        ensures
            b == !(*self is Prisma),
    {
        match self {
            RelationMode::Prisma => false,
            _ => true,
        }
    }
}

/// A relation of the data model: its name, the two models it joins (in the order in which
/// the schema declares them), its cardinality and its referential actions.
#[derive(Debug)]
pub struct Relation {
    pub name: String,
    pub model_a: String,
    pub model_b: String,
    pub kind: RelationKind,
    pub on_delete: ReferentialAction,
    pub on_update: ReferentialAction,
}

/// The type of a scalar field.
#[derive(Debug, Clone, Copy, PartialEq, Eq, Structural)]
pub enum TypeIdentifier {
    String,
    Int,
    BigInt,
    Float,
    Decimal,
    Boolean,
    Enum,
    UUID,
    Json,
    DateTime,
    Bytes,
    Geometry,
    Unsupported,
}

/// Whether a container of fields is a model or a composite type.
#[derive(Debug, Clone, Copy, PartialEq, Eq, Structural)]
pub enum ContainerKind {
    Model,
    CompositeType,
}

/// A scalar field of a model or composite type.
#[derive(Debug)]
pub struct ScalarField {
    pub name: String,
    pub type_identifier: TypeIdentifier,
    pub is_list: bool,
    pub is_required: bool,
    pub is_unique: bool,
}

/// A field of a composite type.
#[derive(Debug)]
pub struct CompositeField {
    pub name: String,
    /// The name of the composite type of the field.
    pub typ: String,
    pub is_list: bool,
}

/// A relation field of a model, seen from the model that holds it (the parent).
#[derive(Debug)]
pub struct RelationField {
    pub name: String,
    /// The model that holds the field.
    pub model: String,
    /// The model on the other side of the relation.
    pub related_model: String,
    pub relation: Relation,
    /// The field is required on its model.
    pub is_required: bool,
    /// The field on the other side (the back relation) is required on its model.
    pub related_field_required: bool,
    /// The foreign key of the relation is held by the records of `model`.
    pub inlined_in_parent: bool,
    /// The fields of `model` that link it to the relation.
    pub linking_fields: Vec<String>,
    /// The fields of `related_model` that link it to the relation.
    pub related_linking_fields: Vec<String>,
    /// The field holds a list of related records.
    pub is_list: bool,
    /// The fields that identify a record of `model`.
    pub model_identifier: Vec<String>,
    /// The fields that identify a record of `related_model`.
    pub related_identifier: Vec<String>,
    /// The name of the field of `related_model` on the other side of the relation.
    pub related_field_name: String,
}

/// A field of a model or composite type.
#[derive(Debug)]
pub enum Field {
    Scalar(ScalarField),
    Relation(RelationField),
    Composite(CompositeField),
}

/// A compound unique criterion (compound primary key or unique index) and the name under
/// which the schema offers it.
#[derive(Debug)]
pub struct CompoundUnique {
    pub name: String,
    pub fields: Vec<String>,
}

/// A model or composite type with its fields.
#[derive(Debug)]
pub struct Container {
    pub name: String,
    pub kind: ContainerKind,
    pub fields: Vec<Field>,
    /// The fields that identify a record of a model.
    pub primary_identifier: Vec<String>,
    pub compound_id: Option<CompoundUnique>,
    pub unique_indexes: Vec<CompoundUnique>,
}

/// The models and composite types of a schema.
#[derive(Debug)]
pub struct DataModel {
    pub containers: Vec<Container>,
}

/// The name of a field.
pub open spec fn field_name(f: Field) -> Seq<char> {
    match f {
        Field::Scalar(sf) => sf.name@,
        Field::Relation(rf) => rf.name@,
        Field::Composite(cf) => cf.name@,
    }
}

/// The position of the first field of `fields` named `name`.
pub open spec fn field_index(fields: Seq<Field>, name: Seq<char>) -> Option<int> {
    if exists|i: int| 0 <= i < fields.len() && field_name(fields[i]) == name {
        Option::Some(
            choose|i: int|
                0 <= i < fields.len() && field_name(fields[i]) == name && forall|j: int|
                    0 <= j < i ==> field_name(fields[j]) != name,
        )
    } else {
        Option::None
    }
}

proof fn lemma_field_index(fields: Seq<Field>, name: Seq<char>, k: int)
    requires
        0 <= k <= fields.len(),
        forall|j: int| 0 <= j < k ==> field_name(fields[j]) != name,
        k < fields.len() ==> field_name(fields[k]) == name,
    ensures
        k < fields.len() ==> field_index(fields, name) == Option::Some(k),
        k == fields.len() ==> field_index(fields, name) == Option::<int>::None,
{
    if k < fields.len() {
        let i = choose|i: int|
            0 <= i < fields.len() && field_name(fields[i]) == name && forall|j: int|
                0 <= j < i ==> field_name(fields[j]) != name;
        assert(0 <= k < fields.len() && field_name(fields[k]) == name && forall|j: int|
            0 <= j < k ==> field_name(fields[j]) != name);
        assert(i == k) by {
            if i < k {
                assert(field_name(fields[i]) != name);
            } else if i > k {
                assert(field_name(fields[k]) != name);
            }
        }
    }
}

/// The field of a container named `name`, if any.
pub open spec fn spec_find_field(c: Container, name: Seq<char>) -> Option<Field> {
    match field_index(c.fields@, name) {
        Option::Some(i) => Option::Some(c.fields@[i]),
        Option::None => Option::None,
    }
}

/// The position of the first container named `name`.
pub open spec fn container_index(cs: Seq<Container>, name: Seq<char>) -> Option<int> {
    if exists|i: int| 0 <= i < cs.len() && cs[i].name@ == name {
        Option::Some(
            choose|i: int|
                0 <= i < cs.len() && cs[i].name@ == name && forall|j: int| 0 <= j < i ==> cs[j].name@ != name,
        )
    } else {
        Option::None
    }
}

proof fn lemma_container_index(cs: Seq<Container>, name: Seq<char>, k: int)
    requires
        0 <= k <= cs.len(),
        forall|j: int| 0 <= j < k ==> cs[j].name@ != name,
        k < cs.len() ==> cs[k].name@ == name,
    ensures
        k < cs.len() ==> container_index(cs, name) == Option::Some(k),
        k == cs.len() ==> container_index(cs, name) == Option::<int>::None,
{
    if k < cs.len() {
        let i = choose|i: int|
            0 <= i < cs.len() && cs[i].name@ == name && forall|j: int| 0 <= j < i ==> cs[j].name@ != name;
        assert(0 <= k < cs.len() && cs[k].name@ == name && forall|j: int| 0 <= j < k ==> cs[j].name@ != name);
        assert(i == k) by {
            if i < k {
                assert(cs[i].name@ != name);
            } else if i > k {
                assert(cs[k].name@ != name);
            }
        }
    }
}

proof fn lemma_first_container(cs: Seq<Container>, name: Seq<char>, k: int) -> (i: int)
    requires
        0 <= k <= cs.len(),
        forall|j: int| 0 <= j < k ==> cs[j].name@ != name,
        exists|i: int| k <= i < cs.len() && cs[i].name@ == name,
    ensures
        0 <= i < cs.len(),
        cs[i].name@ == name,
        forall|j: int| 0 <= j < i ==> cs[j].name@ != name,
    decreases cs.len() - k,
{
    if cs[k].name@ == name {
        k
    } else {
        lemma_first_container(cs, name, k + 1)
    }
}

/// The position found under a name holds a container of that name.
pub proof fn lemma_container_index_valid(cs: Seq<Container>, name: Seq<char>)
    ensures
        container_index(cs, name) matches Option::Some(i) ==> 0 <= i < cs.len() && cs[i].name@ == name,
{
    if exists|i: int| 0 <= i < cs.len() && cs[i].name@ == name {
        let i = lemma_first_container(cs, name, 0);
        lemma_container_index(cs, name, i);
    }
}

impl Field {
    pub fn name(&self) -> (n: &String)
        ensures
            n@ == field_name(*self),
    {
        match self {
            Field::Scalar(sf) => &sf.name,
            Field::Relation(rf) => &rf.name,
            Field::Composite(cf) => &cf.name,
        }
    }
}

impl Container {
    /// The field named `name`, if the container has one.
    pub fn find_field(&self, name: &str) -> (f: Option<&Field>)
        ensures
            match field_index(self.fields@, name@) {
                Option::Some(i) => f == Option::Some(&self.fields@[i]),
                Option::None => f is None,
            },
    {
        let n = self.fields.len();
        let mut i: usize = 0;
        while i < n
            invariant
                n == self.fields@.len(),
                i <= n,
                forall|j: int| 0 <= j < i ==> field_name(self.fields@[j]) != name@,
            decreases n - i,
        {
            if str_eq(self.fields[i].name().as_str(), name) {
                proof { lemma_field_index(self.fields@, name@, i as int); }
                return Option::Some(&self.fields[i]);
            }
            i = i + 1;
        }
        proof { lemma_field_index(self.fields@, name@, n as int); }
        Option::None
    }

    pub fn is_model(&self) -> (b: bool)
        ensures
            b == (self.kind == ContainerKind::Model),
    {
        self.kind == ContainerKind::Model
    }
}

impl DataModel {
    /// The model or composite type named `name`, if the schema has one.
    pub fn find_container(&self, name: &str) -> (c: Option<&Container>)
        ensures
            match container_index(self.containers@, name@) {
                Option::Some(i) => c == Option::Some(&self.containers@[i]),
                Option::None => c is None,
            },
    {
        let n = self.containers.len();
        let mut i: usize = 0;
        while i < n
            invariant
                n == self.containers@.len(),
                i <= n,
                forall|j: int| 0 <= j < i ==> self.containers@[j].name@ != name@,
            decreases n - i,
        {
            if str_eq(self.containers[i].name.as_str(), name) {
                proof { lemma_container_index(self.containers@, name@, i as int); }
                return Option::Some(&self.containers[i]);
            }
            i = i + 1;
        }
        proof { lemma_container_index(self.containers@, name@, n as int); }
        Option::None
    }
}

} // verus!
