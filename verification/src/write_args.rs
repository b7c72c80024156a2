use vstd::prelude::*;
use crate::constants;
use crate::error::QueryGraphBuilderError;
use crate::extract::{ErrorDesc, container_named, error_is};
use crate::query_graph::{WriteArgs, WriteOperation};
use crate::schema::{CompositeField, Container, ContainerKind, DataModel, Field, ScalarField, TypeIdentifier, field_index};
use crate::text::{str_eq, text};
use crate::values::{ObjectTag, ParsedInputMap, ParsedInputValue, PrismaValue, converts};

verus! {

/// Where the value of a write comes from.
pub enum ValueDesc {
    /// The value that this input converts to.
    Input(ParsedInputValue),
    /// The database null.
    Null,
    /// The JSON `null`.
    JsonNull,
}

/// `p` is the value that `d` describes.
pub open spec fn value_is(p: PrismaValue, d: ValueDesc) -> bool {
    match d {
        ValueDesc::Input(i) => converts(i, p),
        ValueDesc::Null => p == PrismaValue::Null,
        ValueDesc::JsonNull => p matches PrismaValue::Json(t) && t@ == "null"@,
    }
}

/// What a write to one field is.
pub enum OpDesc {
    ScalarSet(ValueDesc),
    ScalarAdd(ParsedInputValue),
    ScalarSubtract(ParsedInputValue),
    ScalarMultiply(ParsedInputValue),
    ScalarDivide(ParsedInputValue),
    CompositeSet(ParsedInputValue),
    CompositeUnset(bool),
    CompositeUpdate(Seq<(Seq<char>, OpDesc)>),
}

/// `op` is the write that `d` describes.
pub open spec fn op_is(op: WriteOperation, d: OpDesc) -> bool
    decreases d, 1int,
{
    match (op, d) {
        (WriteOperation::ScalarSet(p), OpDesc::ScalarSet(v)) => value_is(p, v),
        (WriteOperation::ScalarAdd(p), OpDesc::ScalarAdd(i)) => converts(i, p),
        (WriteOperation::ScalarSubtract(p), OpDesc::ScalarSubtract(i)) => converts(i, p),
        (WriteOperation::ScalarMultiply(p), OpDesc::ScalarMultiply(i)) => converts(i, p),
        (WriteOperation::ScalarDivide(p), OpDesc::ScalarDivide(i)) => converts(i, p),
        (WriteOperation::CompositeSet(p), OpDesc::CompositeSet(i)) => converts(i, p),
        (WriteOperation::CompositeUnset(b), OpDesc::CompositeUnset(b2)) => b == b2,
        (WriteOperation::CompositeUpdate(v), OpDesc::CompositeUpdate(ds)) => all_ops_are(v@, ds),
        _ => false,
    }
}

/// The entry `e` is the write of the field named that `d` describes.
pub open spec fn entry_is(e: (String, WriteOperation), d: (Seq<char>, OpDesc)) -> bool
    decreases d, 2int,
{
    e.0@ == d.0 && op_is(e.1, d.1)
}

/// Field by field, the writes of `ops` are those that `ds` describes.
pub open spec fn all_ops_are(ops: Seq<(String, WriteOperation)>, ds: Seq<(Seq<char>, OpDesc)>) -> bool
    decreases ds, 0int,
{
    ops.len() == ds.len() && (ds.len() > 0 ==> all_ops_are(ops.drop_last(), ds.drop_last()) && entry_is(
        ops.last(),
        ds.last(),
    ))
}

pub proof fn lemma_all_ops_push(ops: Seq<(String, WriteOperation)>, ds: Seq<(Seq<char>, OpDesc)>, k: String, op: WriteOperation, d: OpDesc)
    requires
        all_ops_are(ops, ds),
        op_is(op, d),
    ensures
        all_ops_are(ops.push((k, op)), ds.push((k@, d))),
{
    assert(ops.push((k, op)).drop_last() =~= ops);
    assert(ds.push((k@, d)).drop_last() =~= ds);
    assert(entry_is(ops.push((k, op)).last(), ds.push((k@, d)).last()));
}

pub proof fn lemma_all_ops_forall(ops: Seq<(String, WriteOperation)>, ds: Seq<(Seq<char>, OpDesc)>)
    ensures
        all_ops_are(ops, ds) <==> (ops.len() == ds.len() && forall|i: int|
            0 <= i < ds.len() ==> #[trigger] entry_is(ops[i], ds[i])),
    decreases ds.len(),
{
    if ds.len() > 0 && ops.len() == ds.len() {
        lemma_all_ops_forall(ops.drop_last(), ds.drop_last());
        if forall|i: int| 0 <= i < ds.len() ==> #[trigger] entry_is(ops[i], ds[i]) {
            assert forall|i: int| 0 <= i < ds.drop_last().len() implies #[trigger] entry_is(
                ops.drop_last()[i],
                ds.drop_last()[i],
            ) by {
                assert(entry_is(ops[i], ds[i]));
            }
            assert(entry_is(ops[ds.len() - 1], ds[ds.len() - 1]));
            assert(all_ops_are(ops, ds));
        }
        if all_ops_are(ops, ds) {
            assert forall|i: int| 0 <= i < ds.len() implies #[trigger] entry_is(ops[i], ds[i]) by {
                if i < ds.len() - 1 {
                    assert(entry_is(ops.drop_last()[i], ds.drop_last()[i]));
                }
            }
        }
    }
}

/// `r` is the outcome that `s` describes.
pub open spec fn op_outcome(r: Result<WriteOperation, QueryGraphBuilderError>, s: Result<OpDesc, ErrorDesc>) -> bool {
    match s {
        Ok(d) => r matches Ok(op) && op_is(op, d),
        Err(e) => r matches Err(x) && error_is(x, e),
    }
}

/// The message for an operation object without an operation.
pub open spec fn empty_operation_message() -> Seq<char> {
    "A write operation object names one operation."@
}

/// The message for an unknown write operation.
pub open spec fn invalid_operation_message(op: Seq<char>) -> Seq<char> {
    "Invalid write operation "@ + op + "."@
}

/// The message for a value that the write of a field cannot take.
pub open spec fn invalid_write_message(field: Seq<char>) -> Seq<char> {
    "Invalid write value for field "@ + field + "."@
}

/// The write of a scalar field: a value sets it (the JSON null enum values of a JSON field
/// standing for the database null and the JSON `null`); an operation object names one
/// operation and its value.
pub open spec fn scalar_write_spec(sf: ScalarField, container_kind: ContainerKind, v: ParsedInputValue) -> Result<
    OpDesc,
    ErrorDesc,
> {
    match v {
        ParsedInputValue::Single(PrismaValue::Enum(e)) if sf.type_identifier == TypeIdentifier::Json => if e@
            == constants::DB_NULL@ {
            Ok(OpDesc::ScalarSet(ValueDesc::Null))
        } else if e@ == constants::JSON_NULL@ {
            Ok(OpDesc::ScalarSet(ValueDesc::JsonNull))
        } else {
            Err(ErrorDesc::Input(invalid_write_message(sf.name@)))
        },
        ParsedInputValue::Single(_) => Ok(OpDesc::ScalarSet(ValueDesc::Input(v))),
        ParsedInputValue::Object(m) => if m.entries@.len() == 0 {
            Err(ErrorDesc::Input(empty_operation_message()))
        } else {
            let op = m.entries@[0].0@;
            let val = m.entries@[0].1;
            if op == constants::SET@ {
                Ok(OpDesc::ScalarSet(ValueDesc::Input(val)))
            } else if op == constants::INCREMENT@ {
                Ok(OpDesc::ScalarAdd(val))
            } else if op == constants::DECREMENT@ {
                Ok(OpDesc::ScalarSubtract(val))
            } else if op == constants::MULTIPLY@ {
                Ok(OpDesc::ScalarMultiply(val))
            } else if op == constants::DIVIDE@ {
                Ok(OpDesc::ScalarDivide(val))
            } else if op == constants::UNSET@ && container_kind == ContainerKind::CompositeType {
                match val {
                    ParsedInputValue::Single(PrismaValue::Boolean(b)) => Ok(OpDesc::CompositeUnset(b)),
                    _ => Err(ErrorDesc::Input(invalid_write_message(sf.name@))),
                }
            } else {
                Err(ErrorDesc::Input(invalid_operation_message(op)))
            }
        },
        ParsedInputValue::List(_) => Err(ErrorDesc::Input(invalid_write_message(sf.name@))),
    }
}

/// The write of a scalar list field: a list sets it; an operation object sets or pushes.
pub open spec fn scalar_list_write_spec(sf: ScalarField, v: ParsedInputValue) -> Result<OpDesc, ErrorDesc> {
    match v {
        ParsedInputValue::List(_) => Ok(OpDesc::ScalarSet(ValueDesc::Input(v))),
        ParsedInputValue::Object(m) => if m.entries@.len() == 0 {
            Err(ErrorDesc::Input(empty_operation_message()))
        } else {
            let op = m.entries@[0].0@;
            let val = m.entries@[0].1;
            if op == constants::SET@ {
                Ok(OpDesc::ScalarSet(ValueDesc::Input(val)))
            } else if op == constants::PUSH@ {
                Ok(OpDesc::ScalarAdd(val))
            } else {
                Err(ErrorDesc::Input(invalid_operation_message(op)))
            }
        },
        _ => Err(ErrorDesc::Input(invalid_write_message(sf.name@))),
    }
}

/// The write of a composite field: null, a list or an object sets it; an envelope names one
/// operation (`set`, `unset` or `update`).
pub open spec fn composite_write_spec(dm: DataModel, cf: CompositeField, v: ParsedInputValue) -> Result<OpDesc, ErrorDesc>
    decreases v, 3int, 0int,
{
    match v {
        ParsedInputValue::Single(PrismaValue::Null) => Ok(OpDesc::CompositeSet(v)),
        ParsedInputValue::List(_) => Ok(OpDesc::CompositeSet(v)),
        ParsedInputValue::Object(m) => if m.tag == Option::Some(ObjectTag::CompositeEnvelope) {
            if m.entries@.len() == 0 {
                Err(ErrorDesc::Input(empty_operation_message()))
            } else {
                envelope_spec(dm, cf, m.entries@[0].0@, m.entries@[0].1)
            }
        } else {
            Ok(OpDesc::CompositeSet(v))
        },
        _ => Err(ErrorDesc::Input(invalid_write_message(cf.name@))),
    }
}

/// The operation of a composite write envelope.
pub open spec fn envelope_spec(dm: DataModel, cf: CompositeField, op: Seq<char>, value: ParsedInputValue) -> Result<
    OpDesc,
    ErrorDesc,
>
    decreases value, 2int, 0int,
{
    if op == constants::SET@ {
        Ok(OpDesc::CompositeSet(value))
    } else if op == constants::UNSET@ {
        match value {
            ParsedInputValue::Single(PrismaValue::Boolean(b)) => Ok(OpDesc::CompositeUnset(b)),
            _ => Err(ErrorDesc::Input(invalid_write_message(cf.name@))),
        }
    } else if op == constants::UPDATE@ {
        match value {
            ParsedInputValue::Object(m) => match container_named(dm, cf.typ@) {
                Option::Some(typ) => match updates_spec(dm, typ, m, m.entries@.len()) {
                    Ok(ds) => Ok(OpDesc::CompositeUpdate(ds)),
                    Err(e) => Err(e),
                },
                Option::None => Err(ErrorDesc::Domain(crate::extract::container_not_found_message(cf.typ@))),
            },
            _ => Err(ErrorDesc::Input(invalid_write_message(cf.name@))),
        }
    } else {
        Err(ErrorDesc::Input(invalid_operation_message(op)))
    }
}

/// The message for a key that names no field.
pub open spec fn unknown_field_message(key: Seq<char>, container: Seq<char>) -> Seq<char> {
    "Unknown field "@ + key + " on "@ + container + "."@
}

/// The write of one field of a composite update.
pub open spec fn update_entry_spec(dm: DataModel, typ: Container, key: Seq<char>, v: ParsedInputValue) -> Result<
    OpDesc,
    ErrorDesc,
>
    decreases v, 4int, 0int,
{
    match field_index(typ.fields@, key) {
        Option::Some(i) => match typ.fields@[i] {
            Field::Scalar(sf) => if sf.is_list {
                scalar_list_write_spec(sf, v)
            } else {
                scalar_write_spec(sf, typ.kind, v)
            },
            Field::Composite(cf) => composite_write_spec(dm, cf, v),
            Field::Relation(_) => Err(ErrorDesc::Input(unknown_field_message(key, typ.name@))),
        },
        Option::None => Err(ErrorDesc::Input(unknown_field_message(key, typ.name@))),
    }
}

/// The writes of the first `k` entries of a composite update.
pub open spec fn updates_spec(dm: DataModel, typ: Container, m: ParsedInputMap, k: nat) -> Result<
    Seq<(Seq<char>, OpDesc)>,
    ErrorDesc,
>
    decreases m, 1int, k,
{
    if k == 0 {
        Ok(Seq::empty())
    } else {
        match updates_spec(dm, typ, m, (k - 1) as nat) {
            Err(e) => Err(e),
            Ok(prev) => if k - 1 < m.entries@.len() {
                match update_entry_spec(dm, typ, m.entries@[k - 1].0@, m.entries@[k - 1].1) {
                    Ok(d) => Ok(prev.push((m.entries@[k - 1].0@, d))),
                    Err(e) => Err(e),
                }
            } else {
                Err(ErrorDesc::Input(Seq::empty()))
            },
        }
    }
}

/// The position of the first write of the field named `key`.
pub open spec fn arg_index(args: Seq<(Seq<char>, OpDesc)>, key: Seq<char>) -> Option<int> {
    if exists|i: int| 0 <= i < args.len() && args[i].0 == key {
        Option::Some(
            choose|i: int| 0 <= i < args.len() && args[i].0 == key && forall|j: int| 0 <= j < i ==> args[j].0 != key,
        )
    } else {
        Option::None
    }
}

/// The writes with the write `d` of the field `key` inserted: it replaces the write of that
/// field where there is one, and is appended otherwise.
pub open spec fn insert_desc(args: Seq<(Seq<char>, OpDesc)>, key: Seq<char>, d: OpDesc) -> Seq<(Seq<char>, OpDesc)> {
    match arg_index(args, key) {
        Option::Some(i) => args.update(i, (key, d)),
        Option::None => args.push((key, d)),
    }
}

/// The writes and the nested relation writes of the first `k` entries of a data object.
pub open spec fn args_spec(dm: DataModel, model: Container, es: Seq<(String, ParsedInputValue)>, k: nat) -> Result<
    (Seq<(Seq<char>, OpDesc)>, Seq<(Seq<char>, ParsedInputMap)>),
    ErrorDesc,
>
    decreases k,
{
    if k == 0 {
        Ok((Seq::empty(), Seq::empty()))
    } else {
        match args_spec(dm, model, es, (k - 1) as nat) {
            Err(e) => Err(e),
            Ok((args, nested)) => if k - 1 < es.len() {
                let key = es[k - 1].0@;
                let v = es[k - 1].1;
                match field_index(model.fields@, key) {
                    Option::None => Err(ErrorDesc::Input(unknown_field_message(key, model.name@))),
                    Option::Some(i) => match model.fields@[i] {
                        Field::Scalar(sf) => match (if sf.is_list {
                            scalar_list_write_spec(sf, v)
                        } else {
                            scalar_write_spec(sf, model.kind, v)
                        }) {
                            Ok(d) => Ok((insert_desc(args, sf.name@, d), nested)),
                            Err(e) => Err(e),
                        },
                        Field::Relation(rf) => if v == ParsedInputValue::Single(PrismaValue::Null) {
                            Ok((args, nested))
                        } else {
                            match v {
                                ParsedInputValue::Object(m) => Ok((args, nested.push((rf.name@, m)))),
                                _ => Err(ErrorDesc::Input(invalid_write_message(rf.name@))),
                            }
                        },
                        Field::Composite(cf) => match composite_write_spec(dm, cf, v) {
                            Ok(d) => Ok((insert_desc(args, cf.name@, d), nested)),
                            Err(e) => Err(e),
                        },
                    },
                }
            } else {
                Err(ErrorDesc::Input(Seq::empty()))
            },
        }
    }
}

/// The writes of a data object, and the nested writes on relation fields with their objects.
#[derive(Debug)]
pub struct WriteArgsParser {
    pub args: WriteArgs,
    pub nested: Vec<(String, ParsedInputMap)>,
}

/// `p` holds the writes and nested writes that `d` describes.
pub open spec fn parsed_args(p: WriteArgsParser, d: (Seq<(Seq<char>, OpDesc)>, Seq<(Seq<char>, ParsedInputMap)>)) -> bool {
    &&& p.args.args@.len() == d.0.len()
    &&& forall|i: int| 0 <= i < d.0.len() ==> #[trigger] entry_is(p.args.args@[i], d.0[i])
    &&& p.nested@.len() == d.1.len()
    &&& forall|i: int| 0 <= i < d.1.len() ==> (#[trigger] p.nested@[i]).0@ == d.1[i].0 && p.nested@[i].1 == d.1[i].1
}

fn input_error(m: String) -> (e: QueryGraphBuilderError)
    ensures
        e matches QueryGraphBuilderError::InputError(x) && x@ == m@,
{
    QueryGraphBuilderError::InputError(m)
}

fn invalid_write(field: &str) -> (e: QueryGraphBuilderError)
    ensures
        error_is(e, ErrorDesc::Input(invalid_write_message(field@))),
{
    let mut m = text("Invalid write value for field ");
    m.append(field);
    m.append(".");
    input_error(m)
}

fn invalid_operation(op: &str) -> (e: QueryGraphBuilderError)
    ensures
        error_is(e, ErrorDesc::Input(invalid_operation_message(op@))),
{
    let mut m = text("Invalid write operation ");
    m.append(op);
    m.append(".");
    input_error(m)
}

fn empty_operation() -> (e: QueryGraphBuilderError)
    ensures
        error_is(e, ErrorDesc::Input(empty_operation_message())),
{
    input_error(text("A write operation object names one operation."))
}

/// Whether an input object is the envelope of an operation on a composite field.
pub fn is_composite_envelope(map: &ParsedInputMap) -> (b: bool)
    ensures
        b == (map.tag == Option::Some(ObjectTag::CompositeEnvelope)),
{
    match &map.tag {
        Option::Some(ObjectTag::CompositeEnvelope) => true,
        _ => false,
    }
}

/// The first entry of an operation object.
fn first_entry(m: ParsedInputMap) -> (r: (String, ParsedInputValue))
    requires
        m.entries@.len() > 0,
    ensures
        r.0@ == m.entries@[0].0@,
        r.1 == m.entries@[0].1,
{
    let mut es = m.entries;
    es.swap_remove(0)
}

/// The write of a scalar field of a model or composite type of kind `container_kind`.
pub fn parse_scalar(sf: &ScalarField, container_kind: ContainerKind, v: ParsedInputValue) -> (r: Result<
    WriteOperation,
    QueryGraphBuilderError,
>)
    ensures
        op_outcome(r, scalar_write_spec(*sf, container_kind, v)),
{
    let ghost v0 = v;
    match v {
        ParsedInputValue::Single(PrismaValue::Enum(e)) if sf.type_identifier == TypeIdentifier::Json => {
            if str_eq(e.as_str(), constants::DB_NULL) {
                Ok(WriteOperation::ScalarSet(PrismaValue::Null))
            } else if str_eq(e.as_str(), constants::JSON_NULL) {
                proof { reveal_strlit("null"); }
                Ok(WriteOperation::ScalarSet(PrismaValue::Json(text("null"))))
            } else {
                Err(invalid_write(sf.name.as_str()))
            }
        },
        ParsedInputValue::Single(x) => Ok(WriteOperation::ScalarSet(x)),
        ParsedInputValue::Object(m) => {
            if m.entries.len() == 0 {
                return Err(empty_operation());
            }
            let (op, value) = first_entry(m);
            if str_eq(op.as_str(), constants::SET) {
                Ok(WriteOperation::ScalarSet(value.into_prisma_value()))
            } else if str_eq(op.as_str(), constants::INCREMENT) {
                Ok(WriteOperation::ScalarAdd(value.into_prisma_value()))
            } else if str_eq(op.as_str(), constants::DECREMENT) {
                Ok(WriteOperation::ScalarSubtract(value.into_prisma_value()))
            } else if str_eq(op.as_str(), constants::MULTIPLY) {
                Ok(WriteOperation::ScalarMultiply(value.into_prisma_value()))
            } else if str_eq(op.as_str(), constants::DIVIDE) {
                Ok(WriteOperation::ScalarDivide(value.into_prisma_value()))
            } else if str_eq(op.as_str(), constants::UNSET) && container_kind == ContainerKind::CompositeType {
                match value.into_bool() {
                    Option::Some(b) => Ok(WriteOperation::CompositeUnset(b)),
                    Option::None => Err(invalid_write(sf.name.as_str())),
                }
            } else {
                Err(invalid_operation(op.as_str()))
            }
        },
        ParsedInputValue::List(_) => Err(invalid_write(sf.name.as_str())),
    }
}

/// The write of a scalar list field.
pub fn parse_scalar_list(sf: &ScalarField, v: ParsedInputValue) -> (r: Result<WriteOperation, QueryGraphBuilderError>)
    ensures
        op_outcome(r, scalar_list_write_spec(*sf, v)),
{
    match v {
        ParsedInputValue::List(_) => Ok(WriteOperation::ScalarSet(v.into_prisma_value())),
        ParsedInputValue::Object(m) => {
            if m.entries.len() == 0 {
                return Err(empty_operation());
            }
            let (op, value) = first_entry(m);
            if str_eq(op.as_str(), constants::SET) {
                Ok(WriteOperation::ScalarSet(value.into_prisma_value()))
            } else if str_eq(op.as_str(), constants::PUSH) {
                Ok(WriteOperation::ScalarAdd(value.into_prisma_value()))
            } else {
                Err(invalid_operation(op.as_str()))
            }
        },
        _ => Err(invalid_write(sf.name.as_str())),
    }
}

/// The write of a composite field.
pub fn parse_composite_writes(cf: &CompositeField, v: ParsedInputValue, dm: &DataModel) -> (r: Result<
    WriteOperation,
    QueryGraphBuilderError,
>)
    ensures
        op_outcome(r, composite_write_spec(*dm, *cf, v)),
    decreases v, 3int, 0int,
{
    let ghost v0 = v;
    match v {
        ParsedInputValue::Single(PrismaValue::Null) => Ok(WriteOperation::CompositeSet(PrismaValue::Null)),
        ParsedInputValue::List(_) => Ok(WriteOperation::CompositeSet(v.into_prisma_value())),
        ParsedInputValue::Object(m) => {
            if is_composite_envelope(&m) {
                if m.entries.len() == 0 {
                    return Err(empty_operation());
                }
                let ghost m0 = m;
                proof {
                    assert(decreases_to!(v0 => m0));
                    assert(decreases_to!(m0 => m0.entries));
                    assert(decreases_to!(m0.entries => m0.entries@));
                    assert(decreases_to!(m0.entries@ => m0.entries@[0]));
                    assert(decreases_to!(m0.entries@[0] => m0.entries@[0].1));
                }
                let (op, value) = first_entry(m);
                parse_composite_envelope(cf, op.as_str(), value, dm)
            } else {
                Ok(WriteOperation::CompositeSet(ParsedInputValue::Object(m).into_prisma_value()))
            }
        },
        _ => Err(invalid_write(cf.name.as_str())),
    }
}

/// The operation of a composite write envelope.
fn parse_composite_envelope(cf: &CompositeField, op: &str, value: ParsedInputValue, dm: &DataModel) -> (r: Result<
    WriteOperation,
    QueryGraphBuilderError,
>)
    ensures
        op_outcome(r, envelope_spec(*dm, *cf, op@, value)),
    decreases value, 2int, 0int,
{
    if str_eq(op, constants::SET) {
        Ok(WriteOperation::CompositeSet(value.into_prisma_value()))
    } else if str_eq(op, constants::UNSET) {
        match value.into_bool() {
            Option::Some(b) => Ok(WriteOperation::CompositeUnset(b)),
            Option::None => Err(invalid_write(cf.name.as_str())),
        }
    } else if str_eq(op, constants::UPDATE) {
        match value {
            ParsedInputValue::Object(m) => {
                let typ = match crate::extract::find_container(dm, cf.typ.as_str()) {
                    Ok(c) => c,
                    Err(x) => return Err(x),
                };
                match parse_composite_updates(m, typ, dm) {
                    Ok(writes) => Ok(WriteOperation::CompositeUpdate(writes)),
                    Err(x) => Err(x),
                }
            },
            _ => Err(invalid_write(cf.name.as_str())),
        }
    } else {
        Err(invalid_operation(op))
    }
}

/// The writes of the fields of a composite update, in input order.
fn parse_composite_updates(map: ParsedInputMap, typ: &Container, dm: &DataModel) -> (r: Result<
    Vec<(String, WriteOperation)>,
    QueryGraphBuilderError,
>)
    ensures
        match updates_spec(*dm, *typ, map, map.entries@.len()) {
            Ok(ds) => r matches Ok(v) && all_ops_are(v@, ds),
            Err(e) => r matches Err(x) && error_is(x, e),
        },
    decreases map, 1int, 0int,
{
    let ghost m0 = map;
    let ghost es = map.entries@;
    let mut out: Vec<(String, WriteOperation)> = Vec::new();
    let ghost mut ds: Seq<(Seq<char>, OpDesc)> = Seq::empty();
    for e in it: map.entries.into_iter()
        invariant
            it.seq() == es,
            es == m0.entries@,
            map == m0,
            updates_spec(*dm, *typ, m0, it.index() as nat) == Ok::<Seq<(Seq<char>, OpDesc)>, ErrorDesc>(ds),
            all_ops_are(out@, ds),
    {
        let ghost j = it.index() as int;
        let (key, v) = e;
        let ghost gv = v;
        proof {
            assert(decreases_to!(m0 => m0.entries));
            assert(decreases_to!(m0.entries => m0.entries@));
            assert(decreases_to!(m0.entries@ => m0.entries@[j]));
            assert(decreases_to!(m0.entries@[j] => m0.entries@[j].1));
            assert(decreases_to!(map => v));
        }
        match parse_update_entry(key.as_str(), v, typ, dm) {
            Ok(op) => {
                let ghost d = update_entry_spec(*dm, *typ, key@, gv)->Ok_0;
                let ghost before = out@;
                let ghost gop = op;
                let ghost gk = key;
                out.push((key, op));
                proof {
                    lemma_all_ops_push(before, ds, gk, gop, d);
                    ds = ds.push((gk@, d));
                }
            },
            Err(x) => {
                proof {
                    let e2 = update_entry_spec(*dm, *typ, key@, gv)->Err_0;
                    lemma_updates_err(*dm, *typ, m0, (j + 1) as nat, es.len(), e2);
                }
                return Err(x);
            },
        }
    }
    Ok(out)
}

proof fn lemma_updates_err(dm: DataModel, typ: Container, m: ParsedInputMap, k: nat, k2: nat, e: ErrorDesc)
    requires
        updates_spec(dm, typ, m, k) == Err::<Seq<(Seq<char>, OpDesc)>, ErrorDesc>(e),
        k <= k2,
    ensures
        updates_spec(dm, typ, m, k2) == Err::<Seq<(Seq<char>, OpDesc)>, ErrorDesc>(e),
    decreases k2 - k,
{
    if k < k2 {
        lemma_updates_err(dm, typ, m, k, (k2 - 1) as nat, e);
    }
}

fn unknown_field(key: &str, container: &str) -> (e: QueryGraphBuilderError)
    ensures
        error_is(e, ErrorDesc::Input(unknown_field_message(key@, container@))),
{
    let mut m = text("Unknown field ");
    m.append(key);
    m.append(" on ");
    m.append(container);
    m.append(".");
    input_error(m)
}

/// The write of one field of a composite update.
fn parse_update_entry(key: &str, v: ParsedInputValue, typ: &Container, dm: &DataModel) -> (r: Result<
    WriteOperation,
    QueryGraphBuilderError,
>)
    ensures
        op_outcome(r, update_entry_spec(*dm, *typ, key@, v)),
    decreases v, 4int, 0int,
{
    match typ.find_field(key) {
        Option::Some(Field::Scalar(sf)) => {
            if sf.is_list {
                parse_scalar_list(sf, v)
            } else {
                parse_scalar(sf, typ.kind, v)
            }
        },
        Option::Some(Field::Composite(cf)) => parse_composite_writes(cf, v, dm),
        _ => Err(unknown_field(key, typ.name.as_str())),
    }
}

proof fn lemma_arg_index(args: Seq<(Seq<char>, OpDesc)>, key: Seq<char>, k: int)
    requires
        0 <= k <= args.len(),
        forall|j: int| 0 <= j < k ==> args[j].0 != key,
        k < args.len() ==> args[k].0 == key,
    ensures
        k < args.len() ==> arg_index(args, key) == Option::Some(k),
        k == args.len() ==> arg_index(args, key) == Option::<int>::None,
{
    if k < args.len() {
        let i = choose|i: int| 0 <= i < args.len() && args[i].0 == key && forall|j: int| 0 <= j < i ==> args[j].0 != key;
        assert(0 <= k < args.len() && args[k].0 == key && forall|j: int| 0 <= j < k ==> args[j].0 != key);
        assert(i == k) by {
            if i < k {
                assert(args[i].0 != key);
            } else if i > k {
                assert(args[k].0 != key);
            }
        }
    }
}

/// The writes hold the entries that `ds` describes.
pub open spec fn args_are(args: Seq<(String, WriteOperation)>, ds: Seq<(Seq<char>, OpDesc)>) -> bool {
    &&& args.len() == ds.len()
    &&& forall|i: int| 0 <= i < ds.len() ==> #[trigger] entry_is(args[i], ds[i])
}

/// Inserts the write of the field `key`: it replaces the write of that field where there is
/// one, and is appended otherwise.
fn insert_arg(
    args: &mut Vec<(String, WriteOperation)>,
    key: String,
    op: WriteOperation,
    Ghost(ds): Ghost<Seq<(Seq<char>, OpDesc)>>,
    Ghost(d): Ghost<OpDesc>,
)
    requires
        args_are(old(args)@, ds),
        op_is(op, d),
    ensures
        args_are(final(args)@, insert_desc(ds, key@, d)),
{
    let n = args.len();
    let mut i: usize = 0;
    while i < n
        invariant
            n == args@.len(),
            args_are(args@, ds),
            op_is(op, d),
            i <= n,
            forall|j: int| 0 <= j < i ==> ds[j].0 != key@,
        decreases n - i,
    {
        if str_eq(args[i].0.as_str(), key.as_str()) {
            proof {
                assert(entry_is(args@[i as int], ds[i as int]));
                lemma_arg_index(ds, key@, i as int);
            }
            let ghost gk = key;
            let ghost gop = op;
            let ghost before = args@;
            args.set(i, (key, op));
            proof {
                assert forall|j: int| 0 <= j < ds.len() implies #[trigger] entry_is(
                    args@[j],
                    ds.update(i as int, (gk@, d))[j],
                ) by {
                    if j != i {
                        assert(entry_is(before[j], ds[j]));
                    }
                }
            }
            return;
        }
        proof { assert(entry_is(args@[i as int], ds[i as int])); }
        i = i + 1;
    }
    proof { lemma_arg_index(ds, key@, n as int); }
    let ghost gk = key;
    let ghost gop = op;
    let ghost before = args@;
    args.push((key, op));
    proof {
        assert forall|j: int| 0 <= j < ds.len() + 1 implies #[trigger] entry_is(args@[j], ds.push((gk@, d))[j]) by {
            if j < ds.len() {
                assert(entry_is(before[j], ds[j]));
            }
        }
    }
}

proof fn lemma_args_err(dm: DataModel, model: Container, es: Seq<(String, ParsedInputValue)>, k: nat, k2: nat, e: ErrorDesc)
    requires
        args_spec(dm, model, es, k) == Err::<(Seq<(Seq<char>, OpDesc)>, Seq<(Seq<char>, ParsedInputMap)>), ErrorDesc>(e),
        k <= k2,
    ensures
        args_spec(dm, model, es, k2) == Err::<(Seq<(Seq<char>, OpDesc)>, Seq<(Seq<char>, ParsedInputMap)>), ErrorDesc>(e),
    decreases k2 - k,
{
    if k < k2 {
        lemma_args_err(dm, model, es, k, (k2 - 1) as nat, e);
    }
}

impl WriteArgsParser {
    /// Parses the data object of a write on `model` (the object under the `data` key): the
    /// writes of its scalar and composite fields, and the nested writes on its relation
    /// fields (a null relation value writes nothing).
    pub fn from(model: &Container, data_map: ParsedInputMap, dm: &DataModel) -> (r: Result<
        WriteArgsParser,
        QueryGraphBuilderError,
    >)
        ensures
            match args_spec(*dm, *model, data_map.entries@, data_map.entries@.len()) {
                Ok(d) => r matches Ok(p) && parsed_args(p, d),
                Err(e) => r matches Err(x) && error_is(x, e),
            },
    {
        let ghost es = data_map.entries@;
        let mut args: Vec<(String, WriteOperation)> = Vec::new();
        let mut nested: Vec<(String, ParsedInputMap)> = Vec::new();
        let ghost mut ads: Seq<(Seq<char>, OpDesc)> = Seq::empty();
        let ghost mut nds: Seq<(Seq<char>, ParsedInputMap)> = Seq::empty();
        for e in it: data_map.entries.into_iter()
            invariant
                it.seq() == es,
                args_spec(*dm, *model, es, it.index() as nat) == Ok::<
                    (Seq<(Seq<char>, OpDesc)>, Seq<(Seq<char>, ParsedInputMap)>),
                    ErrorDesc,
                >((ads, nds)),
                args_are(args@, ads),
                nested@.len() == nds.len(),
                forall|i: int| 0 <= i < nds.len() ==> (#[trigger] nested@[i]).0@ == nds[i].0 && nested@[i].1 == nds[i].1,
        {
            let ghost j = it.index() as int;
            let (key, v) = e;
            let ghost gv = v;
            match model.find_field(key.as_str()) {
                Option::None => {
                    proof {
                        lemma_args_err(*dm, *model, es, (j + 1) as nat, es.len(), ErrorDesc::Input(unknown_field_message(key@, model.name@)));
                    }
                    return Err(unknown_field(key.as_str(), model.name.as_str()));
                },
                Option::Some(Field::Scalar(sf)) => {
                    let r = if sf.is_list {
                        parse_scalar_list(sf, v)
                    } else {
                        parse_scalar(sf, model.kind, v)
                    };
                    let ghost sd = if sf.is_list {
                        scalar_list_write_spec(*sf, gv)
                    } else {
                        scalar_write_spec(*sf, model.kind, gv)
                    };
                    match r {
                        Ok(op) => {
                            let ghost d = sd->Ok_0;
                            insert_arg(&mut args, sf.name.clone(), op, Ghost(ads), Ghost(d));
                            proof { ads = insert_desc(ads, sf.name@, d); }
                        },
                        Err(x) => {
                            proof { lemma_args_err(*dm, *model, es, (j + 1) as nat, es.len(), sd->Err_0); }
                            return Err(x);
                        },
                    }
                },
                Option::Some(Field::Relation(rf)) => {
                    let is_null = match &v {
                        ParsedInputValue::Single(PrismaValue::Null) => true,
                        _ => false,
                    };
                    if !is_null {
                        match v {
                            ParsedInputValue::Object(m) => {
                                let ghost gm = m;
                                nested.push((rf.name.clone(), m));
                                proof { nds = nds.push((rf.name@, gm)); }
                            },
                            _ => {
                                proof {
                                    lemma_args_err(*dm, *model, es, (j + 1) as nat, es.len(), ErrorDesc::Input(invalid_write_message(rf.name@)));
                                }
                                return Err(invalid_write(rf.name.as_str()));
                            },
                        }
                    }
                },
                Option::Some(Field::Composite(cf)) => {
                    match parse_composite_writes(cf, v, dm) {
                        Ok(op) => {
                            let ghost d = composite_write_spec(*dm, *cf, gv)->Ok_0;
                            insert_arg(&mut args, cf.name.clone(), op, Ghost(ads), Ghost(d));
                            proof { ads = insert_desc(ads, cf.name@, d); }
                        },
                        Err(x) => {
                            proof {
                                lemma_args_err(*dm, *model, es, (j + 1) as nat, es.len(), composite_write_spec(*dm, *cf, gv)->Err_0);
                            }
                            return Err(x);
                        },
                    }
                },
            }
        }
        Ok(WriteArgsParser { args: WriteArgs { args }, nested })
    }
}

} // verus!
