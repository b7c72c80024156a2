use vstd::prelude::*;
use crate::error::QueryGraphBuilderError;
use crate::extract::{ErrorDesc, FilterDesc, described, all_described, error_is, extracted, lemma_all_described_push};
use crate::filter::{ConditionValue, Filter, QueryMode, ScalarCondition, ScalarFilter};
use crate::flatten::GroupKind;
use crate::query_graph::names;
use crate::scalar::swap_removed;
use crate::schema::{CompoundUnique, Container, Field, field_index};
use crate::text::{str_eq, text};
use crate::values::{ParsedInputMap, ParsedInputValue, key_index, lemma_key_index_valid};

verus! {

/// The position of the first unique index named `name`.
pub open spec fn index_named(indexes: Seq<CompoundUnique>, name: Seq<char>) -> Option<int> {
    if exists|i: int| 0 <= i < indexes.len() && indexes[i].name@ == name {
        Option::Some(
            choose|i: int|
                0 <= i < indexes.len() && indexes[i].name@ == name && forall|j: int|
                    0 <= j < i ==> indexes[j].name@ != name,
        )
    } else {
        Option::None
    }
}

/// The fields of the compound identifier or unique index that the schema offers under
/// `name`: the compound identifier first, then the first unique index of that name.
pub open spec fn compound_fields(model: Container, name: Seq<char>) -> Option<Seq<Seq<char>>> {
    match model.compound_id {
        Option::Some(c) if c.name@ == name => Option::Some(names(c.fields@)),
        _ => match index_named(model.unique_indexes@, name) {
            Option::Some(i) => Option::Some(names(model.unique_indexes@[i].fields@)),
            Option::None => Option::None,
        },
    }
}

proof fn lemma_index_named(indexes: Seq<CompoundUnique>, name: Seq<char>, k: int)
    requires
        0 <= k <= indexes.len(),
        forall|j: int| 0 <= j < k ==> indexes[j].name@ != name,
        k < indexes.len() ==> indexes[k].name@ == name,
    ensures
        k < indexes.len() ==> index_named(indexes, name) == Option::Some(k),
        k == indexes.len() ==> index_named(indexes, name) == Option::<int>::None,
{
    if k < indexes.len() {
        let i = choose|i: int|
            0 <= i < indexes.len() && indexes[i].name@ == name && forall|j: int| 0 <= j < i ==> indexes[j].name@ != name;
        assert(0 <= k < indexes.len() && indexes[k].name@ == name && forall|j: int| 0 <= j < k ==> indexes[j].name@ != name);
        assert(i == k) by {
            if i < k {
                assert(indexes[i].name@ != name);
            } else if i > k {
                assert(indexes[k].name@ != name);
            }
        }
    }
}

fn copy_names(v: &Vec<String>) -> (r: Vec<String>)
    ensures
        names(r@) == names(v@),
{
    let mut out: Vec<String> = Vec::new();
    let n = v.len();
    let mut i: usize = 0;
    while i < n
        invariant
            n == v@.len(),
            i <= n,
            out@.len() == i,
            forall|j: int| 0 <= j < i ==> (#[trigger] out@[j])@ == v@[j]@,
        decreases n - i,
    {
        out.push(v[i].clone());
        i = i + 1;
    }
    assert(names(out@) =~= names(v@));
    out
}

/// Resolves a name to the fields of a compound identifier or unique index of the model.
pub fn resolve_compound_field(name: &str, model: &Container) -> (r: Option<Vec<String>>)
    ensures
        match compound_fields(*model, name@) {
            Option::Some(fs) => r matches Option::Some(v) && names(v@) == fs,
            Option::None => r is None,
        },
{
    match &model.compound_id {
        Option::Some(c) => {
            if str_eq(c.name.as_str(), name) {
                return Option::Some(copy_names(&c.fields));
            }
        },
        Option::None => {},
    }
    let n = model.unique_indexes.len();
    let mut i: usize = 0;
    while i < n
        invariant
            n == model.unique_indexes@.len(),
            i <= n,
            forall|j: int| 0 <= j < i ==> model.unique_indexes@[j].name@ != name@,
            !(model.compound_id matches Option::Some(c) && c.name@ == name@),
        decreases n - i,
    {
        if str_eq(model.unique_indexes[i].name.as_str(), name) {
            proof { lemma_index_named(model.unique_indexes@, name@, i as int); }
            return Option::Some(copy_names(&model.unique_indexes[i].fields));
        }
        i = i + 1;
    }
    proof { lemma_index_named(model.unique_indexes@, name@, n as int); }
    Option::None
}

/// The message when a compound value lacks one of the fields of its criterion.
pub open spec fn missing_compound_message(field: Seq<char>) -> Seq<char> {
    "The compound value lacks the field "@ + field + "."@
}

/// The message when a compound value is no object.
pub open spec fn compound_object_message() -> Seq<char> {
    "A compound unique value is an object."@
}

/// The equalities for the first `k` fields of a compound criterion, each value taken out of
/// the entries in turn (the last entry taking its place), and the entries left.
pub open spec fn compound_state(fields: Seq<Seq<char>>, es: Seq<(String, ParsedInputValue)>, k: nat) -> Result<
    (Seq<FilterDesc>, Seq<(String, ParsedInputValue)>),
    ErrorDesc,
>
    decreases k,
{
    if k == 0 {
        Ok((Seq::empty(), es))
    } else {
        match compound_state(fields, es, (k - 1) as nat) {
            Err(e) => Err(e),
            Ok((ds, rest)) => match key_index(rest, fields[k - 1]) {
                Option::Some(i) => Ok((ds.push(FilterDesc::Equals(fields[k - 1], rest[i].1)), swap_removed(rest, i))),
                Option::None => Err(ErrorDesc::Input(missing_compound_message(fields[k - 1]))),
            },
        }
    }
}

/// The conjunction of the equalities that a compound value gives for the fields of its criterion.
pub open spec fn compound_spec(fields: Seq<Seq<char>>, v: ParsedInputValue) -> Result<FilterDesc, ErrorDesc> {
    match v {
        ParsedInputValue::Object(m) => match compound_state(fields, m.entries@, fields.len()) {
            Ok((ds, _)) => Ok(FilterDesc::Group(GroupKind::And, ds)),
            Err(e) => Err(e),
        },
        _ => Err(ErrorDesc::Input(compound_object_message())),
    }
}

/// Equality of the scalar field named with the value that the input converts to.
fn equals_filter(field: String, value: ParsedInputValue) -> (f: Filter)
    ensures
        described(f, FilterDesc::Equals(field@, value)),
{
    Filter::Scalar(
        ScalarFilter {
            field,
            condition: ScalarCondition::Equals(ConditionValue::Value(value.into_prisma_value())),
            mode: QueryMode::Default,
        },
    )
}

/// The conjunction of the equalities that a compound value gives for `fields`.
pub fn handle_compound_field(fields: Vec<String>, value: ParsedInputValue) -> (r: Result<Filter, QueryGraphBuilderError>)
    ensures
        extracted(r, compound_spec(names(fields@), value)),
{
    let ghost fs = names(fields@);
    match value {
        ParsedInputValue::Object(m) => {
            let ghost es = m.entries@;
            let mut map = m;
            let mut out: Vec<Filter> = Vec::new();
            let ghost mut ds: Seq<FilterDesc> = Seq::empty();
            let n = fields.len();
            let mut k: usize = 0;
            while k < n
                invariant
                    n == fields@.len(),
                    fs == names(fields@),
                    value matches ParsedInputValue::Object(mm) && mm.entries@ == es,
                    k <= n,
                    compound_state(fs, es, k as nat) == Ok::<
                        (Seq<FilterDesc>, Seq<(String, ParsedInputValue)>),
                        ErrorDesc,
                    >((ds, map.entries@)),
                    all_described(out@, ds),
                decreases n - k,
            {
                let ghost rest = map.entries@;
                match map.swap_remove(fields[k].as_str()) {
                    Option::Some(v) => {
                        let f = equals_filter(fields[k].clone(), v);
                        let ghost d = FilterDesc::Equals(fs[k as int], v);
                        let ghost before = out@;
                        let ghost gf = f;
                        out.push(f);
                        proof {
                            lemma_all_described_push(before, ds, gf, d);
                            ds = ds.push(d);
                        }
                    },
                    Option::None => {
                        assert(fs[k as int] == fields@[k as int]@);
                        assert(compound_state(fs, es, (k + 1) as nat) == Err::<
                            (Seq<FilterDesc>, Seq<(String, ParsedInputValue)>),
                            ErrorDesc,
                        >(ErrorDesc::Input(missing_compound_message(fs[k as int]))));
                        let mut msg = text("The compound value lacks the field ");
                        msg.append(fields[k].as_str());
                        msg.append(".");
                        assert(msg@ =~= missing_compound_message(fs[k as int]));
                        proof { lemma_compound_err(fs, es, (k + 1) as nat, fs.len(), ErrorDesc::Input(missing_compound_message(fs[k as int]))); }
                        return Err(QueryGraphBuilderError::InputError(msg));
                    },
                }
                k = k + 1;
            }
            Ok(Filter::And(out))
        },
        _ => Err(QueryGraphBuilderError::InputError(text("A compound unique value is an object."))),
    }
}

proof fn lemma_compound_err(fs: Seq<Seq<char>>, es: Seq<(String, ParsedInputValue)>, k: nat, k2: nat, e: ErrorDesc)
    requires
        compound_state(fs, es, k) == Err::<(Seq<FilterDesc>, Seq<(String, ParsedInputValue)>), ErrorDesc>(e),
        k <= k2,
    ensures
        compound_state(fs, es, k2) == Err::<(Seq<FilterDesc>, Seq<(String, ParsedInputValue)>), ErrorDesc>(e),
    decreases k2 - k,
{
    if k < k2 {
        lemma_compound_err(fs, es, k, (k2 - 1) as nat, e);
    }
}

/// The message when a key names neither a scalar field nor a compound criterion.
pub open spec fn unresolved_message(key: Seq<char>, model: Seq<char>) -> Seq<char> {
    "Unable to resolve field "@ + key + " to a field or set of scalar fields on model "@ + model
}

/// The filter of one entry of a unique selector: equality on a scalar field, or the
/// equalities of a compound criterion.
pub open spec fn unique_entry_spec(model: Container, key: Seq<char>, v: ParsedInputValue) -> Result<FilterDesc, ErrorDesc> {
    match field_index(model.fields@, key) {
        Option::Some(i) if model.fields@[i] is Scalar => Ok(FilterDesc::Equals(key, v)),
        _ => match compound_fields(model, key) {
            Option::Some(fs) => compound_spec(fs, v),
            Option::None => Err(ErrorDesc::Assertion(unresolved_message(key, model.name@))),
        },
    }
}

/// The filters of the first `k` entries of a unique selector.
pub open spec fn unique_entries_spec(model: Container, es: Seq<(String, ParsedInputValue)>, k: nat) -> Result<
    Seq<FilterDesc>,
    ErrorDesc,
>
    decreases k,
{
    if k == 0 {
        Ok(Seq::empty())
    } else {
        match unique_entries_spec(model, es, (k - 1) as nat) {
            Err(e) => Err(e),
            Ok(prev) => if k - 1 < es.len() {
                match unique_entry_spec(model, es[k - 1].0@, es[k - 1].1) {
                    Ok(d) => Ok(prev.push(d)),
                    Err(e) => Err(e),
                }
            } else {
                Err(ErrorDesc::Input(Seq::empty()))
            },
        }
    }
}

/// The filter of a unique selector: the conjunction of the filters of its entries.
pub open spec fn unique_spec(model: Container, m: ParsedInputMap) -> Result<FilterDesc, ErrorDesc> {
    match unique_entries_spec(model, m.entries@, m.entries@.len()) {
        Ok(ds) => Ok(FilterDesc::Group(GroupKind::And, ds)),
        Err(e) => Err(e),
    }
}

proof fn lemma_unique_err(model: Container, es: Seq<(String, ParsedInputValue)>, k: nat, k2: nat, e: ErrorDesc)
    requires
        unique_entries_spec(model, es, k) == Err::<Seq<FilterDesc>, ErrorDesc>(e),
        k <= k2,
    ensures
        unique_entries_spec(model, es, k2) == Err::<Seq<FilterDesc>, ErrorDesc>(e),
    decreases k2 - k,
{
    if k < k2 {
        lemma_unique_err(model, es, k, (k2 - 1) as nat, e);
    }
}

/// Extracts the filter of a unique selector, one that selects at most one record of
/// `model`: each key names a scalar field (tried first) or a compound criterion.
pub fn extract_unique_filter(value_map: ParsedInputMap, model: &Container) -> (r: Result<Filter, QueryGraphBuilderError>)
    ensures
        extracted(r, unique_spec(*model, value_map)),
{
    let ghost es = value_map.entries@;
    let mut out: Vec<Filter> = Vec::new();
    let ghost mut ds: Seq<FilterDesc> = Seq::empty();
    for e in it: value_map.entries.into_iter()
        invariant
            it.seq() == es,
            unique_entries_spec(*model, es, it.index() as nat) == Ok::<Seq<FilterDesc>, ErrorDesc>(ds),
            all_described(out@, ds),
    {
        let ghost j = it.index() as int;
        let (key, value) = e;
        let ghost gv = value;
        let is_scalar = match model.find_field(key.as_str()) {
            Option::Some(Field::Scalar(_)) => true,
            _ => false,
        };
        let r: Result<Filter, QueryGraphBuilderError> = if is_scalar {
            Ok(equals_filter(key.clone(), value))
        } else {
            match resolve_compound_field(key.as_str(), model) {
                Option::Some(fields) => handle_compound_field(fields, value),
                Option::None => {
                    let mut msg = text("Unable to resolve field ");
                    msg.append(key.as_str());
                    msg.append(" to a field or set of scalar fields on model ");
                    msg.append(model.name.as_str());
                    Err(QueryGraphBuilderError::AssertionError(msg))
                },
            }
        };
        assert(extracted(r, unique_entry_spec(*model, key@, gv)));
        match r {
            Ok(f) => {
                let ghost d = unique_entry_spec(*model, key@, gv)->Ok_0;
                let ghost before = out@;
                let ghost gf = f;
                out.push(f);
                proof {
                    lemma_all_described_push(before, ds, gf, d);
                    ds = ds.push(d);
                }
            },
            Err(x) => {
                proof {
                    let e2 = unique_entry_spec(*model, key@, gv)->Err_0;
                    lemma_unique_err(*model, es, (j + 1) as nat, es.len(), e2);
                }
                return Err(x);
            },
        }
    }
    Ok(Filter::And(out))
}

} // verus!
