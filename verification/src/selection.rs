use vstd::prelude::*;
use crate::builder::QuerySchema;
use crate::connect_nested::objects_expected_message;
use crate::delete::{arg_value, lookup};
use crate::document::{collect_selection_order, result_key, FieldPair, ParsedField};
use crate::error::QueryGraphBuilderError;
use crate::extract::{container_named, described, extract_filter, extract_spec, ErrorDesc, FilterDesc};
use crate::filter::Filter;
use crate::query_args::{
    args_described, args_error_is, extract_query_args, ArgsDesc, ArgsError, QueryArguments, RelationLoadStrategy,
    query_args_spec,
};
use crate::values::PrismaValue;
use crate::text::{str_eq, text};
use crate::query_graph::names;
use crate::relations::left_scalars;
use crate::schema::{spec_find_field, Container, ContainerKind, DataModel, Field, RelationField};
use crate::selection_spec::{
    composite_selection_spec, lemma_composite_selection_spec, lemma_pair_spec, lemma_pairs_spec,
    lemma_relation_selection_spec, pair_spec, pairs_spec, pairs_step, relation_selection_spec,
};
use crate::values::ParsedInputValue;

verus! {

/// A field that a read selects.
#[derive(Debug)]
pub enum SelectedField {
    Scalar(String),
    /// A composite field with the selection of its own fields.
    Composite { field: String, selections: Vec<SelectedField> },
    /// A relation field read with the records it relates to: the arguments of that read,
    /// the keys of its results and what it selects.
    Relation { field: String, args: QueryArguments, result_fields: Vec<String>, selections: Vec<SelectedField> },
    /// The number of records related through a relation field, among those a filter selects.
    RelationCount { field: String, filter: Option<Filter> },
}

/// A selected field, over plain values.
pub enum SelDesc {
    Scalar(Seq<char>),
    Composite(Seq<char>, Seq<SelDesc>),
    /// The field, the model it relates to, the arguments, the result keys, the selections.
    Relation(Seq<char>, Seq<char>, ArgsDesc, Seq<Seq<char>>, Seq<SelDesc>),
    RelationCount(Seq<char>, Option<FilterDesc>),
}

/// `s` is the selected field that `d` describes.
pub open spec fn sel_described(s: SelectedField, d: SelDesc) -> bool
    decreases d, 1int,
{
    match d {
        SelDesc::Scalar(n) => s matches SelectedField::Scalar(x) && x@ == n,
        SelDesc::Composite(n, ds) => s matches SelectedField::Composite { field, selections } && field@ == n
            && all_sel_described(selections@, ds),
        SelDesc::Relation(n, m, a, rfs, ds) => s matches SelectedField::Relation {
            field,
            args,
            result_fields,
            selections,
        } && field@ == n && args_described(args, m, a) && names(result_fields@) == rfs && all_sel_described(
            selections@,
            ds,
        ),
        SelDesc::RelationCount(n, fd) => s matches SelectedField::RelationCount { field, filter } && field@ == n
            && match fd {
            Option::None => filter is None,
            Option::Some(x) => filter matches Option::Some(f) && described(f, x),
        },
    }
}

/// Element by element, the selected fields of `ss` are what `ds` describes.
pub open spec fn all_sel_described(ss: Seq<SelectedField>, ds: Seq<SelDesc>) -> bool
    decreases ds, 0int,
{
    ss.len() == ds.len() && (ds.len() > 0 ==> all_sel_described(ss.drop_last(), ds.drop_last()) && sel_described(
        ss.last(),
        ds.last(),
    ))
}

/// The foreign key fields that a relation field of the parent holds, as selections.
pub open spec fn fk_selections(rf: RelationField) -> Seq<SelDesc> {
    left_scalars(rf).map_values(|n: Seq<char>| SelDesc::Scalar(n))
}

/// The keys of the results of a selection.
pub open spec fn result_keys(pairs: Seq<FieldPair>) -> Seq<Seq<char>> {
    pairs.map_values(|p: FieldPair| result_key(p.parsed_field))
}

/// The count of the records related through the relation field of `model` that `p` names,
/// among those that its `where` argument selects.
#[verifier::opaque]
pub open spec fn count_selection_spec(dm: DataModel, model: Container, p: ParsedField) -> Option<
    Result<SelDesc, ArgsError>,
> {
    match spec_find_field(model, p.name@) {
        Option::Some(Field::Relation(rf)) => match arg_value(p.arguments@, "where"@) {
            Option::None => Option::Some(Ok(SelDesc::RelationCount(p.name@, Option::None))),
            Option::Some(ParsedInputValue::Object(m)) => match container_named(dm, rf.related_model@) {
                Option::None => Option::None,
                Option::Some(rm) => match extract_spec(dm, rm, m) {
                    Ok(d) => Option::Some(Ok(SelDesc::RelationCount(p.name@, Option::Some(d)))),
                    Err(e) => Option::Some(Err(ArgsError::Plain(e))),
                },
            },
            Option::Some(_) => Option::Some(Err(ArgsError::Plain(ErrorDesc::Input(objects_expected_message())))),
        },
        _ => Option::None,
    }
}

/// The counts of the first `k` relations that `pairs` names.
#[verifier::opaque]
pub open spec fn count_list_spec(dm: DataModel, model: Container, pairs: Seq<FieldPair>, k: nat) -> Option<
    Result<Seq<SelDesc>, ArgsError>,
>
    decreases k,
{
    if k == 0 {
        Option::Some(Ok(Seq::empty()))
    } else {
        match count_list_spec(dm, model, pairs, (k - 1) as nat) {
            Option::None => Option::None,
            Option::Some(Err(e)) => Option::Some(Err(e)),
            Option::Some(Ok(ds)) => if k - 1 < pairs.len() {
                match count_selection_spec(dm, model, pairs[k - 1].parsed_field) {
                    Option::None => Option::None,
                    Option::Some(Err(e)) => Option::Some(Err(e)),
                    Option::Some(Ok(d)) => Option::Some(Ok(ds.push(d))),
                }
            } else {
                Option::None
            },
        }
    }
}

/// The counts of related records that the virtual field `_count` of a model selects.
pub open spec fn count_selections_spec(dm: DataModel, model: Container, pf: ParsedField) -> Option<
    Result<Seq<SelDesc>, ArgsError>,
> {
    match pf.nested_fields {
        Option::None => Option::None,
        Option::Some(o) => count_list_spec(dm, model, o.fields@, o.fields@.len()),
    }
}

/// `r` is the outcome that `s` describes.
pub open spec fn sels_result(r: Result<Vec<SelectedField>, QueryGraphBuilderError>, s: Result<Seq<SelDesc>, ArgsError>) -> bool {
    match s {
        Ok(ds) => r matches Ok(v) && all_sel_described(v@, ds),
        Err(e) => r matches Err(x) && args_error_is(x, e),
    }
}

/// `r` is the outcome that `s` describes.
pub open spec fn sel_result(r: Result<SelectedField, QueryGraphBuilderError>, s: Result<SelDesc, ArgsError>) -> bool {
    match s {
        Ok(d) => r matches Ok(v) && sel_described(v, d),
        Err(e) => r matches Err(x) && args_error_is(x, e),
    }
}

/// Whether relations are read by joins, so that their selections are collected.
pub open spec fn collects_relations(qs: QuerySchema) -> bool {
    qs.lateral_join && qs.relation_joins
}

proof fn lemma_all_sel_push(ss: Seq<SelectedField>, ds: Seq<SelDesc>, s: SelectedField, d: SelDesc)
    requires
        all_sel_described(ss, ds),
        sel_described(s, d),
    ensures
        all_sel_described(ss.push(s), ds.push(d)),
{
    assert(ss.push(s).drop_last() =~= ss);
    assert(ds.push(d).drop_last() =~= ds);
}

proof fn lemma_all_sel_append(a: Seq<SelectedField>, da: Seq<SelDesc>, b: Seq<SelectedField>, db: Seq<SelDesc>)
    requires
        all_sel_described(a, da),
        all_sel_described(b, db),
    ensures
        all_sel_described(a + b, da + db),
    decreases db.len(),
{
    if db.len() == 0 {
        assert(b.len() == 0);
        assert(a + b =~= a);
        assert(da + db =~= da);
    } else {
        lemma_all_sel_append(a, da, b.drop_last(), db.drop_last());
        assert((a + b).drop_last() =~= a + b.drop_last());
        assert((da + db).drop_last() =~= da + db.drop_last());
        assert((a + b).last() == b.last());
        assert((da + db).last() == db.last());
    }
}

proof fn lemma_pairs_none(dm: DataModel, parent: Container, pairs: Seq<FieldPair>, k: nat, n: nat, c: bool)
    requires
        k <= n <= pairs.len(),
        pairs_spec(dm, parent, pairs, k, c) is None,
    ensures
        pairs_spec(dm, parent, pairs, n, c) is None,
    decreases n - k,
{
    if k < n {
        lemma_pairs_spec(dm, parent, pairs, k, c);
        lemma_pairs_none(dm, parent, pairs, (k + 1) as nat, n, c);
    }
}

proof fn lemma_pairs_err(dm: DataModel, parent: Container, pairs: Seq<FieldPair>, k: nat, n: nat, c: bool)
    requires
        k <= n <= pairs.len(),
        pairs_spec(dm, parent, pairs, k, c) matches Option::Some(Err(_)),
    ensures
        pairs_spec(dm, parent, pairs, n, c) == pairs_spec(dm, parent, pairs, k, c),
    decreases n - k,
{
    if k < n {
        lemma_pairs_spec(dm, parent, pairs, k, c);
        lemma_pairs_err(dm, parent, pairs, (k + 1) as nat, n, c);
    }
}

proof fn lemma_count_step(dm: DataModel, model: Container, pairs: Seq<FieldPair>, k: nat, ds: Seq<SelDesc>)
    requires
        k < pairs.len(),
        count_list_spec(dm, model, pairs, k) == Option::Some(Ok::<Seq<SelDesc>, ArgsError>(ds)),
    ensures
        count_list_spec(dm, model, pairs, k + 1) == match count_selection_spec(dm, model, pairs[k as int].parsed_field) {
            Option::None => Option::None,
            Option::Some(Err(e)) => Option::Some(Err(e)),
            Option::Some(Ok(d)) => Option::Some(Ok(ds.push(d))),
        },
{
    reveal_with_fuel(count_list_spec, 2);
}

proof fn lemma_counts_none(dm: DataModel, model: Container, pairs: Seq<FieldPair>, k: nat, n: nat)
    requires
        k <= n,
        count_list_spec(dm, model, pairs, k) is None,
    ensures
        count_list_spec(dm, model, pairs, n) is None,
    decreases n - k,
{
    reveal_with_fuel(count_list_spec, 2);
    if k < n {
        lemma_counts_none(dm, model, pairs, (k + 1) as nat, n);
    }
}

proof fn lemma_counts_err(dm: DataModel, model: Container, pairs: Seq<FieldPair>, k: nat, n: nat)
    requires
        k <= n,
        count_list_spec(dm, model, pairs, k) matches Option::Some(Err(_)),
    ensures
        count_list_spec(dm, model, pairs, n) == count_list_spec(dm, model, pairs, k),
    decreases n - k,
{
    reveal_with_fuel(count_list_spec, 2);
    if k < n {
        lemma_counts_err(dm, model, pairs, (k + 1) as nat, n);
    }
}

/// The selections that `pairs` make on `parent`, in order.
pub fn pairs_to_selections(parent: &Container, pairs: Vec<FieldPair>, query_schema: &QuerySchema) -> (r: Result<
    Vec<SelectedField>,
    QueryGraphBuilderError,
>)
    requires
        pairs_spec(query_schema.data_model, *parent, pairs@, pairs@.len(), collects_relations(*query_schema)) is Some,
    ensures
        sels_result(
            r,
            pairs_spec(query_schema.data_model, *parent, pairs@, pairs@.len(), collects_relations(*query_schema))->Some_0,
        ),
    decreases pairs@, 1int, 0int,
{
    let ghost ps = pairs@;
    let ghost n = ps.len();
    let ghost c = collects_relations(*query_schema);
    let ghost dm = query_schema.data_model;
    let mut out: Vec<SelectedField> = Vec::new();
    let ghost mut ds: Seq<SelDesc> = Seq::empty();
    proof { lemma_pairs_spec(dm, *parent, ps, 0, c); }
    for pair in it: pairs.into_iter()
        invariant
            it.seq() == ps,
            n == ps.len(),
            pairs@ == ps,
            c == collects_relations(*query_schema),
            dm == query_schema.data_model,
            pairs_spec(dm, *parent, ps, n, c) is Some,
            pairs_spec(dm, *parent, ps, it.index() as nat, c) == Option::Some(Ok::<Seq<SelDesc>, ArgsError>(ds)),
            all_sel_described(out@, ds),
    {
        let ghost i = it.index() as int;
        let pf = pair.parsed_field;
        let ghost gpf = pf;
        assert(decreases_to!(ps => ps[i]));
        assert(decreases_to!(ps[i] => ps[i].parsed_field));
        assert(decreases_to!(pairs@ => pf));
        proof {
            lemma_pairs_spec(dm, *parent, ps, i as nat, c);
            if pair_spec(dm, *parent, gpf, c) is None {
                lemma_pairs_none(dm, *parent, ps, (i + 1) as nat, n, c);
            }
        }
        match pair_to_selections(parent, pf, query_schema) {
            Ok(more) => {
                let ghost before = out@;
                let ghost mv = more@;
                let mut more = more;
                out.append(&mut more);
                proof {
                    let md = pair_spec(dm, *parent, gpf, c)->Some_0->Ok_0;
                    lemma_all_sel_append(before, ds, mv, md);
                    assert(out@ =~= before + mv);
                    ds = ds + md;
                }
            },
            Err(x) => {
                proof { lemma_pairs_err(dm, *parent, ps, (i + 1) as nat, n, c); }
                return Err(x);
            },
        }
    }
    Ok(out)
}

/// The selections that one field `pf` makes on `parent`.
fn pair_to_selections(parent: &Container, pf: ParsedField, query_schema: &QuerySchema) -> (r: Result<
    Vec<SelectedField>,
    QueryGraphBuilderError,
>)
    requires
        pair_spec(query_schema.data_model, *parent, pf, collects_relations(*query_schema)) is Some,
    ensures
        sels_result(r, pair_spec(query_schema.data_model, *parent, pf, collects_relations(*query_schema))->Some_0),
    decreases pf, 2int, 0int,
{
    let collect = query_schema.lateral_join && query_schema.relation_joins;
    proof { lemma_pair_spec(query_schema.data_model, *parent, pf, collect); }
    match parent.find_field(pf.name.as_str()) {
        Option::Some(Field::Relation(rf)) => {
            let mut out: Vec<SelectedField> = Vec::new();
            if rf.inlined_in_parent {
                let n = rf.linking_fields.len();
                let mut i: usize = 0;
                while i < n
                    invariant
                        n == rf.linking_fields@.len(),
                        rf.inlined_in_parent,
                        i <= n,
                        all_sel_described(out@, fk_selections(*rf).take(i as int)),
                    decreases n - i,
                {
                    let ghost before = out@;
                    out.push(SelectedField::Scalar(rf.linking_fields[i].clone()));
                    proof {
                        let fk = fk_selections(*rf);
                        assert(fk.take(i + 1) =~= fk.take(i as int).push(fk[i as int]));
                        lemma_all_sel_push(before, fk.take(i as int), out@[i as int], fk[i as int]);
                    }
                    i = i + 1;
                }
                assert(fk_selections(*rf).take(n as int) =~= fk_selections(*rf));
            } else {
                assert(fk_selections(*rf) =~= Seq::<SelDesc>::empty());
            }
            if collect {
                let ghost before = out@;
                match extract_relation_selection(pf, rf.related_model.as_str(), query_schema) {
                    Ok(s) => {
                        let ghost gs = s;
                        out.push(s);
                        proof {
                            let d = relation_selection_spec(
                                query_schema.data_model,
                                pf,
                                rf.related_model@,
                                collects_relations(*query_schema),
                            )->Some_0->Ok_0;
                            lemma_all_sel_push(before, fk_selections(*rf), gs, d);
                        }
                    },
                    Err(x) => return Err(x),
                }
            }
            Ok(out)
        },
        Option::Some(Field::Scalar(_)) => {
            let mut out: Vec<SelectedField> = Vec::new();
            let ghost name = pf.name@;
            out.push(SelectedField::Scalar(pf.name));
            proof { lemma_all_sel_push(Seq::empty(), Seq::empty(), out@[0], SelDesc::Scalar(name)); assert(out@ =~= seq![out@[0]]); }
            Ok(out)
        },
        Option::Some(Field::Composite(cf)) => match extract_composite_selection(pf, cf.typ.as_str(), query_schema) {
            Ok(s) => {
                let mut out: Vec<SelectedField> = Vec::new();
                let ghost gs = s;
                out.push(s);
                proof {
                    let d = composite_selection_spec(
                        query_schema.data_model,
                        pf,
                        cf.typ@,
                        collects_relations(*query_schema),
                    )->Some_0->Ok_0;
                    lemma_all_sel_push(Seq::empty(), Seq::empty(), gs, d);
                    assert(out@ =~= seq![gs]);
                }
                Ok(out)
            },
            Err(x) => Err(x),
        },
        Option::None => extract_relation_count_selections(pf, parent, &query_schema.data_model),
    }
}

/// The selection of the relation field `pf` to the model named `related`: the arguments of
/// the read of the related records, the keys of its results and what it selects.
pub fn extract_relation_selection(pf: ParsedField, related: &str, query_schema: &QuerySchema) -> (r: Result<
    SelectedField,
    QueryGraphBuilderError,
>)
    requires
        relation_selection_spec(query_schema.data_model, pf, related@, collects_relations(*query_schema)) is Some,
    ensures
        sel_result(
            r,
            relation_selection_spec(query_schema.data_model, pf, related@, collects_relations(*query_schema))->Some_0,
        ),
    decreases pf, 1int, 0int,
{
    let ghost gpf = pf;
    proof { lemma_relation_selection_spec(query_schema.data_model, pf, related@, collects_relations(*query_schema)); }
    let object = match pf.nested_fields {
        Option::Some(o) => o,
        Option::None => return Err(QueryGraphBuilderError::AssertionError(String::new())),
    };
    let related_model = query_schema.data_model.find_container(related).unwrap();
    proof { crate::extract::lemma_container_named(query_schema.data_model, related@); }
    assert(container_named(query_schema.data_model, related@) == Option::Some(*related_model));
    let args = match extract_query_args(pf.arguments, related_model, &query_schema.data_model) {
        Ok(a) => a,
        Err(x) => return Err(x),
    };
    let result_fields = collect_selection_order(&object.fields);
    proof {
        assert(names(result_fields@) =~= result_keys(object.fields@));
        assert(decreases_to!(gpf => gpf.nested_fields));
        assert(decreases_to!(gpf.nested_fields => object));
        assert(decreases_to!(object => object.fields));
        assert(decreases_to!(object.fields => object.fields@));
    }
    let selections = match pairs_to_selections(related_model, object.fields, query_schema) {
        Ok(s) => s,
        Err(x) => return Err(x),
    };
    Ok(SelectedField::Relation { field: pf.name, args, result_fields, selections })
}

/// The selection of the composite field `pf` of the composite type named `typ`.
pub fn extract_composite_selection(pf: ParsedField, typ: &str, query_schema: &QuerySchema) -> (r: Result<
    SelectedField,
    QueryGraphBuilderError,
>)
    requires
        composite_selection_spec(query_schema.data_model, pf, typ@, collects_relations(*query_schema)) is Some,
    ensures
        sel_result(r, composite_selection_spec(query_schema.data_model, pf, typ@, collects_relations(*query_schema))->Some_0),
    decreases pf, 1int, 0int,
{
    let ghost gpf = pf;
    proof { lemma_composite_selection_spec(query_schema.data_model, pf, typ@, collects_relations(*query_schema)); }
    let object = match pf.nested_fields {
        Option::Some(o) => o,
        Option::None => return Err(QueryGraphBuilderError::AssertionError(String::new())),
    };
    let t = query_schema.data_model.find_container(typ).unwrap();
    proof {
        assert(decreases_to!(gpf => gpf.nested_fields));
        assert(decreases_to!(gpf.nested_fields => object));
        assert(decreases_to!(object => object.fields));
        assert(decreases_to!(object.fields => object.fields@));
    }
    let selections = match pairs_to_selections(t, object.fields, query_schema) {
        Ok(s) => s,
        Err(x) => return Err(x),
    };
    Ok(SelectedField::Composite { field: pf.name, selections })
}

fn count_selection(model: &Container, p: ParsedField, dm: &DataModel) -> (r: Result<SelectedField, QueryGraphBuilderError>)
    requires
        count_selection_spec(*dm, *model, p) is Some,
    ensures
        sel_result(r, count_selection_spec(*dm, *model, p)->Some_0),
{
    proof { reveal(count_selection_spec); }
    let related = match model.find_field(p.name.as_str()) {
        Option::Some(Field::Relation(rf)) => rf.related_model.as_str(),
        _ => return Err(QueryGraphBuilderError::AssertionError(String::new())),
    };
    let mut arguments = p.arguments;
    proof { reveal_strlit("where"); }
    match lookup(&mut arguments, "where") {
        Option::None => Ok(SelectedField::RelationCount { field: p.name, filter: Option::None }),
        Option::Some(ParsedInputValue::Object(m)) => {
            let rm = dm.find_container(related).unwrap();
            match extract_filter(m, rm, dm) {
                Ok(f) => Ok(SelectedField::RelationCount { field: p.name, filter: Option::Some(f) }),
                Err(x) => Err(x),
            }
        },
        Option::Some(_) => Err(QueryGraphBuilderError::InputError(text("Expected an input object."))),
    }
}

/// The counts of related records that the virtual field `_count` of `model` selects: for each
/// relation field it nests, the count of the related records that its `where` selects.
pub fn extract_relation_count_selections(pf: ParsedField, model: &Container, dm: &DataModel) -> (r: Result<
    Vec<SelectedField>,
    QueryGraphBuilderError,
>)
    requires
        count_selections_spec(*dm, *model, pf) is Some,
    ensures
        sels_result(r, count_selections_spec(*dm, *model, pf)->Some_0),
{
    let object = match pf.nested_fields {
        Option::Some(o) => o,
        Option::None => return Err(QueryGraphBuilderError::AssertionError(String::new())),
    };
    let ghost ps = object.fields@;
    let ghost n = ps.len();
    let mut out: Vec<SelectedField> = Vec::new();
    let ghost mut ds: Seq<SelDesc> = Seq::empty();
    proof { reveal_with_fuel(count_list_spec, 1); }
    for pair in it: object.fields.into_iter()
        invariant
            it.seq() == ps,
            n == ps.len(),
            count_list_spec(*dm, *model, ps, n) is Some,
            count_selections_spec(*dm, *model, pf) == count_list_spec(*dm, *model, ps, n),
            count_list_spec(*dm, *model, ps, it.index() as nat) == Option::Some(Ok::<Seq<SelDesc>, ArgsError>(ds)),
            all_sel_described(out@, ds),
    {
        let ghost i = it.index() as int;
        let p = pair.parsed_field;
        let ghost gp = p;
        proof {
            lemma_count_step(*dm, *model, ps, i as nat, ds);
            if count_selection_spec(*dm, *model, gp) is None {
                lemma_counts_none(*dm, *model, ps, (i + 1) as nat, n);
            }
        }
        match count_selection(model, p, dm) {
            Ok(s) => {
                let ghost before = out@;
                let ghost gs = s;
                out.push(s);
                proof {
                    let d = count_selection_spec(*dm, *model, gp)->Some_0->Ok_0;
                    lemma_all_sel_push(before, ds, gs, d);
                    ds = ds.push(d);
                }
            },
            Err(x) => {
                proof { lemma_counts_err(*dm, *model, ps, (i + 1) as nat, n); }
                return Err(x);
            },
        }
    }
    Ok(out)
}

/// A nested read pages from a cursor or keeps distinct records only.
pub open spec fn pages_or_distinct(a: QueryArguments) -> bool {
    a.cursor is Some || a.distinct is Some
}

/// How the relations of a read are loaded: by joins where the connector and the schema allow
/// them, neither the read nor a nested read uses a cursor or `distinct`, and the query does
/// not ask for separate queries; by separate queries otherwise.
pub fn get_relation_load_strategy(
    requested_strategy: Option<RelationLoadStrategy>,
    cursor: &Option<Vec<(String, PrismaValue)>>,
    distinct: &Option<Vec<String>>,
    nested_queries: &Vec<QueryArguments>,
    query_schema: &QuerySchema,
) -> (r: RelationLoadStrategy)
    ensures
        r == (if query_schema.relation_joins && query_schema.lateral_join && cursor is None && distinct is None
            && !(exists|i: int| 0 <= i < nested_queries@.len() && pages_or_distinct(#[trigger] nested_queries@[i]))
            && requested_strategy != Option::Some(RelationLoadStrategy::Query) {
            RelationLoadStrategy::Join
        } else {
            RelationLoadStrategy::Query
        }),
{
    let n = nested_queries.len();
    let mut any = false;
    let mut i: usize = 0;
    while i < n
        invariant
            n == nested_queries@.len(),
            i <= n,
            any == exists|j: int| 0 <= j < i && pages_or_distinct(#[trigger] nested_queries@[j]),
        decreases n - i,
    {
        let q = &nested_queries[i];
        if q.cursor.is_some() || q.distinct.is_some() {
            any = true;
        }
        proof {
            if !any {
                assert forall|j: int| 0 <= j < i + 1 implies !pages_or_distinct(#[trigger] nested_queries@[j]) by {
                    if j < i {
                        assert(!pages_or_distinct(nested_queries@[j]));
                    }
                }
            } else {
                if pages_or_distinct(nested_queries@[i as int]) {
                    assert(exists|j: int| 0 <= j < i + 1 && pages_or_distinct(#[trigger] nested_queries@[j]));
                }
            }
        }
        i = i + 1;
    }
    let requested_query = match requested_strategy {
        Option::Some(RelationLoadStrategy::Query) => true,
        _ => false,
    };
    if query_schema.relation_joins && query_schema.lateral_join && cursor.is_none() && distinct.is_none() && !any
        && !requested_query {
        RelationLoadStrategy::Join
    } else {
        RelationLoadStrategy::Query
    }
}

} // verus!
