use vstd::prelude::*;
use crate::document::ParsedField;
use crate::document::FieldPair;
use crate::extract::container_named;
use crate::query_args::{query_args_spec, ArgsError};
use crate::schema::{spec_find_field, Container, ContainerKind, DataModel, Field};
use crate::selection::{count_selections_spec, fk_selections, result_keys, SelDesc};

verus! {

/// The selections that the first `k` fields of `pairs` make on `parent`, in order; the
/// first failing field decides the error. `None` where a field is of a shape that the
/// validation of the query document rules out.
pub closed spec fn pairs_spec(dm: DataModel, parent: Container, pairs: Seq<FieldPair>, k: nat, collect: bool) -> Option<
    Result<Seq<SelDesc>, ArgsError>,
>
    decreases pairs, 1int, k,
{
    if k == 0 {
        Option::Some(Ok(Seq::empty()))
    } else {
        match pairs_spec(dm, parent, pairs, (k - 1) as nat, collect) {
            Option::None => Option::None,
            Option::Some(Err(e)) => Option::Some(Err(e)),
            Option::Some(Ok(ds)) => if k - 1 < pairs.len() {
                match pair_spec(dm, parent, pairs[k - 1].parsed_field, collect) {
                    Option::None => Option::None,
                    Option::Some(Err(e)) => Option::Some(Err(e)),
                    Option::Some(Ok(more)) => Option::Some(Ok(ds + more)),
                }
            } else {
                Option::None
            },
        }
    }
}

/// The selections that the field `pf` makes on `parent`: a scalar field selects itself; a
/// relation field selects the foreign key fields the parent holds, and, where relations
/// are read by joins (`collect`), the relation with its own arguments and selection; a
/// composite field selects its type's fields; `_count` on a model counts related records.
pub closed spec fn pair_spec(dm: DataModel, parent: Container, pf: ParsedField, collect: bool) -> Option<
    Result<Seq<SelDesc>, ArgsError>,
>
    decreases pf, 2int, 0int,
{
    match spec_find_field(parent, pf.name@) {
        Option::Some(Field::Relation(rf)) => if collect {
            match relation_selection_spec(dm, pf, rf.related_model@, collect) {
                Option::None => Option::None,
                Option::Some(Err(e)) => Option::Some(Err(e)),
                Option::Some(Ok(d)) => Option::Some(Ok(fk_selections(rf).push(d))),
            }
        } else {
            Option::Some(Ok(fk_selections(rf)))
        },
        Option::Some(Field::Scalar(_)) => Option::Some(Ok(seq![SelDesc::Scalar(pf.name@)])),
        Option::Some(Field::Composite(cf)) => match composite_selection_spec(dm, pf, cf.typ@, collect) {
            Option::None => Option::None,
            Option::Some(Err(e)) => Option::Some(Err(e)),
            Option::Some(Ok(d)) => Option::Some(Ok(seq![d])),
        },
        Option::None => if pf.name@ == "_count"@ && parent.kind == ContainerKind::Model {
            count_selections_spec(dm, parent, pf)
        } else {
            Option::None
        },
    }
}

/// The selection of a relation field `pf` to the model `related`.
pub closed spec fn relation_selection_spec(dm: DataModel, pf: ParsedField, related: Seq<char>, collect: bool) -> Option<
    Result<SelDesc, ArgsError>,
>
    decreases pf, 1int, 0int,
{
    match pf.nested_fields {
        Option::None => Option::None,
        Option::Some(o) => match container_named(dm, related) {
            Option::None => Option::None,
            Option::Some(rm) => match query_args_spec(dm, rm, pf.arguments@) {
                Option::None => Option::None,
                Option::Some(Err(e)) => Option::Some(Err(e)),
                Option::Some(Ok(a)) => match pairs_spec(dm, rm, o.fields@, o.fields@.len(), collect) {
                    Option::None => Option::None,
                    Option::Some(Err(e)) => Option::Some(Err(e)),
                    Option::Some(Ok(ds)) => Option::Some(
                        Ok(SelDesc::Relation(pf.name@, related, a, result_keys(o.fields@), ds)),
                    ),
                },
            },
        },
    }
}

/// The selection of a composite field `pf` of the composite type `typ`.
pub closed spec fn composite_selection_spec(dm: DataModel, pf: ParsedField, typ: Seq<char>, collect: bool) -> Option<
    Result<SelDesc, ArgsError>,
>
    decreases pf, 1int, 0int,
{
    match pf.nested_fields {
        Option::None => Option::None,
        Option::Some(o) => match container_named(dm, typ) {
            Option::None => Option::None,
            Option::Some(t) => match pairs_spec(dm, t, o.fields@, o.fields@.len(), collect) {
                Option::None => Option::None,
                Option::Some(Err(e)) => Option::Some(Err(e)),
                Option::Some(Ok(ds)) => Option::Some(Ok(SelDesc::Composite(pf.name@, ds))),
            },
        },
    }
}

/// The selections of the first field of `pairs` and the next ones.
pub open spec fn pairs_step(
    prev: Option<Result<Seq<SelDesc>, ArgsError>>,
    next: Option<Result<Seq<SelDesc>, ArgsError>>,
) -> Option<Result<Seq<SelDesc>, ArgsError>> {
    match prev {
        Option::None => Option::None,
        Option::Some(Err(e)) => Option::Some(Err(e)),
        Option::Some(Ok(ds)) => match next {
            Option::None => Option::None,
            Option::Some(Err(e)) => Option::Some(Err(e)),
            Option::Some(Ok(more)) => Option::Some(Ok(ds + more)),
        },
    }
}

/// No field selects nothing; each further field adds its selections.
pub proof fn lemma_pairs_spec(dm: DataModel, parent: Container, pairs: Seq<FieldPair>, k: nat, c: bool)
    ensures
        pairs_spec(dm, parent, pairs, 0, c) == Option::Some(Ok::<Seq<SelDesc>, ArgsError>(Seq::empty())),
        k < pairs.len() ==> pairs_spec(dm, parent, pairs, k + 1, c) == pairs_step(
            pairs_spec(dm, parent, pairs, k, c),
            pair_spec(dm, parent, pairs[k as int].parsed_field, c),
        ),
{
}

/// What one field selects.
pub proof fn lemma_pair_spec(dm: DataModel, parent: Container, pf: ParsedField, collect: bool)
    ensures
        pair_spec(dm, parent, pf, collect) == match spec_find_field(parent, pf.name@) {
            Option::Some(Field::Relation(rf)) => if collect {
                match relation_selection_spec(dm, pf, rf.related_model@, collect) {
                    Option::None => Option::None,
                    Option::Some(Err(e)) => Option::Some(Err(e)),
                    Option::Some(Ok(d)) => Option::Some(Ok(fk_selections(rf).push(d))),
                }
            } else {
                Option::Some(Ok(fk_selections(rf)))
            },
            Option::Some(Field::Scalar(_)) => Option::Some(Ok(seq![SelDesc::Scalar(pf.name@)])),
            Option::Some(Field::Composite(cf)) => match composite_selection_spec(dm, pf, cf.typ@, collect) {
                Option::None => Option::None,
                Option::Some(Err(e)) => Option::Some(Err(e)),
                Option::Some(Ok(d)) => Option::Some(Ok(seq![d])),
            },
            Option::None => if pf.name@ == "_count"@ && parent.kind == ContainerKind::Model {
                count_selections_spec(dm, parent, pf)
            } else {
                Option::None
            },
        },
{
}

/// What a relation field selects.
pub proof fn lemma_relation_selection_spec(dm: DataModel, pf: ParsedField, related: Seq<char>, collect: bool)
    ensures
        relation_selection_spec(dm, pf, related, collect) == match pf.nested_fields {
            Option::None => Option::None,
            Option::Some(o) => match container_named(dm, related) {
                Option::None => Option::None,
                Option::Some(rm) => match query_args_spec(dm, rm, pf.arguments@) {
                    Option::None => Option::None,
                    Option::Some(Err(e)) => Option::Some(Err(e)),
                    Option::Some(Ok(a)) => match pairs_spec(dm, rm, o.fields@, o.fields@.len(), collect) {
                        Option::None => Option::None,
                        Option::Some(Err(e)) => Option::Some(Err(e)),
                        Option::Some(Ok(ds)) => Option::Some(
                            Ok(SelDesc::Relation(pf.name@, related, a, result_keys(o.fields@), ds)),
                        ),
                    },
                },
            },
        },
{
}

/// What a composite field selects.
pub proof fn lemma_composite_selection_spec(dm: DataModel, pf: ParsedField, typ: Seq<char>, collect: bool)
    ensures
        composite_selection_spec(dm, pf, typ, collect) == match pf.nested_fields {
            Option::None => Option::None,
            Option::Some(o) => match container_named(dm, typ) {
                Option::None => Option::None,
                Option::Some(t) => match pairs_spec(dm, t, o.fields@, o.fields@.len(), collect) {
                    Option::None => Option::None,
                    Option::Some(Err(e)) => Option::Some(Err(e)),
                    Option::Some(Ok(ds)) => Option::Some(Ok(SelDesc::Composite(pf.name@, ds))),
                },
            },
        },
{
}

} // verus!
