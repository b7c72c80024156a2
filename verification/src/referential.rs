use vstd::prelude::*;
use crate::query_graph::{names, WriteArgs, WriteOperation};
use crate::relations::{nullable_fks, nullable_in, overlapping, pointing_to_model, spec_back_field};
use crate::schema::{DataModel, ReferentialAction, RelationField};

verus! {

/// The names of the fields that `args` writes, in order.
pub open spec fn written_fields(args: WriteArgs) -> Seq<Seq<char>> {
    fields_of(args.args@)
}

/// The names of the fields of a list of writes, in order.
pub open spec fn fields_of(s: Seq<(String, WriteOperation)>) -> Seq<Seq<char>> {
    s.map_values(|a: (String, WriteOperation)| a.0@)
}

/// The position of the first write of the field `name`.
pub open spec fn write_index(args: Seq<(String, WriteOperation)>, name: Seq<char>) -> Option<int> {
    if exists|i: int| 0 <= i < args.len() && args[i].0@ == name {
        Option::Some(
            choose|i: int| 0 <= i < args.len() && args[i].0@ == name && forall|j: int| 0 <= j < i ==> args[j].0@ != name,
        )
    } else {
        Option::None
    }
}

/// Writes of the fields `keys` write one of `fields`.
pub open spec fn writes_any(keys: Seq<Seq<char>>, fields: Seq<Seq<char>>) -> bool {
    exists|i: int| 0 <= i < fields.len() && keys.contains(#[trigger] fields[i])
}

/// The fields of the related model that the foreign key of `rf` refers to.
pub open spec fn parent_pks(rf: RelationField) -> Seq<Seq<char>> {
    names(rf.related_linking_fields@)
}

/// The fields of the model of `rf` that refer to the related model.
pub open spec fn child_fks(rf: RelationField) -> Seq<Seq<char>> {
    names(rf.linking_fields@)
}

/// How many pairs of referenced and referring fields `rf` has.
pub open spec fn pair_count(rf: RelationField) -> nat {
    if parent_pks(rf).len() <= child_fks(rf).len() {
        parent_pks(rf).len()
    } else {
        child_fks(rf).len()
    }
}

/// Of the first `k` pairs of `pks` and `fks`, the referring fields whose referenced field
/// `keys` writes.
pub open spec fn cascade_keys(keys: Seq<Seq<char>>, pks: Seq<Seq<char>>, fks: Seq<Seq<char>>, k: nat) -> Seq<Seq<char>>
    decreases k,
{
    if k == 0 {
        Seq::empty()
    } else {
        let rest = cascade_keys(keys, pks, fks, (k - 1) as nat);
        if keys.contains(pks[k - 1]) {
            rest.push(fks[k - 1])
        } else {
            rest
        }
    }
}

/// Of the first `k` pairs of `pks` and `fks`, the writes of `args` to the referenced fields
/// that it writes.
pub open spec fn cascade_ops(
    args: Seq<(String, WriteOperation)>,
    pks: Seq<Seq<char>>,
    k: nat,
) -> Seq<WriteOperation>
    decreases k,
{
    if k == 0 {
        Seq::empty()
    } else {
        let rest = cascade_ops(args, pks, (k - 1) as nat);
        match write_index(args, pks[k - 1]) {
            Option::Some(i) => rest.push(args[i].1),
            Option::None => rest,
        }
    }
}

/// The fields of the records that refer through `rf` that an update writing `keys` to the
/// referenced records carries over.
pub open spec fn cascaded(keys: Seq<Seq<char>>, rf: RelationField) -> Seq<Seq<char>> {
    cascade_keys(keys, parent_pks(rf), child_fks(rf), pair_count(rf))
}

/// The fields of the model of `rf` that an update emulation sets to null.
pub open spec fn update_nulls(dm: DataModel, rf: RelationField) -> Seq<Seq<char>> {
    nullable_in(dm, rf.model@, child_fks(rf))
}

/// The emulation of the update action of `rf`, for an update that writes `keys`, ends within
/// `n` levels and meets no action that cannot be emulated.
pub closed spec fn update_bounded(dm: DataModel, rf: RelationField, keys: Seq<Seq<char>>, n: nat) -> bool
    decreases n, 1int,
{
    &&& spec_back_field(dm, rf) is Some
    &&& match rf.relation.on_update {
        ReferentialAction::Restrict | ReferentialAction::NoAction => true,
        ReferentialAction::SetNull => set_null_bounded(dm, rf, keys, n),
        ReferentialAction::Cascade => cascade_bounded(dm, rf, keys, n),
        ReferentialAction::SetDefault => false,
    }
}

/// The set-null emulation of `rf` for an update that writes `keys` ends within `n` levels.
pub closed spec fn set_null_bounded(dm: DataModel, rf: RelationField, keys: Seq<Seq<char>>, n: nat) -> bool
    decreases n, 0int,
{
    writes_any(keys, parent_pks(rf)) ==> if n == 0 {
        false
    } else {
        forall|k: int|
            0 <= k < overlapping(dm, rf).len() ==> update_bounded(
                dm,
                #[trigger] overlapping(dm, rf)[k],
                update_nulls(dm, rf),
                (n - 1) as nat,
            )
    }
}

/// The cascade emulation of `rf` for an update that writes `keys` ends within `n` levels.
pub closed spec fn cascade_bounded(dm: DataModel, rf: RelationField, keys: Seq<Seq<char>>, n: nat) -> bool
    decreases n, 0int,
{
    cascaded(keys, rf).len() > 0 ==> if n == 0 {
        false
    } else {
        model_update_bounded(dm, rf.model@, cascaded(keys, rf), (n - 1) as nat)
    }
}

/// The emulation of the update actions of the relations to the model `m`, for an update that
/// writes `keys`, ends within `n` levels.
pub closed spec fn model_update_bounded(dm: DataModel, m: Seq<char>, keys: Seq<Seq<char>>, n: nat) -> bool
    decreases n, 2int,
{
    forall|k: int|
        0 <= k < pointing_to_model(dm.containers@, m).len() ==> update_bounded(
            dm,
            #[trigger] pointing_to_model(dm.containers@, m)[k],
            keys,
            n,
        )
}

/// The emulation of the delete actions of the relations to the model `m` ends within `n`
/// levels and meets no action that cannot be emulated.
pub closed spec fn delete_bounded(dm: DataModel, m: Seq<char>, n: nat) -> bool
    decreases n, 1int,
{
    forall|k: int|
        0 <= k < pointing_to_model(dm.containers@, m).len() ==> delete_field_bounded(
            dm,
            #[trigger] pointing_to_model(dm.containers@, m)[k],
            n,
        )
}

/// The emulation of the delete action of `rf` ends within `n` levels.
pub closed spec fn delete_field_bounded(dm: DataModel, rf: RelationField, n: nat) -> bool
    decreases n, 0int,
{
    &&& spec_back_field(dm, rf) is Some
    &&& match rf.relation.on_delete {
        ReferentialAction::Restrict | ReferentialAction::NoAction => true,
        ReferentialAction::Cascade => if n == 0 {
            false
        } else {
            delete_bounded(dm, rf.model@, (n - 1) as nat)
        },
        ReferentialAction::SetNull => nullable_fks(dm, rf).len() > 0 ==> if n == 0 {
            false
        } else {
            forall|k: int|
                0 <= k < overlapping(dm, rf).len() ==> update_bounded(
                    dm,
                    #[trigger] overlapping(dm, rf)[k],
                    nullable_fks(dm, rf),
                    (n - 1) as nat,
                )
        },
        ReferentialAction::SetDefault => false,
    }
}

/// The emulations of the delete actions of the relations to the model `m` end: within some
/// number of levels.
pub open spec fn delete_emulation_ends(dm: DataModel, m: Seq<char>) -> bool {
    exists|n: nat| delete_bounded(dm, m, n)
}

/// The emulations of the update actions of the relations to the model `m`, for an update that
/// writes the fields `keys`, end: within some number of levels.
pub open spec fn update_emulation_ends(dm: DataModel, m: Seq<char>, keys: Seq<Seq<char>>) -> bool {
    exists|n: nat| model_update_bounded(dm, m, keys, n)
}

/// What an update emulation within `n` levels holds of the action of `rf`.
pub proof fn lemma_update_bounded(dm: DataModel, rf: RelationField, keys: Seq<Seq<char>>, n: nat)
    requires
        update_bounded(dm, rf, keys, n),
    ensures
        spec_back_field(dm, rf) is Some,
        match rf.relation.on_update {
            ReferentialAction::Restrict | ReferentialAction::NoAction => true,
            ReferentialAction::SetNull => set_null_bounded(dm, rf, keys, n),
            ReferentialAction::Cascade => cascade_bounded(dm, rf, keys, n),
            ReferentialAction::SetDefault => false,
        },
{
}

/// What a set-null emulation within `n` levels holds of the relations that it reaches.
pub proof fn lemma_set_null_bounded(dm: DataModel, rf: RelationField, keys: Seq<Seq<char>>, n: nat)
    requires
        set_null_bounded(dm, rf, keys, n),
        writes_any(keys, parent_pks(rf)),
    ensures
        n > 0,
        forall|k: int|
            0 <= k < overlapping(dm, rf).len() ==> update_bounded(
                dm,
                #[trigger] overlapping(dm, rf)[k],
                update_nulls(dm, rf),
                (n - 1) as nat,
            ),
{
}

/// What a cascade emulation within `n` levels holds of the relations that it reaches.
pub proof fn lemma_cascade_bounded(dm: DataModel, rf: RelationField, keys: Seq<Seq<char>>, n: nat)
    requires
        cascade_bounded(dm, rf, keys, n),
        cascaded(keys, rf).len() > 0,
    ensures
        n > 0,
        model_update_bounded(dm, rf.model@, cascaded(keys, rf), (n - 1) as nat),
{
}

/// What the update emulation of the relations to a model holds of each of them.
pub proof fn lemma_model_update_bounded(dm: DataModel, m: Seq<char>, keys: Seq<Seq<char>>, n: nat)
    requires
        model_update_bounded(dm, m, keys, n),
    ensures
        forall|k: int|
            0 <= k < pointing_to_model(dm.containers@, m).len() ==> update_bounded(
                dm,
                #[trigger] pointing_to_model(dm.containers@, m)[k],
                keys,
                n,
            ),
{
}

/// What the delete emulation of the relations to a model holds of each of them.
pub proof fn lemma_delete_bounded(dm: DataModel, m: Seq<char>, n: nat)
    requires
        delete_bounded(dm, m, n),
    ensures
        forall|k: int|
            0 <= k < pointing_to_model(dm.containers@, m).len() ==> delete_field_bounded(
                dm,
                #[trigger] pointing_to_model(dm.containers@, m)[k],
                n,
            ),
{
}

/// What a delete emulation within `n` levels holds of the action of `rf`.
pub proof fn lemma_delete_field_bounded(dm: DataModel, rf: RelationField, n: nat)
    requires
        delete_field_bounded(dm, rf, n),
    ensures
        spec_back_field(dm, rf) is Some,
        match rf.relation.on_delete {
            ReferentialAction::Restrict | ReferentialAction::NoAction => true,
            ReferentialAction::Cascade => n > 0 && delete_bounded(dm, rf.model@, (n - 1) as nat),
            ReferentialAction::SetNull => nullable_fks(dm, rf).len() > 0 ==> n > 0 && forall|k: int|
                0 <= k < overlapping(dm, rf).len() ==> update_bounded(
                    dm,
                    #[trigger] overlapping(dm, rf)[k],
                    nullable_fks(dm, rf),
                    (n - 1) as nat,
                ),
            ReferentialAction::SetDefault => false,
        },
{
}

} // verus!
