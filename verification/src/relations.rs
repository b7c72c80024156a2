use vstd::prelude::*;
use crate::query_graph::names;
use crate::schema::{container_index, spec_find_field, Container, ContainerKind, DataModel, Field, RelationField};
use crate::text::str_eq;

verus! {

/// The relation field on the other side of `rf`, if the data model has it.
pub open spec fn spec_back_field(dm: DataModel, rf: RelationField) -> Option<RelationField> {
    match container_index(dm.containers@, rf.related_model@) {
        Option::Some(i) => match spec_find_field(dm.containers@[i], rf.related_field_name@) {
            Option::Some(Field::Relation(b)) => Option::Some(b),
            _ => Option::None,
        },
        Option::None => Option::None,
    }
}

/// `f` is a relation field that holds the foreign key of a relation to the model `m`.
pub open spec fn points_to(f: Field, m: Seq<char>) -> bool {
    f matches Field::Relation(rf) && rf.inlined_in_parent && rf.related_model@ == m
}

/// The fields of `fs` that point to the model `m`, in order.
pub open spec fn pointing_in(fs: Seq<Field>, m: Seq<char>) -> Seq<RelationField>
    decreases fs.len(),
{
    if fs.len() == 0 {
        Seq::empty()
    } else {
        let rest = pointing_in(fs.drop_last(), m);
        if points_to(fs.last(), m) {
            rest.push(fs.last()->Relation_0)
        } else {
            rest
        }
    }
}

/// The relation fields of the models of `cs` that point to the model `m`, model by model
/// and field by field.
pub open spec fn pointing_to_model(cs: Seq<Container>, m: Seq<char>) -> Seq<RelationField>
    decreases cs.len(),
{
    if cs.len() == 0 {
        Seq::empty()
    } else {
        let rest = pointing_to_model(cs.drop_last(), m);
        if cs.last().kind == ContainerKind::Model {
            rest + pointing_in(cs.last().fields@, m)
        } else {
            rest
        }
    }
}

/// The foreign key fields that `rf` holds on its model.
pub open spec fn left_scalars(rf: RelationField) -> Seq<Seq<char>> {
    if rf.inlined_in_parent {
        names(rf.linking_fields@)
    } else {
        Seq::empty()
    }
}

/// `a` and `b` share a foreign key field.
pub open spec fn shares_fk(a: RelationField, b: RelationField) -> bool {
    exists|i: int| 0 <= i < left_scalars(a).len() && left_scalars(b).contains(#[trigger] left_scalars(a)[i])
}

/// `f` is another relation field than `rf` that shares a foreign key field with it.
pub open spec fn overlaps(f: Field, rf: RelationField) -> bool {
    f matches Field::Relation(o) && o.name@ != rf.name@ && shares_fk(o, rf)
}

/// The fields of `fs` that overlap `rf`, in order.
pub open spec fn overlapping_in(fs: Seq<Field>, rf: RelationField) -> Seq<RelationField>
    decreases fs.len(),
{
    if fs.len() == 0 {
        Seq::empty()
    } else {
        let rest = overlapping_in(fs.drop_last(), rf);
        if overlaps(fs.last(), rf) {
            rest.push(fs.last()->Relation_0)
        } else {
            rest
        }
    }
}

/// The relation fields of the model of `rf` that share a foreign key field with it.
pub open spec fn overlapping(dm: DataModel, rf: RelationField) -> Seq<RelationField> {
    match container_index(dm.containers@, rf.model@) {
        Option::Some(i) => overlapping_in(dm.containers@[i].fields@, rf),
        Option::None => Seq::empty(),
    }
}

/// The field `name` of the model `model` is an optional scalar field.
pub open spec fn is_nullable_scalar(dm: DataModel, model: Seq<char>, name: Seq<char>) -> bool {
    match container_index(dm.containers@, model) {
        Option::Some(i) => match spec_find_field(dm.containers@[i], name) {
            Option::Some(Field::Scalar(sf)) => !sf.is_required,
            _ => false,
        },
        Option::None => false,
    }
}

/// The fields of `s` that are optional scalar fields of `model`, in order.
pub open spec fn nullable_in(dm: DataModel, model: Seq<char>, s: Seq<Seq<char>>) -> Seq<Seq<char>>
    decreases s.len(),
{
    if s.len() == 0 {
        Seq::empty()
    } else {
        let rest = nullable_in(dm, model, s.drop_last());
        if is_nullable_scalar(dm, model, s.last()) {
            rest.push(s.last())
        } else {
            rest
        }
    }
}

/// The foreign key fields of `rf` that may be set to null.
pub open spec fn nullable_fks(dm: DataModel, rf: RelationField) -> Seq<Seq<char>> {
    nullable_in(dm, rf.model@, left_scalars(rf))
}

impl DataModel {
    /// The field at position `p.1` of the container at position `p.0` is the relation field `rf`.
    pub open spec fn locates(&self, p: (usize, usize), rf: RelationField) -> bool {
        &&& p.0 < self.containers@.len()
        &&& p.1 < self.containers@[p.0 as int].fields@.len()
        &&& self.containers@[p.0 as int].fields@[p.1 as int] == Field::Relation(rf)
    }

    /// The relation field on the other side of `rf`, if the data model has it.
    pub fn back_field(&self, rf: &RelationField) -> (r: Option<&RelationField>)
        ensures
            r is Some == spec_back_field(*self, *rf) is Some,
            r is Some ==> *r->0 == spec_back_field(*self, *rf)->0,
    {
        match self.find_container(rf.related_model.as_str()) {
            Option::Some(c) => match c.find_field(rf.related_field_name.as_str()) {
                Option::Some(Field::Relation(b)) => Option::Some(b),
                _ => Option::None,
            },
            Option::None => Option::None,
        }
    }

    /// The relation field at a position that `locates` one.
    pub fn relation_at(&self, p: (usize, usize)) -> (r: &RelationField)
        requires
            exists|rf: RelationField| self.locates(p, rf),
        ensures
            self.locates(p, *r),
    {
        match &self.containers[p.0].fields[p.1] {
            Field::Relation(rf) => rf,
            _ => vstd::pervasive::unreached(),
        }
    }

    /// The positions of the relation fields that hold the foreign key of a relation to
    /// `model`, model by model and field by field.
    pub fn fields_pointing_to_model(&self, model: &str) -> (r: Vec<(usize, usize)>)
        ensures
            r@.len() == pointing_to_model(self.containers@, model@).len(),
            forall|k: int|
                0 <= k < r@.len() ==> self.locates(#[trigger] r@[k], pointing_to_model(self.containers@, model@)[k]),
    {
        let ghost cs = self.containers@;
        let mut out: Vec<(usize, usize)> = Vec::new();
        let n = self.containers.len();
        let mut i: usize = 0;
        while i < n
            invariant
                cs == self.containers@,
                n == cs.len(),
                i <= n,
                out@.len() == pointing_to_model(cs.take(i as int), model@).len(),
                forall|k: int|
                    0 <= k < out@.len() ==> self.locates(
                        #[trigger] out@[k],
                        pointing_to_model(cs.take(i as int), model@)[k],
                    ),
            decreases n - i,
        {
            assert(cs.take(i + 1).drop_last() =~= cs.take(i as int));
            assert(cs.take(i + 1).last() == cs[i as int]);
            if self.containers[i].is_model() {
                let ghost before = pointing_to_model(cs.take(i as int), model@);
                let ghost fs = cs[i as int].fields@;
                let m = self.containers[i].fields.len();
                let mut j: usize = 0;
                while j < m
                    invariant
                        cs == self.containers@,
                        n == cs.len(),
                        i < n,
                        fs == cs[i as int].fields@,
                        m == fs.len(),
                        j <= m,
                        out@.len() == before.len() + pointing_in(fs.take(j as int), model@).len(),
                        forall|k: int|
                            0 <= k < out@.len() ==> self.locates(
                                #[trigger] out@[k],
                                (before + pointing_in(fs.take(j as int), model@))[k],
                            ),
                    decreases m - j,
                {
                    assert(fs.take(j + 1).drop_last() =~= fs.take(j as int));
                    assert(fs.take(j + 1).last() == fs[j as int]);
                    let ghost prev = before + pointing_in(fs.take(j as int), model@);
                    match &self.containers[i].fields[j] {
                        Field::Relation(rf) => {
                            if rf.inlined_in_parent && str_eq(rf.related_model.as_str(), model) {
                                out.push((i, j));
                                assert(before + pointing_in(fs.take(j + 1), model@) =~= prev.push(*rf));
                            } else {
                                assert(before + pointing_in(fs.take(j + 1), model@) =~= prev);
                            }
                        },
                        _ => {
                            assert(before + pointing_in(fs.take(j + 1), model@) =~= prev);
                        },
                    }
                    j = j + 1;
                }
                assert(fs.take(m as int) =~= fs);
            }
            i = i + 1;
        }
        assert(cs.take(n as int) =~= cs);
        out
    }

    /// The positions of the other relation fields of the model of `rf` that share a foreign
    /// key field with it, in order.
    pub fn collect_overlapping_relation_fields(&self, rf: &RelationField) -> (r: Vec<(usize, usize)>)
        ensures
            r@.len() == overlapping(*self, *rf).len(),
            forall|k: int| 0 <= k < r@.len() ==> self.locates(#[trigger] r@[k], overlapping(*self, *rf)[k]),
    {
        let mut out: Vec<(usize, usize)> = Vec::new();
        let n = self.containers.len();
        let mut i: usize = 0;
        while i < n
            invariant
                n == self.containers@.len(),
                i <= n,
                forall|k: int| 0 <= k < i ==> self.containers@[k].name@ != rf.model@,
            ensures
                i <= n,
                forall|k: int| 0 <= k < i ==> self.containers@[k].name@ != rf.model@,
                i < n ==> self.containers@[i as int].name@ == rf.model@,
            decreases n - i,
        {
            if str_eq(self.containers[i].name.as_str(), rf.model.as_str()) {
                break;
            }
            i = i + 1;
        }
        proof { lemma_first_container(self.containers@, rf.model@, i as int); }
        if i == n {
            return out;
        }
        let ghost fs = self.containers@[i as int].fields@;
        let m = self.containers[i].fields.len();
        let mut j: usize = 0;
        while j < m
            invariant
                n == self.containers@.len(),
                i < n,
                fs == self.containers@[i as int].fields@,
                m == fs.len(),
                j <= m,
                out@.len() == overlapping_in(fs.take(j as int), *rf).len(),
                forall|k: int|
                    0 <= k < out@.len() ==> self.locates(#[trigger] out@[k], overlapping_in(fs.take(j as int), *rf)[k]),
            decreases m - j,
        {
            assert(fs.take(j + 1).drop_last() =~= fs.take(j as int));
            assert(fs.take(j + 1).last() == fs[j as int]);
            match &self.containers[i].fields[j] {
                Field::Relation(o) => {
                    if !str_eq(o.name.as_str(), rf.name.as_str()) && shares_fk_with(o, rf) {
                        out.push((i, j));
                    }
                },
                _ => {},
            }
            j = j + 1;
        }
        assert(fs.take(m as int) =~= fs);
        out
    }

    /// The foreign key fields of `rf` that may be set to null, in order.
    pub fn nullable_fks(&self, rf: &RelationField) -> (r: Vec<String>)
        ensures
            names(r@) == nullable_fks(*self, *rf),
    {
        if !rf.inlined_in_parent {
            let out: Vec<String> = Vec::new();
            assert(names(out@) =~= nullable_fks(*self, *rf));
            return out;
        }
        self.nullable_among(rf.model.as_str(), &rf.linking_fields)
    }

    /// The fields of `fields` that are optional scalar fields of `model`, in order.
    pub fn nullable_among(&self, model: &str, fields: &Vec<String>) -> (r: Vec<String>)
        ensures
            names(r@) == nullable_in(*self, model@, names(fields@)),
    {
        let mut out: Vec<String> = Vec::new();
        let ghost s = names(fields@);
        let n = fields.len();
        let mut i: usize = 0;
        assert(names(out@) =~= nullable_in(*self, model@, s.take(0)));
        while i < n
            invariant
                s == names(fields@),
                n == s.len(),
                i <= n,
                names(out@) == nullable_in(*self, model@, s.take(i as int)),
            decreases n - i,
        {
            assert(s.take(i + 1).drop_last() =~= s.take(i as int));
            assert(s.take(i + 1).last() == s[i as int]);
            let name = &fields[i];
            let nullable = match self.find_container(model) {
                Option::Some(c) => match c.find_field(name.as_str()) {
                    Option::Some(Field::Scalar(sf)) => !sf.is_required,
                    _ => false,
                },
                Option::None => false,
            };
            if nullable {
                let ghost before = out@;
                out.push(name.clone());
                assert(names(out@) =~= names(before).push(name@));
            }
            i = i + 1;
        }
        assert(s.take(n as int) =~= s);
        out
    }
}

proof fn lemma_first_container(cs: Seq<Container>, name: Seq<char>, k: int)
    requires
        0 <= k <= cs.len(),
        forall|j: int| 0 <= j < k ==> cs[j].name@ != name,
        k < cs.len() ==> cs[k].name@ == name,
    ensures
        k < cs.len() ==> container_index(cs, name) == Option::Some(k),
        k == cs.len() ==> container_index(cs, name) == Option::<int>::None,
{
    if k < cs.len() {
        let i = choose|i: int|
            0 <= i < cs.len() && cs[i].name@ == name && forall|j: int| 0 <= j < i ==> cs[j].name@ != name;
        assert(0 <= k < cs.len() && cs[k].name@ == name && forall|j: int| 0 <= j < k ==> cs[j].name@ != name);
        assert(i == k) by {
            if i < k {
                assert(cs[i].name@ != name);
            } else if i > k {
                assert(cs[k].name@ != name);
            }
        }
    }
}

fn has_name(v: &Vec<String>, x: &str) -> (b: bool)
    ensures
        b == names(v@).contains(x@),
{
    let n = v.len();
    let mut i: usize = 0;
    while i < n
        invariant
            n == v@.len(),
            i <= n,
            forall|k: int| 0 <= k < i ==> v@[k]@ != x@,
        decreases n - i,
    {
        if str_eq(v[i].as_str(), x) {
            assert(names(v@)[i as int] == x@);
            return true;
        }
        i = i + 1;
    }
    assert(!names(v@).contains(x@)) by {
        if names(v@).contains(x@) {
            let k = choose|k: int| 0 <= k < names(v@).len() && names(v@)[k] == x@;
            assert(v@[k]@ == x@);
        }
    }
    false
}

/// Whether `a` and `b` share a foreign key field.
pub fn shares_fk_with(a: &RelationField, b: &RelationField) -> (r: bool)
    ensures
        r == shares_fk(*a, *b),
{
    if !a.inlined_in_parent || !b.inlined_in_parent {
        assert(left_scalars(*b).len() == 0 ==> forall|x: Seq<char>| !left_scalars(*b).contains(x));
        return false;
    }
    let n = a.linking_fields.len();
    let mut i: usize = 0;
    while i < n
        invariant
            a.inlined_in_parent,
            b.inlined_in_parent,
            n == a.linking_fields@.len(),
            i <= n,
            forall|k: int| 0 <= k < i ==> !left_scalars(*b).contains(#[trigger] left_scalars(*a)[k]),
        decreases n - i,
    {
        if has_name(&b.linking_fields, a.linking_fields[i].as_str()) {
            assert(left_scalars(*b).contains(left_scalars(*a)[i as int]));
            return true;
        }
        i = i + 1;
    }
    false
}

} // verus!
