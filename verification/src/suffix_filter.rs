use vstd::prelude::*;
use vstd::string::StrSliceExecFns;
use crate::connect_nested::objects_expected_message;
use crate::error::QueryGraphBuilderError;
use crate::extract::{container_named, described, error_is, ErrorDesc, FilterDesc};
use crate::filter::{ConditionListValue, ConditionValue, Filter, QueryMode, RelationCondition, ScalarCondition, ScalarFilter};
use crate::filter_op::{filter_operations, first_matching_op, op_suffix, FilterOp};
use crate::flatten::GroupKind;
use crate::scalar::{cond_shaped, make_condition, op_condition, shaped, CondShape, FilterShape, ListShape, ScalarOp};
use crate::schema::{spec_find_field, Container, DataModel, Field, RelationField};
use crate::text::{ends_with, is_suffix, text};
use crate::unique::{compound_fields, compound_spec, handle_compound_field, resolve_compound_field};
use crate::values::{converts, ParsedInputMap, ParsedInputValue, PrismaValue};

verus! {

/// What a filter of the suffix notation is: keys name a field and an operation by a
/// suffix (`age_gt`), or a group (`AND`, `OR`, `NOT`).
pub enum SuffixDesc {
    Group(GroupKind, Seq<SuffixDesc>),
    /// One scalar filter on the field named.
    Scalar(Seq<char>, FilterShape),
    /// A condition on the records related through the field named.
    Relation(Seq<char>, RelationCondition, Box<SuffixDesc>),
    /// The one-relation field named has no related record.
    RelationIsNull(Seq<char>),
    /// The equalities on the fields of a compound unique.
    Compound(FilterDesc),
}

/// `f` is the filter that `d` describes.
pub open spec fn suffix_described(f: Filter, d: SuffixDesc) -> bool
    decreases d, 1int,
{
    match d {
        SuffixDesc::Group(k, ds) => match (k, f) {
            (GroupKind::And, Filter::And(v)) => all_suffix_described(v@, ds),
            (GroupKind::Or, Filter::Or(v)) => all_suffix_described(v@, ds),
            (GroupKind::Not, Filter::Not(v)) => all_suffix_described(v@, ds),
            _ => false,
        },
        SuffixDesc::Scalar(n, s) => shaped(f, s, n),
        SuffixDesc::Relation(n, c, inner) => f matches Filter::Relation(s, c2, b) && s@ == n && c2 == c
            && suffix_described(*b, *inner),
        SuffixDesc::RelationIsNull(n) => f matches Filter::OneRelationIsNull(s) && s@ == n,
        SuffixDesc::Compound(fd) => described(f, fd),
    }
}

/// Element by element, the filters of `fs` are what `ds` describes.
pub open spec fn all_suffix_described(fs: Seq<Filter>, ds: Seq<SuffixDesc>) -> bool
    decreases ds, 0int,
{
    fs.len() == ds.len() && (ds.len() > 0 ==> all_suffix_described(fs.drop_last(), ds.drop_last())
        && suffix_described(fs.last(), ds.last()))
}

/// `r` is the outcome that `s` describes.
pub open spec fn suffix_extracted(r: Result<Filter, QueryGraphBuilderError>, s: Result<SuffixDesc, ErrorDesc>) -> bool {
    match s {
        Ok(d) => r matches Ok(f) && suffix_described(f, d),
        Err(e) => r matches Err(x) && error_is(x, e),
    }
}

/// The operation that a key names: by its suffix where suffixes are matched, otherwise
/// equality on the field that the whole key names.
pub open spec fn key_op(key: Seq<char>, match_suffix: bool) -> FilterOp {
    if match_suffix {
        filter_operations()[choose|k: int| first_matching_op(key, k)]
    } else {
        FilterOp::Field
    }
}

/// `s` with every trailing repetition of `suffix` removed, as `str::trim_end_matches` does.
pub open spec fn trim_suffix_all(s: Seq<char>, suffix: Seq<char>) -> Seq<char>
    decreases s.len(),
{
    if suffix.len() > 0 && is_suffix(suffix, s) {
        trim_suffix_all(s.subrange(0, s.len() - suffix.len()), suffix)
    } else {
        s
    }
}

/// The group that a group operation forms.
pub open spec fn group_of(op: FilterOp) -> Option<GroupKind> {
    match op {
        FilterOp::NestedAnd => Option::Some(GroupKind::And),
        FilterOp::NestedOr => Option::Some(GroupKind::Or),
        FilterOp::NestedNot => Option::Some(GroupKind::Not),
        _ => Option::None,
    }
}

/// The relation condition that an operation on a relation field names.
pub open spec fn relation_condition_for(op: FilterOp) -> Option<RelationCondition> {
    match op {
        FilterOp::SomeRelated => Option::Some(RelationCondition::AtLeastOneRelatedRecord),
        FilterOp::NoneRelated => Option::Some(RelationCondition::NoRelatedRecord),
        FilterOp::Every => Option::Some(RelationCondition::EveryRelatedRecord),
        FilterOp::Field => Option::Some(RelationCondition::ToOneRelatedRecord),
        _ => Option::None,
    }
}

/// The comparison that an operation on a scalar field names, for one value.
pub open spec fn compared_by(op: FilterOp) -> Option<ScalarOp> {
    match op {
        FilterOp::Not => Option::Some(ScalarOp::NotEquals),
        FilterOp::Lt => Option::Some(ScalarOp::LessThan),
        FilterOp::Lte => Option::Some(ScalarOp::LessThanOrEquals),
        FilterOp::Gt => Option::Some(ScalarOp::GreaterThan),
        FilterOp::Gte => Option::Some(ScalarOp::GreaterThanOrEquals),
        FilterOp::Contains => Option::Some(ScalarOp::Contains),
        FilterOp::NotContains => Option::Some(ScalarOp::NotContains),
        FilterOp::StartsWith => Option::Some(ScalarOp::StartsWith),
        FilterOp::NotStartsWith => Option::Some(ScalarOp::NotStartsWith),
        FilterOp::EndsWith => Option::Some(ScalarOp::EndsWith),
        FilterOp::NotEndsWith => Option::Some(ScalarOp::NotEndsWith),
        FilterOp::Field => Option::Some(ScalarOp::Equals),
        _ => Option::None,
    }
}

/// The input converts to a list.
pub open spec fn is_list_input(v: ParsedInputValue) -> bool {
    v is List || v matches ParsedInputValue::Single(PrismaValue::List(_))
}

/// The scalar filter that an operation gives for a value: `in` and `not_in` take a list
/// (null compares by equality); the others compare with the value. `None` where the
/// operation or value is of a kind that the validation of the query document rules out.
pub open spec fn scalar_shape_for(op: FilterOp, v: ParsedInputValue) -> Option<FilterShape> {
    let is_null = v == ParsedInputValue::Single(PrismaValue::Null);
    match op {
        FilterOp::In => if is_null {
            Option::Some(FilterShape::Scalar(ScalarOp::Equals, CondShape::Null))
        } else if is_list_input(v) {
            Option::Some(FilterShape::In(ListShape::Input(v)))
        } else {
            Option::None
        },
        FilterOp::NotIn => if is_null {
            Option::Some(FilterShape::Scalar(ScalarOp::NotEquals, CondShape::Null))
        } else if is_list_input(v) {
            Option::Some(FilterShape::NotIn(ListShape::Input(v)))
        } else {
            Option::None
        },
        _ => match compared_by(op) {
            Option::Some(c) => Option::Some(FilterShape::Scalar(c, CondShape::Input(v))),
            Option::None => Option::None,
        },
    }
}

/// The message for a key that names neither a field nor a compound unique.
pub open spec fn unresolved_field_message(name: Seq<char>, model: Seq<char>) -> Seq<char> {
    "Unable to resolve field "@ + name + " to a field or set of fields on model "@ + model
}

/// `a` comes before `b` in the order of strings: character by character, a string before
/// any longer one that starts with it.
pub open spec fn key_less(a: Seq<char>, b: Seq<char>) -> bool
    decreases a.len(),
{
    if a.len() == 0 {
        b.len() > 0
    } else if b.len() == 0 {
        false
    } else if a[0] != b[0] {
        (a[0] as u32) < (b[0] as u32)
    } else {
        key_less(a.drop_first(), b.drop_first())
    }
}

/// The keys of `es` are in increasing order, each once, as those of a sorted map are.
pub open spec fn keys_in_order(es: Seq<(String, ParsedInputValue)>) -> bool {
    forall|i: int, j: int| 0 <= i < j < es.len() ==> key_less(#[trigger] es[i].0@, #[trigger] es[j].0@)
}

/// The filter of a filter object on `model`: the conjunction of the filters of its entries,
/// taken in the order of their keys. `None` where the object holds what the validation of the
/// query document rules out, or where its entries are not those of a sorted map (in order of
/// their keys, each key once).
pub open spec fn suffix_filter_spec(dm: DataModel, model: Container, m: ParsedInputMap, match_suffix: bool) -> Option<
    Result<SuffixDesc, ErrorDesc>,
>
    decreases m, 4int, 0int,
{
    if !keys_in_order(m.entries@) {
        Option::None
    } else {
        match suffix_entries_spec(dm, model, m, m.entries@.len(), match_suffix) {
            Option::None => Option::None,
            Option::Some(Err(e)) => Option::Some(Err(e)),
            Option::Some(Ok(ds)) => Option::Some(Ok(SuffixDesc::Group(GroupKind::And, ds))),
        }
    }
}

/// The filters of the first `k` entries of `m`; the first failing entry decides the error.
pub open spec fn suffix_entries_spec(
    dm: DataModel,
    model: Container,
    m: ParsedInputMap,
    k: nat,
    match_suffix: bool,
) -> Option<Result<Seq<SuffixDesc>, ErrorDesc>>
    decreases m, 3int, k,
{
    if k == 0 {
        Option::Some(Ok(Seq::empty()))
    } else {
        match suffix_entries_spec(dm, model, m, (k - 1) as nat, match_suffix) {
            Option::None => Option::None,
            Option::Some(Err(e)) => Option::Some(Err(e)),
            Option::Some(Ok(ds)) => if k - 1 < m.entries@.len() {
                match suffix_entry_spec(dm, model, m.entries@[k - 1].0@, m.entries@[k - 1].1, match_suffix) {
                    Option::None => Option::None,
                    Option::Some(Err(e)) => Option::Some(Err(e)),
                    Option::Some(Ok(d)) => Option::Some(Ok(ds.push(d))),
                }
            } else {
                Option::None
            },
        }
    }
}

/// The filters of the first `k` objects of a group's list.
pub open spec fn suffix_list_spec(
    dm: DataModel,
    model: Container,
    v: ParsedInputValue,
    k: nat,
    match_suffix: bool,
) -> Option<Result<Seq<SuffixDesc>, ErrorDesc>>
    decreases v, 3int, k,
{
    match v {
        ParsedInputValue::List(l) => if k == 0 {
            Option::Some(Ok(Seq::empty()))
        } else {
            match suffix_list_spec(dm, model, v, (k - 1) as nat, match_suffix) {
                Option::None => Option::None,
                Option::Some(Err(e)) => Option::Some(Err(e)),
                Option::Some(Ok(ds)) => if k - 1 < l@.len() {
                    match l@[k - 1] {
                        ParsedInputValue::Object(mm) => match suffix_filter_spec(dm, model, mm, match_suffix) {
                            Option::None => Option::None,
                            Option::Some(Err(e)) => Option::Some(Err(e)),
                            Option::Some(Ok(d)) => Option::Some(Ok(ds.push(d))),
                        },
                        _ => Option::Some(Err(ErrorDesc::Input(objects_expected_message()))),
                    }
                } else {
                    Option::None
                },
            }
        },
        _ => Option::None,
    }
}

/// The filter of the entry `key`, `v` of a filter object on `model`.
pub open spec fn suffix_entry_spec(
    dm: DataModel,
    model: Container,
    key: Seq<char>,
    v: ParsedInputValue,
    match_suffix: bool,
) -> Option<Result<SuffixDesc, ErrorDesc>>
    decreases v, 5int, 0int,
{
    let op = key_op(key, match_suffix);
    match group_of(op) {
        Option::Some(g) => match v {
            ParsedInputValue::List(l) => match suffix_list_spec(dm, model, v, l@.len(), match_suffix) {
                Option::None => Option::None,
                Option::Some(Err(e)) => Option::Some(Err(e)),
                Option::Some(Ok(ds)) => Option::Some(Ok(SuffixDesc::Group(g, ds))),
            },
            ParsedInputValue::Object(mm) => match suffix_filter_spec(dm, model, mm, match_suffix) {
                Option::None => Option::None,
                Option::Some(Err(e)) => Option::Some(Err(e)),
                Option::Some(Ok(d)) => Option::Some(Ok(SuffixDesc::Group(g, seq![d]))),
            },
            _ => Option::None,
        },
        Option::None => {
            let name = trim_suffix_all(key, op_suffix(op));
            match spec_find_field(model, name) {
                Option::Some(Field::Relation(rf)) => relation_entry_spec(dm, rf.name@, rf.related_model@, op, v, match_suffix),
                Option::Some(f) => field_entry_spec(f, name, op, v),
                Option::None => compound_entry_spec(model, name, v),
            }
        },
    }
}

/// The filter on a scalar field named `name` (a composite field is no field here).
pub open spec fn field_entry_spec(f: Field, name: Seq<char>, op: FilterOp, v: ParsedInputValue) -> Option<
    Result<SuffixDesc, ErrorDesc>,
> {
    if f is Scalar {
        match scalar_shape_for(op, v) {
            Option::None => Option::None,
            Option::Some(s) => Option::Some(Ok(SuffixDesc::Scalar(name, s))),
        }
    } else {
        Option::None
    }
}

/// The filter on the compound unique named `name`.
pub open spec fn compound_entry_spec(model: Container, name: Seq<char>, v: ParsedInputValue) -> Option<
    Result<SuffixDesc, ErrorDesc>,
> {
    match compound_fields(model, name) {
        Option::None => Option::Some(Err(ErrorDesc::Assertion(unresolved_field_message(name, model.name@)))),
        Option::Some(fs) => match compound_spec(fs, v) {
            Ok(d) => Option::Some(Ok(SuffixDesc::Compound(d))),
            Err(e) => Option::Some(Err(e)),
        },
    }
}

/// The filter on the relation field `field` to `related`: null for an empty one-relation,
/// or a condition on the related records that the nested object selects.
pub open spec fn relation_entry_spec(
    dm: DataModel,
    field: Seq<char>,
    related: Seq<char>,
    op: FilterOp,
    v: ParsedInputValue,
    match_suffix: bool,
) -> Option<Result<SuffixDesc, ErrorDesc>>
    decreases v, 4int, 0int,
{
    match v {
        ParsedInputValue::Single(PrismaValue::Null) => if op == FilterOp::Field {
            Option::Some(Ok(SuffixDesc::RelationIsNull(field)))
        } else {
            Option::None
        },
        ParsedInputValue::Object(mm) => match relation_condition_for(op) {
            Option::None => Option::None,
            Option::Some(c) => match container_named(dm, related) {
                Option::None => Option::None,
                Option::Some(rm) => match suffix_filter_spec(dm, rm, mm, match_suffix) {
                    Option::None => Option::None,
                    Option::Some(Err(e)) => Option::Some(Err(e)),
                    Option::Some(Ok(d)) => Option::Some(Ok(SuffixDesc::Relation(field, c, Box::new(d)))),
                },
            },
        },
        _ => Option::Some(Err(ErrorDesc::Input(objects_expected_message()))),
    }
}

proof fn lemma_first_matching_unique(name: Seq<char>, k1: int, k2: int)
    requires
        first_matching_op(name, k1),
        first_matching_op(name, k2),
    ensures
        k1 == k2,
{
    if k1 < k2 {
        assert(!is_suffix(op_suffix(filter_operations()[k1]), name));
    } else if k2 < k1 {
        assert(!is_suffix(op_suffix(filter_operations()[k2]), name));
    }
}

/// The operation that `key` names.
fn op_of_key(key: &str, match_suffix: bool) -> (op: FilterOp)
    ensures
        op == key_op(key@, match_suffix),
{
    if match_suffix {
        let found = FilterOp::find_op(key);
        let op = found.unwrap();
        proof {
            let k = choose|k: int| first_matching_op(key@, k) && filter_operations()[k] == op;
            let c = choose|k: int| first_matching_op(key@, k);
            lemma_first_matching_unique(key@, k, c);
        }
        op
    } else {
        FilterOp::Field
    }
}

/// `s` with every trailing repetition of `suffix` removed.
fn trim_suffix(s: &str, suffix: &str) -> (r: String)
    ensures
        r@ == trim_suffix_all(s@, suffix@),
{
    let mut cur: &str = s;
    let m = suffix.unicode_len();
    while m > 0 && ends_with(cur, suffix)
        invariant
            m == suffix@.len(),
            trim_suffix_all(cur@, suffix@) == trim_suffix_all(s@, suffix@),
        decreases cur@.len(),
    {
        let n = cur.unicode_len();
        cur = cur.substring_char(0, n - m);
    }
    text(cur)
}

/// The scalar filter that `op` gives on the field named `field` for `value`.
pub fn handle_scalar_field(field: &str, value: ParsedInputValue, op: FilterOp) -> (r: Result<Filter, QueryGraphBuilderError>)
    requires
        scalar_shape_for(op, value) is Some,
    ensures
        r matches Ok(f) && shaped(f, scalar_shape_for(op, value)->Some_0, field@),
{
    let ghost gv = value;
    let pv = value.into_prisma_value();
    let condition = match op {
        FilterOp::In => match pv {
            PrismaValue::List(values) => ScalarCondition::In(ConditionListValue::List(values)),
            other => ScalarCondition::Equals(ConditionValue::Value(other)),
        },
        FilterOp::NotIn => match pv {
            PrismaValue::List(values) => ScalarCondition::NotIn(ConditionListValue::List(values)),
            other => ScalarCondition::NotEquals(ConditionValue::Value(other)),
        },
        FilterOp::Not => make_condition(ScalarOp::NotEquals, ConditionValue::Value(pv)),
        FilterOp::Lt => make_condition(ScalarOp::LessThan, ConditionValue::Value(pv)),
        FilterOp::Lte => make_condition(ScalarOp::LessThanOrEquals, ConditionValue::Value(pv)),
        FilterOp::Gt => make_condition(ScalarOp::GreaterThan, ConditionValue::Value(pv)),
        FilterOp::Gte => make_condition(ScalarOp::GreaterThanOrEquals, ConditionValue::Value(pv)),
        FilterOp::Contains => make_condition(ScalarOp::Contains, ConditionValue::Value(pv)),
        FilterOp::NotContains => make_condition(ScalarOp::NotContains, ConditionValue::Value(pv)),
        FilterOp::StartsWith => make_condition(ScalarOp::StartsWith, ConditionValue::Value(pv)),
        FilterOp::NotStartsWith => make_condition(ScalarOp::NotStartsWith, ConditionValue::Value(pv)),
        FilterOp::EndsWith => make_condition(ScalarOp::EndsWith, ConditionValue::Value(pv)),
        FilterOp::NotEndsWith => make_condition(ScalarOp::NotEndsWith, ConditionValue::Value(pv)),
        _ => make_condition(ScalarOp::Equals, ConditionValue::Value(pv)),
    };
    let f = Filter::Scalar(ScalarFilter { field: text(field), condition, mode: QueryMode::Default });
    proof {
        match scalar_shape_for(op, gv)->Some_0 {
            FilterShape::Scalar(o, c) => {
                let cv = ConditionValue::Value(pv);
                assert(cond_shaped(cv, c));
                assert(condition == op_condition(o, cv));
            },
            _ => {},
        }
    }
    Ok(f)
}

proof fn lemma_all_suffix_described_push(fs: Seq<Filter>, ds: Seq<SuffixDesc>, f: Filter, d: SuffixDesc)
    requires
        all_suffix_described(fs, ds),
        suffix_described(f, d),
    ensures
        all_suffix_described(fs.push(f), ds.push(d)),
{
    assert(fs.push(f).drop_last() =~= fs);
    assert(ds.push(d).drop_last() =~= ds);
}

proof fn lemma_suffix_entries_none(dm: DataModel, model: Container, m: ParsedInputMap, k: nat, n: nat, ms: bool)
    requires
        k <= n,
        suffix_entries_spec(dm, model, m, k, ms) is None,
    ensures
        suffix_entries_spec(dm, model, m, n, ms) is None,
    decreases n - k,
{
    if k < n {
        lemma_suffix_entries_none(dm, model, m, (k + 1) as nat, n, ms);
    }
}

proof fn lemma_suffix_entries_err(dm: DataModel, model: Container, m: ParsedInputMap, k: nat, n: nat, ms: bool)
    requires
        k <= n,
        suffix_entries_spec(dm, model, m, k, ms) matches Option::Some(Err(_)),
    ensures
        suffix_entries_spec(dm, model, m, n, ms) == suffix_entries_spec(dm, model, m, k, ms),
    decreases n - k,
{
    if k < n {
        lemma_suffix_entries_err(dm, model, m, (k + 1) as nat, n, ms);
    }
}

proof fn lemma_suffix_list_none(dm: DataModel, model: Container, v: ParsedInputValue, k: nat, n: nat, ms: bool)
    requires
        k <= n,
        suffix_list_spec(dm, model, v, k, ms) is None,
    ensures
        suffix_list_spec(dm, model, v, n, ms) is None,
    decreases n - k,
{
    if k < n {
        lemma_suffix_list_none(dm, model, v, (k + 1) as nat, n, ms);
    }
}

proof fn lemma_suffix_list_err(dm: DataModel, model: Container, v: ParsedInputValue, k: nat, n: nat, ms: bool)
    requires
        k <= n,
        suffix_list_spec(dm, model, v, k, ms) matches Option::Some(Err(_)),
    ensures
        suffix_list_spec(dm, model, v, n, ms) == suffix_list_spec(dm, model, v, k, ms),
    decreases n - k,
{
    if k < n {
        lemma_suffix_list_err(dm, model, v, (k + 1) as nat, n, ms);
    }
}

/// The filter of a filter object in the suffix notation on `model`: the conjunction of the
/// filters of its entries, in the order of their keys. A key names a field and an
/// operation by its suffix where `match_suffix` holds (`age_gt`), otherwise equality on the
/// field it names; `AND`, `OR` and `NOT` group the filters of an object or a list of them.
pub fn extract_filter(value_map: ParsedInputMap, model: &Container, match_suffix: bool, dm: &DataModel) -> (r: Result<
    Filter,
    QueryGraphBuilderError,
>)
    requires
        suffix_filter_spec(*dm, *model, value_map, match_suffix) is Some,
    ensures
        suffix_extracted(r, suffix_filter_spec(*dm, *model, value_map, match_suffix)->Some_0),
    decreases value_map, 4int, 0int,
{
    let ghost m0 = value_map;
    let ghost es = value_map.entries@;
    let ghost n = es.len();
    let mut out: Vec<Filter> = Vec::new();
    let ghost mut ds: Seq<SuffixDesc> = Seq::empty();
    for e in it: value_map.entries.into_iter()
        invariant
            it.seq() == es,
            es == m0.entries@,
            n == es.len(),
            value_map == m0,
            keys_in_order(es),
            suffix_entries_spec(*dm, *model, m0, n, match_suffix) is Some,
            suffix_entries_spec(*dm, *model, m0, it.index() as nat, match_suffix) == Option::Some(
                Ok::<Seq<SuffixDesc>, ErrorDesc>(ds),
            ),
            all_suffix_described(out@, ds),
    {
        let ghost j = it.index() as int;
        let (key, value) = e;
        let ghost gv = value;
        assert(decreases_to!(m0 => m0.entries));
        assert(decreases_to!(m0.entries => m0.entries@));
        assert(decreases_to!(m0.entries@ => m0.entries@[j]));
        assert(decreases_to!(m0.entries@[j] => m0.entries@[j].1));
        assert(decreases_to!(value_map => value));
        proof {
            if suffix_entry_spec(*dm, *model, key@, gv, match_suffix) is None {
                lemma_suffix_entries_none(*dm, *model, m0, (j + 1) as nat, n, match_suffix);
            }
        }
        match suffix_entry(key.as_str(), value, model, match_suffix, dm) {
            Ok(f) => {
                let ghost d = suffix_entry_spec(*dm, *model, key@, gv, match_suffix)->Some_0->Ok_0;
                let ghost before = out@;
                let ghost gf = f;
                out.push(f);
                proof {
                    lemma_all_suffix_described_push(before, ds, gf, d);
                    ds = ds.push(d);
                }
            },
            Err(x) => {
                proof { lemma_suffix_entries_err(*dm, *model, m0, (j + 1) as nat, n, match_suffix); }
                return Err(x);
            },
        }
    }
    Ok(Filter::And(out))
}

/// The filters of the objects of a group's list.
fn suffix_list(value: ParsedInputValue, model: &Container, match_suffix: bool, dm: &DataModel) -> (r: Result<
    Vec<Filter>,
    QueryGraphBuilderError,
>)
    requires
        value is List,
        suffix_list_spec(*dm, *model, value, value->List_0@.len(), match_suffix) is Some,
    ensures
        match suffix_list_spec(*dm, *model, value, value->List_0@.len(), match_suffix)->Some_0 {
            Ok(ds) => r matches Ok(v) && all_suffix_described(v@, ds),
            Err(e) => r matches Err(x) && error_is(x, e),
        },
    decreases value, 3int, 0int,
{
    let ghost v0 = value;
    let l = match value {
        ParsedInputValue::List(l) => l,
        _ => Vec::new(),
    };
    let ghost lv = l@;
    let ghost n = lv.len();
    let mut out: Vec<Filter> = Vec::new();
    let ghost mut ds: Seq<SuffixDesc> = Seq::empty();
    for item in it: l.into_iter()
        invariant
            it.seq() == lv,
            n == lv.len(),
            v0 == value,
            v0 is List,
            v0->List_0@ == lv,
            suffix_list_spec(*dm, *model, v0, n, match_suffix) is Some,
            suffix_list_spec(*dm, *model, v0, it.index() as nat, match_suffix) == Option::Some(
                Ok::<Seq<SuffixDesc>, ErrorDesc>(ds),
            ),
            all_suffix_described(out@, ds),
    {
        let ghost j = it.index() as int;
        match item {
            ParsedInputValue::Object(mm) => {
                proof {
                    let l0 = v0->List_0;
                    assert(decreases_to!(v0 => l0));
                    assert(decreases_to!(l0 => l0@));
                    assert(decreases_to!(l0@ => l0@[j]));
                    assert(decreases_to!(l0@[j] => mm));
                    assert(decreases_to!(value => mm));
                    if suffix_filter_spec(*dm, *model, mm, match_suffix) is None {
                        lemma_suffix_list_none(*dm, *model, v0, (j + 1) as nat, n, match_suffix);
                    }
                }
                let ghost gm = mm;
                match extract_filter(mm, model, match_suffix, dm) {
                    Ok(f) => {
                        let ghost d = suffix_filter_spec(*dm, *model, gm, match_suffix)->Some_0->Ok_0;
                        let ghost before = out@;
                        let ghost gf = f;
                        out.push(f);
                        proof {
                            lemma_all_suffix_described_push(before, ds, gf, d);
                            ds = ds.push(d);
                        }
                    },
                    Err(x) => {
                        proof { lemma_suffix_list_err(*dm, *model, v0, (j + 1) as nat, n, match_suffix); }
                        return Err(x);
                    },
                }
            },
            _ => {
                proof { lemma_suffix_list_err(*dm, *model, v0, (j + 1) as nat, n, match_suffix); }
                return Err(QueryGraphBuilderError::InputError(text("Expected an input object.")));
            },
        }
    }
    Ok(out)
}

/// The filter of one entry of a filter object in the suffix notation.
fn suffix_entry(key: &str, value: ParsedInputValue, model: &Container, match_suffix: bool, dm: &DataModel) -> (r: Result<
    Filter,
    QueryGraphBuilderError,
>)
    requires
        suffix_entry_spec(*dm, *model, key@, value, match_suffix) is Some,
    ensures
        suffix_extracted(r, suffix_entry_spec(*dm, *model, key@, value, match_suffix)->Some_0),
    decreases value, 5int, 0int,
{
    let op = op_of_key(key, match_suffix);
    let ghost gv = value;
    match op {
        FilterOp::NestedAnd | FilterOp::NestedOr | FilterOp::NestedNot => {
            let filters = match value {
                ParsedInputValue::List(_) => match suffix_list(value, model, match_suffix, dm) {
                    Ok(v) => v,
                    Err(x) => return Err(x),
                },
                ParsedInputValue::Object(map) => {
                    proof { assert(decreases_to!(value => map)); }
                    match extract_filter(map, model, match_suffix, dm) {
                        Ok(f) => {
                            let mut v: Vec<Filter> = Vec::new();
                            let ghost gf = f;
                            v.push(f);
                            proof {
                                lemma_all_suffix_described_push(
                                    Seq::empty(),
                                    Seq::empty(),
                                    gf,
                                    suffix_filter_spec(*dm, *model, map, match_suffix)->Some_0->Ok_0,
                                );
                                assert(v@ =~= Seq::<Filter>::empty().push(gf));
                            }
                            v
                        },
                        Err(x) => return Err(x),
                    }
                },
                _ => return Err(QueryGraphBuilderError::InputError(String::new())),
            };
            match op {
                FilterOp::NestedAnd => Ok(Filter::And(filters)),
                FilterOp::NestedOr => Ok(Filter::Or(filters)),
                _ => Ok(Filter::Not(filters)),
            }
        },
        _ => {
            let field_name = trim_suffix(key, op.suffix());
            match model.find_field(field_name.as_str()) {
                Option::Some(Field::Scalar(_)) => handle_scalar_field(field_name.as_str(), value, op),
                Option::Some(Field::Relation(rf)) => handle_relation_field(rf, value, op, match_suffix, dm),
                Option::Some(Field::Composite(_)) => Err(QueryGraphBuilderError::InputError(String::new())),
                Option::None => match resolve_compound_field(field_name.as_str(), model) {
                    Option::Some(fields) => {
                        let r = handle_compound_field(fields, value);
                        r
                    },
                    Option::None => {
                        let mut m = text("Unable to resolve field ");
                        m.append(field_name.as_str());
                        m.append(" to a field or set of fields on model ");
                        m.append(model.name.as_str());
                        Err(QueryGraphBuilderError::AssertionError(m))
                    },
                },
            }
        },
    }
}

/// The filter on the relation field `field` that `op` gives for `value`: null for an empty
/// one-relation, or a condition on the related records that the nested object selects.
pub fn handle_relation_field(
    field: &RelationField,
    value: ParsedInputValue,
    op: FilterOp,
    match_suffix: bool,
    dm: &DataModel,
) -> (r: Result<Filter, QueryGraphBuilderError>)
    requires
        relation_entry_spec(*dm, field.name@, field.related_model@, op, value, match_suffix) is Some,
    ensures
        suffix_extracted(r, relation_entry_spec(*dm, field.name@, field.related_model@, op, value, match_suffix)->Some_0),
    decreases value, 4int, 0int,
{
    match value {
        ParsedInputValue::Single(PrismaValue::Null) => Ok(Filter::OneRelationIsNull(field.name.clone())),
        ParsedInputValue::Object(map) => {
            proof { assert(decreases_to!(value => map)); }
            let condition = match op {
                FilterOp::SomeRelated => RelationCondition::AtLeastOneRelatedRecord,
                FilterOp::NoneRelated => RelationCondition::NoRelatedRecord,
                FilterOp::Every => RelationCondition::EveryRelatedRecord,
                _ => RelationCondition::ToOneRelatedRecord,
            };
            let related = dm.find_container(field.related_model.as_str()).unwrap();
            match extract_filter(map, related, match_suffix, dm) {
                Ok(f) => Ok(Filter::Relation(field.name.clone(), condition, Box::new(f))),
                Err(x) => Err(x),
            }
        },
        _ => Err(QueryGraphBuilderError::InputError(text("Expected an input object."))),
    }
}

} // verus!
