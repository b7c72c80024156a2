use vstd::prelude::*;
use crate::text::{str_eq, text};
use crate::values::PrismaValue;

verus! {

/// An item of a response: a value, an object of named items in order, or a list of items.
#[derive(Debug, PartialEq, Eq)]
pub enum Item {
    Value(PrismaValue),
    Object(Vec<(String, Item)>),
    List(Vec<Item>),
}

/// One aggregated value of a record. The values of field aggregations come serialized for
/// their output field; a count is a plain value.
#[derive(Debug)]
pub enum AggregationResult {
    Field(String, Item),
    Count(Option<String>, PrismaValue),
    Average(String, Item),
    Sum(String, Item),
    Min(String, Item),
    Max(String, Item),
}

/// The key under which a row holds an aggregated value: the field's name for a plain field,
/// else the aggregation's prefix (`_count_`, `_avg_`, `_sum_`, `_min_`, `_max_`) and the
/// field's name, and `_count__all` for the count of all records.
pub open spec fn aggregation_key(r: AggregationResult) -> Seq<char> {
    match r {
        AggregationResult::Field(f, _) => f@,
        AggregationResult::Count(Option::Some(f), _) => seq!['_', 'c', 'o', 'u', 'n', 't', '_'] + f@,
        AggregationResult::Count(Option::None, _) => seq!['_', 'c', 'o', 'u', 'n', 't', '_', '_', 'a', 'l', 'l'],
        AggregationResult::Average(f, _) => seq!['_', 'a', 'v', 'g', '_'] + f@,
        AggregationResult::Sum(f, _) => seq!['_', 's', 'u', 'm', '_'] + f@,
        AggregationResult::Min(f, _) => seq!['_', 'm', 'i', 'n', '_'] + f@,
        AggregationResult::Max(f, _) => seq!['_', 'm', 'a', 'x', '_'] + f@,
    }
}

/// The item of an aggregated value.
pub open spec fn aggregation_item(r: AggregationResult) -> Item {
    match r {
        AggregationResult::Field(_, i) => i,
        AggregationResult::Count(_, v) => Item::Value(v),
        AggregationResult::Average(_, i) => i,
        AggregationResult::Sum(_, i) => i,
        AggregationResult::Min(_, i) => i,
        AggregationResult::Max(_, i) => i,
    }
}

/// The entries of `s`, each key taken by its text.
pub open spec fn keyed<V>(s: Seq<(String, V)>) -> Seq<(Seq<char>, V)> {
    s.map_values(|e: (String, V)| (e.0@, e.1))
}

/// The place of the first entry of `s` with key `k`.
pub open spec fn key_pos<V>(s: Seq<(Seq<char>, V)>, k: Seq<char>) -> Option<int>
    decreases s.len(),
{
    if s.len() == 0 {
        Option::None
    } else {
        match key_pos(s.drop_last(), k) {
            Option::Some(i) => Option::Some(i),
            Option::None => if s.last().0 == k {
                Option::Some(s.len() - 1)
            } else {
                Option::None
            },
        }
    }
}

/// `s` with `v` under `k`: in place of the value of the entry with key `k`, or, where there
/// is none, in a new entry at the end.
pub open spec fn entry_insert<V>(s: Seq<(Seq<char>, V)>, k: Seq<char>, v: V) -> Seq<(Seq<char>, V)> {
    match key_pos(s, k) {
        Option::Some(i) => s.update(i, (k, v)),
        Option::None => s.push((k, v)),
    }
}

/// The value under `k` in `s`, and `s` without that entry.
pub open spec fn entry_take<V>(s: Seq<(Seq<char>, V)>, k: Seq<char>) -> Option<(V, Seq<(Seq<char>, V)>)> {
    match key_pos(s, k) {
        Option::Some(i) => Option::Some((s[i].1, s.remove(i))),
        Option::None => Option::None,
    }
}

/// The value under `k` in `s`, or else under `alt`, and `s` without that entry.
pub open spec fn entry_take_either<V>(s: Seq<(Seq<char>, V)>, k: Seq<char>, alt: Seq<char>) -> Option<
    (V, Seq<(Seq<char>, V)>),
> {
    match entry_take(s, k) {
        Option::Some(r) => Option::Some(r),
        Option::None => entry_take(s, alt),
    }
}

/// The aggregated values of a row by their keys, a later value under a key replacing an
/// earlier one.
pub open spec fn flattened(row: Seq<AggregationResult>) -> Seq<(Seq<char>, Item)>
    decreases row.len(),
{
    if row.len() == 0 {
        Seq::empty()
    } else {
        let last = row.last();
        entry_insert(flattened(row.drop_last()), aggregation_key(last), aggregation_item(last))
    }
}

/// The object of the selection `query` with fields `fields`, whose items are taken, field by
/// field, from `m` under `query_field` or else `_query_field`; with what is left of `m`.
/// `None` where an item is missing.
pub open spec fn nested_items(m: Seq<(Seq<char>, Item)>, query: Seq<char>, fields: Seq<String>) -> Option<
    (Seq<(Seq<char>, Item)>, Seq<(Seq<char>, Item)>),
>
    decreases fields.len(),
{
    if fields.len() == 0 {
        Option::Some((Seq::empty(), m))
    } else {
        match nested_items(m, query, fields.drop_last()) {
            Option::None => Option::None,
            Option::Some((obj, m1)) => {
                let f = fields.last()@;
                match entry_take_either(m1, query + seq!['_'] + f, seq!['_'] + query + seq!['_'] + f) {
                    Option::None => Option::None,
                    Option::Some((item, m2)) => Option::Some((entry_insert(obj, f, item), m2)),
                }
            },
        }
    }
}

/// An entry of a reordered row: an item of the row, or an object of items of the row.
pub enum RowEntry {
    Given(Item),
    Nested(Seq<(Seq<char>, Item)>),
}

/// The row `m` in the order of `ordering`, up to its `k`-th selection: a selection with
/// fields becomes an object of them, one without takes the item under its name or else
/// under `_` and its name; with what is left of `m`. `None` where an item is missing.
pub open spec fn reordered(m: Seq<(Seq<char>, Item)>, ordering: Seq<(String, Option<Vec<String>>)>, k: nat) -> Option<
    (Seq<(Seq<char>, RowEntry)>, Seq<(Seq<char>, Item)>),
>
    decreases k,
{
    if k == 0 {
        Option::Some((Seq::empty(), m))
    } else if k > ordering.len() {
        Option::None
    } else {
        match reordered(m, ordering, (k - 1) as nat) {
            Option::None => Option::None,
            Option::Some((obj, m1)) => {
                let query = ordering[k - 1].0@;
                match ordering[k - 1].1 {
                    Option::Some(fields) => match nested_items(m1, query, fields@) {
                        Option::None => Option::None,
                        Option::Some((nested, m2)) => Option::Some(
                            (entry_insert(obj, query, RowEntry::Nested(nested)), m2),
                        ),
                    },
                    Option::None => match entry_take_either(m1, query, seq!['_'] + query) {
                        Option::None => Option::None,
                        Option::Some((item, m2)) => Option::Some((entry_insert(obj, query, RowEntry::Given(item)), m2)),
                    },
                }
            },
        }
    }
}

/// The entries of the serialized row of the aggregations `row`, in the order of `ordering`,
/// where no item is missing.
pub open spec fn row_entries(row: Seq<AggregationResult>, ordering: Seq<(String, Option<Vec<String>>)>) -> Option<
    Seq<(Seq<char>, RowEntry)>,
> {
    match reordered(flattened(row), ordering, ordering.len()) {
        Option::Some((obj, _)) => Option::Some(obj),
        Option::None => Option::None,
    }
}

/// `item` is the object whose entries `es` describe.
pub open spec fn is_row_item(item: Item, es: Seq<(Seq<char>, RowEntry)>) -> bool {
    item matches Item::Object(v) && row_matches(v@, es)
}

/// `item` is the item that `e` describes.
pub open spec fn entry_matches(item: Item, e: RowEntry) -> bool {
    match e {
        RowEntry::Given(i) => item == i,
        RowEntry::Nested(n) => item matches Item::Object(w) && keyed(w@) == n,
    }
}

/// The entries of the row `out` are those that `es` describe.
pub open spec fn row_matches(out: Seq<(String, Item)>, es: Seq<(Seq<char>, RowEntry)>) -> bool {
    &&& out.len() == es.len()
    &&& forall|j: int| 0 <= j < es.len() ==> (#[trigger] out[j]).0@ == es[j].0 && entry_matches(out[j].1, es[j].1)
}

proof fn lemma_key_pos<V>(s: Seq<(Seq<char>, V)>, k: Seq<char>, i: int)
    requires
        0 <= i <= s.len(),
        forall|j: int| 0 <= j < i ==> s[j].0 != k,
        i < s.len() ==> s[i].0 == k,
    ensures
        i < s.len() ==> key_pos(s, k) == Option::Some(i),
        i == s.len() ==> key_pos(s, k) is None,
    decreases s.len(),
{
    if s.len() > 0 {
        let d = s.drop_last();
        if i < s.len() {
            assert(forall|j: int| 0 <= j < i ==> d[j] == s[j]);
            if i < d.len() {
                assert(d[i] == s[i]);
            }
            lemma_key_pos(d, k, i);
        } else {
            assert(forall|j: int| 0 <= j < d.len() ==> d[j] == s[j]);
            lemma_key_pos(d, k, d.len() as int);
        }
    }
}

proof fn lemma_key_pos_range<V>(s: Seq<(Seq<char>, V)>, k: Seq<char>)
    ensures
        key_pos(s, k) matches Option::Some(i) ==> 0 <= i < s.len() && s[i].0 == k,
    decreases s.len(),
{
    if s.len() > 0 {
        lemma_key_pos_range(s.drop_last(), k);
        if let Option::Some(i) = key_pos(s.drop_last(), k) {
            assert(s.drop_last()[i] == s[i]);
        }
    }
}

proof fn lemma_key_pos_same_keys<V, W>(a: Seq<(Seq<char>, V)>, b: Seq<(Seq<char>, W)>, k: Seq<char>)
    requires
        a.len() == b.len(),
        forall|j: int| 0 <= j < a.len() ==> #[trigger] a[j].0 == b[j].0,
    ensures
        key_pos(a, k) == key_pos(b, k),
    decreases a.len(),
{
    if a.len() > 0 {
        let da = a.drop_last();
        let db = b.drop_last();
        assert forall|j: int| 0 <= j < da.len() implies #[trigger] da[j].0 == db[j].0 by {
            assert(da[j] == a[j]);
            assert(db[j] == b[j]);
        }
        lemma_key_pos_same_keys(da, db, k);
        assert(a.last().0 == b.last().0);
    }
}

/// The place of the first entry of `v` with key `k`.
fn find_key<V>(v: &Vec<(String, V)>, k: &str) -> (r: Option<usize>)
    ensures
        match r {
            Option::Some(i) => key_pos(keyed(v@), k@) == Option::Some(i as int) && i < v@.len(),
            Option::None => key_pos(keyed(v@), k@) is None,
        },
{
    let ghost s = keyed(v@);
    let n = v.len();
    let mut i: usize = 0;
    while i < n
        invariant
            n == v@.len(),
            s == keyed(v@),
            i <= n,
            forall|j: int| 0 <= j < i ==> s[j].0 != k@,
        decreases n - i,
    {
        if str_eq(v[i].0.as_str(), k) {
            proof { lemma_key_pos(s, k@, i as int); }
            return Option::Some(i);
        }
        i = i + 1;
    }
    proof { lemma_key_pos(s, k@, n as int); }
    Option::None
}

/// Puts `val` under `k` in `v`, as `entry_insert` says.
fn insert_entry<V>(v: &mut Vec<(String, V)>, k: String, val: V)
    ensures
        keyed(final(v)@) == entry_insert(keyed(old(v)@), k@, val),
{
    let ghost gk = k@;
    let ghost gv = val;
    let pos = find_key(v, k.as_str());
    match pos {
        Option::Some(i) => {
            assert(key_pos(keyed(old(v)@), gk) == Option::Some(i as int));
            v.set(i, (k, val));
            assert(keyed(v@) =~= keyed(old(v)@).update(i as int, (gk, gv)));
        },
        Option::None => {
            assert(key_pos(keyed(old(v)@), gk) is None);
            v.push((k, val));
            assert(keyed(v@) =~= keyed(old(v)@).push((gk, gv)));
        },
    }
}

/// Takes the value under `k` out of `v`, as `entry_take` says.
fn take_entry<V>(v: &mut Vec<(String, V)>, k: &str) -> (r: Option<V>)
    ensures
        match entry_take(keyed(old(v)@), k@) {
            Option::Some((x, rest)) => r == Option::Some(x) && keyed(final(v)@) == rest,
            Option::None => r is None && final(v)@ == old(v)@,
        },
{
    let pos = find_key(v, k);
    match pos {
        Option::Some(i) => {
            assert(key_pos(keyed(old(v)@), k@) == Option::Some(i as int));
            let (_, x) = v.remove(i);
            assert(keyed(v@) =~= keyed(old(v)@).remove(i as int));
            assert(x == keyed(old(v)@)[i as int].1);
            Option::Some(x)
        },
        Option::None => {
            assert(key_pos(keyed(old(v)@), k@) is None);
            Option::None
        },
    }
}

/// Takes the value under `k`, or else under `alt`, out of `v`.
fn take_either(v: &mut Vec<(String, Item)>, k: &str, alt: &str) -> (r: Option<Item>)
    ensures
        match entry_take_either(keyed(old(v)@), k@, alt@) {
            Option::Some((x, rest)) => r == Option::Some(x) && keyed(final(v)@) == rest,
            Option::None => r is None,
        },
{
    match take_entry(v, k) {
        Option::Some(x) => Option::Some(x),
        Option::None => take_entry(v, alt),
    }
}

/// A new string holding `a` and then `b`.
fn joined(a: &str, b: &str) -> (r: String)
    ensures
        r@ == a@ + b@,
{
    let mut r = text(a);
    r.append(b);
    r
}

/// The key and item of an aggregated value.
fn key_and_item(r: AggregationResult) -> (ki: (String, Item))
    ensures
        ki.0@ == aggregation_key(r),
        ki.1 == aggregation_item(r),
{
    proof {
        reveal_strlit("_count_");
        reveal_strlit("_count__all");
        reveal_strlit("_avg_");
        reveal_strlit("_sum_");
        reveal_strlit("_min_");
        reveal_strlit("_max_");
    }
    match r {
        AggregationResult::Field(f, i) => (f, i),
        AggregationResult::Count(Option::Some(f), v) => (joined("_count_", f.as_str()), Item::Value(v)),
        AggregationResult::Count(Option::None, v) => (text("_count__all"), Item::Value(v)),
        AggregationResult::Average(f, i) => (joined("_avg_", f.as_str()), i),
        AggregationResult::Sum(f, i) => (joined("_sum_", f.as_str()), i),
        AggregationResult::Min(f, i) => (joined("_min_", f.as_str()), i),
        AggregationResult::Max(f, i) => (joined("_max_", f.as_str()), i),
    }
}

/// The aggregated values of `row` under their keys, as `flattened` says.
fn flatten_row(row: Vec<AggregationResult>) -> (r: Vec<(String, Item)>)
    ensures
        keyed(r@) == flattened(row@),
{
    let ghost rs = row@;
    let mut out: Vec<(String, Item)> = Vec::new();
    proof { assert(keyed(out@) =~= Seq::<(Seq<char>, Item)>::empty()); }
    for a in it: row.into_iter()
        invariant
            it.seq() == rs,
            keyed(out@) == flattened(rs.take(it.index() as int)),
    {
        let ghost j = it.index() as int;
        let ghost ga = a;
        let (k, item) = key_and_item(a);
        insert_entry(&mut out, k, item);
        proof {
            assert(rs.take(j + 1).drop_last() =~= rs.take(j));
            assert(rs.take(j + 1).last() == ga);
        }
    }
    proof { assert(rs.take(rs.len() as int) =~= rs); }
    out
}

proof fn lemma_row_insert(
    out: Seq<(String, Item)>,
    es: Seq<(Seq<char>, RowEntry)>,
    k: Seq<char>,
    it: Item,
    e: RowEntry,
    new_out: Seq<(String, Item)>,
)
    requires
        row_matches(out, es),
        keyed(new_out) == entry_insert(keyed(out), k, it),
        entry_matches(it, e),
    ensures
        row_matches(new_out, entry_insert(es, k, e)),
{
    let ko = keyed(out);
    assert forall|j: int| 0 <= j < ko.len() implies #[trigger] ko[j].0 == es[j].0 by {
        assert(out[j].0@ == es[j].0);
    }
    lemma_key_pos_same_keys(ko, es, k);
    lemma_key_pos_range(es, k);
    let es2 = entry_insert(es, k, e);
    let kn = keyed(new_out);
    assert(kn.len() == new_out.len());
    match key_pos(es, k) {
        Option::Some(i) => {
            assert(es2 == es.update(i, (k, e)));
            assert(kn == ko.update(i, (k, it)));
        },
        Option::None => {
            assert(es2 == es.push((k, e)));
            assert(kn == ko.push((k, it)));
        },
    }
    assert(kn.len() == es2.len());
    assert forall|j: int| 0 <= j < es2.len() implies (#[trigger] new_out[j]).0@ == es2[j].0 && entry_matches(
        new_out[j].1,
        es2[j].1,
    ) by {
        assert(kn[j] == (new_out[j].0@, new_out[j].1));
        if j < out.len() {
            assert(ko[j] == (out[j].0@, out[j].1));
        }
    }
}

proof fn lemma_nested_none(m: Seq<(Seq<char>, Item)>, q: Seq<char>, fields: Seq<String>, i: int)
    requires
        0 <= i <= fields.len(),
        nested_items(m, q, fields.take(i)) is None,
    ensures
        nested_items(m, q, fields) is None,
    decreases fields.len() - i,
{
    if i < fields.len() {
        assert(fields.take(i + 1).drop_last() =~= fields.take(i));
        lemma_nested_none(m, q, fields, i + 1);
    } else {
        assert(fields.take(i) =~= fields);
    }
}

proof fn lemma_reordered_none(m: Seq<(Seq<char>, Item)>, ordering: Seq<(String, Option<Vec<String>>)>, k: nat)
    requires
        k <= ordering.len(),
        reordered(m, ordering, k) is None,
    ensures
        reordered(m, ordering, ordering.len()) is None,
    decreases ordering.len() - k,
{
    if k < ordering.len() {
        lemma_reordered_none(m, ordering, k + 1);
    }
}

/// The object of the selection `query` with fields `fields`, its items taken out of `m`, as
/// `nested_items` says.
fn nested_object(m: &mut Vec<(String, Item)>, query: &str, fields: &Vec<String>) -> (r: Option<Vec<(String, Item)>>)
    ensures
        match nested_items(keyed(old(m)@), query@, fields@) {
            Option::Some((obj, m2)) => r matches Option::Some(o) && keyed(o@) == obj && keyed(final(m)@) == m2,
            Option::None => r is None,
        },
{
    let ghost m0 = keyed(m@);
    let mut obj: Vec<(String, Item)> = Vec::new();
    let n = fields.len();
    let mut i: usize = 0;
    proof {
        assert(fields@.take(0) =~= Seq::<String>::empty());
        assert(keyed(obj@) =~= Seq::<(Seq<char>, Item)>::empty());
    }
    while i < n
        invariant
            n == fields@.len(),
            i <= n,
            m0 == keyed(old(m)@),
            nested_items(m0, query@, fields@.take(i as int)) == Option::Some((keyed(obj@), keyed(m@))),
        decreases n - i,
    {
        let f = &fields[i];
        let mut k1 = text(query);
        k1.append("_");
        k1.append(f.as_str());
        let mut k2 = text("_");
        k2.append(query);
        k2.append("_");
        k2.append(f.as_str());
        proof {
            reveal_strlit("_");
            assert(k1@ =~= query@ + seq!['_'] + fields@[i as int]@);
            assert(k2@ =~= seq!['_'] + query@ + seq!['_'] + fields@[i as int]@);
            assert(fields@.take(i + 1).drop_last() =~= fields@.take(i as int));
            assert(fields@.take(i + 1).last() == fields@[i as int]);
        }
        match take_either(m, k1.as_str(), k2.as_str()) {
            Option::Some(item) => {
                insert_entry(&mut obj, text(f.as_str()), item);
            },
            Option::None => {
                proof { lemma_nested_none(m0, query@, fields@, i + 1); }
                return Option::None;
            },
        }
        i = i + 1;
    }
    proof { assert(fields@.take(n as int) =~= fields@); }
    Option::Some(obj)
}

/// The row `m` in the order of `ordering`, as `reordered` says.
fn reorder_row(m: Vec<(String, Item)>, ordering: &Vec<(String, Option<Vec<String>>)>) -> (r: Item)
    requires
        reordered(keyed(m@), ordering@, ordering@.len()) is Some,
    ensures
        is_row_item(r, reordered(keyed(m@), ordering@, ordering@.len())->Some_0.0),
{
    let ghost m0 = keyed(m@);
    let mut m = m;
    let mut out: Vec<(String, Item)> = Vec::new();
    let ghost mut es: Seq<(Seq<char>, RowEntry)> = Seq::empty();
    let n = ordering.len();
    let mut k: usize = 0;
    while k < n
        invariant
            n == ordering@.len(),
            k <= n,
            reordered(m0, ordering@, n as nat) is Some,
            reordered(m0, ordering@, k as nat) == Option::Some((es, keyed(m@))),
            row_matches(out@, es),
        decreases n - k,
    {
        let query = &ordering[k].0;
        let ghost before = out@;
        match &ordering[k].1 {
            Option::Some(fields) => {
                match nested_object(&mut m, query.as_str(), fields) {
                    Option::Some(o) => {
                        let ghost e = RowEntry::Nested(keyed(o@));
                        let item = Item::Object(o);
                        let ghost gi = item;
                        insert_entry(&mut out, text(query.as_str()), item);
                        proof {
                            lemma_row_insert(before, es, query@, gi, e, out@);
                            es = entry_insert(es, query@, e);
                        }
                    },
                    Option::None => {
                        proof { lemma_reordered_none(m0, ordering@, (k + 1) as nat); }
                        vstd::pervasive::unreached()
                    },
                }
            },
            Option::None => {
                let alt = joined("_", query.as_str());
                proof {
                    reveal_strlit("_");
                    assert(alt@ =~= seq!['_'] + query@);
                }
                match take_either(&mut m, query.as_str(), alt.as_str()) {
                    Option::Some(item) => {
                        let ghost e = RowEntry::Given(item);
                        insert_entry(&mut out, text(query.as_str()), item);
                        proof {
                            lemma_row_insert(before, es, query@, e->Given_0, e, out@);
                            es = entry_insert(es, query@, e);
                        }
                    },
                    Option::None => {
                        proof { lemma_reordered_none(m0, ordering@, (k + 1) as nat); }
                        vstd::pervasive::unreached()
                    },
                }
            },
        }
        k = k + 1;
    }
    Item::Object(out)
}

/// Serializes the aggregations of records: each row becomes an object of its aggregated
/// values in the order of `selection_order`, a selection with fields becoming an object of
/// them. An output field of list type holds all the rows; one of object type holds the last
/// row, if there is one.
pub fn serialize_aggregations(
    rows: Vec<Vec<AggregationResult>>,
    selection_order: &Vec<(String, Option<Vec<String>>)>,
    is_list: bool,
) -> (r: Option<Item>)
    requires
        forall|i: int| 0 <= i < rows@.len() ==> row_entries(#[trigger] rows@[i]@, selection_order@) is Some,
    ensures
        is_list ==> (r matches Option::Some(Item::List(v)) && v@.len() == rows@.len() && forall|i: int|
            0 <= i < rows@.len() ==> is_row_item(
                #[trigger] v@[i],
                row_entries(rows@[i]@, selection_order@)->Some_0,
            )),
        !is_list ==> if rows@.len() == 0 {
            r is None
        } else {
            r matches Option::Some(item) && is_row_item(
                item,
                row_entries(rows@.last()@, selection_order@)->Some_0,
            )
        },
{
    let ghost rs = rows@;
    let mut results: Vec<Item> = Vec::new();
    for row in it: rows.into_iter()
        invariant
            it.seq() == rs,
            forall|i: int| 0 <= i < rs.len() ==> row_entries(#[trigger] rs[i]@, selection_order@) is Some,
            results@.len() == it.index(),
            forall|i: int|
                0 <= i < it.index() ==> is_row_item(
                    #[trigger] results@[i],
                    row_entries(rs[i]@, selection_order@)->Some_0,
                ),
    {
        let ghost j = it.index() as int;
        let ghost grow = row@;
        assert(row_entries(rs[j]@, selection_order@) is Some);
        let flat = flatten_row(row);
        let item = reorder_row(flat, selection_order);
        results.push(item);
        proof {
            assert(results@[j] == item);
        }
    }
    if is_list {
        Option::Some(Item::List(results))
    } else {
        results.pop()
    }
}

} // verus!
