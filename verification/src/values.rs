use vstd::prelude::*;
use crate::text::str_eq;

verus! {

/// A value as the query engine carries it from a request to a connector.
#[derive(Debug, PartialEq, Eq, Hash)]
pub enum PrismaValue {
    Null,
    Boolean(bool),
    Int(i64),
    BigInt(i64),
    String(String),
    Enum(String),
    Json(String),
    Bytes(Vec<u8>),
    List(Vec<PrismaValue>),
    Object(Vec<(String, PrismaValue)>),
}

/// What the schema says an input object is.
#[derive(Debug, PartialEq, Eq, Hash)]
pub enum ObjectTag {
    /// An envelope around the operations on a composite field.
    CompositeEnvelope,
    /// A reference to a field of the given type.
    FieldRefType(String),
    /// Any other object.
    Other,
}

/// A parsed input object: its tag and its entries, in input order, with distinct keys.
#[derive(Debug, PartialEq, Eq, Hash)]
pub struct ParsedInputMap {
    pub tag: Option<ObjectTag>,
    pub entries: Vec<(String, ParsedInputValue)>,
}

/// A parsed input value of a query document.
#[derive(Debug, PartialEq, Eq, Hash)]
pub enum ParsedInputValue {
    Single(PrismaValue),
    List(Vec<ParsedInputValue>),
    Object(ParsedInputMap),
}

/// The position of the first entry with key `key`.
pub open spec fn key_index(entries: Seq<(String, ParsedInputValue)>, key: Seq<char>) -> Option<int> {
    if exists|i: int| 0 <= i < entries.len() && entries[i].0@ == key {
        Option::Some(
            choose|i: int|
                0 <= i < entries.len() && entries[i].0@ == key && forall|j: int| 0 <= j < i ==> entries[j].0@ != key,
        )
    } else {
        Option::None
    }
}

proof fn lemma_key_index(entries: Seq<(String, ParsedInputValue)>, key: Seq<char>, k: int)
    requires
        0 <= k <= entries.len(),
        forall|j: int| 0 <= j < k ==> entries[j].0@ != key,
        k < entries.len() ==> entries[k].0@ == key,
    ensures
        k < entries.len() ==> key_index(entries, key) == Option::Some(k),
        k == entries.len() ==> key_index(entries, key) == Option::<int>::None,
{
    if k < entries.len() {
        let i = choose|i: int|
            0 <= i < entries.len() && entries[i].0@ == key && forall|j: int| 0 <= j < i ==> entries[j].0@ != key;
        assert(0 <= k < entries.len() && entries[k].0@ == key && forall|j: int| 0 <= j < k ==> entries[j].0@ != key);
        assert(i == k) by {
            if i < k {
                assert(entries[i].0@ != key);
            } else if i > k {
                assert(entries[k].0@ != key);
            }
        }
    }
}

/// The position that `key_index` gives holds the key, and no earlier one does.
pub proof fn lemma_key_index_valid(entries: Seq<(String, ParsedInputValue)>, key: Seq<char>)
    ensures
        match key_index(entries, key) {
            Option::Some(i) => 0 <= i < entries.len() && entries[i].0@ == key && forall|j: int|
                0 <= j < i ==> entries[j].0@ != key,
            Option::None => forall|j: int| 0 <= j < entries.len() ==> entries[j].0@ != key,
        },
{
    if exists|i: int| 0 <= i < entries.len() && entries[i].0@ == key {
        let i = lemma_first_key(entries, key, 0);
        lemma_key_index(entries, key, i);
    }
}

proof fn lemma_first_key(entries: Seq<(String, ParsedInputValue)>, key: Seq<char>, k: int) -> (i: int)
    requires
        0 <= k <= entries.len(),
        forall|j: int| 0 <= j < k ==> entries[j].0@ != key,
        exists|i: int| k <= i < entries.len() && entries[i].0@ == key,
    ensures
        0 <= i < entries.len(),
        entries[i].0@ == key,
        forall|j: int| 0 <= j < i ==> entries[j].0@ != key,
    decreases entries.len() - k,
{
    if entries[k].0@ == key {
        k
    } else {
        lemma_first_key(entries, key, k + 1)
    }
}

/// `p` is what the input value `v` converts to: a single value is itself, a list is the
/// list of the converted elements, and a map is the object of the converted entries.
pub open spec fn converts(v: ParsedInputValue, p: PrismaValue) -> bool
    decreases v, 1int,
{
    match v {
        ParsedInputValue::Single(x) => p == x,
        ParsedInputValue::List(l) => p matches PrismaValue::List(pl) && converts_all(l@, pl@),
        ParsedInputValue::Object(m) => p matches PrismaValue::Object(po) && converts_entries(m.entries@, po@),
    }
}

/// Element by element, `t` is what `s` converts to.
pub open spec fn converts_all(s: Seq<ParsedInputValue>, t: Seq<PrismaValue>) -> bool
    decreases s, 0int,
{
    s.len() == t.len() && (s.len() > 0 ==> converts_all(s.drop_last(), t.drop_last()) && converts(
        s.last(),
        t.last(),
    ))
}

/// Entry by entry, `t` has the keys of `s` and what their values convert to.
pub open spec fn converts_entries(s: Seq<(String, ParsedInputValue)>, t: Seq<(String, PrismaValue)>) -> bool
    decreases s, 0int,
{
    s.len() == t.len() && (s.len() > 0 ==> converts_entries(s.drop_last(), t.drop_last()) && s.last().0@
        == t.last().0@ && converts(s.last().1, t.last().1))
}

impl ParsedInputMap {
    /// The value of the entry with key `key`.
    pub fn get(&self, key: &str) -> (r: Option<&ParsedInputValue>)
        ensures
            match key_index(self.entries@, key@) {
                Option::Some(i) => r == Option::Some(&self.entries@[i].1),
                Option::None => r is None,
            },
    {
        let n = self.entries.len();
        let mut i: usize = 0;
        while i < n
            invariant
                n == self.entries@.len(),
                i <= n,
                forall|j: int| 0 <= j < i ==> self.entries@[j].0@ != key@,
            decreases n - i,
        {
            if str_eq(self.entries[i].0.as_str(), key) {
                proof { lemma_key_index(self.entries@, key@, i as int); }
                return Option::Some(&self.entries[i].1);
            }
            i = i + 1;
        }
        proof { lemma_key_index(self.entries@, key@, n as int); }
        Option::None
    }

    /// Removes the entry with key `key` and returns its value; the last entry moves into its
    /// place, so the removal is not stable but takes constant work after the lookup.
    pub fn swap_remove(&mut self, key: &str) -> (r: Option<ParsedInputValue>)
        ensures
            final(self).tag == old(self).tag,
            match key_index(old(self).entries@, key@) {
                Option::Some(i) => r == Option::Some(old(self).entries@[i].1) && final(self).entries@ == old(
                    self,
                ).entries@.update(i, old(self).entries@.last()).drop_last(),
                Option::None => r is None && final(self).entries@ == old(self).entries@,
            },
    {
        let n = self.entries.len();
        let mut i: usize = 0;
        while i < n
            invariant
                n == self.entries@.len(),
                self.entries@ == old(self).entries@,
                self.tag == old(self).tag,
                i <= n,
                forall|j: int| 0 <= j < i ==> self.entries@[j].0@ != key@,
            decreases n - i,
        {
            if str_eq(self.entries[i].0.as_str(), key) {
                proof { lemma_key_index(self.entries@, key@, i as int); }
                let (_, v) = self.entries.swap_remove(i);
                assert(self.entries@ =~= old(self).entries@.update(i as int, old(self).entries@.last()).drop_last());
                return Option::Some(v);
            }
            i = i + 1;
        }
        proof { lemma_key_index(self.entries@, key@, n as int); }
        Option::None
    }
}

impl ParsedInputValue {
    /// The value that this input converts to.
    pub fn into_prisma_value(self) -> (p: PrismaValue)
        ensures
            converts(self, p),
        decreases self, 2int,
    {
        match self {
            ParsedInputValue::Single(x) => x,
            ParsedInputValue::List(l) => PrismaValue::List(convert_all(l)),
            ParsedInputValue::Object(m) => PrismaValue::Object(convert_entries(m.entries)),
        }
    }
}

fn convert_all(l: Vec<ParsedInputValue>) -> (r: Vec<PrismaValue>)
    ensures
        converts_all(l@, r@),
    decreases l@, 1int,
{
    let ghost s = l@;
    let mut r: Vec<PrismaValue> = Vec::new();
    for v in it: l.into_iter()
        invariant
            it.seq() == s,
            converts_all(s.take(it.index() as int), r@),
    {
        let ghost i = it.index() as int;
        let ghost before = r@;
        let p = v.into_prisma_value();
        r.push(p);
        proof {
            assert(s.take(i + 1).drop_last() =~= s.take(i));
            assert(r@.drop_last() =~= before);
        }
    }
    proof { assert(s.take(s.len() as int) =~= s); }
    r
}

fn convert_entries(l: Vec<(String, ParsedInputValue)>) -> (r: Vec<(String, PrismaValue)>)
    ensures
        converts_entries(l@, r@),
    decreases l@, 1int,
{
    let ghost s = l@;
    let mut r: Vec<(String, PrismaValue)> = Vec::new();
    for e in it: l.into_iter()
        invariant
            it.seq() == s,
            converts_entries(s.take(it.index() as int), r@),
    {
        let ghost i = it.index() as int;
        let ghost before = r@;
        let (k, v) = e;
        let p = v.into_prisma_value();
        r.push((k, p));
        proof {
            assert(s.take(i + 1).drop_last() =~= s.take(i));
            assert(r@.drop_last() =~= before);
        }
    }
    proof { assert(s.take(s.len() as int) =~= s); }
    r
}


/// The text that a value holds, as `PrismaValue::into_string` gives it: that of a string
/// or of an enum value.
pub open spec fn value_text(p: PrismaValue) -> Option<Seq<char>> {
    match p {
        PrismaValue::String(s) => Option::Some(s@),
        PrismaValue::Enum(s) => Option::Some(s@),
        _ => Option::None,
    }
}

/// The text that an input value converts to, if it converts to a string or enum value.
pub open spec fn input_text(v: ParsedInputValue) -> Option<Seq<char>> {
    match v {
        ParsedInputValue::Single(p) => value_text(p),
        _ => Option::None,
    }
}

pub proof fn lemma_converts_text(v: ParsedInputValue, p: PrismaValue)
    requires
        converts(v, p),
    ensures
        value_text(p) == input_text(v),
{
}

impl PrismaValue {
    /// The text of a string or enum value.
    pub fn into_string(self) -> (r: Option<String>)
        ensures
            match value_text(self) {
                Option::Some(t) => r matches Option::Some(s) && s@ == t,
                Option::None => r is None,
            },
    {
        match self {
            PrismaValue::String(s) => Option::Some(s),
            PrismaValue::Enum(s) => Option::Some(s),
            _ => Option::None,
        }
    }
}

impl ParsedInputValue {
    /// The text that this input converts to, if it converts to a string or enum value.
    pub fn into_text(self) -> (r: Option<String>)
        ensures
            match input_text(self) {
                Option::Some(t) => r matches Option::Some(s) && s@ == t,
                Option::None => r is None,
            },
    {
        match self {
            ParsedInputValue::Single(p) => p.into_string(),
            _ => Option::None,
        }
    }

    /// The boolean that this input converts to, if it converts to one.
    pub fn into_bool(self) -> (r: Option<bool>)
        ensures
            match self {
                ParsedInputValue::Single(PrismaValue::Boolean(b)) => r == Option::Some(b),
                _ => r is None,
            },
    {
        match self {
            ParsedInputValue::Single(PrismaValue::Boolean(b)) => Option::Some(b),
            _ => Option::None,
        }
    }

    /// The list of values that this input converts to, if it converts to a list.
    pub fn into_list(self) -> (r: Option<Vec<PrismaValue>>)
        ensures
            match self {
                ParsedInputValue::List(l) => r matches Option::Some(vs) && converts_all(l@, vs@),
                ParsedInputValue::Single(PrismaValue::List(vs)) => r == Option::Some(vs),
                _ => r is None,
            },
    {
        match self {
            ParsedInputValue::List(l) => Option::Some(convert_all(l)),
            ParsedInputValue::Single(PrismaValue::List(vs)) => Option::Some(vs),
            _ => Option::None,
        }
    }
}

} // verus!
