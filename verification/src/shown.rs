use vstd::prelude::*;
use vstd::string::StrSliceExecFns;
use crate::text::{decimal, push_decimal, push_signed_decimal, signed_decimal};
use crate::values::{ObjectTag, ParsedInputMap, ParsedInputValue, PrismaValue};

verus! {

/// How a character stands inside a quoted text: a quote, a backslash, a newline, a carriage
/// return, a tab and the null character are escaped with a backslash; every other character
/// stands for itself.
pub open spec fn escaped_char(c: char) -> Seq<char> {
    if c == '"' {
        seq!['\\', '"']
    } else if c == '\\' {
        seq!['\\', '\\']
    } else if c == '\n' {
        seq!['\\', 'n']
    } else if c == '\r' {
        seq!['\\', 'r']
    } else if c == '\t' {
        seq!['\\', 't']
    } else if c == '\0' {
        seq!['\\', '0']
    } else {
        seq![c]
    }
}

/// The characters of `s`, each as `escaped_char` writes it.
pub open spec fn escaped(s: Seq<char>) -> Seq<char>
    decreases s.len(),
{
    if s.len() == 0 {
        Seq::empty()
    } else {
        escaped(s.drop_last()) + escaped_char(s.last())
    }
}

/// A text in double quotes, escaped.
pub open spec fn quoted(s: Seq<char>) -> Seq<char> {
    seq!['"'] + escaped(s) + seq!['"']
}

/// The separator written before the `i`-th element of a list.
pub open spec fn separator(i: int) -> Seq<char> {
    if i == 0 {
        Seq::empty()
    } else {
        ", "@
    }
}

/// The text of a value: the variant's name and, in brackets, its content, as `{:?}` writes
/// it for ordinary text (see `escaped_char`).
pub open spec fn shown_value(v: PrismaValue) -> Seq<char>
    decreases v, 1int,
{
    match v {
        PrismaValue::Null => "Null"@,
        PrismaValue::Boolean(b) => "Boolean("@ + (if b { "true"@ } else { "false"@ }) + ")"@,
        PrismaValue::Int(n) => "Int("@ + signed_decimal(n as int) + ")"@,
        PrismaValue::BigInt(n) => "BigInt("@ + signed_decimal(n as int) + ")"@,
        PrismaValue::String(s) => "String("@ + quoted(s@) + ")"@,
        PrismaValue::Enum(s) => "Enum("@ + quoted(s@) + ")"@,
        PrismaValue::Json(s) => "Json("@ + quoted(s@) + ")"@,
        PrismaValue::Bytes(b) => "Bytes(["@ + shown_bytes(b@) + "])"@,
        PrismaValue::List(l) => "List(["@ + shown_values(l@) + "])"@,
        PrismaValue::Object(es) => "Object(["@ + shown_fields(es@) + "])"@,
    }
}

/// The texts of the bytes `s`, in decimal, separated by commas.
pub open spec fn shown_bytes(s: Seq<u8>) -> Seq<char>
    decreases s.len(),
{
    if s.len() == 0 {
        Seq::empty()
    } else {
        shown_bytes(s.drop_last()) + separator(s.len() - 1) + decimal(s.last() as nat)
    }
}

/// The texts of the values `s`, separated by commas.
pub open spec fn shown_values(s: Seq<PrismaValue>) -> Seq<char>
    decreases s, 0int,
{
    if s.len() == 0 {
        Seq::empty()
    } else {
        shown_values(s.drop_last()) + separator(s.len() - 1) + shown_value(s.last())
    }
}

/// The texts of the named values `s`, each as a pair in brackets, separated by commas.
pub open spec fn shown_fields(s: Seq<(String, PrismaValue)>) -> Seq<char>
    decreases s, 0int,
{
    if s.len() == 0 {
        Seq::empty()
    } else {
        shown_fields(s.drop_last()) + separator(s.len() - 1) + "("@ + quoted(s.last().0@) + ", "@ + shown_value(
            s.last().1,
        ) + ")"@
    }
}

/// The text of an object tag.
pub open spec fn shown_tag(t: Option<ObjectTag>) -> Seq<char> {
    match t {
        Option::None => "None"@,
        Option::Some(ObjectTag::CompositeEnvelope) => "Some(CompositeEnvelope)"@,
        Option::Some(ObjectTag::FieldRefType(s)) => "Some(FieldRefType("@ + quoted(s@) + "))"@,
        Option::Some(ObjectTag::Other) => "Some(Other)"@,
    }
}

/// The text of an input value, as `{:?}` writes it for ordinary text (see `escaped_char`).
pub open spec fn shown_input(v: ParsedInputValue) -> Seq<char>
    decreases v, 2int,
{
    match v {
        ParsedInputValue::Single(p) => "Single("@ + shown_value(p) + ")"@,
        ParsedInputValue::List(l) => "List(["@ + shown_inputs(l@) + "])"@,
        ParsedInputValue::Object(m) => "Object("@ + shown_map(m) + ")"@,
    }
}

/// The text of an input object.
pub open spec fn shown_map(m: ParsedInputMap) -> Seq<char>
    decreases m, 1int,
{
    "ParsedInputMap { tag: "@ + shown_tag(m.tag) + ", entries: ["@ + shown_entries(m.entries@) + "] }"@
}

/// The texts of the input values `s`, separated by commas.
pub open spec fn shown_inputs(s: Seq<ParsedInputValue>) -> Seq<char>
    decreases s, 0int,
{
    if s.len() == 0 {
        Seq::empty()
    } else {
        shown_inputs(s.drop_last()) + separator(s.len() - 1) + shown_input(s.last())
    }
}

/// The texts of the entries `s` of an input object, each as a pair in brackets, separated by
/// commas.
pub open spec fn shown_entries(s: Seq<(String, ParsedInputValue)>) -> Seq<char>
    decreases s, 0int,
{
    if s.len() == 0 {
        Seq::empty()
    } else {
        shown_entries(s.drop_last()) + separator(s.len() - 1) + "("@ + quoted(s.last().0@) + ", "@ + shown_input(
            s.last().1,
        ) + ")"@
    }
}

/// Appends `s`, quoted, to `out`.
fn push_quoted(out: &mut String, s: &str)
    ensures
        final(out)@ == old(out)@ + quoted(s@),
{
    proof {
        reveal_strlit("\"");
        reveal_strlit("\\\"");
        reveal_strlit("\\\\");
        reveal_strlit("\\n");
        reveal_strlit("\\r");
        reveal_strlit("\\t");
        reveal_strlit("\\0");
    }
    let ghost start = out@;
    out.append("\"");
    let n = s.unicode_len();
    let mut i: usize = 0;
    while i < n
        invariant
            n == s@.len(),
            i <= n,
            out@ == start + seq!['"'] + escaped(s@.take(i as int)),
        decreases n - i,
    {
        proof {
            reveal_strlit("\\\"");
            reveal_strlit("\\\\");
            reveal_strlit("\\n");
            reveal_strlit("\\r");
            reveal_strlit("\\t");
            reveal_strlit("\\0");
            assert(s@.take(i + 1).drop_last() =~= s@.take(i as int));
            assert(s@.take(i + 1).last() == s@[i as int]);
        }
        let c = s.get_char(i);
        let ghost before = out@;
        if c == '"' {
            out.append("\\\"");
        } else if c == '\\' {
            out.append("\\\\");
        } else if c == '\n' {
            out.append("\\n");
        } else if c == '\r' {
            out.append("\\r");
        } else if c == '\t' {
            out.append("\\t");
        } else if c == '\0' {
            out.append("\\0");
        } else {
            out.append(s.substring_char(i, i + 1));
            assert(s@.subrange(i as int, i + 1) =~= seq![c]);
        }
        assert(out@ =~= start + seq!['"'] + escaped(s@.take(i + 1)));
        i = i + 1;
    }
    assert(s@.take(n as int) =~= s@);
    out.append("\"");
    assert(out@ =~= old(out)@ + quoted(s@));
}

/// Appends the separator before the `i`-th element of a list to `out`.
fn push_separator(out: &mut String, i: usize)
    ensures
        final(out)@ == old(out)@ + separator(i as int),
{
    if i > 0 {
        out.append(", ");
    } else {
        assert(old(out)@ + separator(i as int) =~= old(out)@);
    }
}

/// Appends the text of `v` to `out`.
fn push_value_text(out: &mut String, v: &PrismaValue)
    ensures
        final(out)@ == old(out)@ + shown_value(*v),
    decreases *v, 1int,
{
    let ghost start = out@;
    match v {
        PrismaValue::Null => {
            out.append("Null");
        },
        PrismaValue::Boolean(b) => {
            out.append("Boolean(");
            if *b {
                out.append("true");
            } else {
                out.append("false");
            }
            out.append(")");
        },
        PrismaValue::Int(n) => {
            out.append("Int(");
            push_signed_decimal(out, *n);
            out.append(")");
        },
        PrismaValue::BigInt(n) => {
            out.append("BigInt(");
            push_signed_decimal(out, *n);
            out.append(")");
        },
        PrismaValue::String(t) => {
            out.append("String(");
            push_quoted(out, t.as_str());
            out.append(")");
        },
        PrismaValue::Enum(t) => {
            out.append("Enum(");
            push_quoted(out, t.as_str());
            out.append(")");
        },
        PrismaValue::Json(t) => {
            out.append("Json(");
            push_quoted(out, t.as_str());
            out.append(")");
        },
        PrismaValue::Bytes(b) => {
            out.append("Bytes([");
            push_bytes_text(out, b);
            out.append("])");
        },
        PrismaValue::List(l) => {
            out.append("List([");
            push_values_text(out, l);
            out.append("])");
        },
        PrismaValue::Object(es) => {
            out.append("Object([");
            push_fields_text(out, es);
            out.append("])");
        },
    }
    assert(out@ =~= start + shown_value(*v));
}

fn push_bytes_text(out: &mut String, b: &Vec<u8>)
    ensures
        final(out)@ == old(out)@ + shown_bytes(b@),
{
    let ghost start = out@;
    let n = b.len();
    let mut i: usize = 0;
    while i < n
        invariant
            n == b@.len(),
            i <= n,
            out@ == start + shown_bytes(b@.take(i as int)),
        decreases n - i,
    {
        proof {
            assert(b@.take(i + 1).drop_last() =~= b@.take(i as int));
            assert(b@.take(i + 1).last() == b@[i as int]);
        }
        push_separator(out, i);
        push_decimal(out, b[i] as u64);
        assert(out@ =~= start + shown_bytes(b@.take(i + 1)));
        i = i + 1;
    }
    assert(b@.take(n as int) =~= b@);
}

fn push_values_text(out: &mut String, l: &Vec<PrismaValue>)
    ensures
        final(out)@ == old(out)@ + shown_values(l@),
    decreases l@, 0int,
{
    let ghost start = out@;
    let n = l.len();
    let mut i: usize = 0;
    while i < n
        invariant
            n == l@.len(),
            i <= n,
            out@ == start + shown_values(l@.take(i as int)),
        decreases n - i,
    {
        proof {
            assert(l@.take(i + 1).drop_last() =~= l@.take(i as int));
            assert(l@.take(i + 1).last() == l@[i as int]);
        }
        push_separator(out, i);
        push_value_text(out, &l[i]);
        assert(out@ =~= start + shown_values(l@.take(i + 1)));
        i = i + 1;
    }
    assert(l@.take(n as int) =~= l@);
}

fn push_fields_text(out: &mut String, es: &Vec<(String, PrismaValue)>)
    ensures
        final(out)@ == old(out)@ + shown_fields(es@),
    decreases es@, 0int,
{
    let ghost start = out@;
    let n = es.len();
    let mut i: usize = 0;
    while i < n
        invariant
            n == es@.len(),
            i <= n,
            out@ == start + shown_fields(es@.take(i as int)),
        decreases n - i,
    {
        proof {
            assert(es@.take(i + 1).drop_last() =~= es@.take(i as int));
            assert(es@.take(i + 1).last() == es@[i as int]);
        }
        push_separator(out, i);
        out.append("(");
        push_quoted(out, es[i].0.as_str());
        out.append(", ");
        push_value_text(out, &es[i].1);
        out.append(")");
        assert(out@ =~= start + shown_fields(es@.take(i + 1)));
        i = i + 1;
    }
    assert(es@.take(n as int) =~= es@);
}

impl PrismaValue {
    /// The text of the value, as `shown_value` states it.
    pub fn debug_text(&self) -> (s: String)
        ensures
            s@ == shown_value(*self),
    {
        let mut out = String::new();
        push_value_text(&mut out, self);
        out
    }
}

/// Appends the text of `v` to `out`.
fn push_input_text(out: &mut String, v: &ParsedInputValue)
    ensures
        final(out)@ == old(out)@ + shown_input(*v),
    decreases *v, 2int,
{
    let ghost start = out@;
    match v {
        ParsedInputValue::Single(p) => {
            out.append("Single(");
            push_value_text(out, p);
            out.append(")");
        },
        ParsedInputValue::List(l) => {
            out.append("List([");
            push_inputs_text(out, l);
            out.append("])");
        },
        ParsedInputValue::Object(m) => {
            out.append("Object(");
            push_map_text(out, m);
            out.append(")");
        },
    }
    assert(out@ =~= start + shown_input(*v));
}

fn push_map_text(out: &mut String, m: &ParsedInputMap)
    ensures
        final(out)@ == old(out)@ + shown_map(*m),
    decreases *m, 1int,
{
    let ghost start = out@;
    out.append("ParsedInputMap { tag: ");
    match &m.tag {
        Option::None => {
            out.append("None");
        },
        Option::Some(ObjectTag::CompositeEnvelope) => {
            out.append("Some(CompositeEnvelope)");
        },
        Option::Some(ObjectTag::FieldRefType(t)) => {
            out.append("Some(FieldRefType(");
            push_quoted(out, t.as_str());
            out.append("))");
        },
        Option::Some(ObjectTag::Other) => {
            out.append("Some(Other)");
        },
    }
    out.append(", entries: [");
    push_entries_text(out, &m.entries);
    out.append("] }");
    assert(out@ =~= start + shown_map(*m));
}

fn push_inputs_text(out: &mut String, l: &Vec<ParsedInputValue>)
    ensures
        final(out)@ == old(out)@ + shown_inputs(l@),
    decreases l@, 0int,
{
    let ghost start = out@;
    let n = l.len();
    let mut i: usize = 0;
    while i < n
        invariant
            n == l@.len(),
            i <= n,
            out@ == start + shown_inputs(l@.take(i as int)),
        decreases n - i,
    {
        proof {
            assert(l@.take(i + 1).drop_last() =~= l@.take(i as int));
            assert(l@.take(i + 1).last() == l@[i as int]);
        }
        push_separator(out, i);
        push_input_text(out, &l[i]);
        assert(out@ =~= start + shown_inputs(l@.take(i + 1)));
        i = i + 1;
    }
    assert(l@.take(n as int) =~= l@);
}

fn push_entries_text(out: &mut String, es: &Vec<(String, ParsedInputValue)>)
    ensures
        final(out)@ == old(out)@ + shown_entries(es@),
    decreases es@, 0int,
{
    let ghost start = out@;
    let n = es.len();
    let mut i: usize = 0;
    while i < n
        invariant
            n == es@.len(),
            i <= n,
            out@ == start + shown_entries(es@.take(i as int)),
        decreases n - i,
    {
        proof {
            assert(es@.take(i + 1).drop_last() =~= es@.take(i as int));
            assert(es@.take(i + 1).last() == es@[i as int]);
        }
        push_separator(out, i);
        out.append("(");
        push_quoted(out, es[i].0.as_str());
        out.append(", ");
        push_input_text(out, &es[i].1);
        out.append(")");
        assert(out@ =~= start + shown_entries(es@.take(i + 1)));
        i = i + 1;
    }
    assert(es@.take(n as int) =~= es@);
}

impl ParsedInputValue {
    /// The text of the input value, as `shown_input` states it.
    pub fn debug_text(&self) -> (s: String)
        ensures
            s@ == shown_input(*self),
    {
        let mut out = String::new();
        push_input_text(&mut out, self);
        out
    }
}

} // verus!
