use vstd::prelude::*;
use crate::query_args::names_scalar;
use crate::query_graph::names;
use crate::schema::{Container, Field};
use crate::values::{ParsedInputValue, PrismaValue};
use crate::write_utils::{merge_fields, merged};

verus! {

/// A field of a parsed selection, with its arguments and its nested selection.
#[derive(Debug)]
pub struct ParsedField {
    pub name: String,
    pub alias: Option<String>,
    pub arguments: Vec<(String, ParsedInputValue)>,
    pub nested_fields: Option<ParsedObject>,
}

/// A parsed selection: its fields in order.
#[derive(Debug)]
pub struct ParsedObject {
    pub fields: Vec<FieldPair>,
}

/// A field of a selection as the parser pairs it with the schema.
#[derive(Debug)]
pub struct FieldPair {
    pub parsed_field: ParsedField,
}

/// The key under which a field's result is returned: its alias, or its name.
pub open spec fn result_key(f: ParsedField) -> Seq<char> {
    match f.alias {
        Option::Some(a) => a@,
        Option::None => f.name@,
    }
}

/// The keys of a selection's results, in the order of the selection: each field's alias, or
/// its name where it has none.
pub fn collect_selection_order(from: &Vec<FieldPair>) -> (r: Vec<String>)
    ensures
        r@.len() == from@.len(),
        forall|i: int| 0 <= i < from@.len() ==> (#[trigger] r@[i])@ == result_key(from@[i].parsed_field),
{
    let mut out: Vec<String> = Vec::new();
    let n = from.len();
    let mut i: usize = 0;
    while i < n
        invariant
            n == from@.len(),
            i <= n,
            out@.len() == i,
            forall|j: int| 0 <= j < i ==> (#[trigger] out@[j])@ == result_key(from@[j].parsed_field),
        decreases n - i,
    {
        let f = &from[i].parsed_field;
        let key = match &f.alias {
            Option::Some(a) => a.clone(),
            Option::None => f.name.clone(),
        };
        out.push(key);
        i = i + 1;
    }
    out
}

/// The names of the fields of a nested selection, none where there is no nested selection
/// or it is empty.
pub open spec fn nested_names(f: ParsedField) -> Option<Seq<Seq<char>>> {
    match f.nested_fields {
        Option::Some(o) => if o.fields@.len() == 0 {
            Option::None
        } else {
            Option::Some(o.fields@.map_values(|p: FieldPair| p.parsed_field.name@))
        },
        Option::None => Option::None,
    }
}

/// The names of the fields of a selection, each with the names of its nested fields.
pub fn collect_selection_tree(fields: &Vec<FieldPair>) -> (r: Vec<(String, Option<Vec<String>>)>)
    ensures
        r@.len() == fields@.len(),
        forall|i: int|
            0 <= i < fields@.len() ==> (#[trigger] r@[i]).0@ == fields@[i].parsed_field.name@ && match nested_names(
                fields@[i].parsed_field,
            ) {
                Option::Some(ns) => r@[i].1 matches Option::Some(v) && v@.map_values(|s: String| s@) == ns,
                Option::None => r@[i].1 is None,
            },
{
    let mut out: Vec<(String, Option<Vec<String>>)> = Vec::new();
    let n = fields.len();
    let mut i: usize = 0;
    while i < n
        invariant
            n == fields@.len(),
            i <= n,
            out@.len() == i,
            forall|j: int|
                0 <= j < i ==> (#[trigger] out@[j]).0@ == fields@[j].parsed_field.name@ && match nested_names(
                    fields@[j].parsed_field,
                ) {
                    Option::Some(ns) => out@[j].1 matches Option::Some(v) && v@.map_values(|s: String| s@) == ns,
                    Option::None => out@[j].1 is None,
                },
        decreases n - i,
    {
        let f = &fields[i].parsed_field;
        let nested: Option<Vec<String>> = match &f.nested_fields {
            Option::Some(o) => {
                let mut names: Vec<String> = Vec::new();
                let m = o.fields.len();
                let mut k: usize = 0;
                while k < m
                    invariant
                        m == o.fields@.len(),
                        k <= m,
                        names@.len() == k,
                        forall|j: int| 0 <= j < k ==> (#[trigger] names@[j])@ == o.fields@[j].parsed_field.name@,
                    decreases m - k,
                {
                    names.push(o.fields[k].parsed_field.name.clone());
                    k = k + 1;
                }
                assert(names@.map_values(|s: String| s@) =~= o.fields@.map_values(
                    |p: FieldPair| p.parsed_field.name@,
                ));
                if names.len() == 0 {
                    Option::None
                } else {
                    Option::Some(names)
                }
            },
            Option::None => Option::None,
        };
        out.push((f.name.clone(), nested));
        i = i + 1;
    }
    out
}

/// The scalar fields of `parent` that `names_in` names, in order.
pub open spec fn scalar_names(parent: Container, names_in: Seq<Seq<char>>) -> Seq<Seq<char>>
    decreases names_in.len(),
{
    if names_in.len() == 0 {
        Seq::empty()
    } else {
        let rest = scalar_names(parent, names_in.drop_last());
        if names_scalar(parent, names_in.last()) {
            rest.push(names_in.last())
        } else {
            rest
        }
    }
}

/// The names of the fields of a selection.
pub open spec fn pair_names(pairs: Seq<FieldPair>) -> Seq<Seq<char>> {
    pairs.map_values(|p: FieldPair| p.parsed_field.name@)
}

/// The scalar fields of `parent` that a selection selects, in order.
pub fn pairs_to_scalar_selections(parent: &Container, pairs: &Vec<FieldPair>) -> (r: Vec<String>)
    ensures
        names(r@) == scalar_names(*parent, pair_names(pairs@)),
{
    let ghost sel = pair_names(pairs@);
    let mut out: Vec<String> = Vec::new();
    let n = pairs.len();
    let mut i: usize = 0;
    assert(sel.take(0) =~= Seq::<Seq<char>>::empty());
    while i < n
        invariant
            n == pairs@.len(),
            sel == pair_names(pairs@),
            i <= n,
            names(out@) == scalar_names(*parent, sel.take(i as int)),
        decreases n - i,
    {
        let name = &pairs[i].parsed_field.name;
        assert(sel.take(i + 1).drop_last() =~= sel.take(i as int));
        assert(sel.take(i + 1).last() == name@);
        let is_scalar = match parent.find_field(name.as_str()) {
            Option::Some(Field::Scalar(_)) => true,
            _ => false,
        };
        assert(is_scalar == names_scalar(*parent, name@));
        if is_scalar {
            let ghost before = out@;
            out.push(name.clone());
            proof { assert(names(out@) =~= names(before).push(name@)); }
        }
        i = i + 1;
    }
    assert(sel.take(n as int) =~= sel);
    out
}

/// The scalar fields that a selection reads on `model`: the primary identifier of the model,
/// then the scalar fields selected, each once.
pub fn collect_selected_scalars(from_pairs: &Vec<FieldPair>, model: &Container) -> (r: Vec<String>)
    ensures
        names(r@) == merged(names(model.primary_identifier@), scalar_names(*model, pair_names(from_pairs@))),
{
    let selected = pairs_to_scalar_selections(model, from_pairs);
    merge_fields(&model.primary_identifier, &selected)
}

/// The names of the fields of cursor values, in order.
pub open spec fn cursor_names(cursor: Seq<(String, PrismaValue)>) -> Seq<Seq<char>> {
    cursor.map_values(|p: (String, PrismaValue)| p.0@)
}

/// The fields that a read selects once the fields of its cursor are added, each once: a
/// cursor needs its fields to page through the records that the read returns.
pub fn merge_cursor_fields(selected_fields: Vec<String>, cursor: &Option<Vec<(String, PrismaValue)>>) -> (r: Vec<String>)
    ensures
        match cursor {
            Option::Some(c) => names(r@) == merged(names(selected_fields@), cursor_names(c@)),
            Option::None => r@ == selected_fields@,
        },
{
    match cursor {
        Option::Some(c) => {
            let mut fields: Vec<String> = Vec::new();
            let n = c.len();
            let mut i: usize = 0;
            while i < n
                invariant
                    n == c@.len(),
                    i <= n,
                    names(fields@) == cursor_names(c@).take(i as int),
                decreases n - i,
            {
                let ghost before = fields@;
                fields.push(c[i].0.clone());
                proof {
                    assert(names(fields@) =~= names(before).push(c@[i as int].0@));
                    assert(cursor_names(c@).take(i + 1) =~= cursor_names(c@).take(i as int).push(c@[i as int].0@));
                }
                i = i + 1;
            }
            proof { assert(cursor_names(c@).take(n as int) =~= cursor_names(c@)); }
            merge_fields(&selected_fields, &fields)
        },
        Option::None => selected_fields,
    }
}

} // verus!
