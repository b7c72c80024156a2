use vstd::prelude::*;
use crate::text::{ends_with, is_suffix};

verus! {

/// The operation that the suffix of a legacy filter key names.
#[derive(Debug, PartialEq, Eq, Clone, Copy, Structural)]
pub enum FilterOp {
    In,
    NotIn,
    Not,
    Lt,
    Lte,
    Gt,
    Gte,
    Contains,
    NotContains,
    StartsWith,
    NotStartsWith,
    EndsWith,
    NotEndsWith,
    SomeRelated,
    NoneRelated,
    Every,
    NestedAnd,
    NestedOr,
    NestedNot,
    Field,
}

/// The filter operations in the order in which a key is checked against their suffixes:
/// longer suffixes that end in a shorter one come first, and `Field` (empty suffix) last.
pub open spec fn filter_operations() -> Seq<FilterOp> {
    seq![
        FilterOp::NotIn,
        FilterOp::NotContains,
        FilterOp::NotStartsWith,
        FilterOp::NotEndsWith,
        FilterOp::In,
        FilterOp::Not,
        FilterOp::Lt,
        FilterOp::Lte,
        FilterOp::Gt,
        FilterOp::Gte,
        FilterOp::Contains,
        FilterOp::StartsWith,
        FilterOp::EndsWith,
        FilterOp::SomeRelated,
        FilterOp::NoneRelated,
        FilterOp::Every,
        FilterOp::NestedAnd,
        FilterOp::NestedOr,
        FilterOp::NestedNot,
        FilterOp::Field,
    ]
}

/// The key suffix of an operation.
pub open spec fn op_suffix(op: FilterOp) -> Seq<char> {
    match op {
        FilterOp::In => seq!['_', 'i', 'n'],
        FilterOp::NotIn => seq!['_', 'n', 'o', 't', '_', 'i', 'n'],
        FilterOp::Not => seq!['_', 'n', 'o', 't'],
        FilterOp::Lt => seq!['_', 'l', 't'],
        FilterOp::Lte => seq!['_', 'l', 't', 'e'],
        FilterOp::Gt => seq!['_', 'g', 't'],
        FilterOp::Gte => seq!['_', 'g', 't', 'e'],
        FilterOp::Contains => seq!['_', 'c', 'o', 'n', 't', 'a', 'i', 'n', 's'],
        FilterOp::NotContains => seq!['_', 'n', 'o', 't', '_', 'c', 'o', 'n', 't', 'a', 'i', 'n', 's'],
        FilterOp::StartsWith => seq!['_', 's', 't', 'a', 'r', 't', 's', '_', 'w', 'i', 't', 'h'],
        FilterOp::NotStartsWith => seq!['_', 'n', 'o', 't', '_', 's', 't', 'a', 'r', 't', 's', '_', 'w', 'i', 't', 'h'],
        FilterOp::EndsWith => seq!['_', 'e', 'n', 'd', 's', '_', 'w', 'i', 't', 'h'],
        FilterOp::NotEndsWith => seq!['_', 'n', 'o', 't', '_', 'e', 'n', 'd', 's', '_', 'w', 'i', 't', 'h'],
        FilterOp::SomeRelated => seq!['_', 's', 'o', 'm', 'e'],
        FilterOp::NoneRelated => seq!['_', 'n', 'o', 'n', 'e'],
        FilterOp::Every => seq!['_', 'e', 'v', 'e', 'r', 'y'],
        FilterOp::NestedAnd => seq!['A', 'N', 'D'],
        FilterOp::NestedOr => seq!['O', 'R'],
        FilterOp::NestedNot => seq!['N', 'O', 'T'],
        FilterOp::Field => Seq::empty(),
    }
}

/// The index in `filter_operations()` of the first operation whose suffix ends `name`.
pub open spec fn first_matching_op(name: Seq<char>, k: int) -> bool {
    &&& 0 <= k < filter_operations().len()
    &&& is_suffix(op_suffix(filter_operations()[k]), name)
    &&& forall|j: int| 0 <= j < k ==> !is_suffix(op_suffix(#[trigger] filter_operations()[j]), name)
}

fn filter_operation(i: usize) -> (op: FilterOp)
    requires
        i < 20,
    ensures
        op == filter_operations()[i as int],
{
    match i {
        0 => FilterOp::NotIn,
        1 => FilterOp::NotContains,
        2 => FilterOp::NotStartsWith,
        3 => FilterOp::NotEndsWith,
        4 => FilterOp::In,
        5 => FilterOp::Not,
        6 => FilterOp::Lt,
        7 => FilterOp::Lte,
        8 => FilterOp::Gt,
        9 => FilterOp::Gte,
        10 => FilterOp::Contains,
        11 => FilterOp::StartsWith,
        12 => FilterOp::EndsWith,
        13 => FilterOp::SomeRelated,
        14 => FilterOp::NoneRelated,
        15 => FilterOp::Every,
        16 => FilterOp::NestedAnd,
        17 => FilterOp::NestedOr,
        18 => FilterOp::NestedNot,
        _ => FilterOp::Field,
    }
}

impl FilterOp {
    /// The operation that the key `name` names by its suffix: the first one, in the order of
    /// `filter_operations()`, whose suffix ends `name`. The empty suffix of `Field` ends every
    /// key, so there always is one.
    pub fn find_op(name: &str) -> (op: Option<FilterOp>)
        ensures
            op matches Option::Some(o) && exists|k: int| first_matching_op(name@, k) && filter_operations()[k] == o,
    {
        let mut i: usize = 0;
        while i < 20
            invariant
                i <= 20,
                forall|j: int| 0 <= j < i ==> !is_suffix(op_suffix(#[trigger] filter_operations()[j]), name@),
            decreases 20 - i,
        {
            let op = filter_operation(i);
            if ends_with(name, op.suffix()) {
                assert(first_matching_op(name@, i as int));
                return Option::Some(op);
            }
            i = i + 1;
        }
        proof {
            assert(is_suffix(op_suffix(FilterOp::Field), name@)) by {
                assert(name@.subrange(name@.len() as int, name@.len() as int) =~= Seq::<char>::empty());
            }
            assert(!is_suffix(op_suffix(filter_operations()[19]), name@));
        }
        Option::None
    }

    /// The key suffix of the operation.
    pub fn suffix(self) -> (s: &'static str)
        ensures
            s@ == op_suffix(self),
    {
        proof {
            reveal_strlit("_in");
            reveal_strlit("_not_in");
            reveal_strlit("_not");
            reveal_strlit("_lt");
            reveal_strlit("_lte");
            reveal_strlit("_gt");
            reveal_strlit("_gte");
            reveal_strlit("_contains");
            reveal_strlit("_not_contains");
            reveal_strlit("_starts_with");
            reveal_strlit("_not_starts_with");
            reveal_strlit("_ends_with");
            reveal_strlit("_not_ends_with");
            reveal_strlit("_some");
            reveal_strlit("_none");
            reveal_strlit("_every");
            reveal_strlit("AND");
            reveal_strlit("OR");
            reveal_strlit("NOT");
            reveal_strlit("");
        }
        match self {
            FilterOp::In => "_in",
            FilterOp::NotIn => "_not_in",
            FilterOp::Not => "_not",
            FilterOp::Lt => "_lt",
            FilterOp::Lte => "_lte",
            FilterOp::Gt => "_gt",
            FilterOp::Gte => "_gte",
            FilterOp::Contains => "_contains",
            FilterOp::NotContains => "_not_contains",
            FilterOp::StartsWith => "_starts_with",
            FilterOp::NotStartsWith => "_not_starts_with",
            FilterOp::EndsWith => "_ends_with",
            FilterOp::NotEndsWith => "_not_ends_with",
            FilterOp::SomeRelated => "_some",
            FilterOp::NoneRelated => "_none",
            FilterOp::Every => "_every",
            FilterOp::NestedAnd => "AND",
            FilterOp::NestedOr => "OR",
            FilterOp::NestedNot => "NOT",
            FilterOp::Field => "",
        }
    }
}

/// The place of an operation in `filter_operations()`.
pub open spec fn op_position(op: FilterOp) -> int {
    match op {
        FilterOp::NotIn => 0,
        FilterOp::NotContains => 1,
        FilterOp::NotStartsWith => 2,
        FilterOp::NotEndsWith => 3,
        FilterOp::In => 4,
        FilterOp::Not => 5,
        FilterOp::Lt => 6,
        FilterOp::Lte => 7,
        FilterOp::Gt => 8,
        FilterOp::Gte => 9,
        FilterOp::Contains => 10,
        FilterOp::StartsWith => 11,
        FilterOp::EndsWith => 12,
        FilterOp::SomeRelated => 13,
        FilterOp::NoneRelated => 14,
        FilterOp::Every => 15,
        FilterOp::NestedAnd => 16,
        FilterOp::NestedOr => 17,
        FilterOp::NestedNot => 18,
        FilterOp::Field => 19,
    }
}

/// No operation checked before `op` has a suffix that ends the suffix of `op`.
proof fn lemma_no_earlier_suffix(op: FilterOp, j: int)
    requires
        0 <= j < op_position(op),
    ensures
        !is_suffix(op_suffix(filter_operations()[j]), op_suffix(op)),
{
    let a = op_suffix(filter_operations()[j]);
    let b = op_suffix(op);
    if a.len() <= b.len() {
        let t = b.subrange(b.len() - a.len(), b.len() as int);
        assert(t[0] != a[0] || t[1] != a[1] || t[a.len() - 1] != a[a.len() - 1]);
    }
}

/// Looking an operation up by its own key suffix gives that operation back: whatever key
/// ends in the suffix of `op` and in no suffix checked before it names `op`, and the suffix
/// of `op` is such a key. So no two operations share a suffix.
pub proof fn lemma_find_op_suffix(op: FilterOp, k: int)
    requires
        first_matching_op(op_suffix(op), k),
    ensures
        filter_operations()[k] == op,
        forall|other: FilterOp| op_suffix(other) == op_suffix(op) ==> other == op,
{
    let i = op_position(op);
    assert(filter_operations()[i] == op);
    let b = op_suffix(op);
    assert(is_suffix(b, b)) by {
        assert(b.subrange(0, b.len() as int) =~= b);
    }
    if k < i {
        lemma_no_earlier_suffix(op, k);
    } else if k > i {
        assert(!is_suffix(op_suffix(filter_operations()[i]), b));
    }
    assert forall|other: FilterOp| op_suffix(other) == op_suffix(op) implies other == op by {
        let io = op_position(other);
        assert(filter_operations()[io] == other);
        if io < i {
            lemma_no_earlier_suffix(op, io);
        } else if io > i {
            lemma_no_earlier_suffix(other, i);
        }
    }
}

} // verus!
