use vstd::prelude::*;
use crate::filter::{
    Filter, FilterTree, tree, trees, holds, all_hold, any_holds, lemma_all_hold_append,
    lemma_trees_push, lemma_trees_take_next, lemma_trees_append, atoms, all_atoms, lemma_all_atoms_append,
    lemma_all_atoms_push,
};

verus! {

/// The three kinds of group in a filter.
#[derive(Debug, Clone, Copy, PartialEq, Eq, Structural)]
pub enum GroupKind {
    And,
    Or,
    Not,
}

/// The group of kind `kind` with members `s`.
pub open spec fn group(kind: GroupKind, s: Seq<FilterTree>) -> FilterTree {
    match kind {
        GroupKind::And => FilterTree::And(s),
        GroupKind::Or => FilterTree::Or(s),
        GroupKind::Not => FilterTree::Not(s),
    }
}

/// Flattening of a filter tree: inside a group of some kind, every member group of the
/// same kind is replaced by its (flattened) members; member groups of another kind are
/// kept, with their own members flattened in turn. Atoms are kept as they are.
pub open spec fn flatten_tree(t: FilterTree) -> FilterTree {
    match t {
        FilterTree::And(s) => FilterTree::And(flat_items(s, GroupKind::And)),
        FilterTree::Or(s) => FilterTree::Or(flat_items(s, GroupKind::Or)),
        FilterTree::Not(s) => FilterTree::Not(flat_items(s, GroupKind::Not)),
        FilterTree::Atom(_) => t,
    }
}

/// The flattened members of a group of kind `parent` with members `s`.
pub open spec fn flat_items(s: Seq<FilterTree>, parent: GroupKind) -> Seq<FilterTree>
    decreases s,
{
    if s.len() == 0 {
        Seq::empty()
    } else {
        let rest = flat_items(s.drop_last(), parent);
        match s.last() {
            FilterTree::And(inner) => if parent == GroupKind::And {
                rest + flat_items(inner, GroupKind::And)
            } else {
                rest.push(FilterTree::And(flat_items(inner, GroupKind::And)))
            },
            FilterTree::Or(inner) => if parent == GroupKind::Or {
                rest + flat_items(inner, GroupKind::Or)
            } else {
                rest.push(FilterTree::Or(flat_items(inner, GroupKind::Or)))
            },
            FilterTree::Not(inner) => if parent == GroupKind::Not {
                rest + flat_items(inner, GroupKind::Not)
            } else {
                rest.push(FilterTree::Not(flat_items(inner, GroupKind::Not)))
            },
            FilterTree::Atom(_) => rest.push(s.last()),
        }
    }
}

/// No `Not` group of the tree has a `Not` group as a direct member.
pub open spec fn no_double_negation(t: FilterTree) -> bool
    decreases t, 1int,
{
    match t {
        FilterTree::And(s) => all_free_of_double_negation(s, false),
        FilterTree::Or(s) => all_free_of_double_negation(s, false),
        FilterTree::Not(s) => all_free_of_double_negation(s, true),
        FilterTree::Atom(_) => true,
    }
}

/// Every tree of `s` is free of double negation, and, when `in_not`, none of them is a `Not` group.
pub open spec fn all_free_of_double_negation(s: Seq<FilterTree>, in_not: bool) -> bool
    decreases s, 0int,
{
    if s.len() == 0 {
        true
    } else {
        &&& all_free_of_double_negation(s.drop_last(), in_not)
        &&& no_double_negation(s.last())
        &&& (in_not ==> !(s.last() is Not))
    }
}

/// Merges every group of a filter into its parent where both are of the same kind, as
/// `flatten_tree` says.
pub fn flatten_filter(filter: Filter) -> (flattened: Filter)
    ensures
        tree(flattened) == flatten_tree(tree(filter)),
{
    match filter {
        Filter::And(ands) => Filter::And(flatten_filters(ands, GroupKind::And)),
        Filter::Or(ors) => Filter::Or(flatten_filters(ors, GroupKind::Or)),
        Filter::Not(nots) => Filter::Not(flatten_filters(nots, GroupKind::Not)),
        f => f,
    }
}

fn flatten_filters(filters: Vec<Filter>, parent: GroupKind) -> (flattened: Vec<Filter>)
    ensures
        trees(flattened@) == flat_items(trees(filters@), parent),
    decreases filters@, 0int,
{
    let ghost s = filters@;
    let mut flattened: Vec<Filter> = Vec::new();
    proof { assert(s.take(0) =~= Seq::<Filter>::empty()); }
    for f in it: filters.into_iter()
        invariant
            it.seq() == s,
            trees(flattened@) == flat_items(trees(s.take(it.index() as int)), parent),
    {
        let ghost i = it.index() as int;
        let ghost before = flattened@;
        proof {
            lemma_trees_take_next(s, i);
            assert(trees(s.take(i + 1)).drop_last() =~= trees(s.take(i)));
        }
        match f {
            Filter::And(and) => push_group(&mut flattened, GroupKind::And, and, parent),
            Filter::Or(or) => push_group(&mut flattened, GroupKind::Or, or, parent),
            Filter::Not(not) => push_group(&mut flattened, GroupKind::Not, not, parent),
            g => {
                flattened.push(g);
                proof { lemma_trees_push(before, g); }
            },
        }
    }
    proof { assert(s.take(s.len() as int) =~= s); }
    flattened
}


/// Adds the group of kind `kind` with members `members` to `flattened`, which holds the
/// flattened members of a group of kind `parent`.
fn push_group(flattened: &mut Vec<Filter>, kind: GroupKind, members: Vec<Filter>, parent: GroupKind)
    ensures
        trees(final(flattened)@) == (if kind == parent {
            trees(old(flattened)@) + flat_items(trees(members@), kind)
        } else {
            trees(old(flattened)@).push(group(kind, flat_items(trees(members@), kind)))
        }),
    decreases members@, 1int,
{
    let ghost before = flattened@;
    let mut inner = flatten_filters(members, kind);
    if kind == parent {
        let ghost spliced = inner@;
        flattened.append(&mut inner);
        proof { lemma_trees_append(before, spliced); }
    } else {
        let g = match kind {
            GroupKind::And => Filter::And(inner),
            GroupKind::Or => Filter::Or(inner),
            GroupKind::Not => Filter::Not(inner),
        };
        flattened.push(g);
        proof { lemma_trees_push(before, g); }
    }
}


/// How the members of a group of kind `kind` combine: all must hold for `And`, one for `Or`
/// and `Not` (whose truth is the negation of that).
pub open spec fn combined(s: Seq<FilterTree>, kind: GroupKind, condition: spec_fn(Filter) -> bool) -> bool {
    if kind == GroupKind::And {
        all_hold(s, condition)
    } else {
        any_holds(s, condition)
    }
}

/// Flattening a filter in which no negation directly holds another negation does not change
/// what it selects: for any truth values of the field conditions, the flattened filter holds
/// exactly when the filter does. (A negation inside a negation is spliced into it, which
/// changes its meaning; such filters are left out.)
pub proof fn lemma_flatten_preserves_truth(f: Filter, condition: spec_fn(Filter) -> bool)
    requires
        no_double_negation(tree(f)),
    ensures
        holds(flatten_tree(tree(f)), condition) == holds(tree(f), condition),
{
    match tree(f) {
        FilterTree::And(s) => lemma_flat_items_truth(s, GroupKind::And, condition),
        FilterTree::Or(s) => lemma_flat_items_truth(s, GroupKind::Or, condition),
        FilterTree::Not(s) => lemma_flat_items_truth(s, GroupKind::Not, condition),
        FilterTree::Atom(_) => {},
    }
}

proof fn lemma_flat_items_truth(s: Seq<FilterTree>, parent: GroupKind, condition: spec_fn(Filter) -> bool)
    requires
        all_free_of_double_negation(s, parent == GroupKind::Not),
    ensures
        combined(flat_items(s, parent), parent, condition) == combined(s, parent, condition),
    decreases s,
{
    if s.len() > 0 {
        let rest = flat_items(s.drop_last(), parent);
        lemma_flat_items_truth(s.drop_last(), parent, condition);
        let last = s.last();
        assert(no_double_negation(last));
        match last {
            FilterTree::And(inner) => {
                assert(all_free_of_double_negation(inner, false));
                lemma_flat_items_truth(inner, GroupKind::And, condition);
                assert(holds(last, condition) == all_hold(inner, condition));
                if parent == GroupKind::And {
                    lemma_all_hold_append(rest, flat_items(inner, GroupKind::And), condition);
                } else {
                    let g = FilterTree::And(flat_items(inner, GroupKind::And));
                    assert(rest.push(g).drop_last() =~= rest);
                    assert(holds(g, condition) == all_hold(flat_items(inner, GroupKind::And), condition));
                }
            },
            FilterTree::Or(inner) => {
                assert(all_free_of_double_negation(inner, false));
                lemma_flat_items_truth(inner, GroupKind::Or, condition);
                assert(holds(last, condition) == any_holds(inner, condition));
                if parent == GroupKind::Or {
                    lemma_all_hold_append(rest, flat_items(inner, GroupKind::Or), condition);
                } else {
                    let g = FilterTree::Or(flat_items(inner, GroupKind::Or));
                    assert(rest.push(g).drop_last() =~= rest);
                    assert(holds(g, condition) == any_holds(flat_items(inner, GroupKind::Or), condition));
                }
            },
            FilterTree::Not(inner) => {
                assert(all_free_of_double_negation(inner, true));
                lemma_flat_items_truth(inner, GroupKind::Not, condition);
                assert(holds(last, condition) == !any_holds(inner, condition));
                let g = FilterTree::Not(flat_items(inner, GroupKind::Not));
                assert(rest.push(g).drop_last() =~= rest);
                assert(holds(g, condition) == !any_holds(flat_items(inner, GroupKind::Not), condition));
            },
            FilterTree::Atom(_) => {
                assert(rest.push(last).drop_last() =~= rest);
            },
        }
    }
}

/// The tree is a group of kind `kind`.
pub open spec fn is_group_of(t: FilterTree, kind: GroupKind) -> bool {
    match t {
        FilterTree::And(_) => kind == GroupKind::And,
        FilterTree::Or(_) => kind == GroupKind::Or,
        FilterTree::Not(_) => kind == GroupKind::Not,
        FilterTree::Atom(_) => false,
    }
}

/// No group of the tree has a direct member group of its own kind.
pub open spec fn kinds_apart(t: FilterTree) -> bool
    decreases t, 1int,
{
    match t {
        FilterTree::And(s) => members_apart(s, GroupKind::And),
        FilterTree::Or(s) => members_apart(s, GroupKind::Or),
        FilterTree::Not(s) => members_apart(s, GroupKind::Not),
        FilterTree::Atom(_) => true,
    }
}

/// No tree of `s` is a group of kind `kind`, and each has its kinds apart.
pub open spec fn members_apart(s: Seq<FilterTree>, kind: GroupKind) -> bool
    decreases s, 0int,
{
    if s.len() == 0 {
        true
    } else {
        &&& members_apart(s.drop_last(), kind)
        &&& kinds_apart(s.last())
        &&& !is_group_of(s.last(), kind)
    }
}

proof fn lemma_members_apart_append(a: Seq<FilterTree>, b: Seq<FilterTree>, kind: GroupKind)
    ensures
        members_apart(a + b, kind) == (members_apart(a, kind) && members_apart(b, kind)),
    decreases b.len(),
{
    if b.len() == 0 {
        assert(a + b =~= a);
    } else {
        lemma_members_apart_append(a, b.drop_last(), kind);
        assert((a + b).drop_last() =~= a + b.drop_last());
    }
}

/// Flattening keeps the atoms of a filter and their order, and keeps a filter that is no
/// group as it is; in the flattened filter no group has a direct member of its own kind
/// (no `And` in an `And`, no `Or` in an `Or`, no `Not` in a `Not`), while groups of
/// another kind stay nested as groups.
pub proof fn lemma_flatten_shape(f: Filter)
    ensures
        atoms(flatten_tree(tree(f))) == atoms(tree(f)),
        kinds_apart(flatten_tree(tree(f))),
        tree(f) is Atom ==> flatten_tree(tree(f)) == tree(f),
        tree(f) is And <==> flatten_tree(tree(f)) is And,
        tree(f) is Or <==> flatten_tree(tree(f)) is Or,
        tree(f) is Not <==> flatten_tree(tree(f)) is Not,
{
    match tree(f) {
        FilterTree::And(s) => lemma_flat_items_shape(s, GroupKind::And),
        FilterTree::Or(s) => lemma_flat_items_shape(s, GroupKind::Or),
        FilterTree::Not(s) => lemma_flat_items_shape(s, GroupKind::Not),
        FilterTree::Atom(_) => {},
    }
}

proof fn lemma_flat_items_shape(s: Seq<FilterTree>, parent: GroupKind)
    ensures
        all_atoms(flat_items(s, parent)) == all_atoms(s),
        members_apart(flat_items(s, parent), parent),
    decreases s,
{
    if s.len() > 0 {
        let rest = flat_items(s.drop_last(), parent);
        lemma_flat_items_shape(s.drop_last(), parent);
        let last = s.last();
        assert(all_atoms(s) == all_atoms(s.drop_last()) + atoms(last));
        match last {
            FilterTree::And(inner) => {
                lemma_flat_items_shape(inner, GroupKind::And);
                assert(atoms(last) == all_atoms(inner));
                if parent == GroupKind::And {
                    assert(flat_items(s, parent) == rest + flat_items(inner, GroupKind::And));
                }
                let fl = flat_items(inner, GroupKind::And);
                if parent == GroupKind::And {
                    lemma_all_atoms_append(rest, fl);
                    lemma_members_apart_append(rest, fl, parent);
                } else {
                    let g = FilterTree::And(fl);
                    lemma_all_atoms_push(rest, g);
                    assert(rest.push(g).drop_last() =~= rest);
                    assert(flat_items(s, parent) == rest.push(g));
                    assert(kinds_apart(g));
                    assert(members_apart(rest.push(g), parent));
                }
            },
            FilterTree::Or(inner) => {
                lemma_flat_items_shape(inner, GroupKind::Or);
                let fl = flat_items(inner, GroupKind::Or);
                if parent == GroupKind::Or {
                    lemma_all_atoms_append(rest, fl);
                    lemma_members_apart_append(rest, fl, parent);
                } else {
                    let g = FilterTree::Or(fl);
                    lemma_all_atoms_push(rest, g);
                    assert(rest.push(g).drop_last() =~= rest);
                    assert(flat_items(s, parent) == rest.push(g));
                    assert(kinds_apart(g));
                    assert(members_apart(rest.push(g), parent));
                }
            },
            FilterTree::Not(inner) => {
                lemma_flat_items_shape(inner, GroupKind::Not);
                let fl = flat_items(inner, GroupKind::Not);
                if parent == GroupKind::Not {
                    lemma_all_atoms_append(rest, fl);
                    lemma_members_apart_append(rest, fl, parent);
                } else {
                    let g = FilterTree::Not(fl);
                    lemma_all_atoms_push(rest, g);
                    assert(rest.push(g).drop_last() =~= rest);
                    assert(flat_items(s, parent) == rest.push(g));
                    assert(kinds_apart(g));
                    assert(members_apart(rest.push(g), parent));
                }
            },
            FilterTree::Atom(_) => {
                lemma_all_atoms_push(rest, last);
                assert(rest.push(last).drop_last() =~= rest);
                assert(kinds_apart(last));
                assert(!is_group_of(last, parent));
                assert(rest.push(last).last() == last);
                assert(members_apart(rest.push(last), parent));
            },
        }
    }
}

} // verus!
