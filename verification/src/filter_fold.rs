use vstd::prelude::*;
use crate::filter::{
    Filter, FilterTree, tree, trees, holds, all_hold, any_holds, lemma_all_hold_append,
    lemma_hold_single, lemma_trees_push, lemma_trees_take_next, lemma_trees_len,
    lemma_trees_append, atoms, all_atoms, lemma_all_atoms_append, lemma_all_atoms_push, lemma_all_atoms_single,
};

verus! {

/// Folding of a filter tree: nested groups of the same kind are merged into
/// their parent (`And` into `And`, `Or` into `Or`), a group of `And` or `Or`
/// that ends up with exactly one member is replaced by that member, and `Not`
/// groups are kept but their members are folded.
pub open spec fn fold_tree(t: FilterTree) -> FilterTree
    decreases t, 0int,
{
    match t {
        FilterTree::And(s) => fold_and_tree(s),
        FilterTree::Or(s) => fold_or_tree(s),
        FilterTree::Not(s) => FilterTree::Not(not_items(s)),
        FilterTree::Atom(_) => t,
    }
}

/// The fold of `And(s)`.
pub open spec fn fold_and_tree(s: Seq<FilterTree>) -> FilterTree
    decreases s, 1int,
{
    let folded = and_items(s);
    if folded.len() == 1 {
        folded[0]
    } else {
        FilterTree::And(folded)
    }
}

/// The fold of `Or(s)`.
pub open spec fn fold_or_tree(s: Seq<FilterTree>) -> FilterTree
    decreases s, 1int,
{
    let folded = or_items(s);
    if folded.len() == 1 {
        folded[0]
    } else {
        FilterTree::Or(folded)
    }
}

/// The members of a folded `And` group with members `s`: nested `And` groups are spliced in.
pub open spec fn and_items(s: Seq<FilterTree>) -> Seq<FilterTree>
    decreases s, 0int,
{
    if s.len() == 0 {
        Seq::empty()
    } else {
        let rest = and_items(s.drop_last());
        match s.last() {
            FilterTree::And(inner) => rest + and_items(inner),
            FilterTree::Or(inner) => rest.push(fold_or_tree(inner)),
            FilterTree::Not(inner) => rest.push(FilterTree::Not(not_items(inner))),
            FilterTree::Atom(_) => rest.push(s.last()),
        }
    }
}

/// The members of a folded `Or` group with members `s`: nested `Or` groups are spliced in.
pub open spec fn or_items(s: Seq<FilterTree>) -> Seq<FilterTree>
    decreases s, 0int,
{
    if s.len() == 0 {
        Seq::empty()
    } else {
        let rest = or_items(s.drop_last());
        match s.last() {
            FilterTree::Or(inner) => rest + or_items(inner),
            FilterTree::And(inner) => rest.push(fold_and_tree(inner)),
            FilterTree::Not(inner) => rest.push(FilterTree::Not(not_items(inner))),
            FilterTree::Atom(_) => rest.push(s.last()),
        }
    }
}

/// The members of a folded `Not` group with members `s`: each member is folded on its own.
pub open spec fn not_items(s: Seq<FilterTree>) -> Seq<FilterTree>
    decreases s, 0int,
{
    if s.len() == 0 {
        Seq::empty()
    } else {
        let rest = not_items(s.drop_last());
        match s.last() {
            FilterTree::Not(inner) => rest.push(FilterTree::Not(not_items(inner))),
            FilterTree::And(inner) => rest.push(fold_and_tree(inner)),
            FilterTree::Or(inner) => rest.push(fold_or_tree(inner)),
            FilterTree::Atom(_) => rest.push(s.last()),
        }
    }
}


/// Folds nested `And` and `Or` groups of a filter into their parents, as `fold_tree` says.
pub fn fold_filter(filter: Filter) -> (folded: Filter)
    ensures
        tree(folded) == fold_tree(tree(filter)),
    decreases filter, 2int,
{
    match filter {
        Filter::And(and) => fold_and(and),
        Filter::Or(or) => fold_or(or),
        Filter::Not(not) => fold_not(not),
        f => f,
    }
}

fn fold_and(filters: Vec<Filter>) -> (folded: Filter)
    ensures
        tree(folded) == fold_and_tree(trees(filters@)),
    decreases filters@, 1int,
{
    let mut folded = fold_and_impl(filters);
    proof { lemma_trees_len(folded@); }
    if folded.len() == 1 {
        folded.pop().unwrap()
    } else {
        Filter::And(folded)
    }
}

fn fold_or(filters: Vec<Filter>) -> (folded: Filter)
    ensures
        tree(folded) == fold_or_tree(trees(filters@)),
    decreases filters@, 1int,
{
    let mut folded = fold_or_impl(filters);
    proof { lemma_trees_len(folded@); }
    if folded.len() == 1 {
        folded.pop().unwrap()
    } else {
        Filter::Or(folded)
    }
}

fn fold_not(filters: Vec<Filter>) -> (folded: Filter)
    ensures
        tree(folded) == FilterTree::Not(not_items(trees(filters@))),
    decreases filters@, 1int,
{
    Filter::Not(fold_not_impl(filters))
}

fn fold_and_impl(filters: Vec<Filter>) -> (flattened: Vec<Filter>)
    ensures
        trees(flattened@) == and_items(trees(filters@)),
    decreases filters@, 0int,
{
    let ghost s = filters@;
    let mut flattened: Vec<Filter> = Vec::new();
    proof { assert(s.take(0) =~= Seq::<Filter>::empty()); }
    for f in it: filters.into_iter()
        invariant
            it.seq() == s,
            trees(flattened@) == and_items(trees(s.take(it.index() as int))),
    {
        let ghost i = it.index() as int;
        let ghost before = flattened@;
        proof {
            lemma_trees_take_next(s, i);
            assert(trees(s.take(i + 1)).drop_last() =~= trees(s.take(i)));
        }
        match f {
            Filter::And(and) => {
                let mut inner = fold_and_impl(and);
                let ghost spliced = inner@;
                flattened.append(&mut inner);
                proof { lemma_trees_append(before, spliced); }
            },
            Filter::Or(or) => {
                let g = fold_or(or);
                flattened.push(g);
                proof { lemma_trees_push(before, g); }
            },
            Filter::Not(not) => {
                let g = fold_not(not);
                flattened.push(g);
                proof { lemma_trees_push(before, g); }
            },
            g => {
                flattened.push(g);
                proof { lemma_trees_push(before, g); }
            },
        }
    }
    proof { assert(s.take(s.len() as int) =~= s); }
    flattened
}

fn fold_or_impl(filters: Vec<Filter>) -> (flattened: Vec<Filter>)
    ensures
        trees(flattened@) == or_items(trees(filters@)),
    decreases filters@, 0int,
{
    let ghost s = filters@;
    let mut flattened: Vec<Filter> = Vec::new();
    proof { assert(s.take(0) =~= Seq::<Filter>::empty()); }
    for f in it: filters.into_iter()
        invariant
            it.seq() == s,
            trees(flattened@) == or_items(trees(s.take(it.index() as int))),
    {
        let ghost i = it.index() as int;
        let ghost before = flattened@;
        proof {
            lemma_trees_take_next(s, i);
            assert(trees(s.take(i + 1)).drop_last() =~= trees(s.take(i)));
        }
        match f {
            Filter::Or(or) => {
                let mut inner = fold_or_impl(or);
                let ghost spliced = inner@;
                flattened.append(&mut inner);
                proof { lemma_trees_append(before, spliced); }
            },
            Filter::And(and) => {
                let g = fold_and(and);
                flattened.push(g);
                proof { lemma_trees_push(before, g); }
            },
            Filter::Not(not) => {
                let g = fold_not(not);
                flattened.push(g);
                proof { lemma_trees_push(before, g); }
            },
            g => {
                flattened.push(g);
                proof { lemma_trees_push(before, g); }
            },
        }
    }
    proof { assert(s.take(s.len() as int) =~= s); }
    flattened
}

fn fold_not_impl(filters: Vec<Filter>) -> (res: Vec<Filter>)
    ensures
        trees(res@) == not_items(trees(filters@)),
    decreases filters@, 0int,
{
    let ghost s = filters@;
    let mut res: Vec<Filter> = Vec::new();
    proof { assert(s.take(0) =~= Seq::<Filter>::empty()); }
    for f in it: filters.into_iter()
        invariant
            it.seq() == s,
            trees(res@) == not_items(trees(s.take(it.index() as int))),
    {
        let ghost i = it.index() as int;
        let ghost before = res@;
        proof {
            lemma_trees_take_next(s, i);
            assert(trees(s.take(i + 1)).drop_last() =~= trees(s.take(i)));
        }
        let g = match f {
            Filter::Not(not) => fold_not(not),
            Filter::And(and) => fold_and(and),
            Filter::Or(or) => fold_or(or),
            g => g,
        };
        res.push(g);
        proof { lemma_trees_push(before, g); }
    }
    proof { assert(s.take(s.len() as int) =~= s); }
    res
}


/// The members of a negation are folded each as a filter of its own: folding `Not(s)` gives
/// the negation of the folded members of `s`, in order.
pub proof fn lemma_fold_not_members(s: Seq<FilterTree>)
    ensures
        fold_tree(FilterTree::Not(s)) == FilterTree::Not(s.map_values(|t: FilterTree| fold_tree(t))),
    decreases s.len(),
{
    lemma_not_items_map(s);
}

proof fn lemma_not_items_map(s: Seq<FilterTree>)
    ensures
        not_items(s) == s.map_values(|t: FilterTree| fold_tree(t)),
    decreases s.len(),
{
    if s.len() == 0 {
        assert(s.map_values(|t: FilterTree| fold_tree(t)) =~= Seq::<FilterTree>::empty());
    } else {
        lemma_not_items_map(s.drop_last());
        assert(s.map_values(|t: FilterTree| fold_tree(t)) =~= s.drop_last().map_values(|t: FilterTree| fold_tree(t)).push(
            fold_tree(s.last()),
        ));
    }
}

/// The members that folding gives an `And` group with members `s`: a member that is itself
/// an `And` group gives the members that folding it gives (it is spliced in), any other member
/// gives itself folded as a filter of its own; the members of `s + t` give those of `s`, then
/// those of `t`.
pub proof fn lemma_fold_and_members(s: Seq<FilterTree>, t: Seq<FilterTree>, m: FilterTree)
    ensures
        and_items(s + t) == and_items(s) + and_items(t),
        and_items(seq![m]) == match m {
            FilterTree::And(inner) => and_items(inner),
            _ => seq![fold_tree(m)],
        },
        and_items(Seq::empty()) == Seq::<FilterTree>::empty(),
{
    lemma_and_items_concat(s, t);
    let one = seq![m];
    assert(one.drop_last() =~= Seq::<FilterTree>::empty());
    assert(one.last() == m);
    assert(and_items(Seq::<FilterTree>::empty()) == Seq::<FilterTree>::empty());
    match m {
        FilterTree::And(inner) => {
            assert(and_items(one) == and_items(one.drop_last()) + and_items(inner));
            assert(Seq::<FilterTree>::empty() + and_items(inner) =~= and_items(inner));
        },
        _ => {
            assert(Seq::<FilterTree>::empty().push(fold_tree(m)) =~= seq![fold_tree(m)]);
        },
    }
}

proof fn lemma_and_items_concat(s: Seq<FilterTree>, t: Seq<FilterTree>)
    ensures
        and_items(s + t) == and_items(s) + and_items(t),
    decreases t.len(),
{
    if t.len() == 0 {
        assert(s + t =~= s);
        assert(and_items(s) + and_items(t) =~= and_items(s));
    } else {
        lemma_and_items_concat(s, t.drop_last());
        assert((s + t).drop_last() =~= s + t.drop_last());
        assert((s + t).last() == t.last());
        let a = and_items(s);
        let b = and_items(t.drop_last());
        match t.last() {
            FilterTree::And(inner) => {
                assert(a + b + and_items(inner) =~= a + (b + and_items(inner)));
            },
            FilterTree::Or(inner) => {
                assert((a + b).push(fold_or_tree(inner)) =~= a + b.push(fold_or_tree(inner)));
            },
            FilterTree::Not(inner) => {
                assert((a + b).push(FilterTree::Not(not_items(inner))) =~= a + b.push(FilterTree::Not(not_items(inner))));
            },
            FilterTree::Atom(_) => {
                assert((a + b).push(t.last()) =~= a + b.push(t.last()));
            },
        }
    }
}

/// The members that folding gives an `Or` group with members `s`: a member that is itself an
/// `Or` group gives the members that folding it gives (it is spliced in), any other member
/// gives itself folded as a filter of its own; the members of `s + t` give those of `s`, then
/// those of `t`.
pub proof fn lemma_fold_or_members(s: Seq<FilterTree>, t: Seq<FilterTree>, m: FilterTree)
    ensures
        or_items(s + t) == or_items(s) + or_items(t),
        or_items(seq![m]) == match m {
            FilterTree::Or(inner) => or_items(inner),
            _ => seq![fold_tree(m)],
        },
        or_items(Seq::empty()) == Seq::<FilterTree>::empty(),
{
    lemma_or_items_concat(s, t);
    let one = seq![m];
    assert(one.drop_last() =~= Seq::<FilterTree>::empty());
    assert(one.last() == m);
    assert(or_items(Seq::<FilterTree>::empty()) == Seq::<FilterTree>::empty());
    match m {
        FilterTree::Or(inner) => {
            assert(or_items(one) == or_items(one.drop_last()) + or_items(inner));
            assert(Seq::<FilterTree>::empty() + or_items(inner) =~= or_items(inner));
        },
        _ => {
            assert(Seq::<FilterTree>::empty().push(fold_tree(m)) =~= seq![fold_tree(m)]);
        },
    }
}

proof fn lemma_or_items_concat(s: Seq<FilterTree>, t: Seq<FilterTree>)
    ensures
        or_items(s + t) == or_items(s) + or_items(t),
    decreases t.len(),
{
    if t.len() == 0 {
        assert(s + t =~= s);
        assert(or_items(s) + or_items(t) =~= or_items(s));
    } else {
        lemma_or_items_concat(s, t.drop_last());
        assert((s + t).drop_last() =~= s + t.drop_last());
        assert((s + t).last() == t.last());
        let a = or_items(s);
        let b = or_items(t.drop_last());
        match t.last() {
            FilterTree::Or(inner) => {
                assert(a + b + or_items(inner) =~= a + (b + or_items(inner)));
            },
            FilterTree::And(inner) => {
                assert((a + b).push(fold_and_tree(inner)) =~= a + b.push(fold_and_tree(inner)));
            },
            FilterTree::Not(inner) => {
                assert((a + b).push(FilterTree::Not(not_items(inner))) =~= a + b.push(FilterTree::Not(not_items(inner))));
            },
            FilterTree::Atom(_) => {
                assert((a + b).push(t.last()) =~= a + b.push(t.last()));
            },
        }
    }
}

/// No `And` or `Or` group of the tree, at any depth, has exactly one member.
pub open spec fn no_single_group(t: FilterTree) -> bool
    decreases t, 1int,
{
    match t {
        FilterTree::And(s) => s.len() != 1 && all_no_single_group(s),
        FilterTree::Or(s) => s.len() != 1 && all_no_single_group(s),
        FilterTree::Not(s) => all_no_single_group(s),
        FilterTree::Atom(_) => true,
    }
}

/// No tree of `s` has an `And` or `Or` group with exactly one member.
pub open spec fn all_no_single_group(s: Seq<FilterTree>) -> bool
    decreases s, 0int,
{
    s.len() == 0 || (all_no_single_group(s.drop_last()) && no_single_group(s.last()))
}

proof fn lemma_all_no_single_push(a: Seq<FilterTree>, x: FilterTree)
    ensures
        all_no_single_group(a.push(x)) == (all_no_single_group(a) && no_single_group(x)),
{
    assert(a.push(x).drop_last() =~= a);
    assert(a.push(x).last() == x);
}

proof fn lemma_all_no_single_append(a: Seq<FilterTree>, b: Seq<FilterTree>)
    ensures
        all_no_single_group(a + b) == (all_no_single_group(a) && all_no_single_group(b)),
    decreases b.len(),
{
    if b.len() == 0 {
        assert(a + b =~= a);
    } else {
        lemma_all_no_single_append(a, b.drop_last());
        assert((a + b).drop_last() =~= a + b.drop_last());
        assert((a + b).last() == b.last());
    }
}

/// A folded filter has no `And` or `Or` group with exactly one member, at any depth: such a
/// group is replaced by its member.
pub proof fn lemma_fold_leaves_no_single_group(f: Filter)
    ensures
        no_single_group(fold_tree(tree(f))),
{
    lemma_fold_tree_no_single(tree(f));
}

proof fn lemma_fold_tree_no_single(t: FilterTree)
    ensures
        no_single_group(fold_tree(t)),
    decreases t, 2int,
{
    match t {
        FilterTree::And(s) => lemma_fold_and_no_single(s),
        FilterTree::Or(s) => lemma_fold_or_no_single(s),
        FilterTree::Not(s) => lemma_not_items_no_single(s),
        FilterTree::Atom(_) => {},
    }
}

proof fn lemma_fold_and_no_single(s: Seq<FilterTree>)
    ensures
        no_single_group(fold_and_tree(s)),
    decreases s, 1int,
{
    lemma_and_items_no_single(s);
    let folded = and_items(s);
    if folded.len() == 1 {
        assert(folded.drop_last().len() == 0);
        assert(folded.last() == folded[0]);
    }
}

proof fn lemma_fold_or_no_single(s: Seq<FilterTree>)
    ensures
        no_single_group(fold_or_tree(s)),
    decreases s, 1int,
{
    lemma_or_items_no_single(s);
    let folded = or_items(s);
    if folded.len() == 1 {
        assert(folded.drop_last().len() == 0);
        assert(folded.last() == folded[0]);
    }
}

proof fn lemma_and_items_no_single(s: Seq<FilterTree>)
    ensures
        all_no_single_group(and_items(s)),
    decreases s, 0int,
{
    if s.len() > 0 {
        let rest = and_items(s.drop_last());
        lemma_and_items_no_single(s.drop_last());
        match s.last() {
            FilterTree::And(inner) => {
                lemma_and_items_no_single(inner);
                lemma_all_no_single_append(rest, and_items(inner));
            },
            FilterTree::Or(inner) => {
                lemma_fold_or_no_single(inner);
                lemma_all_no_single_push(rest, fold_or_tree(inner));
            },
            FilterTree::Not(inner) => {
                lemma_not_items_no_single(inner);
                lemma_all_no_single_push(rest, FilterTree::Not(not_items(inner)));
            },
            FilterTree::Atom(_) => {
                lemma_all_no_single_push(rest, s.last());
            },
        }
    }
}

proof fn lemma_or_items_no_single(s: Seq<FilterTree>)
    ensures
        all_no_single_group(or_items(s)),
    decreases s, 0int,
{
    if s.len() > 0 {
        let rest = or_items(s.drop_last());
        lemma_or_items_no_single(s.drop_last());
        match s.last() {
            FilterTree::Or(inner) => {
                lemma_or_items_no_single(inner);
                lemma_all_no_single_append(rest, or_items(inner));
            },
            FilterTree::And(inner) => {
                lemma_fold_and_no_single(inner);
                lemma_all_no_single_push(rest, fold_and_tree(inner));
            },
            FilterTree::Not(inner) => {
                lemma_not_items_no_single(inner);
                lemma_all_no_single_push(rest, FilterTree::Not(not_items(inner)));
            },
            FilterTree::Atom(_) => {
                lemma_all_no_single_push(rest, s.last());
            },
        }
    }
}

proof fn lemma_not_items_no_single(s: Seq<FilterTree>)
    ensures
        all_no_single_group(not_items(s)),
    decreases s, 0int,
{
    if s.len() > 0 {
        let rest = not_items(s.drop_last());
        lemma_not_items_no_single(s.drop_last());
        match s.last() {
            FilterTree::Not(inner) => {
                lemma_not_items_no_single(inner);
                lemma_all_no_single_push(rest, FilterTree::Not(not_items(inner)));
            },
            FilterTree::And(inner) => {
                lemma_fold_and_no_single(inner);
                lemma_all_no_single_push(rest, fold_and_tree(inner));
            },
            FilterTree::Or(inner) => {
                lemma_fold_or_no_single(inner);
                lemma_all_no_single_push(rest, fold_or_tree(inner));
            },
            FilterTree::Atom(_) => {
                lemma_all_no_single_push(rest, s.last());
            },
        }
    }
}

/// Folding a filter does not change what it selects: for any truth values of the
/// field conditions, the folded filter holds exactly when the filter does.
pub proof fn lemma_fold_preserves_truth(f: Filter, condition: spec_fn(Filter) -> bool)
    ensures
        holds(fold_tree(tree(f)), condition) == holds(tree(f), condition),
{
    lemma_fold_tree_truth(tree(f), condition);
}

proof fn lemma_fold_tree_truth(t: FilterTree, condition: spec_fn(Filter) -> bool)
    ensures
        holds(fold_tree(t), condition) == holds(t, condition),
    decreases t, 0int,
{
    match t {
        FilterTree::And(s) => lemma_fold_and_truth(s, condition),
        FilterTree::Or(s) => lemma_fold_or_truth(s, condition),
        FilterTree::Not(s) => lemma_not_items_truth(s, condition),
        FilterTree::Atom(_) => {},
    }
}

proof fn lemma_fold_and_truth(s: Seq<FilterTree>, condition: spec_fn(Filter) -> bool)
    ensures
        holds(fold_and_tree(s), condition) == all_hold(s, condition),
    decreases s, 1int,
{
    lemma_and_items_truth(s, condition);
    let folded = and_items(s);
    if folded.len() == 1 {
        assert(folded =~= seq![folded[0]]);
        lemma_hold_single(folded[0], condition);
    }
}

proof fn lemma_fold_or_truth(s: Seq<FilterTree>, condition: spec_fn(Filter) -> bool)
    ensures
        holds(fold_or_tree(s), condition) == any_holds(s, condition),
    decreases s, 1int,
{
    lemma_or_items_truth(s, condition);
    let folded = or_items(s);
    if folded.len() == 1 {
        assert(folded =~= seq![folded[0]]);
        lemma_hold_single(folded[0], condition);
    }
}

proof fn lemma_and_items_truth(s: Seq<FilterTree>, condition: spec_fn(Filter) -> bool)
    ensures
        all_hold(and_items(s), condition) == all_hold(s, condition),
    decreases s, 0int,
{
    if s.len() > 0 {
        let rest = and_items(s.drop_last());
        lemma_and_items_truth(s.drop_last(), condition);
        match s.last() {
            FilterTree::And(inner) => {
                lemma_and_items_truth(inner, condition);
                assert(holds(s.last(), condition) == all_hold(inner, condition));
                lemma_all_hold_append(rest, and_items(inner), condition);
            },
            FilterTree::Or(inner) => {
                lemma_fold_or_truth(inner, condition);
                assert(holds(s.last(), condition) == any_holds(inner, condition));
                assert(rest.push(fold_or_tree(inner)).drop_last() =~= rest);
            },
            FilterTree::Not(inner) => {
                lemma_not_items_truth(inner, condition);
                assert(holds(s.last(), condition) == !any_holds(inner, condition));
                assert(holds(FilterTree::Not(not_items(inner)), condition) == !any_holds(not_items(inner), condition));
                assert(rest.push(FilterTree::Not(not_items(inner))).drop_last() =~= rest);
            },
            FilterTree::Atom(_) => {
                assert(rest.push(s.last()).drop_last() =~= rest);
            },
        }
    }
}

proof fn lemma_or_items_truth(s: Seq<FilterTree>, condition: spec_fn(Filter) -> bool)
    ensures
        any_holds(or_items(s), condition) == any_holds(s, condition),
    decreases s, 0int,
{
    if s.len() > 0 {
        let rest = or_items(s.drop_last());
        lemma_or_items_truth(s.drop_last(), condition);
        match s.last() {
            FilterTree::Or(inner) => {
                lemma_or_items_truth(inner, condition);
                assert(holds(s.last(), condition) == any_holds(inner, condition));
                lemma_all_hold_append(rest, or_items(inner), condition);
            },
            FilterTree::And(inner) => {
                lemma_fold_and_truth(inner, condition);
                assert(holds(s.last(), condition) == all_hold(inner, condition));
                assert(rest.push(fold_and_tree(inner)).drop_last() =~= rest);
            },
            FilterTree::Not(inner) => {
                lemma_not_items_truth(inner, condition);
                assert(holds(s.last(), condition) == !any_holds(inner, condition));
                assert(holds(FilterTree::Not(not_items(inner)), condition) == !any_holds(not_items(inner), condition));
                assert(rest.push(FilterTree::Not(not_items(inner))).drop_last() =~= rest);
            },
            FilterTree::Atom(_) => {
                assert(rest.push(s.last()).drop_last() =~= rest);
            },
        }
    }
}

proof fn lemma_not_items_truth(s: Seq<FilterTree>, condition: spec_fn(Filter) -> bool)
    ensures
        any_holds(not_items(s), condition) == any_holds(s, condition),
    decreases s, 0int,
{
    if s.len() > 0 {
        let rest = not_items(s.drop_last());
        lemma_not_items_truth(s.drop_last(), condition);
        match s.last() {
            FilterTree::Not(inner) => {
                lemma_not_items_truth(inner, condition);
                assert(holds(s.last(), condition) == !any_holds(inner, condition));
                assert(holds(FilterTree::Not(not_items(inner)), condition) == !any_holds(not_items(inner), condition));
                assert(rest.push(FilterTree::Not(not_items(inner))).drop_last() =~= rest);
            },
            FilterTree::And(inner) => {
                lemma_fold_and_truth(inner, condition);
                assert(holds(s.last(), condition) == all_hold(inner, condition));
                assert(rest.push(fold_and_tree(inner)).drop_last() =~= rest);
            },
            FilterTree::Or(inner) => {
                lemma_fold_or_truth(inner, condition);
                assert(holds(s.last(), condition) == any_holds(inner, condition));
                assert(rest.push(fold_or_tree(inner)).drop_last() =~= rest);
            },
            FilterTree::Atom(_) => {
                assert(rest.push(s.last()).drop_last() =~= rest);
            },
        }
    }
}

/// Folding keeps the atoms of a filter and their order; a filter that is no group is kept
/// as it is, and a negation stays a negation.
pub proof fn lemma_fold_keeps_atoms(f: Filter)
    ensures
        atoms(fold_tree(tree(f))) == atoms(tree(f)),
        tree(f) is Atom ==> fold_tree(tree(f)) == tree(f),
        tree(f) is Not ==> fold_tree(tree(f)) is Not,
{
    lemma_fold_tree_atoms(tree(f));
}

proof fn lemma_fold_tree_atoms(t: FilterTree)
    ensures
        atoms(fold_tree(t)) == atoms(t),
    decreases t, 0int,
{
    match t {
        FilterTree::And(s) => lemma_fold_and_atoms(s),
        FilterTree::Or(s) => lemma_fold_or_atoms(s),
        FilterTree::Not(s) => lemma_not_items_atoms(s),
        FilterTree::Atom(_) => {},
    }
}

proof fn lemma_fold_and_atoms(s: Seq<FilterTree>)
    ensures
        atoms(fold_and_tree(s)) == all_atoms(s),
    decreases s, 1int,
{
    lemma_and_items_atoms(s);
    let folded = and_items(s);
    if folded.len() == 1 {
        assert(folded =~= seq![folded[0]]);
        lemma_all_atoms_single(folded[0]);
    }
}

proof fn lemma_fold_or_atoms(s: Seq<FilterTree>)
    ensures
        atoms(fold_or_tree(s)) == all_atoms(s),
    decreases s, 1int,
{
    lemma_or_items_atoms(s);
    let folded = or_items(s);
    if folded.len() == 1 {
        assert(folded =~= seq![folded[0]]);
        lemma_all_atoms_single(folded[0]);
    }
}

proof fn lemma_and_items_atoms(s: Seq<FilterTree>)
    ensures
        all_atoms(and_items(s)) == all_atoms(s),
    decreases s, 0int,
{
    if s.len() > 0 {
        let rest = and_items(s.drop_last());
        lemma_and_items_atoms(s.drop_last());
        let last = s.last();
        assert(all_atoms(s) == all_atoms(s.drop_last()) + atoms(last));
        match last {
            FilterTree::And(inner) => {
                lemma_and_items_atoms(inner);
                assert(atoms(last) == all_atoms(inner));
                assert(and_items(s) == rest + and_items(inner));
                lemma_all_atoms_append(rest, and_items(inner));
            },
            FilterTree::Or(inner) => {
                lemma_fold_or_atoms(inner);
                assert(atoms(last) == all_atoms(inner));
                lemma_all_atoms_push(rest, fold_or_tree(inner));
            },
            FilterTree::Not(inner) => {
                lemma_not_items_atoms(inner);
                assert(atoms(last) == all_atoms(inner));
                lemma_all_atoms_push(rest, FilterTree::Not(not_items(inner)));
            },
            FilterTree::Atom(_) => {
                lemma_all_atoms_push(rest, last);
            },
        }
    }
}

proof fn lemma_or_items_atoms(s: Seq<FilterTree>)
    ensures
        all_atoms(or_items(s)) == all_atoms(s),
    decreases s, 0int,
{
    if s.len() > 0 {
        let rest = or_items(s.drop_last());
        lemma_or_items_atoms(s.drop_last());
        let last = s.last();
        assert(all_atoms(s) == all_atoms(s.drop_last()) + atoms(last));
        match last {
            FilterTree::Or(inner) => {
                lemma_or_items_atoms(inner);
                assert(atoms(last) == all_atoms(inner));
                assert(or_items(s) == rest + or_items(inner));
                lemma_all_atoms_append(rest, or_items(inner));
            },
            FilterTree::And(inner) => {
                lemma_fold_and_atoms(inner);
                assert(atoms(last) == all_atoms(inner));
                lemma_all_atoms_push(rest, fold_and_tree(inner));
            },
            FilterTree::Not(inner) => {
                lemma_not_items_atoms(inner);
                assert(atoms(last) == all_atoms(inner));
                lemma_all_atoms_push(rest, FilterTree::Not(not_items(inner)));
            },
            FilterTree::Atom(_) => {
                lemma_all_atoms_push(rest, last);
            },
        }
    }
}

proof fn lemma_not_items_atoms(s: Seq<FilterTree>)
    ensures
        all_atoms(not_items(s)) == all_atoms(s),
    decreases s, 0int,
{
    if s.len() > 0 {
        let rest = not_items(s.drop_last());
        lemma_not_items_atoms(s.drop_last());
        let last = s.last();
        assert(all_atoms(s) == all_atoms(s.drop_last()) + atoms(last));
        match last {
            FilterTree::Not(inner) => {
                lemma_not_items_atoms(inner);
                assert(atoms(last) == all_atoms(inner));
                lemma_all_atoms_push(rest, FilterTree::Not(not_items(inner)));
            },
            FilterTree::And(inner) => {
                lemma_fold_and_atoms(inner);
                assert(atoms(last) == all_atoms(inner));
                lemma_all_atoms_push(rest, fold_and_tree(inner));
            },
            FilterTree::Or(inner) => {
                lemma_fold_or_atoms(inner);
                assert(atoms(last) == all_atoms(inner));
                lemma_all_atoms_push(rest, fold_or_tree(inner));
            },
            FilterTree::Atom(_) => {
                lemma_all_atoms_push(rest, last);
            },
        }
    }
}

} // verus!
