use query_graph_builder::combinations::combinations;
use query_graph_builder::filter::Filter;
use query_graph_builder::filter_fold::fold_filter;

fn clone_filter(f: &Filter) -> Filter {
    match f {
        Filter::And(v) => Filter::And(v.iter().map(clone_filter).collect()),
        Filter::Or(v) => Filter::Or(v.iter().map(clone_filter).collect()),
        Filter::Not(v) => Filter::Not(v.iter().map(clone_filter).collect()),
        Filter::BoolFilter(b) => Filter::BoolFilter(*b),
        Filter::Empty => Filter::Empty,
        _ => unreachable!(),
    }
}

struct FilterVisitor {
    filter: Filter,
}

impl FilterVisitor {
    fn new(filter: Filter) -> Self {
        Self { filter }
    }

    fn visit(&self) -> bool {
        match &self.filter {
            Filter::And(and) => self.visit_and(and),
            Filter::Or(or) => self.visit_or(or),
            Filter::Not(not) => self.visit_not(not),
            Filter::BoolFilter(b) => *b,
            _ => unreachable!(),
        }
    }

    fn visit_and(&self, filters: &[Filter]) -> bool {
        let mut res = true;
        for (index, f) in filters.iter().enumerate() {
            let v = match f {
                Filter::And(and) => self.visit_and(and),
                Filter::Or(or) => self.visit_or(or),
                Filter::Not(not) => self.visit_not(not),
                Filter::BoolFilter(b) => *b,
                _ => unreachable!(),
            };
            res = if index == 0 { v } else { res && v };
        }
        res
    }

    fn visit_or(&self, filters: &[Filter]) -> bool {
        let mut res = true;
        for (index, f) in filters.iter().enumerate() {
            let v = match f {
                Filter::And(and) => self.visit_and(and),
                Filter::Or(or) => self.visit_or(or),
                Filter::Not(not) => self.visit_not(not),
                Filter::BoolFilter(b) => *b,
                _ => unreachable!(),
            };
            res = if index == 0 { v } else { res || v };
        }
        res
    }

    fn visit_not(&self, filters: &[Filter]) -> bool {
        let mut res = true;
        for (index, f) in filters.iter().enumerate() {
            let v = match f {
                Filter::And(and) => !self.visit_and(and),
                Filter::Or(or) => !self.visit_or(or),
                Filter::Not(not) => !self.visit_not(not),
                Filter::BoolFilter(b) => !*b,
                _ => unreachable!(),
            };
            res = if index == 0 { v } else { res && v };
        }
        res
    }
}

fn condition(code: u8, members: Vec<Filter>) -> Filter {
    match code {
        0 => Filter::And(members),
        1 => Filter::Or(members),
        _ => Filter::Not(members),
    }
}

// Deterministically generates filters such as And([true]), Or([true, false]),
// And([true, Or([true, false])]), from all combinations of conditions and variables.
fn generate_filters() -> Vec<Filter> {
    let all_vars = combinations(vec![true, false]);
    let all_conditions = combinations(vec![0u8, 1u8, 2u8]);
    let mut filters: Vec<Filter> = vec![];

    for conditions in all_conditions.iter() {
        for vars in all_vars.iter() {
            let mut conditions_with_vars: Vec<Filter> = conditions
                .iter()
                .map(|c| condition(*c, vars.iter().map(|b| Filter::BoolFilter(*b)).collect()))
                .collect();
            let rest: Vec<Filter> = conditions_with_vars.split_off(1);
            let first = conditions_with_vars.pop().unwrap();
            let nested = match first {
                Filter::And(mut f) => {
                    f.extend(rest);
                    Filter::And(f)
                }
                Filter::Or(mut f) => {
                    f.extend(rest);
                    Filter::Or(f)
                }
                Filter::Not(mut f) => {
                    f.extend(rest);
                    Filter::Not(f)
                }
                _ => unreachable!(),
            };
            filters.push(nested);
        }
    }
    filters
}

#[test]
fn ensure_and_folded() {
    let input = fold_filter(Filter::And(vec![Filter::Empty, Filter::And(vec![Filter::Empty])]));
    let expected_output = Filter::And(vec![Filter::Empty, Filter::Empty]);

    assert_eq!(input, expected_output)
}

#[test]
fn ensure_or_folded() {
    let input = fold_filter(Filter::Or(vec![Filter::Empty, Filter::Or(vec![Filter::Empty])]));
    let expected_output = Filter::Or(vec![Filter::Empty, Filter::Empty]);

    assert_eq!(input, expected_output)
}

#[test]
fn ensure_not_is_not_folded() {
    let input = fold_filter(Filter::Not(vec![Filter::Empty, Filter::Not(vec![Filter::Empty])]));
    let expected_output = Filter::Not(vec![Filter::Empty, Filter::Not(vec![Filter::Empty])]);
    assert_eq!(input, expected_output);

    let input = fold_filter(Filter::Not(vec![
        Filter::Empty,
        Filter::Not(vec![Filter::Not(vec![Filter::Empty])]),
    ]));
    let expected_output = Filter::Not(vec![Filter::Empty, Filter::Not(vec![Filter::Not(vec![Filter::Empty])])]);
    assert_eq!(input, expected_output);
}

#[test]
fn ensure_nested_conditions_are_folded() {
    let input = fold_filter(Filter::Not(vec![
        Filter::Empty,
        Filter::Not(vec![Filter::Not(vec![Filter::Empty])]),
        Filter::Or(vec![
            Filter::And(vec![Filter::Empty, Filter::And(vec![Filter::Empty, Filter::Empty])]),
            Filter::Or(vec![Filter::Empty, Filter::Or(vec![Filter::Empty, Filter::Empty])]),
        ]),
    ]));
    let expected_output = Filter::Not(vec![
        Filter::Empty,
        Filter::Not(vec![Filter::Not(vec![Filter::Empty])]),
        Filter::Or(vec![
            Filter::And(vec![Filter::Empty, Filter::Empty, Filter::Empty]),
            Filter::Empty,
            Filter::Empty,
            Filter::Empty,
        ]),
    ]);

    assert_eq!(input, expected_output)
}

#[test]
fn ensure_filter_fold_does_not_alter_boolean_logic() {
    let filters = generate_filters();
    assert!(!filters.is_empty());

    for filter in filters {
        let folded_filter = fold_filter(clone_filter(&filter));
        let visitor = FilterVisitor::new(clone_filter(&filter));
        let folded_visitor = FilterVisitor::new(folded_filter);

        assert_eq!(visitor.visit(), folded_visitor.visit())
    }
}

#[test]
fn combinations_of_two_elements_in_loop_order() {
    let c = combinations(vec![1u8, 2u8]);
    assert_eq!(c.len(), 2 + 4 + 8);
    assert_eq!(c[0], vec![1]);
    assert_eq!(c[1], vec![1, 1]);
    assert_eq!(c[2], vec![1, 1, 1]);
    assert_eq!(c[3], vec![1, 1, 2]);
    assert_eq!(c[4], vec![1, 2]);
    assert_eq!(c[7], vec![2]);
    assert_eq!(c[13], vec![2, 2, 2]);
}

#[test]
fn fold_of_single_member_group_is_the_member() {
    let folded = fold_filter(Filter::And(vec![Filter::BoolFilter(true)]));
    assert_eq!(folded, Filter::BoolFilter(true));
    let folded = fold_filter(Filter::Or(vec![Filter::And(vec![Filter::Empty])]));
    assert_eq!(folded, Filter::Empty);
}
