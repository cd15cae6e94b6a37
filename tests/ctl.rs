use rizzo::ctl::{check_ctl, same_multiset, Column, Filter};
use rizzo::two_tables::{ctl, AStark, BStark, Table};

#[test]
fn test_ctl() {
    let trace_a = AStark::trace_row_major();
    let trace_b = BStark::trace_row_major();
    let traces = vec![trace_a, trace_b];
    assert!(check_ctl(&traces, &vec![3, 3], &ctl()));
}

#[test]
fn ctl_fails_with_too_few_looked_rows() {
    let trace_a = AStark::trace_row_major();
    let trace_b = vec![vec![0u64, 0, 0]];
    assert!(!check_ctl(&vec![trace_a, trace_b], &vec![3, 3], &ctl()));
}

#[test]
fn ctl_fails_with_different_values() {
    let trace_a = AStark::trace_row_major();
    let trace_b = vec![vec![0u64, 0, 0], vec![0u64, 1, 0]];
    assert!(!check_ctl(&vec![trace_a, trace_b], &vec![3, 3], &ctl()));
}

#[test]
fn ctl_ignores_unselected_rows() {
    // A's filter is 1 - clk: a row with clk = 1 is not looked up
    let trace_a = vec![vec![0u64, 0, 0], vec![1u64, 5, 5]];
    let trace_b = BStark::trace_row_major();
    assert!(check_ctl(&vec![trace_a, trace_b], &vec![3, 3], &ctl()));
}

#[test]
fn table_indices() {
    assert_eq!(Table::A.index(), 0);
    assert_eq!(Table::B.index(), 1);
}

#[test]
fn column_and_filter_values() {
    let row = vec![3u64, 4, 5];
    let c = Column::linear_combination_with_constant(vec![(0, 2), (2, 10)], 7);
    assert_eq!(c.eval(&row), 2 * 3 + 10 * 5 + 7);
    let f = Filter::new(vec![(Column::single(0), Column::single(1))], vec![Column::constant(1)]);
    assert_eq!(f.eval(&row), 13);
    assert_eq!(Column::sum(&vec![0, 1, 2]).eval(&row), 12);
}

#[test]
fn multiset_comparison_counts_duplicates() {
    let a = vec![vec![1u64], vec![2], vec![1]];
    let b = vec![vec![2u64], vec![1], vec![1]];
    let c = vec![vec![2u64], vec![2], vec![1]];
    assert!(same_multiset(&a, &b));
    assert!(!same_multiset(&a, &c));
}

#[test]
fn example_check_succeeds() {
    assert!(rizzo::two_tables::check_example());
}
