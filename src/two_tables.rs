//! A pair of small tables joined by one lookup: every row of table `A`
//! whose first column is zero must appear in table `B`, and `A` is looked
//! up twice.
use crate::ctl::{
    column_value, ctl_fits, ctl_holds, filter_value, lin_value, looking_tuples, selected_tuples, tuple_of,
    Column, CrossTableLookup, Filter, TableWithColumns,
};
use crate::field::ORDER;
use vstd::prelude::*;

verus! {

/// The number of columns of each table.
pub const N_COLS: usize = 3;

/// The two tables, by their index in a list of traces.
#[derive(Debug, Copy, Clone, Eq, PartialEq, Structural)]
pub enum Table {
    A,
    B,
}

impl Table {
    /// The index of the table in a list of traces.
    pub fn index(self) -> (r: usize)
        ensures
            r == (if self == Table::A { 0usize } else { 1usize }),
    {
        match self {
            Table::A => 0,
            Table::B => 1,
        }
    }
}

/// Columns of table `A`.
#[derive(Clone, Copy, Eq, PartialEq, Debug)]
pub struct ACols<T> {
    pub clk: T,
    pub a: T,
    pub b: T,
}

/// Columns of table `B`.
#[derive(Clone, Copy, Eq, PartialEq, Debug)]
pub struct BCols<T> {
    pub clk: T,
    pub a: T,
    pub b: T,
}

/// The columns that `A` looks up: all three.
pub fn ctl_looking_cols() -> (r: Vec<Column>)
    ensures
        r@.len() == 3,
        forall|k: int| 0 <= k < 3 ==> (#[trigger] r@[k]).lin@ == seq![(k as usize, 1u64)] && r@[k].constant == 0,
{
    vec![Column::single(0), Column::single(1), Column::single(2)]
}

/// `A` looks up the rows whose first column is zero: the filter is `1 - clk`.
pub fn ctl_looking_filter() -> (r: Filter)
    ensures
        r.products@.len() == 0,
        r.constants@.len() == 1,
        r.constants@[0].lin@ == seq![(0usize, (ORDER - 1) as u64)],
        r.constants@[0].constant == 1,
{
    let not_col0 = Column::linear_combination_with_constant(vec![(0usize, ORDER - 1)], 1);
    Filter::new_simple(not_col0)
}

/// Whether `c` is column `k` of a row, taken alone.
pub open spec fn is_single(c: Column, k: usize) -> bool {
    c.lin@ == seq![(k, 1u64)] && c.constant == 0
}

/// The looking side on table `A`: all three columns, on rows where
/// `1 - clk` is one.
pub open spec fn looking_a(t: TableWithColumns) -> bool {
    &&& t.table == 0
    &&& t.columns@.len() == 3
    &&& forall|k: int| 0 <= k < 3 ==> is_single(#[trigger] t.columns@[k], k as usize)
    &&& t.filter.products@.len() == 0
    &&& t.filter.constants@.len() == 1
    &&& t.filter.constants@[0].lin@ == seq![(0usize, (ORDER - 1) as u64)]
    &&& t.filter.constants@[0].constant == 1
}

/// The looked side on table `B`: all three columns, on every row.
pub open spec fn looked_b(t: TableWithColumns) -> bool {
    &&& t.table == 1
    &&& t.columns@.len() == 3
    &&& forall|k: int| 0 <= k < 3 ==> is_single(#[trigger] t.columns@[k], k as usize)
    &&& t.filter.products@.len() == 0
    &&& t.filter.constants@.len() == 1
    &&& t.filter.constants@[0].lin@.len() == 0
    &&& t.filter.constants@[0].constant == 1
}

/// The lookup of the example: `A` twice against `B`.
pub open spec fn is_example_ctl(c: CrossTableLookup) -> bool {
    &&& c.looking@.len() == 2
    &&& looking_a(c.looking@[0])
    &&& looking_a(c.looking@[1])
    &&& looked_b(c.looked)
}

/// The looking side, on table `A`.
pub fn ctl_looking() -> (r: TableWithColumns)
    ensures
        looking_a(r),
{
    TableWithColumns::new(Table::A.index(), ctl_looking_cols(), ctl_looking_filter())
}

/// The columns that `B` offers: all three.
pub fn ctl_looked_cols() -> (r: Vec<Column>)
    ensures
        r@.len() == 3,
        forall|k: int| 0 <= k < 3 ==> (#[trigger] r@[k]).lin@ == seq![(k as usize, 1u64)] && r@[k].constant == 0,
{
    vec![Column::single(0), Column::single(1), Column::single(2)]
}

/// `B` offers every row.
pub fn ctl_looked_filter() -> (r: Filter)
    ensures
        r.products@.len() == 0,
        r.constants@.len() == 1,
        r.constants@[0].lin@.len() == 0,
        r.constants@[0].constant == 1,
{
    Filter::new_simple(Column::constant(1))
}

/// The looked side, on table `B`.
pub fn ctl_looked() -> (r: TableWithColumns)
    ensures
        looked_b(r),
{
    TableWithColumns::new(Table::B.index(), ctl_looked_cols(), ctl_looked_filter())
}

/// The lookup: `A` twice against `B`.
pub fn ctl() -> (r: CrossTableLookup)
    ensures
        is_example_ctl(r),
{
    CrossTableLookup::new(vec![ctl_looking(), ctl_looking()], ctl_looked())
}

/// The trace of table `A`: one row of zeros.
pub struct AStark {}

/// The trace of table `B`: two rows of zeros.
pub struct BStark {}

impl AStark {
    /// The rows of the trace.
    pub fn trace_row_major() -> (r: Vec<Vec<u64>>)
        ensures
            r@.len() == 1,
            r@[0]@ == seq![0u64, 0, 0],
    {
        let r = vec![vec![0u64, 0, 0]];
        assert(r@[0]@ =~= seq![0u64, 0, 0]);
        r
    }
}

impl BStark {
    /// The rows of the trace.
    pub fn trace_row_major() -> (r: Vec<Vec<u64>>)
        ensures
            r@.len() == 2,
            r@[0]@ == seq![0u64, 0, 0],
            r@[1]@ == seq![0u64, 0, 0],
    {
        let r = vec![vec![0u64, 0, 0], vec![0u64, 0, 0]];
        assert(r@[0]@ =~= seq![0u64, 0, 0]);
        assert(r@[1]@ =~= seq![0u64, 0, 0]);
        r
    }
}

/// A row of three zeros.
pub open spec fn zero_row() -> Seq<u64> {
    seq![0u64, 0, 0]
}

/// Every single column of a zero row is zero.
proof fn lemma_single_zero(c: Column, k: usize)
    requires
        is_single(c, k),
        k < 3,
    ensures
        column_value(c, zero_row()) == 0,
{
    reveal_with_fuel(lin_value, 2);
    crate::field::lemma_felt_small(0);
    crate::field::lemma_fmul_zero(1);
}

/// On a zero row, a side of the example selects the row and gives the
/// tuple of three zeros.
proof fn lemma_side_on_zero(t: TableWithColumns)
    requires
        looking_a(t) || looked_b(t),
    ensures
        filter_value(t.filter, zero_row()) == 1,
        tuple_of(t, zero_row()) == zero_row(),
{
    reveal_with_fuel(lin_value, 2);
    reveal_with_fuel(crate::ctl::constants_value, 2);
    reveal_with_fuel(crate::ctl::products_value, 1);
    crate::field::lemma_felt_small(0);
    crate::field::lemma_felt_small(1);
    crate::field::lemma_fmul_zero((ORDER - 1) as int);
    assert forall|k: int| 0 <= k < 3 implies column_value(#[trigger] t.columns@[k], zero_row()) == 0 by {
        lemma_single_zero(t.columns@[k], k as usize);
    }
    assert(tuple_of(t, zero_row()) =~= zero_row());
}

/// The lookup of the example holds on its traces: table `A` has one zero
/// row, looked up twice, and table `B` offers two zero rows.
pub proof fn lemma_example_ctl_holds(c: CrossTableLookup)
    requires
        is_example_ctl(c),
    ensures
        ctl_fits(c, seq![seq![zero_row()], seq![zero_row(), zero_row()]], seq![3usize, 3usize]),
        ctl_holds(c, seq![seq![zero_row()], seq![zero_row(), zero_row()]]),
{
    let traces = seq![seq![zero_row()], seq![zero_row(), zero_row()]];
    let (a0, a1, b) = (c.looking@[0], c.looking@[1], c.looked);
    lemma_side_on_zero(a0);
    lemma_side_on_zero(a1);
    lemma_side_on_zero(b);
    reveal_with_fuel(selected_tuples, 3);
    reveal_with_fuel(looking_tuples, 3);
    assert(traces[0] == seq![zero_row()]);
    assert(traces[1] == seq![zero_row(), zero_row()]);
    let sa = selected_tuples(a0, traces[0], 1);
    assert(sa =~= seq![zero_row()]);
    assert(selected_tuples(a1, traces[0], 1) =~= seq![zero_row()]);
    let sb = selected_tuples(b, traces[1], 2);
    assert(sb =~= seq![zero_row(), zero_row()]);
    let lt = looking_tuples(c, traces, 2);
    assert(lt =~= seq![zero_row()] + seq![zero_row()]);
    assert(lt =~= sb);
    assert forall|i: int| 0 <= i < traces.len() implies crate::ctl::trace_fits(#[trigger] traces[i], seq![3usize, 3usize][i] as int) by {
        assert forall|r: int| 0 <= r < traces[i].len() implies (#[trigger] traces[i][r]).len() == 3 && crate::ctl::row_is_felt(traces[i][r]) by {
            assert(traces[i][r] == zero_row());
        }
    }
    assert forall|k: int| 0 <= k < 2 implies crate::ctl::table_fits(#[trigger] c.looking@[k], 3) by {
        let t = c.looking@[k];
        assert forall|j: int| 0 <= j < t.columns@.len() implies crate::ctl::column_fits(#[trigger] t.columns@[j], 3) by {
            assert(is_single(t.columns@[j], j as usize));
        }
    }
    assert forall|j: int| 0 <= j < b.columns@.len() implies crate::ctl::column_fits(#[trigger] b.columns@[j], 3) by {
        assert(is_single(b.columns@[j], j as usize));
    }
}

/// Runs the lookup check of the example on the traces of `A` and `B`; it
/// succeeds.
pub fn check_example() -> (r: bool)
    ensures
        r,
{
    let traces = vec![AStark::trace_row_major(), BStark::trace_row_major()];
    let widths = vec![N_COLS, N_COLS];
    let c = ctl();
    let ghost tr = traces@.map_values(|t: Vec<Vec<u64>>| crate::ctl::views(t@));
    proof {
        assert(crate::ctl::views(traces@[0]@) =~= seq![zero_row()]);
        assert(crate::ctl::views(traces@[1]@) =~= seq![zero_row(), zero_row()]);
        assert(tr =~= seq![seq![zero_row()], seq![zero_row(), zero_row()]]);
        assert(widths@ =~= seq![3usize, 3usize]);
        lemma_example_ctl_holds(c);
    }
    crate::ctl::check_ctl(&traces, &widths, &c)
}

} // verus!
