//! Cross-table lookups: a "looking" table asks that the tuples computed from
//! its selected rows appear, as a multiset, among the tuples that a
//! "looked" table offers.
use crate::field::{fadd, felt_add, felt_mul, fmul, ORDER};
use vstd::prelude::*;

verus! {

/// A linear combination of the columns of a row plus a constant.
#[derive(Clone, Debug)]
pub struct Column {
    /// Pairs of a column index and its coefficient.
    pub lin: Vec<(usize, u64)>,
    pub constant: u64,
}

/// The value of a linear combination on a row, its terms added in order.
pub open spec fn lin_value(lin: Seq<(usize, u64)>, row: Seq<u64>, k: int) -> int
    decreases k,
{
    if k <= 0 {
        0
    } else {
        fadd(lin_value(lin, row, k - 1), fmul(lin[k - 1].1 as int, row[lin[k - 1].0 as int] as int))
    }
}

/// Whether every column index of a combination lies in a row of `width`
/// values and every coefficient is a field element.
pub open spec fn column_fits(c: Column, width: int) -> bool {
    &&& forall|k: int| 0 <= k < c.lin@.len() ==> (#[trigger] c.lin@[k]).0 < width && c.lin@[k].1 < ORDER
    &&& c.constant < ORDER
}

/// The value of a column on a row.
pub open spec fn column_value(c: Column, row: Seq<u64>) -> int {
    fadd(lin_value(c.lin@, row, c.lin@.len() as int), c.constant as int)
}

/// Whether every value of a row is a field element.
pub open spec fn row_is_felt(row: Seq<u64>) -> bool {
    forall|i: int| 0 <= i < row.len() ==> #[trigger] row[i] < ORDER
}

impl Column {
    /// The value of column `i`.
    pub fn single(i: usize) -> (r: Column)
        ensures
            r.lin@ == seq![(i, 1u64)],
            r.constant == 0,
    {
        Column { lin: vec![(i, 1u64)], constant: 0 }
    }

    /// A constant.
    pub fn constant(c: u64) -> (r: Column)
        ensures
            r.lin@.len() == 0,
            r.constant == c,
    {
        Column { lin: Vec::new(), constant: c }
    }

    /// A linear combination of columns.
    pub fn linear_combination(lin: Vec<(usize, u64)>) -> (r: Column)
        ensures
            r.lin@ == lin@,
            r.constant == 0,
    {
        Column { lin, constant: 0 }
    }

    /// A linear combination of columns plus a constant.
    pub fn linear_combination_with_constant(lin: Vec<(usize, u64)>, constant: u64) -> (r: Column)
        ensures
            r.lin@ == lin@,
            r.constant == constant,
    {
        Column { lin, constant }
    }

    /// The sum of the given columns.
    pub fn sum(cols: &Vec<usize>) -> (r: Column)
        ensures
            r.lin@.len() == cols@.len(),
            forall|k: int| 0 <= k < cols@.len() ==> #[trigger] r.lin@[k] == (cols@[k], 1u64),
            r.constant == 0,
    {
        let mut lin: Vec<(usize, u64)> = Vec::new();
        let mut k: usize = 0;
        while k < cols.len()
            invariant
                k <= cols@.len(),
                lin@.len() == k,
                forall|j: int| 0 <= j < k ==> #[trigger] lin@[j] == (cols@[j], 1u64),
            decreases cols@.len() - k,
        {
            lin.push((cols[k], 1u64));
            k += 1;
        }
        Column { lin, constant: 0 }
    }

    /// The value of the column on `row`.
    pub fn eval(&self, row: &Vec<u64>) -> (r: u64)
        requires
            column_fits(*self, row@.len() as int),
            row_is_felt(row@),
        ensures
            r == column_value(*self, row@),
    {
        let mut acc: u64 = 0;
        let mut k: usize = 0;
        while k < self.lin.len()
            invariant
                column_fits(*self, row@.len() as int),
                row_is_felt(row@),
                k <= self.lin@.len(),
                acc == lin_value(self.lin@, row@, k as int),
                acc < ORDER,
            decreases self.lin@.len() - k,
        {
            let (i, c) = self.lin[k];
            assert(self.lin@[k as int].0 < row@.len());
            acc = felt_add(acc, felt_mul(c, row[i]));
            k += 1;
        }
        felt_add(acc, self.constant)
    }
}

/// Selects the rows that take part in a lookup: the sum of the products of
/// its pairs of columns and of its single columns.
#[derive(Clone, Debug)]
pub struct Filter {
    pub products: Vec<(Column, Column)>,
    pub constants: Vec<Column>,
}

/// The value of the first `k` products of a filter.
pub open spec fn products_value(p: Seq<(Column, Column)>, row: Seq<u64>, k: int) -> int
    decreases k,
{
    if k <= 0 {
        0
    } else {
        fadd(products_value(p, row, k - 1), fmul(column_value(p[k - 1].0, row), column_value(p[k - 1].1, row)))
    }
}

/// The value of the first `k` single columns of a filter.
pub open spec fn constants_value(c: Seq<Column>, row: Seq<u64>, k: int) -> int
    decreases k,
{
    if k <= 0 {
        0
    } else {
        fadd(constants_value(c, row, k - 1), column_value(c[k - 1], row))
    }
}

/// The value of a filter on a row.
pub open spec fn filter_value(f: Filter, row: Seq<u64>) -> int {
    fadd(
        products_value(f.products@, row, f.products@.len() as int),
        constants_value(f.constants@, row, f.constants@.len() as int),
    )
}

/// Whether every column of a filter fits rows of `width` values.
pub open spec fn filter_fits(f: Filter, width: int) -> bool {
    &&& forall|k: int|
        0 <= k < f.products@.len() ==> column_fits((#[trigger] f.products@[k]).0, width)
            && column_fits(f.products@[k].1, width)
    &&& forall|k: int| 0 <= k < f.constants@.len() ==> column_fits(#[trigger] f.constants@[k], width)
}

impl Filter {
    pub fn new(products: Vec<(Column, Column)>, constants: Vec<Column>) -> (r: Filter)
        ensures
            r.products@ == products@,
            r.constants@ == constants@,
    {
        Filter { products, constants }
    }

    /// A filter that is the value of one column.
    pub fn new_simple(col: Column) -> (r: Filter)
        ensures
            r.products@.len() == 0,
            r.constants@ == seq![col],
    {
        Filter { products: Vec::new(), constants: vec![col] }
    }

    /// The value of the filter on `row`.
    pub fn eval(&self, row: &Vec<u64>) -> (r: u64)
        requires
            filter_fits(*self, row@.len() as int),
            row_is_felt(row@),
        ensures
            r == filter_value(*self, row@),
    {
        let mut acc: u64 = 0;
        let mut k: usize = 0;
        while k < self.products.len()
            invariant
                filter_fits(*self, row@.len() as int),
                row_is_felt(row@),
                k <= self.products@.len(),
                acc == products_value(self.products@, row@, k as int),
                acc < ORDER,
            decreases self.products@.len() - k,
        {
            let a = self.products[k].0.eval(row);
            let b = self.products[k].1.eval(row);
            acc = felt_add(acc, felt_mul(a, b));
            k += 1;
        }
        let mut acc2: u64 = 0;
        let mut k: usize = 0;
        while k < self.constants.len()
            invariant
                filter_fits(*self, row@.len() as int),
                row_is_felt(row@),
                k <= self.constants@.len(),
                acc2 == constants_value(self.constants@, row@, k as int),
                acc2 < ORDER,
            decreases self.constants@.len() - k,
        {
            let c = self.constants[k].eval(row);
            acc2 = felt_add(acc2, c);
            k += 1;
        }
        felt_add(acc, acc2)
    }
}

/// One side of a lookup: a table, the columns whose values form each
/// tuple, and the filter that selects the rows.
#[derive(Clone, Debug)]
pub struct TableWithColumns {
    pub table: usize,
    pub columns: Vec<Column>,
    pub filter: Filter,
}

impl TableWithColumns {
    pub fn new(table: usize, columns: Vec<Column>, filter: Filter) -> (r: TableWithColumns)
        ensures
            r.table == table,
            r.columns@ == columns@,
            r.filter == filter,
    {
        TableWithColumns { table, columns, filter }
    }
}

/// Whether every column and the filter of `t` fit rows of `width` values.
pub open spec fn table_fits(t: TableWithColumns, width: int) -> bool {
    &&& forall|k: int| 0 <= k < t.columns@.len() ==> column_fits(#[trigger] t.columns@[k], width)
    &&& filter_fits(t.filter, width)
}

/// The tuple that the columns of `t` give on a row.
pub open spec fn tuple_of(t: TableWithColumns, row: Seq<u64>) -> Seq<u64> {
    Seq::new(t.columns@.len(), |k: int| column_value(t.columns@[k], row) as u64)
}

/// The tuples of the first `n` rows of `trace` whose filter value is one.
pub open spec fn selected_tuples(t: TableWithColumns, trace: Seq<Seq<u64>>, n: int) -> Seq<Seq<u64>>
    decreases n,
{
    if n <= 0 {
        Seq::empty()
    } else {
        let prev = selected_tuples(t, trace, n - 1);
        if filter_value(t.filter, trace[n - 1]) == 1 {
            prev.push(tuple_of(t, trace[n - 1]))
        } else {
            prev
        }
    }
}

/// Whether `trace` holds rows of `width` field elements.
pub open spec fn trace_fits(trace: Seq<Seq<u64>>, width: int) -> bool {
    forall|i: int| 0 <= i < trace.len() ==> (#[trigger] trace[i]).len() == width && row_is_felt(trace[i])
}

/// Returns the tuples of the rows of `trace` that `t` selects, in order.
pub fn collect_tuples(t: &TableWithColumns, trace: &Vec<Vec<u64>>, width: usize) -> (r: Vec<Vec<u64>>)
    requires
        table_fits(*t, width as int),
        forall|i: int| 0 <= i < trace@.len() ==> (#[trigger] trace@[i])@.len() == width && row_is_felt(trace@[i]@),
    ensures
        r@.map_values(|v: Vec<u64>| v@) == selected_tuples(*t, trace@.map_values(|v: Vec<u64>| v@), trace@.len() as int),
{
    let ghost tr = trace@.map_values(|v: Vec<u64>| v@);
    let mut out: Vec<Vec<u64>> = Vec::new();
    let mut i: usize = 0;
    while i < trace.len()
        invariant
            tr == trace@.map_values(|v: Vec<u64>| v@),
            table_fits(*t, width as int),
            forall|i: int| 0 <= i < trace@.len() ==> (#[trigger] trace@[i])@.len() == width && row_is_felt(trace@[i]@),
            i <= trace@.len(),
            out@.map_values(|v: Vec<u64>| v@) == selected_tuples(*t, tr, i as int),
        decreases trace@.len() - i,
    {
        let row = &trace[i];
        let f = t.filter.eval(row);
        let ghost prev = out@.map_values(|v: Vec<u64>| v@);
        if f == 1 {
            let mut tuple: Vec<u64> = Vec::new();
            let mut k: usize = 0;
            while k < t.columns.len()
                invariant
                    table_fits(*t, width as int),
                    row@.len() == width,
                    row_is_felt(row@),
                    k <= t.columns@.len(),
                    tuple@.len() == k,
                    forall|j: int| 0 <= j < k ==> tuple@[j] == #[trigger] column_value(t.columns@[j], row@),
                decreases t.columns@.len() - k,
            {
                let v = t.columns[k].eval(row);
                tuple.push(v);
                k += 1;
            }
            assert(tuple@ =~= tuple_of(*t, tr[i as int]));
            out.push(tuple);
            assert(out@.map_values(|v: Vec<u64>| v@) =~= prev.push(tuple_of(*t, tr[i as int])));
        }
        i += 1;
    }
    out
}

/// The values of a list of vectors.
pub open spec fn views(v: Seq<Vec<u64>>) -> Seq<Seq<u64>> {
    v.map_values(|x: Vec<u64>| x@)
}

/// Returns whether two vectors hold the same values.
fn same_values(x: &Vec<u64>, y: &Vec<u64>) -> (r: bool)
    ensures
        r == (x@ == y@),
{
    if x.len() != y.len() {
        return false;
    }
    let mut i: usize = 0;
    while i < x.len()
        invariant
            x@.len() == y@.len(),
            i <= x@.len(),
            forall|j: int| 0 <= j < i ==> x@[j] == y@[j],
        decreases x@.len() - i,
    {
        if x[i] != y[i] {
            return false;
        }
        i += 1;
    }
    assert(x@ =~= y@);
    true
}

/// Returns how many elements of `list` hold the values of `t`.
fn count_of(list: &Vec<Vec<u64>>, t: &Vec<u64>) -> (r: usize)
    ensures
        r == views(list@).to_multiset().count(t@),
{
    let ghost vs = views(list@);
    proof {
        vs.subrange(0, 0).to_multiset_ensures();
        vstd::multiset::lemma_multiset_empty_len(vs.subrange(0, 0).to_multiset());
    }
    let mut c: usize = 0;
    let mut i: usize = 0;
    while i < list.len()
        invariant
            vs == views(list@),
            i <= list@.len(),
            c == vs.subrange(0, i as int).to_multiset().count(t@),
            c <= i,
        decreases list@.len() - i,
    {
        proof {
            assert(vs.subrange(0, i + 1) =~= vs.subrange(0, i as int).push(vs[i as int]));
            vs.subrange(0, i as int).to_multiset_ensures();
        }
        if same_values(&list[i], t) {
            c += 1;
        }
        i += 1;
    }
    assert(vs.subrange(0, list@.len() as int) =~= vs);
    c
}

/// Returns whether the two lists hold the same tuples, each as many times.
pub fn same_multiset(a: &Vec<Vec<u64>>, b: &Vec<Vec<u64>>) -> (r: bool)
    ensures
        r == (views(a@).to_multiset() == views(b@).to_multiset()),
{
    let ghost (ma, mb) = (views(a@).to_multiset(), views(b@).to_multiset());
    let mut i: usize = 0;
    while i < a.len()
        invariant
            ma == views(a@).to_multiset(),
            mb == views(b@).to_multiset(),
            i <= a@.len(),
            forall|j: int| 0 <= j < i ==> ma.count(#[trigger] views(a@)[j]) == mb.count(views(a@)[j]),
        decreases a@.len() - i,
    {
        if count_of(a, &a[i]) != count_of(b, &a[i]) {
            return false;
        }
        i += 1;
    }
    let mut i: usize = 0;
    while i < b.len()
        invariant
            ma == views(a@).to_multiset(),
            mb == views(b@).to_multiset(),
            i <= b@.len(),
            forall|j: int| 0 <= j < a@.len() ==> ma.count(#[trigger] views(a@)[j]) == mb.count(views(a@)[j]),
            forall|j: int| 0 <= j < i ==> ma.count(#[trigger] views(b@)[j]) == mb.count(views(b@)[j]),
        decreases b@.len() - i,
    {
        if count_of(a, &b[i]) != count_of(b, &b[i]) {
            return false;
        }
        i += 1;
    }
    proof {
        views(a@).to_multiset_ensures();
        views(b@).to_multiset_ensures();
        assert forall|t: Seq<u64>| ma.count(t) == mb.count(t) by {
            if ma.count(t) > 0 {
                let j = choose|j: int| 0 <= j < views(a@).len() && views(a@)[j] == t;
            } else if mb.count(t) > 0 {
                let j = choose|j: int| 0 <= j < views(b@).len() && views(b@)[j] == t;
            }
        }
        assert(ma =~= mb);
    }
    true
}

/// A lookup: the tuples that the looking tables select must be, with their
/// multiplicities, the tuples that the looked table selects.
#[derive(Clone, Debug)]
pub struct CrossTableLookup {
    pub looking: Vec<TableWithColumns>,
    pub looked: TableWithColumns,
}

impl CrossTableLookup {
    pub fn new(looking: Vec<TableWithColumns>, looked: TableWithColumns) -> (r: CrossTableLookup)
        ensures
            r.looking@ == looking@,
            r.looked == looked,
    {
        CrossTableLookup { looking, looked }
    }
}

/// The tuples of all looking tables, table after table.
pub open spec fn looking_tuples(ctl: CrossTableLookup, traces: Seq<Seq<Seq<u64>>>, k: int) -> Seq<Seq<u64>>
    decreases k,
{
    if k <= 0 {
        Seq::empty()
    } else {
        let t = ctl.looking@[k - 1];
        looking_tuples(ctl, traces, k - 1) + selected_tuples(t, traces[t.table as int], traces[t.table as int].len() as int)
    }
}

/// Whether a lookup holds on the given traces.
pub open spec fn ctl_holds(ctl: CrossTableLookup, traces: Seq<Seq<Seq<u64>>>) -> bool {
    let t = ctl.looked;
    looking_tuples(ctl, traces, ctl.looking@.len() as int).to_multiset()
        == selected_tuples(t, traces[t.table as int], traces[t.table as int].len() as int).to_multiset()
}

/// Whether every table of a lookup names a trace of `traces` whose rows
/// have the widths `widths` and whose columns fit them.
pub open spec fn ctl_fits(ctl: CrossTableLookup, traces: Seq<Seq<Seq<u64>>>, widths: Seq<usize>) -> bool {
    &&& traces.len() == widths.len()
    &&& forall|i: int| 0 <= i < traces.len() ==> trace_fits(#[trigger] traces[i], widths[i] as int)
    &&& forall|k: int|
        0 <= k < ctl.looking@.len() ==> (#[trigger] ctl.looking@[k]).table < traces.len() && table_fits(
            ctl.looking@[k],
            widths[ctl.looking@[k].table as int] as int,
        )
    &&& ctl.looked.table < traces.len()
    &&& table_fits(ctl.looked, widths[ctl.looked.table as int] as int)
}

/// Returns whether the lookup holds: the looking tuples and the looked
/// tuples form the same multiset.
pub fn check_ctl(traces: &Vec<Vec<Vec<u64>>>, widths: &Vec<usize>, ctl: &CrossTableLookup) -> (r: bool)
    requires
        ctl_fits(*ctl, traces@.map_values(|t: Vec<Vec<u64>>| views(t@)), widths@),
    ensures
        r == ctl_holds(*ctl, traces@.map_values(|t: Vec<Vec<u64>>| views(t@))),
{
    let ghost tr = traces@.map_values(|t: Vec<Vec<u64>>| views(t@));
    let mut looking: Vec<Vec<u64>> = Vec::new();
    let mut k: usize = 0;
    while k < ctl.looking.len()
        invariant
            tr == traces@.map_values(|t: Vec<Vec<u64>>| views(t@)),
            ctl_fits(*ctl, tr, widths@),
            k <= ctl.looking@.len(),
            views(looking@) == looking_tuples(*ctl, tr, k as int),
        decreases ctl.looking@.len() - k,
    {
        let t = &ctl.looking[k];
        assert(t.table < tr.len());
        let trace = &traces[t.table];
        assert(tr[t.table as int] == views(trace@));
        assert(trace_fits(tr[t.table as int], widths@[t.table as int] as int));
        assert forall|i: int| 0 <= i < trace@.len() implies (#[trigger] trace@[i])@.len() == widths@[t.table as int] && row_is_felt(trace@[i]@) by {
            assert(tr[t.table as int][i] == trace@[i]@);
        }
        let mut sel = collect_tuples(t, trace, widths[t.table]);
        let ghost prev = views(looking@);
        looking.append(&mut sel);
        assert(views(looking@) =~= prev + selected_tuples(*t, views(trace@), trace@.len() as int));
        k += 1;
    }
    let t = &ctl.looked;
    let trace = &traces[t.table];
    assert(tr[t.table as int] == views(trace@));
    assert forall|i: int| 0 <= i < trace@.len() implies (#[trigger] trace@[i])@.len() == widths@[t.table as int] && row_is_felt(trace@[i]@) by {
        assert(tr[t.table as int][i] == trace@[i]@);
    }
    let looked = collect_tuples(t, trace, widths[t.table]);
    same_multiset(&looking, &looked)
}

/// A range-check lookup within one table: the value of each looked-up
/// column, read on the row itself or on the next row and only where its
/// filter column (if any) is one, must appear in the table column, and the
/// frequency column counts how often each table value is looked up.
#[derive(Clone, Debug)]
pub struct Lookup {
    /// Pairs of a column index and whether it is read on the next row.
    pub columns: Vec<(usize, bool)>,
    /// For each looked-up column, the index of its filter column, if any.
    pub filter_columns: Vec<Option<usize>>,
    /// The column of the values that may be looked up.
    pub table_column: usize,
    /// The column that counts the lookups of each table value.
    pub frequencies_column: usize,
}

} // verus!
