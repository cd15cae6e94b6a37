use rizzo::mem::{
    fill_gap, fill_rc_gaps, gen_trace_rows, mem_col_map, trace_holds, MemAddress, MemCols, MemError,
    MemKind, MemOp, Segment, N_MEM_COLS,
};

fn op(time: usize, kind: MemKind, seg: Segment, virt: usize, val: u32) -> MemOp {
    MemOp { on: true, time, kind, adr: MemAddress::new(seg, virt), val }
}

#[test]
fn reg0_detection() {
    assert!(MemAddress::new(Segment::Reg, 0).is_reg0());
    assert!(!MemAddress::new(Segment::Reg, 1).is_reg0());
    assert!(!MemAddress::new(Segment::Main, 0).is_reg0());
}

#[test]
fn filler_reads_zero_from_x0() {
    let f = MemOp::filler(MemAddress::new(Segment::Reg, 0), 3, 77);
    assert_eq!(f.val, 0);
    assert!(!f.on);
    assert_eq!(f.kind, MemKind::Read);
    let g = MemOp::filler(MemAddress::new(Segment::Main, 4), 3, 77);
    assert_eq!(g.val, 77);
}

#[test]
fn sort_key_orders_segment_address_time() {
    let a = op(9, MemKind::Read, Segment::Reg, 5, 0);
    let b = op(1, MemKind::Read, Segment::Main, 0, 0);
    assert!(a.sort_key() < b.sort_key());
    assert_eq!(b.sort_key(), (1, 0, 1));
}

#[test]
fn fill_gap_in_time() {
    let lv = op(0, MemKind::Write, Segment::Main, 8, 5);
    let nv = op(10, MemKind::Read, Segment::Main, 8, 5);
    let fill = fill_gap(&lv, &nv, 3);
    let times: Vec<usize> = fill.iter().map(|f| f.time).collect();
    assert_eq!(times, vec![3, 6, 9]);
    assert!(fill.iter().all(|f| f.val == 5 && !f.on && f.adr.virt == 8));
}

#[test]
fn fill_gap_in_address() {
    let lv = op(0, MemKind::Write, Segment::Main, 2, 5);
    let nv = op(0, MemKind::Write, Segment::Main, 12, 5);
    let fill = fill_gap(&lv, &nv, 3);
    let adrs: Vec<usize> = fill.iter().map(|f| f.adr.virt).collect();
    assert_eq!(adrs, vec![6, 10]);
}

#[test]
fn fill_gap_across_segments() {
    let lv = op(0, MemKind::Write, Segment::Reg, 2, 5);
    let nv = op(0, MemKind::Write, Segment::Main, 9, 5);
    let fill = fill_gap(&lv, &nv, 3);
    let adrs: Vec<usize> = fill.iter().map(|f| f.adr.virt).collect();
    assert_eq!(adrs, vec![3, 7]);
    assert!(fill.iter().all(|f| f.adr.seg == Segment::Main));
}

#[test]
fn fill_gap_small_gap_needs_nothing() {
    let lv = op(1, MemKind::Write, Segment::Main, 2, 5);
    let nv = op(4, MemKind::Read, Segment::Main, 2, 5);
    assert!(fill_gap(&lv, &nv, 3).is_empty());
}

#[test]
fn fill_rc_gaps_sorts_and_extends() {
    let mut ops = vec![
        op(20, MemKind::Read, Segment::Reg, 1, 7),
        op(1, MemKind::Write, Segment::Reg, 1, 7),
    ];
    fill_rc_gaps(&mut ops);
    // max_rc is 1: one filler per time step, placed between the two accesses
    assert_eq!(ops.len(), 2 + 18);
    let times: Vec<usize> = ops.iter().map(|o| o.time).collect();
    assert_eq!(times, (1..=20).collect::<Vec<usize>>());
    assert!(ops[0].on && ops[19].on && ops[1..19].iter().all(|o| !o.on));
}

fn consistent_ops() -> Vec<MemOp> {
    vec![
        op(1, MemKind::Write, Segment::Reg, 1, 5),
        op(2, MemKind::Read, Segment::Reg, 1, 5),
        op(3, MemKind::Read, Segment::Reg, 0, 0),
        op(4, MemKind::Write, Segment::Main, 2, 9),
        op(5, MemKind::Read, Segment::Main, 2, 9),
    ]
}

#[test]
fn generated_trace_satisfies_constraints() {
    let rows = gen_trace_rows(consistent_ops()).unwrap();
    assert!(rows.len().is_power_of_two());
    assert!(trace_holds(&rows));
    // sorted by segment, address, time
    for w in rows.windows(2) {
        let a = (w[0].adr_seg, w[0].adr_virt, w[0].time);
        let b = (w[1].adr_seg, w[1].adr_virt, w[1].time);
        assert!(a <= b);
    }
}

#[test]
fn range_check_frequencies_sum_to_checks() {
    let rows = gen_trace_rows(consistent_ops()).unwrap();
    let n = rows.len() as u64;
    let seg_changes: u64 = rows.iter().map(|r| r.f_seg_diff).sum();
    let freq_sum: u64 = rows.iter().map(|r| r.range_check.freq).sum();
    assert_eq!(freq_sum, n + seg_changes);
    for (i, r) in rows.iter().enumerate() {
        assert_eq!(r.range_check.count, i as u64);
        assert!(r.range_check.val < n);
    }
}

#[test]
fn stale_read_is_caught() {
    let mut ops = consistent_ops();
    ops[1].val = 6;
    let rows = gen_trace_rows(ops).unwrap();
    assert!(!trace_holds(&rows));
}

#[test]
fn nonzero_x0_read_is_caught() {
    let mut ops = consistent_ops();
    ops[2].val = 1;
    let rows = gen_trace_rows(ops).unwrap();
    assert!(!trace_holds(&rows));
}

#[test]
fn far_address_is_bridged() {
    let ops = vec![
        op(1, MemKind::Write, Segment::Reg, 1, 5),
        op(2, MemKind::Write, Segment::Main, 100, 5),
    ];
    let r = gen_trace_rows(ops);
    assert!(r.is_ok());
    let rows = r.unwrap();
    assert_eq!(rows.len(), 64);
    assert!(trace_holds(&rows));
}

#[test]
fn mem_row_round_trip() {
    let rows = gen_trace_rows(consistent_ops()).unwrap();
    let v = rows[1].to_vec();
    assert_eq!(v.len(), N_MEM_COLS);
    assert_eq!(MemCols::from_slice(&v), rows[1]);
    let map = mem_col_map();
    assert_eq!(map.range_check.freq, 12);
    assert_eq!(map.adr_virt, 4);
}

#[test]
fn range_check_lookup_names_the_right_columns() {
    let l = rizzo::mem::lookups();
    let m = mem_col_map();
    assert_eq!(l.columns, vec![(m.range_check.val, false), (m.adr_virt, true)]);
    assert_eq!(l.filter_columns, vec![None, Some(m.f_seg_diff)]);
    assert_eq!(l.table_column, m.range_check.count);
    assert_eq!(l.frequencies_column, m.range_check.freq);
    let t = rizzo::mem::ctl_looked();
    assert_eq!(t.columns[4].lin, vec![(m.time, 1)]);
}

#[test]
fn mem_trace_as_columns() {
    let cols = rizzo::mem::gen_trace(consistent_ops()).unwrap();
    assert_eq!(cols.len(), N_MEM_COLS);
    let n = cols[0].len();
    assert!(n.is_power_of_two());
    // the counter column counts the rows
    assert_eq!(cols[11], (0..n as u64).collect::<Vec<u64>>());
}
