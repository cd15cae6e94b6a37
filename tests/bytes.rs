use rizzo::bytes::{
    byte_col_map, gen_trace_rows, trace_holds, padding_row, range_check_count, ByteCols, ByteError, ByteOp, N_BYTE_COLS,
};
use rizzo::freq::FreqMap;

fn op(rw: bool, signed: bool, adr_virt: u32, time: u32, bytes: Vec<u8>) -> ByteOp {
    ByteOp { rw, signed, adr_virt, time, bytes }
}

#[test]
fn signed_byte_is_sign_extended() {
    let mut freq = FreqMap::new();
    let row = op(false, true, 100, 7, vec![0x80]).into_row(&mut freq, 0);
    assert_eq!(row.ext_byte, 0xff);
    assert_eq!(row.bytes, [0x80, 0xff, 0xff, 0xff]);
    assert_eq!(row.len_idx, [1, 0, 0, 0]);
    assert_eq!(row.high_bits, [0, 0, 0, 0, 0, 0, 0, 1]);
    assert_eq!(freq.count(0xff), 3);
    assert_eq!(freq.count(0x80), 1);
}

#[test]
fn unsigned_half_is_zero_extended() {
    let mut freq = FreqMap::new();
    let row = op(false, false, 100, 7, vec![0x81, 0x02]).into_row(&mut freq, 3);
    assert_eq!(row.ext_byte, 0);
    assert_eq!(row.bytes, [0x02, 0x81, 0, 0]);
    assert_eq!(row.len_idx, [0, 1, 0, 0]);
    assert_eq!(row.range_check.count, 3);
}

#[test]
fn range_check_counter_saturates() {
    assert_eq!(range_check_count(3), 3);
    assert_eq!(range_check_count(255), 255);
    assert_eq!(range_check_count(1000), 255);
    assert_eq!(padding_row(300).range_check.count, 255);
}

fn some_ops() -> Vec<ByteOp> {
    vec![
        op(false, true, 8, 3, vec![0xfe]),
        op(true, false, 12, 6, vec![1, 2, 3, 4]),
        op(false, true, 20, 12, vec![0x7f, 0x10]),
    ]
}

#[test]
fn stark_test_gen_eval() {
    let rows = gen_trace_rows(&some_ops(), 20).unwrap();
    assert_eq!(rows.len(), 256);
    assert!(trace_holds(&rows));
    let rows = gen_trace_rows(&some_ops(), 300).unwrap();
    assert_eq!(rows.len(), 512);
    assert!(trace_holds(&rows));
}

#[test]
fn byte_frequencies_count_every_cell() {
    let rows = gen_trace_rows(&some_ops(), 50).unwrap();
    let total: u64 = rows.iter().map(|r| r.range_check.freq).sum();
    assert_eq!(total, 4 * rows.len() as u64);
    assert_eq!(rows[2].len_idx, [0, 1, 0, 0]);
    assert_eq!(rows[3].len_idx, [0, 0, 0, 0]);
    assert_eq!(rows[0xfe].range_check.freq, 1);
    assert_eq!(rows[0xff].range_check.freq, 3);
}

#[test]
fn empty_operation_is_rejected() {
    let mut ops = some_ops();
    ops.insert(2, op(false, false, 12, 9, vec![]));
    assert_eq!(gen_trace_rows(&ops, 0).unwrap_err(), ByteError::InvalidLength(2));
    assert_eq!(rizzo::bytes::gen_trace(&ops, 0).unwrap_err(), ByteError::InvalidLength(2));
}

#[test]
fn too_many_rows_are_rejected() {
    assert_eq!(gen_trace_rows(&some_ops(), 0x0800_0001).unwrap_err(), ByteError::TooManyRows);
}

#[test]
fn too_long_operation_is_rejected() {
    let mut ops = some_ops();
    ops.push(op(false, false, 0, 0, vec![1, 2, 3, 4, 5]));
    assert_eq!(gen_trace_rows(&ops, 0).unwrap_err(), ByteError::InvalidLength(3));
}

#[test]
fn byte_row_round_trip() {
    let rows = gen_trace_rows(&some_ops(), 0).unwrap();
    let v = rows[1].to_vec();
    assert_eq!(v.len(), N_BYTE_COLS);
    assert_eq!(ByteCols::from_slice(&v), rows[1]);
    assert_eq!(byte_col_map().high_bits[7], 20);
}

#[test]
fn byte_lookup_names_the_right_columns() {
    let l = rizzo::bytes::lookups();
    let m = byte_col_map();
    let expect: Vec<(usize, bool)> = m.bytes.iter().map(|&c| (c, false)).collect();
    assert_eq!(l.columns, expect);
    assert_eq!(l.table_column, m.range_check.count);
    assert_eq!(l.frequencies_column, m.range_check.freq);
}

#[test]
fn byte_lookup_into_memory_addresses() {
    // a two-byte store at 100: byte 0 (least significant) lies at 101
    let rows = gen_trace_rows(&vec![op(true, false, 100, 5, vec![0x12, 0x34])], 0).unwrap();
    let v = rows[0].to_vec();
    let t0 = rizzo::bytes::ctl_looking_mem(0);
    let t1 = rizzo::bytes::ctl_looking_mem(1);
    let t2 = rizzo::bytes::ctl_looking_mem(2);
    assert_eq!(t0.columns[2].eval(&v), 101);
    assert_eq!(t0.columns[3].eval(&v), 0x34);
    assert_eq!(t1.columns[2].eval(&v), 100);
    assert_eq!(t1.columns[3].eval(&v), 0x12);
    assert_eq!(t0.filter.eval(&v), 1);
    assert_eq!(t2.filter.eval(&v), 0);
    let looked = rizzo::bytes::ctl_looked();
    assert_eq!(looked.columns[3].eval(&v), 2);
    assert_eq!(looked.columns[4].eval(&v), 0x1234);
}

#[test]
fn byte_trace_as_columns() {
    let cols = rizzo::bytes::gen_trace(&some_ops(), 0).unwrap();
    assert_eq!(cols.len(), N_BYTE_COLS);
    assert_eq!(cols[0].len(), 256);
    assert_eq!(&cols[9][..3], &[0xfe, 4, 0x10]);
    assert_eq!(cols[21][44], 44);
    assert_eq!(cols[21][255], 255);
}
