use rand::Rng;
use rizzo::bits::{gen_trace_rows, padding_row, BitError};
use rizzo::bits::{
    ctl_looked_logic, eval, sll, sra_ext, srl, u32_to_le_bits, BitCols, BitOp, BitStark, Op, N_BIT_COLS, WORD_BITS,
};
use rizzo::constraint::ConstraintSet;
use rizzo::field::{felt_add, ORDER};

fn one_hot(shift: usize) -> [u64; 32] {
    let mut shift_amt = [0u64; WORD_BITS];
    shift_amt[shift] = 1;
    shift_amt
}

fn eval_row(lv: &BitCols<u64>) -> ConstraintSet {
    let mut cc = ConstraintSet::new();
    eval(lv, &mut cc);
    cc
}

#[test]
fn test_sll() {
    let mut rng = rand::thread_rng();
    let x: u32 = rng.gen();
    let shift = rng.gen_range(0..WORD_BITS);
    let expect = (x << shift) as u64;

    let x_bits = u32_to_le_bits(x);
    let out = sll(&x_bits, &one_hot(shift));
    assert_eq!(out, expect);
}

#[test]
fn test_srl() {
    let mut rng = rand::thread_rng();
    let x: u32 = rng.gen();
    let shift = rng.gen_range(0..WORD_BITS);
    let expect = (x >> shift) as u64;

    let x_bits = u32_to_le_bits(x);
    let out = srl(&x_bits, &one_hot(shift));
    assert_eq!(out, expect);
}

#[test]
fn test_sra() {
    let mut rng = rand::thread_rng();
    let x: i32 = rng.gen();
    let shift = rng.gen_range(0..WORD_BITS);
    let expect = ((x >> shift) as u32) as u64;

    let x_bits = u32_to_le_bits(x as u32);
    let srl_out = srl(&x_bits, &one_hot(shift));
    let sra_ext = sra_ext(&x_bits, &one_hot(shift));
    let out = felt_add(srl_out, sra_ext);
    assert_eq!(out, expect);
}

#[test]
fn shifts_of_every_amount() {
    let x: u32 = 0x8765_4321;
    for shift in 0..32 {
        let bits = u32_to_le_bits(x);
        assert_eq!(sll(&bits, &one_hot(shift)), (x << shift) as u64);
        assert_eq!(srl(&bits, &one_hot(shift)), (x >> shift) as u64);
        let sra = felt_add(srl(&bits, &one_hot(shift)), sra_ext(&bits, &one_hot(shift)));
        assert_eq!(sra, (((x as i32) >> shift) as u32) as u64);
    }
}

#[test]
fn apply_matches_word_operations() {
    let (x, y) = (0xF0F0_1234u32, 0x0FF0_4321u32);
    assert_eq!(Op::AND.apply(x, y), x & y);
    assert_eq!(Op::OR.apply(x, y), x | y);
    assert_eq!(Op::XOR.apply(x, y), x ^ y);
    assert_eq!(Op::SLL.apply(x, 4), x << 4);
    assert_eq!(Op::SRL.apply(x, 4), x >> 4);
    assert_eq!(Op::SRA.apply(x, 4), ((x as i32) >> 4) as u32);
    assert_eq!(Op::SRA.apply(0x7000_0000, 4), 0x0700_0000);
}

#[test]
fn generated_rows_satisfy_constraints() {
    let mut rng = rand::thread_rng();
    for op in [Op::AND, Op::OR, Op::XOR] {
        let row = BitOp::new(op, rng.gen(), rng.gen()).into_row();
        assert!(eval_row(&row).is_all_zero());
    }
    for op in [Op::SLL, Op::SRL, Op::SRA] {
        let row = BitOp::new(op, rng.gen(), rng.gen_range(0..32)).into_row();
        assert!(eval_row(&row).is_all_zero());
    }
}

#[test]
fn wrong_shift_output_is_caught() {
    let mut row = BitOp::new(Op::SLL, 3, 4).into_row();
    assert_eq!(row.out, 48);
    row.out = 49;
    assert!(!eval_row(&row).is_all_zero());
}

#[test]
fn flags_off_row_satisfies_constraints() {
    let mut rng = rand::thread_rng();
    let mut row = BitOp::new(Op::AND, rng.gen(), rng.gen()).into_row();
    row.op.f_and = 0;
    row.out = rng.gen_range(0..ORDER);
    row.and = rng.gen_range(0..ORDER);
    assert!(eval_row(&row).is_all_zero());
}

#[test]
fn bit_row_layout() {
    let row = BitOp::new(Op::XOR, 5, 3).into_row();
    let v = row.to_vec();
    assert_eq!(v.len(), N_BIT_COLS);
    assert_eq!(v[6], 1);
    assert_eq!(v[7], 0);
    assert_eq!(v[8], 1);
    assert_eq!(v[70], 6);
    assert_eq!(v[71], 1);
    let t = ctl_looked_logic();
    assert_eq!(t.columns[1].eval(&v), 5);
    assert_eq!(t.columns[2].eval(&v), 3);
    assert_eq!(t.columns[0].eval(&v), 6);
    assert_eq!(t.filter.eval(&v), 1);
    assert_eq!(BitStark {}.constraint_degree(), 3);
}

#[test]
fn bit_row_round_trip() {
    let row = BitOp::new(Op::SRA, 0x8000_0001, 7).into_row();
    let v = row.to_vec();
    assert_eq!(BitCols::from_slice(&v), row);
    let map = rizzo::bits::bit_col_map();
    assert_eq!(map.in0[0], 6);
    assert_eq!(map.in1[31], 69);
    assert_eq!(map.and, 71);
}

#[test]
fn bit_trace_pads_and_rejects_long_shifts() {
    let ops = vec![BitOp::new(Op::XOR, 3, 5), BitOp::new(Op::SRA, 0xF000_0000, 31), BitOp::new(Op::OR, 1, 2)];
    let rows = gen_trace_rows(&ops, 0).unwrap();
    assert_eq!(rows.len(), 4);
    assert_eq!(rows[3], padding_row());
    assert!(rizzo::bits::trace_holds(&rows));
    let bad = vec![BitOp::new(Op::AND, 1, 40), BitOp::new(Op::SLL, 1, 32)];
    assert_eq!(gen_trace_rows(&bad, 0).unwrap_err(), BitError::InvalidShift(1));
}

#[test]
fn one_bit_flag_per_generated_row() {
    for op in [Op::AND, Op::OR, Op::XOR, Op::SLL, Op::SRL, Op::SRA] {
        let r = BitOp::new(op, 9, 3).into_row().op;
        assert_eq!(r.f_and + r.f_xor + r.f_or + r.f_sll + r.f_srl + r.f_sra, 1);
    }
}

#[test]
fn bit_trace_as_columns() {
    let ops = vec![BitOp::new(Op::AND, 6, 3), BitOp::new(Op::SLL, 1, 5)];
    let cols = rizzo::bits::gen_trace(&ops, 3).unwrap();
    assert_eq!(cols.len(), N_BIT_COLS);
    assert_eq!(cols[70], vec![2, 32, 0, 0]);
    assert_eq!(cols[38 + 5], vec![0, 1, 0, 0]);
}
