use rand::Rng;
use rizzo::arith::{eval, gen_trace, gen_trace_rows, padding_row, trace_holds, ArithCols, ArithOp, Op, N_ARITH_COLS};
use rizzo::constraint::ConstraintSet;
use rizzo::field::ORDER;

fn eval_row(lv: &ArithCols<u64>) -> ConstraintSet {
    let mut cc = ConstraintSet::new();
    eval(lv, &mut cc);
    cc
}

#[test]
fn test_eval_not_addcy() {
    let mut rng = rand::thread_rng();
    let vals: Vec<u64> = (0..N_ARITH_COLS).map(|_| rng.gen_range(0..ORDER)).collect();
    let mut lv = ArithCols::from_slice(&vals);

    // turn all operation flags off
    lv.op.f_add = 0;
    lv.op.f_sub = 0;
    lv.op.f_ltu = 0;
    lv.op.f_lts = 0;
    lv.op.f_geu = 0;
    lv.op.f_ges = 0;

    let cc = eval_row(&lv);
    assert!(cc.is_all_zero());
}

#[test]
fn test_gen_eval_add() {
    let mut rng = rand::thread_rng();
    let left: u32 = rng.gen();
    let right: u32 = rng.gen();
    let op = ArithOp::new(Op::ADD, left, right);
    let lv = op.into_row();

    let cc = eval_row(&lv);
    assert!(cc.is_all_zero());

    let (expect, cy) = left.overflowing_add(right);
    assert_eq!(lv.out, expect as u64);
    assert_eq!(lv.aux, cy as u64);
}

#[test]
fn test_gen_eval_sub() {
    let mut rng = rand::thread_rng();
    let left: u32 = rng.gen();
    let right: u32 = rng.gen();
    let op = ArithOp::new(Op::SUB, left, right);
    let lv = op.into_row();

    let cc = eval_row(&lv);
    assert!(cc.is_all_zero());

    let (expect, cy) = left.overflowing_sub(right);
    assert_eq!(lv.out, expect as u64);
    assert_eq!(lv.aux, cy as u64);
}

#[test]
fn test_gen_eval_ltu() {
    let mut rng = rand::thread_rng();
    let left: u32 = rng.gen();
    let right: u32 = rng.gen();
    let lv = ArithOp::new(Op::LTU, left, right).into_row();

    assert!(eval_row(&lv).is_all_zero());
    assert_eq!(lv.out, (left < right) as u64);
}

#[test]
fn test_gen_eval_geu() {
    let mut rng = rand::thread_rng();
    let left: u32 = rng.gen();
    let right: u32 = rng.gen();
    let lv = ArithOp::new(Op::GEU, left, right).into_row();

    assert!(eval_row(&lv).is_all_zero());
    assert_eq!(lv.out, (left >= right) as u64);
}

#[test]
fn test_gen_eval_lts() {
    let mut rng = rand::thread_rng();
    let left: i32 = rng.gen();
    let right: i32 = rng.gen();
    let lv = ArithOp::new(Op::LTS, left as u32, right as u32).into_row();

    assert!(eval_row(&lv).is_all_zero());
    assert_eq!(lv.out, (left < right) as u64);
}

#[test]
fn test_gen_eval_ges() {
    let mut rng = rand::thread_rng();
    let left: i32 = rng.gen();
    let right: i32 = rng.gen();
    let lv = ArithOp::new(Op::GES, left as u32, right as u32).into_row();

    assert!(eval_row(&lv).is_all_zero());
    assert_eq!(lv.out, (left >= right) as u64);
}

#[test]
fn add_overflow_example() {
    let lv = ArithOp::new(Op::ADD, 0xFFFF_FFFF, 1).into_row();
    assert_eq!(lv.out, 0);
    assert_eq!(lv.aux, 1);
    assert_eq!(lv.op.f_add, 1);
    assert!(eval_row(&lv).is_all_zero());
}

#[test]
fn signed_compare_examples() {
    // -1 < 1 signed, but not unsigned
    let lts = ArithOp::new(Op::LTS, (-1i32) as u32, 1).into_row();
    assert_eq!(lts.out, 1);
    assert_eq!(lts.in0_bias, 0x7FFF_FFFF);
    assert_eq!(lts.in1_bias, 0x8000_0001);
    let ltu = ArithOp::new(Op::LTU, (-1i32) as u32, 1).into_row();
    assert_eq!(ltu.out, 0);
    assert!(eval_row(&lts).is_all_zero());
    assert!(eval_row(&ltu).is_all_zero());
}

#[test]
fn wrong_output_is_caught() {
    let mut lv = ArithOp::new(Op::ADD, 5, 7).into_row();
    assert_eq!(lv.out, 12);
    lv.out = 13;
    assert!(!eval_row(&lv).is_all_zero());
}

#[test]
fn two_flags_are_caught() {
    let mut lv = ArithOp::new(Op::SUB, 9, 4).into_row();
    lv.op.f_add = 1;
    assert!(!eval_row(&lv).is_all_zero());
}

#[test]
fn padded_trace_is_power_of_two() {
    let ops = vec![
        ArithOp::new(Op::ADD, 1, 2),
        ArithOp::new(Op::SUB, 1, 2),
        ArithOp::new(Op::LTS, 3, 2),
    ];
    let rows = gen_trace_rows(ops.clone(), 0);
    assert_eq!(rows.len(), 4);
    assert_eq!(rows[3], padding_row());
    assert!(trace_holds(&rows));
    let rows = gen_trace_rows(ops.clone(), 5);
    assert_eq!(rows.len(), 8);
    assert!(trace_holds(&rows));
    let cols = gen_trace(ops, 0);
    assert_eq!(cols.len(), N_ARITH_COLS);
    assert_eq!(cols[8], vec![3, 0xFFFF_FFFF, 0, 0]);
}

#[test]
fn row_round_trip() {
    let lv = ArithOp::new(Op::GES, 17, 3).into_row();
    let v = lv.to_vec();
    assert_eq!(v.len(), N_ARITH_COLS);
    assert_eq!(ArithCols::from_slice(&v), lv);
    let map = rizzo::arith::arith_col_map();
    assert_eq!(map.op.f_add, 0);
    assert_eq!(map.in0, 6);
    assert_eq!(map.in1_aux, 13);
}

#[test]
fn one_flag_per_generated_row() {
    for op in [Op::ADD, Op::SUB, Op::LTU, Op::LTS, Op::GEU, Op::GES] {
        let r = ArithOp::new(op, 9, 3).into_row().op;
        assert_eq!(r.f_add + r.f_sub + r.f_ltu + r.f_lts + r.f_geu + r.f_ges, 1);
    }
}

#[test]
fn sub_borrow_example() {
    let lv = ArithOp::new(Op::SUB, 1, 2).into_row();
    assert_eq!(lv.out, 0xFFFF_FFFF);
    assert_eq!(lv.aux, 1);
    assert!(eval_row(&lv).is_all_zero());
}
