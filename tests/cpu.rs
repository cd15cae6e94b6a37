use rizzo::arith::{ArithOp, Op};
use rizzo::constraint::ConstraintSet;
use rizzo::cpu::{cpu_col_map, eval, CpuCols, CpuStark, N_CPU_COLS};
use rizzo::ctl::{check_ctl, CrossTableLookup};
use rizzo::stark::{all_cross_table_lookups, Table};
use rizzo::vm::Opcode;

fn zero_row() -> CpuCols<u64> {
    CpuCols::from_slice(&[0u64; N_CPU_COLS])
}

fn add_row(a: u32, b: u32) -> CpuCols<u64> {
    let mut lv = zero_row();
    lv.op.f_arith = 1;
    lv.opcode = Opcode::ADD.value();
    lv.rs1 = 1;
    lv.rs2 = 2;
    lv.rd = 3;
    let (sum, _) = a.overflowing_add(b);
    lv.membus[1].f_on = 1;
    lv.membus[1].adr_virt = 1;
    lv.membus[1].val = a as u64;
    lv.membus[2].f_on = 1;
    lv.membus[2].adr_virt = 2;
    lv.membus[2].val = b as u64;
    lv.membus[0].f_on = 1;
    lv.membus[0].f_rw = 1;
    lv.membus[0].adr_virt = 3;
    lv.membus[0].val = sum as u64;
    lv
}

#[test]
fn cpu_row_round_trip() {
    let lv = add_row(3, 4);
    let v = lv.to_vec();
    assert_eq!(v.len(), N_CPU_COLS);
    assert_eq!(CpuCols::from_slice(&v), lv);
}

#[test]
fn column_map_matches_layout() {
    let m = cpu_col_map();
    assert_eq!(m.opcode, 20);
    assert_eq!(m.f_imm, 25);
    assert_eq!(m.rd_channel().val, 32);
    assert_eq!(m.rs1_channel().val, 37);
    assert_eq!(m.rs2_channel().val, 42);
    assert_eq!(m.rs2_channel().adr_virt, 41);
    assert_eq!(m.shared.f_take_branch, 43);
    assert_eq!(m.op.f_blt, 18);
}

#[test]
fn add_instruction_satisfies_cpu_constraints() {
    let lv = add_row(7, 9);
    let mut nv = lv;
    nv.clock = 1;
    // without a taken branch, the program counter moves to the next instruction
    nv.pc = lv.pc + 4;
    let mut cc = ConstraintSet::new();
    eval(&lv, &nv, &mut cc);
    assert!(cc.holds_at(0, 2));
    assert_eq!(CpuStark {}.constraint_degree(), 3);
}

#[test]
fn arith_read_of_wrong_register_is_caught() {
    let mut lv = add_row(7, 9);
    lv.membus[1].adr_virt = 5;
    let nv = lv;
    let mut cc = ConstraintSet::new();
    eval(&lv, &nv, &mut cc);
    assert!(!cc.holds_at(0, 2));
}

fn traces_with(cpu: Vec<Vec<u64>>, arith: Vec<Vec<u64>>) -> Vec<Vec<Vec<u64>>> {
    let mut t = vec![Vec::new(), Vec::new(), Vec::new(), Vec::new(), Vec::new()];
    t[Table::Arith.index()] = arith;
    t[Table::Cpu.index()] = cpu;
    t
}

fn widths() -> Vec<usize> {
    vec![14, 72, 23, 45, 13]
}

#[test]
fn cpu_add_matches_one_arith_row() {
    let (a, b) = (0xFFFF_FFFFu32, 2u32);
    let cpu = vec![add_row(a, b).to_vec()];
    let arith = vec![ArithOp::new(Op::ADD, a, b).into_row().to_vec()];
    let ctl = &all_cross_table_lookups()[0];
    assert!(check_ctl(&traces_with(cpu.clone(), arith), &widths(), ctl));
    // the arithmetic row of another sum is no match
    let other = vec![ArithOp::new(Op::ADD, a, 3).into_row().to_vec()];
    assert!(!check_ctl(&traces_with(cpu, other), &widths(), ctl));
}

#[test]
fn lookups_join_every_table() {
    let all: Vec<CrossTableLookup> = all_cross_table_lookups();
    assert_eq!(all.len(), 4);
    assert_eq!(all[3].looking.len(), 7);
    assert_eq!(all[0].looked.table, Table::Arith.index());
}

#[test]
fn jal_moves_program_counter_by_immediate() {
    let mut lv = zero_row();
    lv.op.f_jal = 1;
    lv.pc = 8;
    lv.imm = 4;
    lv.rd = 1;
    lv.membus[0].f_on = 1;
    lv.membus[0].f_rw = 1;
    lv.membus[0].adr_virt = 1;
    lv.membus[0].val = 12;
    let mut nv = zero_row();
    nv.clock = 1;
    nv.pc = 12;
    let mut cc = ConstraintSet::new();
    eval(&lv, &nv, &mut cc);
    assert!(cc.holds_at(0, 2));
    nv.pc = 16;
    let mut cc = ConstraintSet::new();
    eval(&lv, &nv, &mut cc);
    assert!(!cc.holds_at(0, 2));
}

#[test]
fn flat_and_named_views_agree() {
    let m = cpu_col_map();
    let mut lv = add_row(1, 2);
    lv.set(m.rs2_channel().val, 77);
    assert_eq!(lv.membus[2].val, 77);
    lv.membus[0].adr_seg = 5;
    assert_eq!(lv.get(m.rd_channel().adr_seg), 5);
    assert_eq!(lv.get(m.opcode), Opcode::ADD.value());
}
