use rizzo::stark::Table;
use rizzo::util::{fst, indices_arr, snd};
use rizzo::vm::{Instruction, Op, Vm};
use rizzo::word::{n_limbs, Word, N_LIMBS};

#[test]
fn indices_are_consecutive() {
    assert_eq!(indices_arr(5), vec![0, 1, 2, 3, 4]);
    assert!(indices_arr(0).is_empty());
}

#[test]
fn pair_projections() {
    assert_eq!(fst((1u8, 'x')), 1);
    assert_eq!(snd((1u8, 'x')), 'x');
}

#[test]
fn vm_starts_at_zero() {
    let ix = Instruction { op: Op::Add, rd: Some(1), rs1: Some(2), rs2: Some(3), imm: None };
    let vm = Vm::new(vec![ix]);
    assert_eq!(vm.pc, 0);
    assert_eq!(vm.reg, [0; 32]);
    assert_eq!(vm.ops.len(), 1);
}

#[test]
fn word_limbs() {
    assert_eq!(n_limbs(), N_LIMBS);
    let w = Word::from_u32(0x1234_5678);
    assert_eq!(w.limbs, [0x78, 0x56, 0x34, 0x12]);
    assert_eq!(w.to_u32(), 0x1234_5678);
}

#[test]
fn table_indices_follow_declaration() {
    assert_eq!(Table::Arith.index(), 0);
    assert_eq!(Table::Mem.index(), 4);
}
