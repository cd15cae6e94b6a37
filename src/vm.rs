//! A minimal description of the machine's programs and state.
use vstd::prelude::*;

verus! {

/// The number of registers.
pub const N_REGISTERS: usize = 32;

/// The register file.
#[derive(Clone, Copy, Debug, PartialEq, Eq)]
pub struct Registers {}

/// The operands of a register-format instruction.
#[derive(Clone, Copy, Debug, PartialEq, Eq)]
pub struct FmtR {
    pub rd: usize,
    pub rs1: usize,
    pub rs2: usize,
}

/// The register-format operations.
#[derive(Clone, Copy, Debug, PartialEq, Eq)]
pub enum OpR {
    Add,
    Sub,
    Xor,
    Or,
    And,
    Sll,
    Srl,
    Sra,
    Slt,
    Sltu,
}

/// A register-format instruction.
#[derive(Clone, Copy, Debug, PartialEq, Eq)]
pub struct IxR {
    pub op: OpR,
    pub fmt: FmtR,
}

/// The operations of an [`Instruction`].
#[derive(Clone, Copy, Debug, PartialEq, Eq)]
pub enum Op {
    Add,
}

/// An instruction with its optional operands.
#[derive(Clone, Copy, Debug, PartialEq, Eq)]
pub struct Instruction {
    pub op: Op,
    pub rd: Option<u64>,
    pub rs1: Option<u64>,
    pub rs2: Option<u64>,
    pub imm: Option<u32>,
}

/// A program with its program counter and registers.
#[derive(Clone, Debug)]
pub struct Vm {
    pub ops: Vec<Instruction>,
    pub pc: u32,
    pub reg: [u32; 32],
}

impl Vm {
    /// A machine about to run `ops`, with the program counter and every
    /// register at zero.
    pub fn new(ops: Vec<Instruction>) -> (r: Self)
        ensures
            r.ops@ == ops@,
            r.pc == 0,
            forall|i: int| 0 <= i < N_REGISTERS ==> r.reg[i] == 0,
    {
        Self { ops, pc: 0, reg: [0; 32] }
    }
}

/// The table of the machine's own trace.
#[derive(Clone, Copy, Debug, Default)]
pub struct VmStark {}

/// The operation codes of the tables; they are not one-to-one with RISC-V
/// instructions.
#[allow(non_camel_case_types, clippy::upper_case_acronyms)]
#[derive(Clone, Copy, Debug, Eq, PartialEq, Structural)]
pub enum Opcode {
    ADD,
    SUB,
    SLT,
    SLTU,
    AND,
    OR,
    XOR,
    LW,
    LB,
    LH,
    LBU,
    LHU,
    SW,
    SB,
    SH,
    JAL,
    JALR,
    BEQ,
    BNE,
    BLT,
    BGE,
    BLTU,
    BGEU,
    SLL,
    SRL,
    SRA,
}

/// The value of an opcode: its place in the declaration.
pub open spec fn opcode_value(o: Opcode) -> u64 {
    match o {
        Opcode::ADD => 0,
        Opcode::SUB => 1,
        Opcode::SLT => 2,
        Opcode::SLTU => 3,
        Opcode::AND => 4,
        Opcode::OR => 5,
        Opcode::XOR => 6,
        Opcode::LW => 7,
        Opcode::LB => 8,
        Opcode::LH => 9,
        Opcode::LBU => 10,
        Opcode::LHU => 11,
        Opcode::SW => 12,
        Opcode::SB => 13,
        Opcode::SH => 14,
        Opcode::JAL => 15,
        Opcode::JALR => 16,
        Opcode::BEQ => 17,
        Opcode::BNE => 18,
        Opcode::BLT => 19,
        Opcode::BGE => 20,
        Opcode::BLTU => 21,
        Opcode::BGEU => 22,
        Opcode::SLL => 23,
        Opcode::SRL => 24,
        Opcode::SRA => 25,
    }
}

impl Opcode {
    /// The value of the opcode in a trace column.
    pub fn value(self) -> (r: u64)
        ensures
            r == opcode_value(self),
    {
        match self {
            Opcode::ADD => 0,
            Opcode::SUB => 1,
            Opcode::SLT => 2,
            Opcode::SLTU => 3,
            Opcode::AND => 4,
            Opcode::OR => 5,
            Opcode::XOR => 6,
            Opcode::LW => 7,
            Opcode::LB => 8,
            Opcode::LH => 9,
            Opcode::LBU => 10,
            Opcode::LHU => 11,
            Opcode::SW => 12,
            Opcode::SB => 13,
            Opcode::SH => 14,
            Opcode::JAL => 15,
            Opcode::JALR => 16,
            Opcode::BEQ => 17,
            Opcode::BNE => 18,
            Opcode::BLT => 19,
            Opcode::BGE => 20,
            Opcode::BLTU => 21,
            Opcode::BGEU => 22,
            Opcode::SLL => 23,
            Opcode::SRL => 24,
            Opcode::SRA => 25,
        }
    }
}

} // verus!
