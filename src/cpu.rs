//! The CPU table: one row per executed instruction, with the instruction's
//! flags and three memory channels for `rd`, `rs1` and `rs2`.
use crate::addcy::{addcy_constraints, eval_add, eval_add_transition};
use crate::constraint::{cons, ConstraintKind, ConstraintSet};
use crate::ctl::{Column, Filter, TableWithColumns};
use crate::field::{fadd, felt_add, felt_mul, felt_sub, fmul, fsub, ORDER};
use crate::stark::Table;
use crate::vm::Opcode;
use vstd::prelude::*;

verus! {

/// The number of memory channels.
pub const N_MEM_CHANNELS: usize = 3;

/// The number of columns of a memory channel.
pub const N_MEM_CHANNEL_COLS: usize = 5;

/// The number of operation flag columns.
pub const N_OP_COLS: usize = 18;

/// The number of columns of the CPU table.
pub const N_CPU_COLS: usize = 45;

/// The bytes of an instruction, by which the program counter advances.
pub const INSTRUCTION_BYTES: u64 = 4;

/// Columns of one memory channel.
#[derive(Clone, Copy, Eq, PartialEq, Debug)]
pub struct MemChannel<T> {
    /// 1 if the channel is used.
    pub f_on: T,
    /// 1 for a write, 0 for a read.
    pub f_rw: T,
    /// Address segment.
    pub adr_seg: T,
    /// Virtual address.
    pub adr_virt: T,
    /// The value read or written.
    pub val: T,
}

/// Flag columns for the operation to perform.
#[derive(Clone, Copy, Eq, PartialEq, Debug)]
pub struct OpCols<T> {
    pub f_arith: T,
    pub f_bits: T,
    pub f_lw: T,
    pub f_lh: T,
    pub f_lb: T,
    pub f_lhu: T,
    pub f_lbu: T,
    pub f_sw: T,
    pub f_sh: T,
    pub f_sb: T,
    pub f_jal: T,
    pub f_jalr: T,
    pub f_beq: T,
    pub f_bne: T,
    pub f_bltu: T,
    pub f_bgeu: T,
    pub f_blt: T,
    pub f_bge: T,
}

/// Columns used by branches.
#[derive(Clone, Copy, Eq, PartialEq, Debug)]
pub struct BranchCols<T> {
    /// 1 if the branch is taken.
    pub f_take_branch: T,
    /// The inverse of `rs1 - rs2` where it is nonzero.
    pub diff_pinv: T,
}

/// Columns of the CPU table.
#[derive(Clone, Copy, Eq, PartialEq, Debug)]
pub struct CpuCols<T> {
    /// The clock.
    pub clock: T,
    /// The program counter.
    pub pc: T,
    /// The operation to perform.
    pub op: OpCols<T>,
    /// The opcode value.
    pub opcode: T,
    /// Source register `rs1`.
    pub rs1: T,
    /// Source register `rs2`.
    pub rs2: T,
    /// Destination register `rd`.
    pub rd: T,
    /// The immediate value.
    pub imm: T,
    /// 1 if the immediate replaces `rs2`.
    pub f_imm: T,
    /// Auxiliary column.
    pub f_aux0: T,
    /// Auxiliary column.
    pub f_aux1: T,
    /// Memory channels for `rd`, `rs1` and `rs2`.
    pub membus: [MemChannel<T>; 3],
    /// Columns of the active control-flow operation.
    pub shared: BranchCols<T>,
}

impl<T: Copy> MemChannel<T> {
    /// The channel flattened in column order.
    pub open spec fn as_seq(self) -> Seq<T> {
        seq![self.f_on, self.f_rw, self.adr_seg, self.adr_virt, self.val]
    }
}

impl<T: Copy> OpCols<T> {
    /// The flags in column order.
    pub open spec fn as_seq(self) -> Seq<T> {
        seq![
            self.f_arith, self.f_bits, self.f_lw, self.f_lh, self.f_lb, self.f_lhu, self.f_lbu,
            self.f_sw, self.f_sh, self.f_sb, self.f_jal, self.f_jalr, self.f_beq, self.f_bne,
            self.f_bltu, self.f_bgeu, self.f_blt, self.f_bge,
        ]
    }
}

/// The channel whose columns start at `s[k]`.
pub open spec fn channel_at<T>(s: Seq<T>, k: int) -> MemChannel<T> {
    MemChannel { f_on: s[k], f_rw: s[k + 1], adr_seg: s[k + 2], adr_virt: s[k + 3], val: s[k + 4] }
}

/// Reads the channel whose columns start at `s[k]`.
fn read_channel<T: Copy>(s: &[T], k: usize) -> (r: MemChannel<T>)
    requires
        k + 5 <= s@.len(),
    ensures
        r == channel_at(s@, k as int),
{
    MemChannel { f_on: s[k], f_rw: s[k + 1], adr_seg: s[k + 2], adr_virt: s[k + 3], val: s[k + 4] }
}

impl<T: Copy> CpuCols<T> {
    /// The record flattened in column order.
    pub open spec fn as_seq(self) -> Seq<T> {
        seq![self.clock, self.pc] + self.op.as_seq() + seq![
            self.opcode,
            self.rs1,
            self.rs2,
            self.rd,
            self.imm,
            self.f_imm,
            self.f_aux0,
            self.f_aux1,
        ] + self.membus[0].as_seq() + self.membus[1].as_seq() + self.membus[2].as_seq() + seq![
            self.shared.f_take_branch,
            self.shared.diff_pinv,
        ]
    }

    /// The record whose flattened form is `s`.
    pub open spec fn from_seq(s: Seq<T>) -> Self {
        CpuCols {
            clock: s[0],
            pc: s[1],
            op: OpCols {
                f_arith: s[2],
                f_bits: s[3],
                f_lw: s[4],
                f_lh: s[5],
                f_lb: s[6],
                f_lhu: s[7],
                f_lbu: s[8],
                f_sw: s[9],
                f_sh: s[10],
                f_sb: s[11],
                f_jal: s[12],
                f_jalr: s[13],
                f_beq: s[14],
                f_bne: s[15],
                f_bltu: s[16],
                f_bgeu: s[17],
                f_blt: s[18],
                f_bge: s[19],
            },
            opcode: s[20],
            rs1: s[21],
            rs2: s[22],
            rd: s[23],
            imm: s[24],
            f_imm: s[25],
            f_aux0: s[26],
            f_aux1: s[27],
            membus: [channel_at(s, 28), channel_at(s, 33), channel_at(s, 38)],
            shared: BranchCols { f_take_branch: s[43], diff_pinv: s[44] },
        }
    }

    /// Reads a record from its flattened form.
    pub fn from_slice(s: &[T]) -> (r: Self)
        requires
            s@.len() == N_CPU_COLS,
        ensures
            r == Self::from_seq(s@),
    {
        let r = CpuCols {
            clock: s[0],
            pc: s[1],
            op: OpCols {
                f_arith: s[2],
                f_bits: s[3],
                f_lw: s[4],
                f_lh: s[5],
                f_lb: s[6],
                f_lhu: s[7],
                f_lbu: s[8],
                f_sw: s[9],
                f_sh: s[10],
                f_sb: s[11],
                f_jal: s[12],
                f_jalr: s[13],
                f_beq: s[14],
                f_bne: s[15],
                f_bltu: s[16],
                f_bgeu: s[17],
                f_blt: s[18],
                f_bge: s[19],
            },
            opcode: s[20],
            rs1: s[21],
            rs2: s[22],
            rd: s[23],
            imm: s[24],
            f_imm: s[25],
            f_aux0: s[26],
            f_aux1: s[27],
            membus: [read_channel(s, 28), read_channel(s, 33), read_channel(s, 38)],
            shared: BranchCols { f_take_branch: s[43], diff_pinv: s[44] },
        };
        assert(r.membus =~= Self::from_seq(s@).membus);
        r
    }

    /// The record flattened in column order.
    pub fn to_vec(&self) -> (r: Vec<T>)
        ensures
            r@ == self.as_seq(),
    {
        let o = &self.op;
        let mut r = vec![
            self.clock, self.pc, o.f_arith, o.f_bits, o.f_lw, o.f_lh, o.f_lb, o.f_lhu, o.f_lbu, o.f_sw,
            o.f_sh, o.f_sb, o.f_jal, o.f_jalr, o.f_beq, o.f_bne, o.f_bltu, o.f_bgeu, o.f_blt, o.f_bge,
            self.opcode, self.rs1, self.rs2, self.rd, self.imm, self.f_imm, self.f_aux0, self.f_aux1,
        ];
        let ghost pre0 = r@;
        let mut c: usize = 0;
        while c < 3
            invariant
                c <= 3,
                r@ == pre0 + Seq::new((5 * c) as nat, |k: int| self.membus[k / 5].as_seq()[k % 5]),
            decreases 3 - c,
        {
            let ch = &self.membus[c];
            r.push(ch.f_on);
            r.push(ch.f_rw);
            r.push(ch.adr_seg);
            r.push(ch.adr_virt);
            r.push(ch.val);
            c += 1;
            assert(r@ =~= pre0 + Seq::new((5 * c) as nat, |k: int| self.membus[k / 5].as_seq()[k % 5]));
        }
        r.push(self.shared.f_take_branch);
        r.push(self.shared.diff_pinv);
        assert(r@ =~= self.as_seq());
        r
    }

    /// The value of column `i`, read through the flat view.
    pub fn get(&self, i: usize) -> (r: T)
        requires
            i < N_CPU_COLS,
        ensures
            r == self.as_seq()[i as int],
    {
        let v = self.to_vec();
        v[i]
    }

    /// Writes column `i` through the flat view: the record whose flattened
    /// form is the old one with entry `i` replaced.
    pub fn set(&mut self, i: usize, val: T)
        requires
            i < N_CPU_COLS,
        ensures
            final(self).as_seq() == old(self).as_seq().update(i as int, val),
    {
        let mut v = self.to_vec();
        v.set(i, val);
        proof {
            lemma_cpu_cols_round_trip(*self, v@);
        }
        *self = CpuCols::from_slice(v.as_slice());
    }

    /// The memory channel of the destination register `rd`.
    pub fn rd_channel(&self) -> (r: &MemChannel<T>)
        ensures
            *r == self.membus[0],
    {
        &self.membus[0]
    }

    /// The memory channel of the source register `rs1`.
    pub fn rs1_channel(&self) -> (r: &MemChannel<T>)
        ensures
            *r == self.membus[1],
    {
        &self.membus[1]
    }

    /// The memory channel of the source register `rs2`.
    pub fn rs2_channel(&self) -> (r: &MemChannel<T>)
        ensures
            *r == self.membus[2],
    {
        &self.membus[2]
    }
}

/// Flattening a record and reading it back gives the record; reading a
/// flattened form and flattening it again gives the same values.
pub proof fn lemma_cpu_cols_round_trip<T: Copy>(r: CpuCols<T>, s: Seq<T>)
    requires
        s.len() == N_CPU_COLS,
    ensures
        CpuCols::from_seq(r.as_seq()) == r,
        CpuCols::from_seq(s).as_seq() == s,
        r.as_seq().len() == N_CPU_COLS,
{
    assert(CpuCols::from_seq(r.as_seq()).membus =~= r.membus);
    assert(CpuCols::from_seq(s).as_seq() =~= s);
}

/// The column index map: each field holds its own column index.
pub fn cpu_col_map() -> (r: CpuCols<usize>)
    ensures
        r.as_seq() == Seq::new(N_CPU_COLS as nat, |i: int| i as usize),
{
    let idx = crate::util::indices_arr(N_CPU_COLS);
    let r = CpuCols::from_slice(idx.as_slice());
    proof {
        lemma_cpu_cols_round_trip(r, idx@);
    }
    r
}

/// Whether every value of a row is a canonical field element.
pub open spec fn row_is_felt(lv: CpuCols<u64>) -> bool {
    forall|i: int| 0 <= i < N_CPU_COLS ==> (#[trigger] lv.as_seq()[i]) < ORDER
}

/// `x * (x - 1)`: zero exactly on bits.
pub open spec fn bitc(x: int) -> int {
    fmul(x, fsub(x, 1))
}

/// The constraints that, where `f` is set, the channel `ch` is on, reads
/// (or writes, if `write`), targets the register file and the register `reg`.
pub open spec fn channel_constraints(f: int, ch: MemChannel<u64>, reg: u64, write: bool) -> Seq<(ConstraintKind, int)> {
    let e = ConstraintKind::EveryRow;
    seq![
        cons(e, fmul(f, fsub(1, ch.f_on as int))),
        cons(e, if write { fmul(f, fsub(1, ch.f_rw as int)) } else { fmul(f, ch.f_rw as int) }),
        cons(e, fmul(f, ch.adr_seg as int)),
        cons(e, fmul(f, fsub(reg as int, ch.adr_virt as int))),
    ]
}

/// Emits [`channel_constraints`].
fn eval_channel(cc: &mut ConstraintSet, f: u64, ch: &MemChannel<u64>, reg: u64, write: bool)
    requires
        f < ORDER,
        ch.f_on < ORDER,
        ch.f_rw < ORDER,
        ch.adr_seg < ORDER,
        ch.adr_virt < ORDER,
        reg < ORDER,
    ensures
        final(cc)@ == old(cc)@ + channel_constraints(f as int, *ch, reg, write),
{
    cc.constraint(felt_mul(f, felt_sub(1, ch.f_on)));
    if write {
        cc.constraint(felt_mul(f, felt_sub(1, ch.f_rw)));
    } else {
        cc.constraint(felt_mul(f, ch.f_rw));
    }
    cc.constraint(felt_mul(f, ch.adr_seg));
    cc.constraint(felt_mul(f, felt_sub(reg, ch.adr_virt)));
    assert(cc@ =~= old(cc)@ + channel_constraints(f as int, *ch, reg, write));
}

/// The clock starts at zero and counts up by one.
pub open spec fn clock_constraints(lv: CpuCols<u64>, nv: CpuCols<u64>) -> Seq<(ConstraintKind, int)> {
    seq![
        cons(ConstraintKind::FirstRow, lv.clock as int),
        cons(ConstraintKind::Transition, fsub(fsub(nv.clock as int, lv.clock as int), 1)),
    ]
}

/// The auxiliary flags and the operation flags are bits, and at most one
/// operation flag is set.
pub open spec fn flag_constraints(lv: CpuCols<u64>) -> Seq<(ConstraintKind, int)> {
    let e = ConstraintKind::EveryRow;
    let f = lv.op.as_seq();
    let sum = crate::arith::sum_prefix(f, 18);
    seq![cons(e, bitc(lv.f_imm as int)), cons(e, bitc(lv.f_aux0 as int)), cons(e, bitc(lv.f_aux1 as int))]
        + Seq::new(18, |i: int| cons(e, bitc(f[i] as int))) + seq![cons(e, bitc(sum))]
}

/// An arithmetic instruction reads `rs1` and, without an immediate, `rs2`,
/// and writes `rd`.
pub open spec fn arith_constraints(lv: CpuCols<u64>) -> Seq<(ConstraintKind, int)> {
    let e = ConstraintKind::EveryRow;
    let f = lv.op.f_arith as int;
    let f_imm = lv.f_imm as int;
    let use_rs2 = fmul(f, fsub(1, f_imm));
    let ch_rs2 = lv.membus[2];
    channel_constraints(f, lv.membus[1], lv.rs1, false) + seq![cons(e, fmul(fmul(f, f_imm), ch_rs2.f_on as int))]
        + channel_constraints(use_rs2, ch_rs2, lv.rs2, false) + channel_constraints(f, lv.membus[0], lv.rd, true)
}

/// The sum of the load flags.
pub open spec fn load_flag(lv: CpuCols<u64>) -> int {
    fadd(fadd(fadd(fadd(lv.op.f_lw as int, lv.op.f_lh as int), lv.op.f_lhu as int), lv.op.f_lb as int), lv.op.f_lbu as int)
}

/// The sum of the store flags.
pub open spec fn store_flag(lv: CpuCols<u64>) -> int {
    fadd(fadd(lv.op.f_sw as int, lv.op.f_sh as int), lv.op.f_sb as int)
}

/// A load reads `rs1`, writes `rd`, and puts `rs1 + imm` in the address of
/// the `rs2` channel; a store reads `rs1` and `rs2` and puts `rs1 + imm` in
/// the address of the `rd` channel.
pub open spec fn memio_constraints(lv: CpuCols<u64>) -> Seq<(ConstraintKind, int)> {
    let e = ConstraintKind::EveryRow;
    let fl = load_flag(lv);
    let fs = store_flag(lv);
    let (rd, rs1, rs2) = (lv.membus[0], lv.membus[1], lv.membus[2]);
    channel_constraints(fl, rs1, lv.rs1, false) + channel_constraints(fl, rd, lv.rd, true) + seq![
        cons(e, fmul(fl, rs2.f_on as int)),
    ] + addcy_constraints(fl, rs1.val as int, lv.imm as int, rs2.adr_virt as int, lv.f_aux1 as int, false)
        + channel_constraints(fs, rs1, lv.rs1, false) + channel_constraints(fs, rs2, lv.rs2, false) + seq![
        cons(e, fmul(fs, rd.f_on as int)),
    ] + addcy_constraints(fs, rs1.val as int, lv.imm as int, rd.adr_virt as int, lv.f_aux1 as int, false)
}

/// The sum of the branch flags.
pub open spec fn branch_flag(lv: CpuCols<u64>) -> int {
    fadd(
        fadd(fadd(fadd(fadd(lv.op.f_beq as int, lv.op.f_bne as int), lv.op.f_bltu as int), lv.op.f_bgeu as int), lv.op.f_blt as int),
        lv.op.f_bge as int,
    )
}

/// A branch reads `rs1` and `rs2`, decides `beq` and `bne` from their
/// difference, and moves the program counter by `imm` if taken, else to the
/// next instruction.
pub open spec fn branch_constraints(lv: CpuCols<u64>, nv: CpuCols<u64>) -> Seq<(ConstraintKind, int)> {
    let e = ConstraintKind::EveryRow;
    let fb = branch_flag(lv);
    let take = lv.shared.f_take_branch as int;
    let not_take = fsub(1, take);
    let (rd, rs1, rs2) = (lv.membus[0], lv.membus[1], lv.membus[2]);
    let diff = fsub(rs1.val as int, rs2.val as int);
    let pinv = lv.shared.diff_pinv as int;
    let (f_beq, f_bne) = (lv.op.f_beq as int, lv.op.f_bne as int);
    seq![
        cons(e, bitc(fb)),
        cons(e, fmul(fmul(fb, take), fsub(take, 1))),
        cons(e, fmul(fb, rd.f_on as int)),
    ] + channel_constraints(fb, rs1, lv.rs1, false) + channel_constraints(fb, rs2, lv.rs2, false) + seq![
        cons(e, fmul(fmul(f_beq, take), diff)),
        cons(e, fmul(f_beq, fsub(fmul(diff, pinv), not_take))),
        cons(e, fmul(fmul(f_bne, not_take), diff)),
        cons(e, fmul(f_bne, fsub(fmul(diff, pinv), take))),
    ] + addcy_constraints(take, lv.pc as int, lv.imm as int, nv.pc as int, lv.f_aux0 as int, true)
        + addcy_constraints(not_take, lv.pc as int, INSTRUCTION_BYTES as int, nv.pc as int, lv.f_aux0 as int, true)
}

/// `jal` moves the program counter by `imm`, `jalr` to `rs1 + imm`; both
/// write the address of the next instruction to `rd` and leave the `rs2`
/// channel off, and `jal` also the `rs1` channel.
pub open spec fn jump_constraints(lv: CpuCols<u64>, nv: CpuCols<u64>) -> Seq<(ConstraintKind, int)> {
    let e = ConstraintKind::EveryRow;
    let f_jal = lv.op.f_jal as int;
    let f_jalr = lv.op.f_jalr as int;
    let f_jump = fadd(f_jal, f_jalr);
    let (rd, rs1, rs2) = (lv.membus[0], lv.membus[1], lv.membus[2]);
    addcy_constraints(f_jal, lv.pc as int, lv.imm as int, nv.pc as int, lv.f_aux0 as int, true)
        + channel_constraints(f_jalr, rs1, lv.rs1, false)
        + addcy_constraints(f_jalr, rs1.val as int, lv.imm as int, nv.pc as int, lv.f_aux0 as int, true)
        + seq![cons(e, fmul(f_jal, rs1.f_on as int))]
        + channel_constraints(f_jump, rd, lv.rd, true)
        + addcy_constraints(f_jump, lv.pc as int, INSTRUCTION_BYTES as int, rd.val as int, lv.f_aux1 as int, false)
        + seq![cons(e, fmul(f_jump, rs2.f_on as int))]
}

/// All constraints of the CPU table on a row `lv` and its successor `nv`.
pub open spec fn cpu_constraints(lv: CpuCols<u64>, nv: CpuCols<u64>) -> Seq<(ConstraintKind, int)> {
    clock_constraints(lv, nv) + flag_constraints(lv) + arith_constraints(lv) + memio_constraints(lv)
        + branch_constraints(lv, nv) + jump_constraints(lv, nv)
}

/// Every column of a row of field elements is a field element.
pub open spec fn fields_felt(lv: CpuCols<u64>) -> bool {
    &&& lv.clock < ORDER && lv.pc < ORDER && lv.opcode < ORDER
    &&& forall|i: int| 0 <= i < N_OP_COLS ==> #[trigger] lv.op.as_seq()[i] < ORDER
    &&& lv.op.f_arith < ORDER && lv.op.f_bits < ORDER && lv.op.f_lw < ORDER && lv.op.f_lh < ORDER
    &&& lv.op.f_lb < ORDER && lv.op.f_lhu < ORDER && lv.op.f_lbu < ORDER && lv.op.f_sw < ORDER
    &&& lv.op.f_sh < ORDER && lv.op.f_sb < ORDER && lv.op.f_jal < ORDER && lv.op.f_jalr < ORDER
    &&& lv.op.f_beq < ORDER && lv.op.f_bne < ORDER && lv.op.f_bltu < ORDER && lv.op.f_bgeu < ORDER
    &&& lv.op.f_blt < ORDER && lv.op.f_bge < ORDER
    &&& lv.rs1 < ORDER && lv.rs2 < ORDER && lv.rd < ORDER && lv.imm < ORDER
    &&& lv.f_imm < ORDER && lv.f_aux0 < ORDER && lv.f_aux1 < ORDER
    &&& forall|c: int|
        0 <= c < 3 ==> (#[trigger] lv.membus[c]).f_on < ORDER && lv.membus[c].f_rw < ORDER
            && lv.membus[c].adr_seg < ORDER && lv.membus[c].adr_virt < ORDER && lv.membus[c].val < ORDER
    &&& lv.shared.f_take_branch < ORDER && lv.shared.diff_pinv < ORDER
}

proof fn lemma_fields_felt(lv: CpuCols<u64>)
    requires
        row_is_felt(lv),
    ensures
        fields_felt(lv),
{
    let s = lv.as_seq();
    assert forall|i: int| 0 <= i < N_CPU_COLS implies #[trigger] s[i] < ORDER by {}
    assert forall|i: int| 0 <= i < N_OP_COLS implies #[trigger] lv.op.as_seq()[i] < ORDER by {
        assert(s[2 + i] == lv.op.as_seq()[i]);
    }
    assert forall|c: int| 0 <= c < 3 implies (#[trigger] lv.membus[c]).f_on < ORDER && lv.membus[c].f_rw < ORDER
        && lv.membus[c].adr_seg < ORDER && lv.membus[c].adr_virt < ORDER && lv.membus[c].val < ORDER by {
        let k = 28 + 5 * c;
        assert(s[k] == lv.membus[c].f_on && s[k + 1] == lv.membus[c].f_rw && s[k + 2] == lv.membus[c].adr_seg);
        assert(s[k + 3] == lv.membus[c].adr_virt && s[k + 4] == lv.membus[c].val);
    }
    assert(s[0] < ORDER && s[1] < ORDER && s[20] < ORDER && s[21] < ORDER && s[22] < ORDER);
    assert(s[23] < ORDER && s[24] < ORDER && s[25] < ORDER && s[26] < ORDER && s[27] < ORDER);
    assert(s[43] < ORDER && s[44] < ORDER);
    assert(s[2] < ORDER && s[3] < ORDER && s[4] < ORDER && s[5] < ORDER && s[6] < ORDER && s[7] < ORDER);
    assert(s[8] < ORDER && s[9] < ORDER && s[10] < ORDER && s[11] < ORDER && s[12] < ORDER && s[13] < ORDER);
    assert(s[14] < ORDER && s[15] < ORDER && s[16] < ORDER && s[17] < ORDER && s[18] < ORDER && s[19] < ORDER);
}

/// Emits [`clock_constraints`].
pub fn eval_clock(lv: &CpuCols<u64>, nv: &CpuCols<u64>, cc: &mut ConstraintSet)
    requires
        fields_felt(*lv),
        fields_felt(*nv),
    ensures
        final(cc)@ == old(cc)@ + clock_constraints(*lv, *nv),
{
    cc.constraint_first_row(lv.clock);
    cc.constraint_transition(felt_sub(felt_sub(nv.clock, lv.clock), 1));
    assert(cc@ =~= old(cc)@ + clock_constraints(*lv, *nv));
}

/// Emits [`flag_constraints`].
pub fn eval_flags(lv: &CpuCols<u64>, cc: &mut ConstraintSet)
    requires
        fields_felt(*lv),
    ensures
        final(cc)@ == old(cc)@ + flag_constraints(*lv),
{
    let e = ConstraintKind::EveryRow;
    cc.constraint(felt_mul(lv.f_imm, felt_sub(lv.f_imm, 1)));
    cc.constraint(felt_mul(lv.f_aux0, felt_sub(lv.f_aux0, 1)));
    cc.constraint(felt_mul(lv.f_aux1, felt_sub(lv.f_aux1, 1)));
    let ghost c1 = cc@;
    let o = &lv.op;
    let flags: [u64; 18] = [
        o.f_arith, o.f_bits, o.f_lw, o.f_lh, o.f_lb, o.f_lhu, o.f_lbu, o.f_sw, o.f_sh, o.f_sb,
        o.f_jal, o.f_jalr, o.f_beq, o.f_bne, o.f_bltu, o.f_bgeu, o.f_blt, o.f_bge,
    ];
    assert(flags@ =~= lv.op.as_seq());
    let mut sum: u64 = 0;
    let mut i: usize = 0;
    while i < 18
        invariant
            i <= 18,
            flags@ == lv.op.as_seq(),
            forall|k: int| 0 <= k < 18 ==> #[trigger] flags@[k] < ORDER,
            sum < ORDER,
            sum == (if i == 0 { 0 } else { crate::arith::sum_prefix(flags@, i as int) }),
            cc@ == c1 + Seq::new(i as nat, |k: int| cons(ConstraintKind::EveryRow, bitc(flags@[k] as int))),
        decreases 18 - i,
    {
        let f = flags[i];
        cc.constraint(felt_mul(f, felt_sub(f, 1)));
        if i == 0 {
            sum = f;
        } else {
            sum = felt_add(sum, f);
        }
        i += 1;
        assert(cc@ =~= c1 + Seq::new(i as nat, |k: int| cons(ConstraintKind::EveryRow, bitc(flags@[k] as int))));
    }
    cc.constraint(felt_mul(sum, felt_sub(sum, 1)));
    assert(cc@ =~= old(cc)@ + flag_constraints(*lv));
}

/// Emits [`arith_constraints`].
pub fn eval_arith(lv: &CpuCols<u64>, cc: &mut ConstraintSet)
    requires
        fields_felt(*lv),
    ensures
        final(cc)@ == old(cc)@ + arith_constraints(*lv),
{
    assert(lv.membus[0].f_on < ORDER && lv.membus[1].f_on < ORDER && lv.membus[2].f_on < ORDER);
    let f = lv.op.f_arith;
    let f_imm = lv.f_imm;
    let use_rs2 = felt_mul(f, felt_sub(1, f_imm));
    let ghost c0 = cc@;
    eval_channel(cc, f, lv.rs1_channel(), lv.rs1, false);
    let ch_rs2 = lv.rs2_channel();
    cc.constraint(felt_mul(felt_mul(f, f_imm), ch_rs2.f_on));
    eval_channel(cc, use_rs2, ch_rs2, lv.rs2, false);
    eval_channel(cc, f, lv.rd_channel(), lv.rd, true);
    assert(cc@ =~= c0 + arith_constraints(*lv));
}

/// Emits [`memio_constraints`].
pub fn eval_memio(lv: &CpuCols<u64>, cc: &mut ConstraintSet)
    requires
        fields_felt(*lv),
    ensures
        final(cc)@ == old(cc)@ + memio_constraints(*lv),
{
    assert(lv.membus[0].f_on < ORDER && lv.membus[1].f_on < ORDER && lv.membus[2].f_on < ORDER);
    let o = &lv.op;
    let fl = felt_add(felt_add(felt_add(felt_add(o.f_lw, o.f_lh), o.f_lhu), o.f_lb), o.f_lbu);
    let fs = felt_add(felt_add(o.f_sw, o.f_sh), o.f_sb);
    let (rd, rs1, rs2) = (lv.rd_channel(), lv.rs1_channel(), lv.rs2_channel());
    let ghost c0 = cc@;
    eval_channel(cc, fl, rs1, lv.rs1, false);
    eval_channel(cc, fl, rd, lv.rd, true);
    cc.constraint(felt_mul(fl, rs2.f_on));
    eval_add(cc, fl, rs1.val, lv.imm, rs2.adr_virt, lv.f_aux1);
    eval_channel(cc, fs, rs1, lv.rs1, false);
    eval_channel(cc, fs, rs2, lv.rs2, false);
    cc.constraint(felt_mul(fs, rd.f_on));
    eval_add(cc, fs, rs1.val, lv.imm, rd.adr_virt, lv.f_aux1);
    assert(cc@ =~= c0 + memio_constraints(*lv));
}

/// Emits [`branch_constraints`].
pub fn eval_branch(lv: &CpuCols<u64>, nv: &CpuCols<u64>, cc: &mut ConstraintSet)
    requires
        fields_felt(*lv),
        fields_felt(*nv),
    ensures
        final(cc)@ == old(cc)@ + branch_constraints(*lv, *nv),
{
    assert(lv.membus[0].f_on < ORDER && lv.membus[1].f_on < ORDER && lv.membus[2].f_on < ORDER);
    let o = &lv.op;
    let fb = felt_add(felt_add(felt_add(felt_add(felt_add(o.f_beq, o.f_bne), o.f_bltu), o.f_bgeu), o.f_blt), o.f_bge);
    let take = lv.shared.f_take_branch;
    let not_take = felt_sub(1, take);
    let (rd, rs1, rs2) = (lv.rd_channel(), lv.rs1_channel(), lv.rs2_channel());
    let ghost c0 = cc@;
    cc.constraint(felt_mul(fb, felt_sub(fb, 1)));
    cc.constraint(felt_mul(felt_mul(fb, take), felt_sub(take, 1)));
    cc.constraint(felt_mul(fb, rd.f_on));
    eval_channel(cc, fb, rs1, lv.rs1, false);
    eval_channel(cc, fb, rs2, lv.rs2, false);
    let diff = felt_sub(rs1.val, rs2.val);
    let pinv = lv.shared.diff_pinv;
    cc.constraint(felt_mul(felt_mul(o.f_beq, take), diff));
    cc.constraint(felt_mul(o.f_beq, felt_sub(felt_mul(diff, pinv), not_take)));
    cc.constraint(felt_mul(felt_mul(o.f_bne, not_take), diff));
    cc.constraint(felt_mul(o.f_bne, felt_sub(felt_mul(diff, pinv), take)));
    eval_add_transition(cc, take, lv.pc, lv.imm, nv.pc, lv.f_aux0);
    eval_add_transition(cc, not_take, lv.pc, INSTRUCTION_BYTES, nv.pc, lv.f_aux0);
    assert(cc@ =~= c0 + branch_constraints(*lv, *nv));
}

/// Emits [`jump_constraints`].
pub fn eval_jump(lv: &CpuCols<u64>, nv: &CpuCols<u64>, cc: &mut ConstraintSet)
    requires
        fields_felt(*lv),
        fields_felt(*nv),
    ensures
        final(cc)@ == old(cc)@ + jump_constraints(*lv, *nv),
{
    assert(lv.membus[0].f_on < ORDER && lv.membus[1].f_on < ORDER && lv.membus[2].f_on < ORDER);
    let f_jal = lv.op.f_jal;
    let f_jalr = lv.op.f_jalr;
    let f_jump = felt_add(f_jal, f_jalr);
    let (rd, rs1, rs2) = (lv.rd_channel(), lv.rs1_channel(), lv.rs2_channel());
    let ghost c0 = cc@;
    eval_add_transition(cc, f_jal, lv.pc, lv.imm, nv.pc, lv.f_aux0);
    eval_channel(cc, f_jalr, rs1, lv.rs1, false);
    eval_add_transition(cc, f_jalr, rs1.val, lv.imm, nv.pc, lv.f_aux0);
    cc.constraint(felt_mul(f_jal, rs1.f_on));
    eval_channel(cc, f_jump, rd, lv.rd, true);
    eval_add(cc, f_jump, lv.pc, INSTRUCTION_BYTES, rd.val, lv.f_aux1);
    cc.constraint(felt_mul(f_jump, rs2.f_on));
    assert(cc@ =~= c0 + jump_constraints(*lv, *nv));
}

/// Emits all constraints of the CPU table on `lv` and its successor `nv`.
pub fn eval(lv: &CpuCols<u64>, nv: &CpuCols<u64>, cc: &mut ConstraintSet)
    requires
        row_is_felt(*lv),
        row_is_felt(*nv),
    ensures
        final(cc)@ == old(cc)@ + cpu_constraints(*lv, *nv),
{
    proof {
        lemma_fields_felt(*lv);
        lemma_fields_felt(*nv);
    }
    let ghost c0 = cc@;
    let ghost (a, b, c) = (clock_constraints(*lv, *nv), flag_constraints(*lv), arith_constraints(*lv));
    let ghost (d, e, f) = (memio_constraints(*lv), branch_constraints(*lv, *nv), jump_constraints(*lv, *nv));
    eval_clock(lv, nv, cc);
    eval_flags(lv, cc);
    proof {
        vstd::seq_lib::lemma_concat_associative(c0, a, b);
    }
    eval_arith(lv, cc);
    proof {
        vstd::seq_lib::lemma_concat_associative(c0, a + b, c);
    }
    eval_memio(lv, cc);
    proof {
        vstd::seq_lib::lemma_concat_associative(c0, a + b + c, d);
    }
    eval_branch(lv, nv, cc);
    proof {
        vstd::seq_lib::lemma_concat_associative(c0, a + b + c + d, e);
    }
    eval_jump(lv, nv, cc);
    proof {
        vstd::seq_lib::lemma_concat_associative(c0, a + b + c + d + e, f);
    }
}

/// A column of one CPU column, by index.
pub open spec fn is_single(c: Column, i: usize) -> bool {
    c.lin@ == seq![(i, 1u64)] && c.constant == 0
}

/// The time stamp of a memory channel's access: `clock * 3 + channel`.
pub fn mem_timestamp(channel: usize) -> (r: Column)
    requires
        channel < N_MEM_CHANNELS,
    ensures
        r.lin@ == seq![(0usize, N_MEM_CHANNELS as u64)],
        r.constant == channel,
{
    Column::linear_combination_with_constant(vec![(0usize, N_MEM_CHANNELS as u64)], channel as u64)
}

/// The columns and filter of [`ctl_looking_mem`] for `channel`.
pub open spec fn looking_cpu_mem(r: TableWithColumns, channel: usize) -> bool {
    &&& r.table == crate::stark::table_index(Table::Cpu)
    &&& r.columns@.len() == 5
    &&& forall|k: int| 0 <= k < 4 ==> is_single(#[trigger] r.columns@[k], (28 + 5 * channel + 1 + k) as usize)
    &&& r.columns@[4].lin@ == seq![(0usize, N_MEM_CHANNELS as u64)]
    &&& r.columns@[4].constant == channel
    &&& r.filter.products@.len() == 0
    &&& r.filter.constants@.len() == 1
    &&& is_single(r.filter.constants@[0], (28 + 5 * channel) as usize)
}

/// The lookup of memory channel `channel` into the memory table:
/// `(f_rw, adr_seg, adr_virt, val, time)` where the channel is on.
pub fn ctl_looking_mem(channel: usize) -> (r: TableWithColumns)
    requires
        channel < N_MEM_CHANNELS,
    ensures
        looking_cpu_mem(r, channel),
{
    let base = 28 + 5 * channel;
    let cols = vec![
        Column::single(base + 1),
        Column::single(base + 2),
        Column::single(base + 3),
        Column::single(base + 4),
        mem_timestamp(channel),
    ];
    let filter = Filter::new_simple(Column::single(base));
    TableWithColumns::new(Table::Cpu.index(), cols, filter)
}

/// The columns of a binary operation with its second operand in `rs2`:
/// opcode, `rs1`, `rs2` and `rd` values.
pub fn ctl_binop_reg() -> (r: Vec<Column>)
    ensures
        r@.len() == 4,
        is_single(r@[0], 20),
        is_single(r@[1], 37),
        is_single(r@[2], 42),
        is_single(r@[3], 32),
{
    vec![Column::single(20), Column::single(37), Column::single(42), Column::single(32)]
}

/// The columns of a binary operation with an immediate second operand:
/// opcode, `rs1` value, `imm` and `rd` value.
pub fn ctl_binop_imm() -> (r: Vec<Column>)
    ensures
        r@.len() == 4,
        is_single(r@[0], 20),
        is_single(r@[1], 37),
        is_single(r@[2], 24),
        is_single(r@[3], 32),
{
    vec![Column::single(20), Column::single(37), Column::single(24), Column::single(32)]
}

/// The filter `(1 - f_imm) * flag`.
fn filter_reg(flag: usize) -> (r: Filter)
    ensures
        r.products@.len() == 1,
        r.products@[0].0.lin@ == seq![(25usize, (ORDER - 1) as u64)],
        r.products@[0].0.constant == 1,
        is_single(r.products@[0].1, flag),
        r.constants@.len() == 0,
{
    let f_not_imm = Column::linear_combination_with_constant(vec![(25usize, ORDER - 1)], 1);
    Filter::new(vec![(f_not_imm, Column::single(flag))], Vec::new())
}

/// The filter `f_imm * flag`.
fn filter_imm(flag: usize) -> (r: Filter)
    ensures
        r.products@.len() == 1,
        is_single(r.products@[0].0, 25),
        is_single(r.products@[0].1, flag),
        r.constants@.len() == 0,
{
    Filter::new(vec![(Column::single(25), Column::single(flag))], Vec::new())
}

/// The columns and filter of [`ctl_looking_arith_reg`].
pub open spec fn looking_arith_reg(r: TableWithColumns) -> bool {
    &&& r.table == crate::stark::table_index(Table::Cpu)
    &&& r.columns@.len() == 4
    &&& is_single(r.columns@[0], 20) && is_single(r.columns@[1], 37)
    &&& is_single(r.columns@[2], 42) && is_single(r.columns@[3], 32)
    &&& r.filter.products@.len() == 1 && r.filter.constants@.len() == 0
    &&& r.filter.products@[0].0.lin@ == seq![(25usize, (ORDER - 1) as u64)]
    &&& r.filter.products@[0].0.constant == 1
    &&& is_single(r.filter.products@[0].1, 2)
}

/// The lookup of arithmetic instructions on two registers into the
/// arithmetic table.
pub fn ctl_looking_arith_reg() -> (r: TableWithColumns)
    ensures
        looking_arith_reg(r),
{
    TableWithColumns::new(Table::Cpu.index(), ctl_binop_reg(), filter_reg(2))
}

/// The columns and filter of [`ctl_looking_arith_imm`].
pub open spec fn looking_arith_imm(r: TableWithColumns) -> bool {
    &&& r.table == crate::stark::table_index(Table::Cpu)
    &&& r.columns@.len() == 4
    &&& is_single(r.columns@[0], 20) && is_single(r.columns@[1], 37)
    &&& is_single(r.columns@[2], 24) && is_single(r.columns@[3], 32)
    &&& r.filter.products@.len() == 1 && r.filter.constants@.len() == 0
    &&& is_single(r.filter.products@[0].0, 25)
    &&& is_single(r.filter.products@[0].1, 2)
}

/// The lookup of arithmetic instructions with an immediate into the
/// arithmetic table.
pub fn ctl_looking_arith_imm() -> (r: TableWithColumns)
    ensures
        looking_arith_imm(r),
{
    TableWithColumns::new(Table::Cpu.index(), ctl_binop_imm(), filter_imm(2))
}

/// The columns and filter of [`ctl_looking_logic_reg`].
pub open spec fn looking_logic_reg(r: TableWithColumns) -> bool {
    &&& r.table == crate::stark::table_index(Table::Cpu)
    &&& r.columns@.len() == 4
    &&& is_single(r.columns@[0], 20) && is_single(r.columns@[1], 37)
    &&& is_single(r.columns@[2], 42) && is_single(r.columns@[3], 32)
    &&& r.filter.products@.len() == 1 && r.filter.constants@.len() == 0
    &&& r.filter.products@[0].0.lin@ == seq![(25usize, (ORDER - 1) as u64)]
    &&& r.filter.products@[0].0.constant == 1
    &&& is_single(r.filter.products@[0].1, 3)
}

/// The lookup of logic instructions on two registers into the bits table.
pub fn ctl_looking_logic_reg() -> (r: TableWithColumns)
    ensures
        looking_logic_reg(r),
{
    TableWithColumns::new(Table::Cpu.index(), ctl_binop_reg(), filter_reg(3))
}

/// The columns and filter of [`ctl_looking_logic_imm`].
pub open spec fn looking_logic_imm(r: TableWithColumns) -> bool {
    &&& r.table == crate::stark::table_index(Table::Cpu)
    &&& r.columns@.len() == 4
    &&& is_single(r.columns@[0], 20) && is_single(r.columns@[1], 37)
    &&& is_single(r.columns@[2], 24) && is_single(r.columns@[3], 32)
    &&& r.filter.products@.len() == 1 && r.filter.constants@.len() == 0
    &&& is_single(r.filter.products@[0].0, 25)
    &&& is_single(r.filter.products@[0].1, 3)
}

/// The lookup of logic instructions with an immediate into the bits table.
pub fn ctl_looking_logic_imm() -> (r: TableWithColumns)
    ensures
        looking_logic_imm(r),
{
    TableWithColumns::new(Table::Cpu.index(), ctl_binop_imm(), filter_imm(3))
}

/// The columns and filter of [`ctl_looking_pack`].
pub open spec fn looking_pack(r: TableWithColumns) -> bool {
    &&& r.table == crate::stark::table_index(Table::Cpu)
    &&& r.columns@.len() == 6
    &&& r.columns@[0].lin@.len() == 0 && r.columns@[0].constant == 0
    &&& r.columns@[1].lin@ == seq![(6usize, 1u64), (5usize, 1u64)] && r.columns@[1].constant == 0
    &&& is_single(r.columns@[2], 41)
    &&& r.columns@[3].lin@ == seq![(6usize, 1u64), (8usize, 1u64), (5usize, 2u64), (7usize, 2u64), (4usize, 4u64)]
    &&& r.columns@[3].constant == 0
    &&& is_single(r.columns@[4], 32)
    &&& r.columns@[5].lin@ == seq![(0usize, 3u64)] && r.columns@[5].constant == 0
    &&& r.filter.products@.len() == 0 && r.filter.constants@.len() == 1
    &&& r.filter.constants@[0].lin@ == seq![(6usize, 1u64), (8usize, 1u64), (5usize, 1u64), (7usize, 1u64), (4usize, 1u64)]
}

/// The lookup of loads into the byte-packing table: `(0, signed, rs1 + imm,
/// length, rd value, clock * 3)` where a load flag is set.
pub fn ctl_looking_pack() -> (r: TableWithColumns)
    ensures
        looking_pack(r),
{
    // lb, lbu, lh, lhu, lw
    let len = Column::linear_combination(vec![(6usize, 1u64), (8, 1), (5, 2), (7, 2), (4, 4)]);
    let f_signed = Column::linear_combination(vec![(6usize, 1u64), (5, 1)]);
    let time = Column::linear_combination(vec![(0usize, N_MEM_CHANNELS as u64)]);
    let cols = vec![Column::constant(0), f_signed, Column::single(41), len, Column::single(32), time];
    let filter = Filter::new_simple(Column::sum(&vec![6usize, 8, 5, 7, 4]));
    let r = TableWithColumns::new(Table::Cpu.index(), cols, filter);
    assert(r.filter.constants@[0].lin@ =~= seq![(6usize, 1u64), (8usize, 1u64), (5usize, 1u64), (7usize, 1u64), (4usize, 1u64)]);
    assert(r.columns@[1].lin@ =~= seq![(6usize, 1u64), (5usize, 1u64)]);
    assert(r.columns@[3].lin@ =~= seq![(6usize, 1u64), (8usize, 1u64), (5usize, 2u64), (7usize, 2u64), (4usize, 4u64)]);
    assert(r.columns@[5].lin@ =~= seq![(0usize, 3u64)]);
    r
}

/// The columns and filter of [`ctl_looking_unpack`].
pub open spec fn looking_unpack(r: TableWithColumns) -> bool {
    &&& r.table == crate::stark::table_index(Table::Cpu)
    &&& r.columns@.len() == 6
    &&& r.columns@[0].lin@.len() == 0 && r.columns@[0].constant == 1
    &&& r.columns@[1].lin@.len() == 0 && r.columns@[1].constant == 0
    &&& is_single(r.columns@[2], 31)
    &&& r.columns@[3].lin@ == seq![(11usize, 1u64), (10usize, 2u64), (9usize, 4u64)]
    &&& r.columns@[3].constant == 0
    &&& is_single(r.columns@[4], 42)
    &&& r.columns@[5].lin@ == seq![(0usize, 3u64)] && r.columns@[5].constant == 0
    &&& r.filter.products@.len() == 0 && r.filter.constants@.len() == 1
    &&& r.filter.constants@[0].lin@ == seq![(11usize, 1u64), (10usize, 1u64), (9usize, 1u64)]
}

/// The lookup of stores into the byte-packing table: `(1, 0, rs1 + imm,
/// length, rs2 value, clock * 3)` where a store flag is set.
pub fn ctl_looking_unpack() -> (r: TableWithColumns)
    ensures
        looking_unpack(r),
{
    // sb, sh, sw
    let len = Column::linear_combination(vec![(11usize, 1u64), (10, 2), (9, 4)]);
    let time = Column::linear_combination(vec![(0usize, N_MEM_CHANNELS as u64)]);
    let cols = vec![Column::constant(1), Column::constant(0), Column::single(31), len, Column::single(42), time];
    let filter = Filter::new_simple(Column::sum(&vec![11usize, 10, 9]));
    let r = TableWithColumns::new(Table::Cpu.index(), cols, filter);
    assert(r.filter.constants@[0].lin@ =~= seq![(11usize, 1u64), (10usize, 1u64), (9usize, 1u64)]);
    assert(r.columns@[3].lin@ =~= seq![(11usize, 1u64), (10usize, 2u64), (9usize, 4u64)]);
    assert(r.columns@[5].lin@ =~= seq![(0usize, 3u64)]);
    r
}

/// The columns and filter of [`ctl_looking_branch`].
pub open spec fn looking_branch(r: TableWithColumns) -> bool {
    &&& r.table == crate::stark::table_index(Table::Cpu)
    &&& r.columns@.len() == 4
    &&& r.columns@[0].lin@ == seq![(18usize, 2u64), (16usize, 3u64), (19usize, 20u64), (17usize, 22u64)]
    &&& r.columns@[0].constant == 0
    &&& is_single(r.columns@[1], 37)
    &&& is_single(r.columns@[2], 42)
    &&& is_single(r.columns@[3], 43)
    &&& r.filter.products@.len() == 0 && r.filter.constants@.len() == 1
    &&& r.filter.constants@[0].lin@ == seq![(18usize, 1u64), (16usize, 1u64), (19usize, 1u64), (17usize, 1u64)]
}

/// The lookup of the ordered branches into the arithmetic table's
/// comparisons: `(opcode, rs1 value, rs2 value, taken)`.
pub fn ctl_looking_branch() -> (r: TableWithColumns)
    ensures
        looking_branch(r),
{
    // blt as SLT, bltu as SLTU, bge as BGE, bgeu as BGEU
    let opcode = Column::linear_combination(vec![
        (18usize, Opcode::SLT.value()),
        (16, Opcode::SLTU.value()),
        (19, Opcode::BGE.value()),
        (17, Opcode::BGEU.value()),
    ]);
    let cols = vec![opcode, Column::single(37), Column::single(42), Column::single(43)];
    let filter = Filter::new_simple(Column::sum(&vec![18usize, 16, 19, 17]));
    let r = TableWithColumns::new(Table::Cpu.index(), cols, filter);
    assert(r.columns@[0].lin@ =~= seq![(18usize, 2u64), (16usize, 3u64), (19usize, 20u64), (17usize, 22u64)]);
    assert(r.filter.constants@[0].lin@ =~= seq![(18usize, 1u64), (16usize, 1u64), (19usize, 1u64), (17usize, 1u64)]);
    r
}

/// The table as a unit of the proof: its constraints and their degree.
#[derive(Clone, Copy, Debug, Default)]
pub struct CpuStark {}

impl CpuStark {
    /// Emits every constraint of the table on a row and its successor.
    pub fn eval_all(&self, lv: &CpuCols<u64>, nv: &CpuCols<u64>, cc: &mut ConstraintSet)
        requires
            row_is_felt(*lv),
            row_is_felt(*nv),
        ensures
            final(cc)@ == old(cc)@ + cpu_constraints(*lv, *nv),
    {
        eval(lv, nv, cc)
    }

    /// The largest degree of the table's constraints.
    pub fn constraint_degree(&self) -> (r: usize)
        ensures
            r == crate::stark::CONSTRAINT_DEGREE,
    {
        crate::stark::CONSTRAINT_DEGREE
    }

    /// Whether the table takes part in cross-table lookups.
    pub fn requires_ctls(&self) -> (r: bool)
        ensures
            r,
    {
        true
    }
}

} // verus!
