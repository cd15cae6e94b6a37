//! The bits table: AND, OR, XOR and the three shifts of 32-bit words, with
//! the operands decomposed into bits.
use crate::constraint::{cons, ConstraintKind, ConstraintSet};
use crate::field::{fadd, felt_add, felt_mul, felt_sub, fmul, from_bool, fsub, ORDER};
use vstd::arithmetic::power2::pow2;
use crate::ctl::{Column, Filter, TableWithColumns};
use crate::bytes::{bitc, weighted};
use crate::vm::Opcode;
use vstd::prelude::*;

verus! {

/// The bits of a word.
pub const WORD_BITS: usize = 32;

/// The number of operation flag columns.
pub const N_OP_COLS: usize = 6;

/// The number of columns of the bits table.
pub const N_BIT_COLS: usize = 72;

/// Flag columns for the operation to perform.
#[derive(Clone, Copy, Debug, PartialEq, Eq)]
pub struct OpCols<T> {
    pub f_and: T,
    pub f_xor: T,
    pub f_or: T,
    pub f_sll: T,
    pub f_srl: T,
    pub f_sra: T,
}

/// Columns of the bits table.
#[derive(Clone, Copy, Debug, PartialEq, Eq)]
pub struct BitCols<T> {
    /// The operation to perform.
    pub op: OpCols<T>,
    /// First operand, as little-endian bits.
    pub in0: [T; 32],
    /// Second operand: its little-endian bits for a logic operation, the
    /// one-hot shift amount for a shift.
    pub in1: [T; 32],
    /// The output as one field element.
    pub out: T,
    /// `in0 & in1` as one field element.
    pub and: T,
}

impl<T: Copy> BitCols<T> {
    /// The record flattened in column order.
    pub open spec fn as_seq(self) -> Seq<T> {
        seq![self.op.f_and, self.op.f_xor, self.op.f_or, self.op.f_sll, self.op.f_srl, self.op.f_sra]
            + self.in0@ + self.in1@ + seq![self.out, self.and]
    }

    /// The record whose flattened form is `s`.
    pub open spec fn from_seq(s: Seq<T>) -> Self {
        BitCols {
            op: OpCols { f_and: s[0], f_xor: s[1], f_or: s[2], f_sll: s[3], f_srl: s[4], f_sra: s[5] },
            in0: [s[6], s[7], s[8], s[9], s[10], s[11], s[12], s[13], s[14], s[15], s[16], s[17], s[18], s[19], s[20], s[21], s[22], s[23], s[24], s[25], s[26], s[27], s[28], s[29], s[30], s[31], s[32], s[33], s[34], s[35], s[36], s[37]],
            in1: [s[38], s[39], s[40], s[41], s[42], s[43], s[44], s[45], s[46], s[47], s[48], s[49], s[50], s[51], s[52], s[53], s[54], s[55], s[56], s[57], s[58], s[59], s[60], s[61], s[62], s[63], s[64], s[65], s[66], s[67], s[68], s[69]],
            out: s[70],
            and: s[71],
        }
    }

    /// Reads a record from its flattened form.
    pub fn from_slice(s: &[T]) -> (r: Self)
        requires
            s@.len() == N_BIT_COLS,
        ensures
            r == Self::from_seq(s@),
    {
        BitCols {
            op: OpCols { f_and: s[0], f_xor: s[1], f_or: s[2], f_sll: s[3], f_srl: s[4], f_sra: s[5] },
            in0: [s[6], s[7], s[8], s[9], s[10], s[11], s[12], s[13], s[14], s[15], s[16], s[17], s[18], s[19], s[20], s[21], s[22], s[23], s[24], s[25], s[26], s[27], s[28], s[29], s[30], s[31], s[32], s[33], s[34], s[35], s[36], s[37]],
            in1: [s[38], s[39], s[40], s[41], s[42], s[43], s[44], s[45], s[46], s[47], s[48], s[49], s[50], s[51], s[52], s[53], s[54], s[55], s[56], s[57], s[58], s[59], s[60], s[61], s[62], s[63], s[64], s[65], s[66], s[67], s[68], s[69]],
            out: s[70],
            and: s[71],
        }
    }

    /// The record flattened in column order.
    pub fn to_vec(&self) -> (r: Vec<T>)
        ensures
            r@ == self.as_seq(),
    {
        let mut r = vec![self.op.f_and, self.op.f_xor, self.op.f_or, self.op.f_sll, self.op.f_srl, self.op.f_sra];
        let ghost pre0 = r@;
        let mut i: usize = 0;
        while i < 32
            invariant
                i <= 32,
                r@ == pre0 + self.in0@.subrange(0, i as int),
            decreases 32 - i,
        {
            r.push(self.in0[i]);
            i += 1;
            assert(r@ =~= pre0 + self.in0@.subrange(0, i as int));
        }
        let ghost pre1 = r@;
        let mut i: usize = 0;
        while i < 32
            invariant
                i <= 32,
                r@ == pre1 + self.in1@.subrange(0, i as int),
            decreases 32 - i,
        {
            r.push(self.in1[i]);
            i += 1;
            assert(r@ =~= pre1 + self.in1@.subrange(0, i as int));
        }
        r.push(self.out);
        r.push(self.and);
        assert(self.in0@.subrange(0, 32) =~= self.in0@);
        assert(self.in1@.subrange(0, 32) =~= self.in1@);
        assert(r@ =~= self.as_seq());
        r
    }
}

/// Flattening a record and reading it back gives the record; reading a
/// flattened form and flattening it again gives the same values.
pub proof fn lemma_bit_cols_round_trip<T: Copy>(r: BitCols<T>, s: Seq<T>)
    requires
        s.len() == N_BIT_COLS,
    ensures
        BitCols::from_seq(r.as_seq()) == r,
        BitCols::from_seq(s).as_seq() == s,
        r.as_seq().len() == N_BIT_COLS,
{
    let f = BitCols::from_seq(r.as_seq());
    assert(f.in0 =~= r.in0);
    assert(f.in1 =~= r.in1);
    assert(BitCols::from_seq(s).as_seq() =~= s);
}

/// The column index map: each field holds its own column index.
pub fn bit_col_map() -> (r: BitCols<usize>)
    ensures
        r.as_seq() == Seq::new(N_BIT_COLS as nat, |i: int| i as usize),
{
    let idx = crate::util::indices_arr(N_BIT_COLS);
    let r = BitCols::from_slice(idx.as_slice());
    proof {
        lemma_bit_cols_round_trip(r, idx@);
    }
    r
}

/// The operations of the table.
#[allow(non_camel_case_types, clippy::upper_case_acronyms)]
#[derive(Clone, Copy, Debug, PartialEq, Eq, Structural)]
pub enum Op {
    AND,
    OR,
    XOR,
    SLL,
    SRL,
    SRA,
}

/// Whether the operation is a shift.
pub open spec fn is_shift(op: Op) -> bool {
    op == Op::SLL || op == Op::SRL || op == Op::SRA
}

/// Bit `i` of `x`.
pub open spec fn bit_at(x: u32, i: int) -> u64 {
    ((x >> (i as u32)) & 1u32) as u64
}

/// The little-endian bits of `x`.
pub open spec fn le_bits(x: u32) -> Seq<u64> {
    Seq::new(32, |i: int| bit_at(x, i))
}

/// The one-hot encoding of a shift amount below 32.
pub open spec fn one_hot(s: int) -> Seq<u64> {
    Seq::new(32, |i: int| if i == s { 1u64 } else { 0u64 })
}

/// The result of an operation on two words; a shift amount must be below 32.
pub open spec fn apply_spec(op: Op, x: u32, y: u32) -> u32 {
    match op {
        Op::AND => x & y,
        Op::OR => x | y,
        Op::XOR => x ^ y,
        Op::SLL => x << y,
        Op::SRL => x >> y,
        Op::SRA => if x >> 31u32 == 0 { x >> y } else { !((!x) >> y) },
    }
}

/// The field element of a truth value.
pub open spec fn bit(b: bool) -> u64 {
    if b {
        1
    } else {
        0
    }
}

impl Op {
    /// Returns the result of the operation on two words; for a shift, `y`
    /// is the amount and must be below 32; `SRA` shifts copies of the sign
    /// bit in.
    pub fn apply(self, x: u32, y: u32) -> (r: u32)
        requires
            is_shift(self) ==> y < 32,
        ensures
            r == apply_spec(self, x, y),
    {
        match self {
            Op::AND => x & y,
            Op::OR => x | y,
            Op::XOR => x ^ y,
            Op::SLL => x << y,
            Op::SRL => x >> y,
            Op::SRA => {
                if x >> 31u32 == 0 {
                    x >> y
                } else {
                    !((!x) >> y)
                }
            },
        }
    }

    /// The flag columns with exactly the flag of this operation set.
    pub fn to_op_cols(self) -> (r: OpCols<u64>)
        ensures
            r == op_cols(self),
    {
        OpCols {
            f_and: from_bool(self == Op::AND),
            f_xor: from_bool(self == Op::XOR),
            f_or: from_bool(self == Op::OR),
            f_sll: from_bool(self == Op::SLL),
            f_srl: from_bool(self == Op::SRL),
            f_sra: from_bool(self == Op::SRA),
        }
    }
}

/// The flags row that selects `op`.
pub open spec fn op_cols(op: Op) -> OpCols<u64> {
    OpCols {
        f_and: bit(op == Op::AND),
        f_xor: bit(op == Op::XOR),
        f_or: bit(op == Op::OR),
        f_sll: bit(op == Op::SLL),
        f_srl: bit(op == Op::SRL),
        f_sra: bit(op == Op::SRA),
    }
}

/// Returns the little-endian bits of `x`.
pub fn u32_to_le_bits(x: u32) -> (r: [u64; 32])
    ensures
        r@ == le_bits(x),
        forall|i: int| 0 <= i < 32 ==> r@[i] <= 1,
{
    let mut r: [u64; 32] = [0; 32];
    let mut i: u32 = 0;
    while i < 32
        invariant
            i <= 32,
            forall|k: int| 0 <= k < i ==> r@[k] == bit_at(x, k),
        decreases 32 - i,
    {
        r[i as usize] = ((x >> i) & 1u32) as u64;
        i += 1;
    }
    assert(r@ =~= le_bits(x));
    assert forall|i: int| 0 <= i < 32 implies r@[i] <= 1 by {
        let s = i as u32;
        assert(((x >> s) & 1u32) <= 1u32) by (bit_vector);
    }
    r
}

/// An operation of the bits table on two words.
#[derive(Clone, Copy, Debug, PartialEq, Eq)]
pub struct BitOp {
    pub op: Op,
    pub in0: u32,
    pub in1: u32,
}

/// The row that an operation generates.
pub open spec fn bit_row(o: BitOp) -> BitCols<u64> {
    BitCols {
        op: op_cols(o.op),
        in0: choose|a: [u64; 32]| a@ == le_bits(o.in0),
        in1: choose|a: [u64; 32]| a@ == (if is_shift(o.op) { one_hot(o.in1 as int) } else { le_bits(o.in1) }),
        out: apply_spec(o.op, o.in0, o.in1) as u64,
        and: (o.in0 & o.in1) as u64,
    }
}

impl BitOp {
    pub fn new(op: Op, in0: u32, in1: u32) -> (r: Self)
        ensures
            r == (BitOp { op, in0, in1 }),
    {
        Self { op, in0, in1 }
    }

    /// Returns the row of this operation: the flag, the bits of the first
    /// operand, the bits or the one-hot shift amount of the second, the
    /// output and `in0 & in1`. A shift amount must be below 32.
    pub fn into_row(self) -> (r: BitCols<u64>)
        requires
            is_shift(self.op) ==> self.in1 < 32,
        ensures
            r.op == op_cols(self.op),
            r.in0@ == le_bits(self.in0),
            r.in1@ == (if is_shift(self.op) { one_hot(self.in1 as int) } else { le_bits(self.in1) }),
            r.out == apply_spec(self.op, self.in0, self.in1),
            r.and == (self.in0 & self.in1),
            r == bit_row(self),
    {
        let in1 = match self.op {
            Op::AND | Op::OR | Op::XOR => u32_to_le_bits(self.in1),
            Op::SLL | Op::SRL | Op::SRA => {
                let mut res: [u64; 32] = [0; 32];
                res[self.in1 as usize] = 1;
                assert(res@ =~= one_hot(self.in1 as int));
                res
            },
        };
        let r = BitCols {
            op: self.op.to_op_cols(),
            in0: u32_to_le_bits(self.in0),
            in1,
            out: self.op.apply(self.in0, self.in1) as u64,
            and: (self.in0 & self.in1) as u64,
        };
        proof {
            let b = bit_row(self);
            assert(b.in0@ == r.in0@);
            assert(b.in1@ == r.in1@);
            assert(b.in0 =~= r.in0);
            assert(b.in1 =~= r.in1);
        }
        r
    }
}

/// `acc` plus the `k` terms `f * t(j).0 * 2^t(j).1`, `j < k`, added in order.
pub open spec fn terms(acc: int, f: u64, t: spec_fn(int) -> (u64, int), k: int) -> int
    decreases k,
{
    if k <= 0 {
        acc
    } else {
        fadd(terms(acc, f, t, k - 1), fmul(fmul(f as int, t(k - 1).0 as int), pow2(t(k - 1).1 as nat) as int))
    }
}

/// The terms of a left shift by `n`: bit `i` lands at `i + n`.
pub open spec fn sll_terms(bits: Seq<u64>, n: int) -> spec_fn(int) -> (u64, int) {
    |i: int| (bits[i], i + n)
}

/// The terms of a right shift by `n`: bit `n + k` lands at `k`.
pub open spec fn srl_terms(bits: Seq<u64>, n: int) -> spec_fn(int) -> (u64, int) {
    |k: int| (bits[n + k], k)
}

/// The terms of the sign extension of a right shift by `n`: the sign bit
/// fills the top `n` places.
pub open spec fn sra_terms(bits: Seq<u64>, n: int) -> spec_fn(int) -> (u64, int) {
    |k: int| (bits[31], 32 - n + k)
}

/// The left shift of `bits` by each amount `n < m`, weighted by its flag.
pub open spec fn sll_sum(bits: Seq<u64>, amt: Seq<u64>, m: int) -> int
    decreases m,
{
    if m <= 0 {
        0
    } else {
        terms(sll_sum(bits, amt, m - 1), amt[m - 1], sll_terms(bits, m - 1), 32 - (m - 1))
    }
}

/// The logical right shift of `bits` by each amount `n < m`, weighted by its flag.
pub open spec fn srl_sum(bits: Seq<u64>, amt: Seq<u64>, m: int) -> int
    decreases m,
{
    if m <= 0 {
        0
    } else {
        terms(srl_sum(bits, amt, m - 1), amt[m - 1], srl_terms(bits, m - 1), 32 - (m - 1))
    }
}

/// The sign extension of an arithmetic right shift of `bits` by each amount
/// `n < m`, weighted by its flag.
pub open spec fn sra_ext_sum(bits: Seq<u64>, amt: Seq<u64>, m: int) -> int
    decreases m,
{
    if m <= 0 {
        0
    } else {
        terms(sra_ext_sum(bits, amt, m - 1), amt[m - 1], sra_terms(bits, m - 1), m - 1)
    }
}

/// Whether every element is a field element.
pub open spec fn all_felt(s: Seq<u64>) -> bool {
    forall|i: int| 0 <= i < s.len() ==> #[trigger] s[i] < ORDER
}

/// Returns the left shift of the bits by the one-hot amount, as one field element.
pub fn sll(bits: &[u64; 32], shift_amt: &[u64; 32]) -> (r: u64)
    requires
        all_felt(bits@),
        all_felt(shift_amt@),
    ensures
        r == sll_sum(bits@, shift_amt@, 32),
{
    proof {
        vstd::arithmetic::power2::lemma2_to64();
    }
    let mut acc: u64 = 0;
    let mut n: usize = 0;
    while n < 32
        invariant
            n <= 32,
            all_felt(bits@),
            all_felt(shift_amt@),
            acc < ORDER,
            acc == sll_sum(bits@, shift_amt@, n as int),
        decreases 32 - n,
    {
        let f = shift_amt[n];
        let ghost start = acc as int;
        proof {
            vstd::arithmetic::power2::lemma2_to64();
            vstd::arithmetic::power2::lemma_pow2_strictly_increases(n as nat, 32);
            vstd::bits::lemma_u64_shl_is_mul(1, n as u64);
        }
        let mut base: u64 = 1u64 << (n as u64);
        let mut i: usize = 0;
        while i < 32 - n
            invariant
                n < 32,
                i <= 32 - n,
                all_felt(bits@),
                all_felt(shift_amt@),
                f == shift_amt@[n as int],
                acc < ORDER,
                base == pow2((i + n) as nat),
                i + n < 32 ==> base < pow2(32),
                acc == terms(start, f, sll_terms(bits@, n as int), i as int),
            decreases 32 - n - i,
        {
            proof {
                vstd::arithmetic::power2::lemma2_to64();
                assert(bits@[i as int] < ORDER);
            }
            acc = felt_add(acc, felt_mul(felt_mul(f, bits[i]), base));
            proof {
                vstd::arithmetic::power2::lemma_pow2_adds((i + n) as nat, 1);
                if i + n + 1 < 32 {
                    vstd::arithmetic::power2::lemma_pow2_strictly_increases((i + n + 1) as nat, 32);
                }
            }
            base = base * 2;
            i += 1;
        }
        n += 1;
    }
    acc
}

/// Returns the logical right shift of the bits by the one-hot amount, as
/// one field element.
pub fn srl(bits: &[u64; 32], shift_amt: &[u64; 32]) -> (r: u64)
    requires
        all_felt(bits@),
        all_felt(shift_amt@),
    ensures
        r == srl_sum(bits@, shift_amt@, 32),
{
    proof {
        vstd::arithmetic::power2::lemma2_to64();
    }
    let mut acc: u64 = 0;
    let mut n: usize = 0;
    while n < 32
        invariant
            n <= 32,
            all_felt(bits@),
            all_felt(shift_amt@),
            acc < ORDER,
            acc == srl_sum(bits@, shift_amt@, n as int),
        decreases 32 - n,
    {
        let f = shift_amt[n];
        let ghost start = acc as int;
        proof {
            vstd::arithmetic::power2::lemma2_to64();
        }
        let mut base: u64 = 1;
        let mut i: usize = 0;
        while i < 32 - n
            invariant
                n < 32,
                i <= 32 - n,
                all_felt(bits@),
                all_felt(shift_amt@),
                f == shift_amt@[n as int],
                acc < ORDER,
                base == pow2(i as nat),
                i < 32 ==> base < pow2(32),
                acc == terms(start, f, srl_terms(bits@, n as int), i as int),
            decreases 32 - n - i,
        {
            proof {
                vstd::arithmetic::power2::lemma2_to64();
                assert(bits@[n + i] < ORDER);
            }
            acc = felt_add(acc, felt_mul(felt_mul(f, bits[n + i]), base));
            proof {
                vstd::arithmetic::power2::lemma_pow2_adds(i as nat, 1);
                if i + 1 < 32 {
                    vstd::arithmetic::power2::lemma_pow2_strictly_increases((i + 1) as nat, 32);
                }
            }
            base = base * 2;
            i += 1;
        }
        n += 1;
    }
    acc
}

/// Returns the sign extension of an arithmetic right shift of the bits by
/// the one-hot amount, as one field element: added to [`srl`], it gives the
/// arithmetic shift.
pub fn sra_ext(bits: &[u64; 32], shift_amt: &[u64; 32]) -> (r: u64)
    requires
        all_felt(bits@),
        all_felt(shift_amt@),
    ensures
        r == sra_ext_sum(bits@, shift_amt@, 32),
{
    proof {
        vstd::arithmetic::power2::lemma2_to64();
    }
    let ext_bit = bits[31];
    let mut acc: u64 = 0;
    let mut n: usize = 0;
    while n < 32
        invariant
            n <= 32,
            all_felt(bits@),
            all_felt(shift_amt@),
            ext_bit == bits@[31],
            acc < ORDER,
            acc == sra_ext_sum(bits@, shift_amt@, n as int),
        decreases 32 - n,
    {
        let f = shift_amt[n];
        let ghost start = acc as int;
        proof {
            vstd::arithmetic::power2::lemma2_to64();
            if n > 0 {
                vstd::arithmetic::power2::lemma_pow2_strictly_increases((32 - n) as nat, 32);
            }
            vstd::bits::lemma_u64_shl_is_mul(1, (32 - n) as u64);
        }
        let mut base: u64 = 1u64 << ((32 - n) as u64);
        let mut k: usize = 0;
        while k < n
            invariant
                n < 32,
                k <= n,
                all_felt(bits@),
                all_felt(shift_amt@),
                f == shift_amt@[n as int],
                ext_bit == bits@[31],
                acc < ORDER,
                base == pow2((32 - n + k) as nat),
                k < n ==> base < pow2(32),
                acc == terms(start, f, sra_terms(bits@, n as int), k as int),
            decreases n - k,
        {
            proof {
                vstd::arithmetic::power2::lemma2_to64();
                assert(bits@[31] < ORDER);
            }
            acc = felt_add(acc, felt_mul(felt_mul(f, ext_bit), base));
            proof {
                vstd::arithmetic::power2::lemma_pow2_adds((32 - n + k) as nat, 1);
                if 32 - n + k + 1 < 32 {
                    vstd::arithmetic::power2::lemma_pow2_strictly_increases((32 - n + k + 1) as nat, 32);
                }
            }
            base = base * 2;
            k += 1;
        }
        n += 1;
    }
    acc
}

/// The value of 32 little-endian bit columns starting at `start`.
pub fn le_bits_column(start: usize) -> (r: Column)
    requires
        start + 32 <= usize::MAX,
    ensures
        r.lin@ == Seq::new(32, |i: int| ((start + i) as usize, pow2(i as nat) as u64)),
        r.constant == 0,
{
    proof {
        vstd::arithmetic::power2::lemma2_to64();
    }
    let mut lin: Vec<(usize, u64)> = Vec::new();
    let mut base: u64 = 1;
    let mut i: usize = 0;
    while i < 32
        invariant
            i <= 32,
            start + 32 <= usize::MAX,
            base == pow2(i as nat),
            base <= pow2(32),
            lin@ == Seq::new(i as nat, |k: int| ((start + k) as usize, pow2(k as nat) as u64)),
        decreases 32 - i,
    {
        lin.push((start + i, base));
        proof {
            vstd::arithmetic::power2::lemma_pow2_adds(i as nat, 1);
            vstd::arithmetic::power2::lemma2_to64();
            if i + 1 < 32 {
                vstd::arithmetic::power2::lemma_pow2_strictly_increases((i + 1) as nat, 32);
            }
        }
        base = base * 2;
        i += 1;
        assert(lin@ =~= Seq::new(i as nat, |k: int| ((start + k) as usize, pow2(k as nat) as u64)));
    }
    Column::linear_combination(lin)
}

/// The columns and filter of [`ctl_looked_logic`].
pub open spec fn looked_logic(r: TableWithColumns) -> bool {
    &&& r.table == crate::stark::table_index(crate::stark::Table::Bits)
    &&& r.columns@.len() == 4
    &&& r.columns@[0].lin@ == seq![(0usize, 4u64), (1usize, 6u64), (2usize, 5u64)]
    &&& r.columns@[1].lin@ == Seq::new(32, |i: int| ((6 + i) as usize, pow2(i as nat) as u64))
    &&& r.columns@[2].lin@ == Seq::new(32, |i: int| ((38 + i) as usize, pow2(i as nat) as u64))
    &&& r.columns@[3].lin@ == seq![(70usize, 1u64)]
    &&& forall|k: int| 0 <= k < 4 ==> (#[trigger] r.columns@[k]).constant == 0
    &&& r.filter.products@.len() == 0 && r.filter.constants@.len() == 1
    &&& r.filter.constants@[0].lin@ == seq![(0usize, 1u64), (1usize, 1u64), (2usize, 1u64)]
    &&& r.filter.constants@[0].constant == 0
}

/// The lookup that the bits table offers for AND, XOR and OR:
/// `(opcode, in0, in1, out)` with the operands read from their bits.
pub fn ctl_looked_logic() -> (r: TableWithColumns)
    ensures
        looked_logic(r),
{
    let op = Column::linear_combination(vec![
        (0usize, Opcode::AND.value()),
        (1, Opcode::XOR.value()),
        (2, Opcode::OR.value()),
    ]);
    let cols = vec![op, le_bits_column(6), le_bits_column(38), Column::single(70)];
    let filter = Filter::new_simple(Column::sum(&vec![0usize, 1, 2]));
    let r = TableWithColumns::new(crate::stark::Table::Bits.index(), cols, filter);
    assert(r.columns@[0].lin@ =~= seq![(0usize, 4u64), (1usize, 6u64), (2usize, 5u64)]);
    assert(r.filter.constants@[0].lin@ =~= seq![(0usize, 1u64), (1usize, 1u64), (2usize, 1u64)]);
    r
}

/// The columns and filter of [`ctl_looked_shift`].
pub open spec fn looked_shift(r: TableWithColumns) -> bool {
    &&& r.table == crate::stark::table_index(crate::stark::Table::Bits)
    &&& r.columns@.len() == 4
    &&& r.columns@[0].lin@ == seq![(3usize, 23u64), (4usize, 24u64), (5usize, 25u64)]
    &&& r.columns@[1].lin@ == Seq::new(32, |i: int| ((6 + i) as usize, pow2(i as nat) as u64))
    &&& r.columns@[2].lin@ == Seq::new(32, |i: int| ((38 + i) as usize, i as u64))
    &&& r.columns@[3].lin@ == seq![(70usize, 1u64)]
    &&& forall|k: int| 0 <= k < 4 ==> (#[trigger] r.columns@[k]).constant == 0
    &&& r.filter.products@.len() == 0 && r.filter.constants@.len() == 1
    &&& r.filter.constants@[0].lin@ == seq![(3usize, 1u64), (4usize, 1u64), (5usize, 1u64)]
    &&& r.filter.constants@[0].constant == 0
}

/// The lookup that the bits table offers for the shifts:
/// `(opcode, in0, shift amount, out)`, the amount read from its one-hot
/// columns.
pub fn ctl_looked_shift() -> (r: TableWithColumns)
    ensures
        looked_shift(r),
{
    let op = Column::linear_combination(vec![
        (3usize, Opcode::SLL.value()),
        (4, Opcode::SRL.value()),
        (5, Opcode::SRA.value()),
    ]);
    let mut amt: Vec<(usize, u64)> = Vec::new();
    let mut i: usize = 0;
    while i < 32
        invariant
            i <= 32,
            amt@ == Seq::new(i as nat, |k: int| ((38 + k) as usize, k as u64)),
        decreases 32 - i,
    {
        amt.push((38 + i, i as u64));
        i += 1;
        assert(amt@ =~= Seq::new(i as nat, |k: int| ((38 + k) as usize, k as u64)));
    }
    let cols = vec![op, le_bits_column(6), Column::linear_combination(amt), Column::single(70)];
    let filter = Filter::new_simple(Column::sum(&vec![3usize, 4, 5]));
    let r = TableWithColumns::new(crate::stark::Table::Bits.index(), cols, filter);
    assert(r.columns@[0].lin@ =~= seq![(3usize, 23u64), (4usize, 24u64), (5usize, 25u64)]);
    assert(r.filter.constants@[0].lin@ =~= seq![(3usize, 1u64), (4usize, 1u64), (5usize, 1u64)]);
    r
}

/// `a[0] * b[0] * 2^0 + .. + a[k - 1] * b[k - 1] * 2^(k - 1)` in the field.
pub open spec fn and_weighted(a: Seq<u64>, b: Seq<u64>, k: int) -> int
    decreases k,
{
    if k <= 0 {
        0
    } else {
        fadd(and_weighted(a, b, k - 1), fmul(fmul(a[k - 1] as int, b[k - 1] as int), pow2((k - 1) as nat) as int))
    }
}

/// The flags of a row in column order.
pub open spec fn flag_seq(lv: BitCols<u64>) -> Seq<u64> {
    seq![lv.op.f_and, lv.op.f_xor, lv.op.f_or, lv.op.f_sll, lv.op.f_srl, lv.op.f_sra]
}

/// The constraints that the flags and the operand bits are bits, and that
/// at most one flag is set.
pub open spec fn bit_flag_constraints(lv: BitCols<u64>) -> Seq<(ConstraintKind, int)> {
    let e = ConstraintKind::EveryRow;
    let f = flag_seq(lv);
    Seq::new(6, |i: int| cons(e, bitc(f[i] as int))) + seq![cons(e, bitc(crate::arith::sum_prefix(f, 6)))]
        + Seq::new(32, |i: int| cons(e, bitc(lv.in0[i] as int)))
        + Seq::new(32, |i: int| cons(e, bitc(lv.in1[i] as int)))
}

/// The constraints that tie the output to the operands, for each operation.
pub open spec fn bit_op_constraints(lv: BitCols<u64>) -> Seq<(ConstraintKind, int)> {
    let e = ConstraintKind::EveryRow;
    let (f_and, f_xor, f_or) = (lv.op.f_and as int, lv.op.f_xor as int, lv.op.f_or as int);
    let f_logic = fadd(fadd(f_and, f_xor), f_or);
    let sum_coeff = fadd(f_or, f_xor);
    let and_coeff = fsub(fsub(f_and, f_or), fmul(f_xor, 2));
    let x = weighted(lv.in0@, 32);
    let y = weighted(lv.in1@, 32);
    let x_op_y = fadd(fmul(sum_coeff, fadd(x, y)), fmul(and_coeff, lv.and as int));
    let out = lv.out as int;
    let srl_out = srl_sum(lv.in0@, lv.in1@, 32);
    seq![
        cons(e, fmul(f_logic, fsub(lv.and as int, and_weighted(lv.in0@, lv.in1@, 32)))),
        cons(e, fmul(f_logic, fsub(out, x_op_y))),
        cons(e, fmul(lv.op.f_sll as int, fsub(out, sll_sum(lv.in0@, lv.in1@, 32)))),
        cons(e, fmul(lv.op.f_srl as int, fsub(out, srl_out))),
        cons(e, fmul(lv.op.f_sra as int, fsub(out, fadd(srl_out, sra_ext_sum(lv.in0@, lv.in1@, 32))))),
    ]
}

/// The constraints of the bits table on a row.
pub open spec fn bit_constraints(lv: BitCols<u64>) -> Seq<(ConstraintKind, int)> {
    bit_flag_constraints(lv) + bit_op_constraints(lv)
}

/// Whether every value of a row is a canonical field element.
pub open spec fn row_is_felt(lv: BitCols<u64>) -> bool {
    forall|i: int| 0 <= i < N_BIT_COLS ==> (#[trigger] lv.as_seq()[i]) < ORDER
}

/// Returns `a[0] * 2^0 + .. + a[31] * 2^31`, or with `b`, the sum of
/// `a[i] * b[i] * 2^i`, in the field.
fn eval_weighted32(a: &[u64; 32], b: &[u64; 32], with_b: bool) -> (r: u64)
    requires
        all_felt(a@),
        all_felt(b@),
    ensures
        with_b ==> r == and_weighted(a@, b@, 32),
        !with_b ==> r == weighted(a@, 32),
{
    proof {
        vstd::arithmetic::power2::lemma2_to64();
    }
    let mut acc: u64 = 0;
    let mut base: u64 = 1;
    let mut i: usize = 0;
    while i < 32
        invariant
            i <= 32,
            all_felt(a@),
            all_felt(b@),
            acc < ORDER,
            with_b ==> acc == and_weighted(a@, b@, i as int),
            !with_b ==> acc == weighted(a@, i as int),
            base == pow2(i as nat),
            i < 32 ==> base < pow2(32),
        decreases 32 - i,
    {
        proof {
            vstd::arithmetic::power2::lemma2_to64();
            assert(a@[i as int] < ORDER && b@[i as int] < ORDER);
        }
        let term = if with_b {
            felt_mul(felt_mul(a[i], b[i]), base)
        } else {
            felt_mul(a[i], base)
        };
        acc = felt_add(acc, term);
        proof {
            vstd::arithmetic::power2::lemma_pow2_adds(i as nat, 1);
            if i + 1 < 32 {
                vstd::arithmetic::power2::lemma_pow2_strictly_increases((i + 1) as nat, 32);
            }
        }
        base = base * 2;
        i += 1;
    }
    acc
}

/// Emits the constraints of the bits table on a row.
#[verifier::rlimit(60)]
pub fn eval(lv: &BitCols<u64>, cc: &mut ConstraintSet)
    requires
        row_is_felt(*lv),
    ensures
        final(cc)@ == old(cc)@ + bit_constraints(*lv),
{
    let ghost s = lv.as_seq();
    assert forall|i: int| 0 <= i < 32 implies lv.in0[i] < ORDER && lv.in1[i] < ORDER by {
        assert(s[6 + i] == lv.in0[i] && s[6 + i] < ORDER);
        assert(s[38 + i] == lv.in1[i] && s[38 + i] < ORDER);
    }
    assert(s[0] < ORDER && s[1] < ORDER && s[2] < ORDER && s[3] < ORDER && s[4] < ORDER && s[5] < ORDER);
    assert(s[70] < ORDER && s[71] < ORDER);
    let o = &lv.op;
    let flags: [u64; 6] = [o.f_and, o.f_xor, o.f_or, o.f_sll, o.f_srl, o.f_sra];
    let ghost c0 = cc@;
    let mut sum: u64 = 0;
    let mut i: usize = 0;
    while i < 6
        invariant
            i <= 6,
            flags@ == seq![lv.op.f_and, lv.op.f_xor, lv.op.f_or, lv.op.f_sll, lv.op.f_srl, lv.op.f_sra],
            forall|k: int| 0 <= k < 6 ==> #[trigger] flags@[k] < ORDER,
            sum < ORDER,
            sum == (if i == 0 { 0 } else { crate::arith::sum_prefix(flags@, i as int) }),
            cc@ == c0 + Seq::new(i as nat, |k: int| cons(ConstraintKind::EveryRow, bitc(flags@[k] as int))),
        decreases 6 - i,
    {
        let f = flags[i];
        cc.constraint(felt_mul(f, felt_sub(f, 1)));
        if i == 0 {
            sum = f;
        } else {
            sum = felt_add(sum, f);
        }
        i += 1;
        assert(cc@ =~= c0 + Seq::new(i as nat, |k: int| cons(ConstraintKind::EveryRow, bitc(flags@[k] as int))));
    }
    cc.constraint(felt_mul(sum, felt_sub(sum, 1)));
    let ghost c1 = cc@;
    let mut i: usize = 0;
    while i < 32
        invariant
            i <= 32,
            forall|k: int| 0 <= k < 32 ==> lv.in0[k] < ORDER,
            cc@ == c1 + Seq::new(i as nat, |k: int| cons(ConstraintKind::EveryRow, bitc(lv.in0[k] as int))),
        decreases 32 - i,
    {
        let b = lv.in0[i];
        cc.constraint(felt_mul(b, felt_sub(b, 1)));
        i += 1;
        assert(cc@ =~= c1 + Seq::new(i as nat, |k: int| cons(ConstraintKind::EveryRow, bitc(lv.in0[k] as int))));
    }
    let ghost c2 = cc@;
    let mut i: usize = 0;
    while i < 32
        invariant
            i <= 32,
            forall|k: int| 0 <= k < 32 ==> lv.in1[k] < ORDER,
            cc@ == c2 + Seq::new(i as nat, |k: int| cons(ConstraintKind::EveryRow, bitc(lv.in1[k] as int))),
        decreases 32 - i,
    {
        let b = lv.in1[i];
        cc.constraint(felt_mul(b, felt_sub(b, 1)));
        i += 1;
        assert(cc@ =~= c2 + Seq::new(i as nat, |k: int| cons(ConstraintKind::EveryRow, bitc(lv.in1[k] as int))));
    }
    assert(all_felt(lv.in0@) && all_felt(lv.in1@));
    let f_logic = felt_add(felt_add(o.f_and, o.f_xor), o.f_or);
    let sum_coeff = felt_add(o.f_or, o.f_xor);
    let and_coeff = felt_sub(felt_sub(o.f_and, o.f_or), felt_mul(o.f_xor, 2));
    let x_and_y = eval_weighted32(&lv.in0, &lv.in1, true);
    cc.constraint(felt_mul(f_logic, felt_sub(lv.and, x_and_y)));
    let x = eval_weighted32(&lv.in0, &lv.in1, false);
    let y = eval_weighted32(&lv.in1, &lv.in0, false);
    let x_op_y = felt_add(felt_mul(sum_coeff, felt_add(x, y)), felt_mul(and_coeff, lv.and));
    cc.constraint(felt_mul(f_logic, felt_sub(lv.out, x_op_y)));
    let sll_out = sll(&lv.in0, &lv.in1);
    cc.constraint(felt_mul(o.f_sll, felt_sub(lv.out, sll_out)));
    let srl_out = srl(&lv.in0, &lv.in1);
    cc.constraint(felt_mul(o.f_srl, felt_sub(lv.out, srl_out)));
    let sra_out = felt_add(srl_out, sra_ext(&lv.in0, &lv.in1));
    cc.constraint(felt_mul(o.f_sra, felt_sub(lv.out, sra_out)));
    assert(cc@ =~= old(cc)@ + bit_constraints(*lv));
}

/// The table as a unit of the proof: its constraints and their degree.
#[derive(Clone, Copy, Debug, Default)]
pub struct BitStark {}

impl BitStark {
    /// Emits every constraint of the table on a row.
    pub fn eval_all(&self, lv: &BitCols<u64>, cc: &mut ConstraintSet)
        requires
            row_is_felt(*lv),
        ensures
            final(cc)@ == old(cc)@ + bit_constraints(*lv),
    {
        eval(lv, cc)
    }

    /// The largest degree of the table's constraints.
    pub fn constraint_degree(&self) -> (r: usize)
        ensures
            r == crate::stark::CONSTRAINT_DEGREE,
    {
        crate::stark::CONSTRAINT_DEGREE
    }

    /// Whether the table takes part in cross-table lookups.
    pub fn requires_ctls(&self) -> (r: bool)
        ensures
            r,
    {
        true
    }
}

/// The integer sum of the `k` terms `t(j).0 * 2^t(j).1`, `j < k`.
pub open spec fn isum(t: spec_fn(int) -> (u64, int), k: int) -> int
    decreases k,
{
    if k <= 0 {
        0
    } else {
        isum(t, k - 1) + t(k - 1).0 * pow2(t(k - 1).1 as nat)
    }
}

/// Whether the first `k` terms are bits at places below 32.
pub open spec fn small_terms(t: spec_fn(int) -> (u64, int), k: int) -> bool {
    forall|j: int| 0 <= j < k ==> (#[trigger] t(j)).0 <= 1 && 0 <= t(j).1 < 32
}

/// Sums of pointwise equal terms are equal.
proof fn lemma_isum_ext(t1: spec_fn(int) -> (u64, int), t2: spec_fn(int) -> (u64, int), k: int)
    requires
        forall|j: int| 0 <= j < k ==> (#[trigger] t1(j)).0 * pow2(t1(j).1 as nat) == t2(j).0 * pow2(t2(j).1 as nat),
    ensures
        isum(t1, k) == isum(t2, k),
    decreases k,
{
    if k > 0 {
        lemma_isum_ext(t1, t2, k - 1);
    }
}

/// A sum splits after its first `a` terms.
proof fn lemma_isum_split(t: spec_fn(int) -> (u64, int), a: int, b: int)
    requires
        0 <= a,
        0 <= b,
    ensures
        isum(t, a + b) == isum(t, a) + isum(|j: int| t(a + j), b),
    decreases b,
{
    if b > 0 {
        lemma_isum_split(t, a, b - 1);
        let u = |j: int| t(a + j);
        assert(u(b - 1) == t(a + b - 1));
    }
}

/// Terms of zero bits sum to zero.
proof fn lemma_isum_zero(t: spec_fn(int) -> (u64, int), k: int)
    requires
        forall|j: int| 0 <= j < k ==> (#[trigger] t(j)).0 == 0,
    ensures
        isum(t, k) == 0,
    decreases k,
{
    if k > 0 {
        lemma_isum_zero(t, k - 1);
        assert(t(k - 1).0 == 0);
    }
}

/// Bits at places below 32 sum to at most `k * 2^31`.
proof fn lemma_isum_bound(t: spec_fn(int) -> (u64, int), k: int)
    requires
        0 <= k,
        small_terms(t, k),
    ensures
        0 <= isum(t, k) <= k * 0x8000_0000,
    decreases k,
{
    if k > 0 {
        lemma_isum_bound(t, k - 1);
        let (b, e) = t(k - 1);
        vstd::arithmetic::power2::lemma2_to64();
        if e < 31 {
            vstd::arithmetic::power2::lemma_pow2_strictly_increases(e as nat, 31);
        }
        vstd::arithmetic::power2::lemma_pow2_pos(e as nat);
        let pe = pow2(e as nat) as int;
        assert(0 <= pe <= 0x8000_0000);
        assert(0 <= b * pe <= 0x8000_0000) by (nonlinear_arith)
            requires
                0 <= b <= 1,
                0 <= pe <= 0x8000_0000,
        ;
        assert(isum(t, k) == isum(t, k - 1) + b * pe);
        assert((k - 1) * 0x8000_0000 + 0x8000_0000 == k * 0x8000_0000);
    }
}

/// A row of terms with a zero flag adds nothing.
proof fn lemma_terms_zero(acc: int, t: spec_fn(int) -> (u64, int), k: int)
    requires
        crate::field::is_felt(acc),
    ensures
        terms(acc, 0, t, k) == acc,
    decreases k,
{
    if k > 0 {
        lemma_terms_zero(acc, t, k - 1);
        crate::field::lemma_fmul_zero(t(k - 1).0 as int);
        crate::field::lemma_fmul_zero(pow2(t(k - 1).1 as nat) as int);
        crate::field::lemma_felt_small(acc);
    }
}

/// A row of bit terms with flag one adds their integer sum, while that
/// stays below the field order.
proof fn lemma_terms_one(acc: int, t: spec_fn(int) -> (u64, int), k: int)
    requires
        0 <= k <= 32,
        0 <= acc <= 0x1_0000_0000,
        small_terms(t, k),
    ensures
        terms(acc, 1, t, k) == acc + isum(t, k),
    decreases k,
{
    if k > 0 {
        lemma_terms_one(acc, t, k - 1);
        lemma_isum_bound(t, k);
        let (b, e) = t(k - 1);
        vstd::arithmetic::power2::lemma2_to64();
        if e < 31 {
            vstd::arithmetic::power2::lemma_pow2_strictly_increases(e as nat, 31);
        }
        crate::field::lemma_felt_small(b as int);
        crate::field::lemma_felt_small(b * pow2(e as nat));
        crate::field::lemma_felt_small(acc + isum(t, k));
        assert(fmul(1, b as int) == b);
    }
}

/// With a one-hot amount `s`, the left-shift sum over the first `m` amounts
/// is the integer sum of the row of `s`, once `m` passes it.
proof fn lemma_sll_sum_one_hot(bits: Seq<u64>, s: int, m: int)
    requires
        0 <= s < 32,
        0 <= m <= 32,
        bits.len() == 32,
        forall|i: int| 0 <= i < 32 ==> #[trigger] bits[i] <= 1,
    ensures
        sll_sum(bits, one_hot(s), m) == (if m <= s { 0 } else { isum(sll_terms(bits, s), 32 - s) }),
    decreases m,
{
    if m > 0 {
        lemma_sll_sum_one_hot(bits, s, m - 1);
        let prev = sll_sum(bits, one_hot(s), m - 1);
        let n = m - 1;
        if n == s {
            assert(small_terms(sll_terms(bits, s), 32 - s));
            lemma_terms_one(0, sll_terms(bits, s), 32 - s);
        } else {
            if m - 1 > s {
                assert(small_terms(sll_terms(bits, s), 32 - s));
                lemma_isum_bound(sll_terms(bits, s), 32 - s);
            }
            lemma_terms_zero(prev, sll_terms(bits, n), 32 - n);
        }
    }
}

/// With a one-hot amount `s`, the logical right-shift sum over the first
/// `m` amounts is the integer sum of the row of `s`, once `m` passes it.
proof fn lemma_srl_sum_one_hot(bits: Seq<u64>, s: int, m: int)
    requires
        0 <= s < 32,
        0 <= m <= 32,
        bits.len() == 32,
        forall|i: int| 0 <= i < 32 ==> #[trigger] bits[i] <= 1,
    ensures
        srl_sum(bits, one_hot(s), m) == (if m <= s { 0 } else { isum(srl_terms(bits, s), 32 - s) }),
    decreases m,
{
    if m > 0 {
        lemma_srl_sum_one_hot(bits, s, m - 1);
        let prev = srl_sum(bits, one_hot(s), m - 1);
        let n = m - 1;
        if n == s {
            assert(small_terms(srl_terms(bits, s), 32 - s));
            lemma_terms_one(0, srl_terms(bits, s), 32 - s);
        } else {
            if m - 1 > s {
                assert(small_terms(srl_terms(bits, s), 32 - s));
                lemma_isum_bound(srl_terms(bits, s), 32 - s);
            }
            lemma_terms_zero(prev, srl_terms(bits, n), 32 - n);
        }
    }
}

/// With a one-hot amount `s`, the sign-extension sum over the first `m`
/// amounts is the integer sum of the row of `s`, once `m` passes it.
proof fn lemma_sra_sum_one_hot(bits: Seq<u64>, s: int, m: int)
    requires
        0 <= s < 32,
        0 <= m <= 32,
        bits.len() == 32,
        forall|i: int| 0 <= i < 32 ==> #[trigger] bits[i] <= 1,
    ensures
        sra_ext_sum(bits, one_hot(s), m) == (if m <= s { 0 } else { isum(sra_terms(bits, s), s) }),
    decreases m,
{
    if m > 0 {
        lemma_sra_sum_one_hot(bits, s, m - 1);
        let prev = sra_ext_sum(bits, one_hot(s), m - 1);
        let n = m - 1;
        if n == s {
            assert(small_terms(sra_terms(bits, s), s));
            lemma_terms_one(0, sra_terms(bits, s), s);
        } else {
            if m - 1 > s {
                assert(small_terms(sra_terms(bits, s), s));
                lemma_isum_bound(sra_terms(bits, s), s);
            }
            lemma_terms_zero(prev, sra_terms(bits, n), n);
        }
    }
}

/// The terms of the binary expansion of `y`.
pub open spec fn value_terms(y: u32) -> spec_fn(int) -> (u64, int) {
    |j: int| (bit_at(y, j), j)
}

/// Bit `k` of `y` is the parity of `y / 2^k`.
proof fn lemma_bit_at(y: u32, k: int)
    requires
        0 <= k < 32,
    ensures
        bit_at(y, k) == (y as int / pow2(k as nat) as int) % 2,
{
    let ku = k as u32;
    vstd::bits::lemma_u32_shr_is_div(y, ku);
    let z = y >> ku;
    assert((z & 1u32) == z % 2) by (bit_vector);
}

/// The first `k` bits of `y` sum to `y mod 2^k`.
proof fn lemma_value(y: u32, k: int)
    requires
        0 <= k <= 32,
    ensures
        isum(value_terms(y), k) == y as int % pow2(k as nat) as int,
    decreases k,
{
    vstd::arithmetic::power2::lemma2_to64();
    if k == 0 {
        assert(y as int % 1 == 0);
    } else {
        lemma_value(y, k - 1);
        lemma_bit_at(y, k - 1);
        let p = pow2((k - 1) as nat) as int;
        vstd::arithmetic::power2::lemma_pow2_pos((k - 1) as nat);
        vstd::arithmetic::power2::lemma_pow2_adds((k - 1) as nat, 1);
        vstd::arithmetic::div_mod::lemma_mod_breakdown(y as int, p, 2);
        vstd::arithmetic::mul::lemma_mul_is_commutative(p, (y as int / p) % 2);
        assert(value_terms(y)(k - 1) == (bit_at(y, k - 1), k - 1));
    }
}

/// Every word is the sum of its bits.
proof fn lemma_value_full(y: u32)
    ensures
        isum(value_terms(y), 32) == y,
{
    lemma_value(y, 32);
    vstd::arithmetic::power2::lemma2_to64();
    vstd::arithmetic::div_mod::lemma_small_mod(y as nat, pow2(32));
}

/// The one-hot shift sums compute the word shifts: the left shift, the
/// logical right shift, and with the sign extension added, the arithmetic
/// right shift.
pub proof fn lemma_shift_correct(x: u32, s: u32)
    requires
        s < 32,
    ensures
        sll_sum(le_bits(x), one_hot(s as int), 32) == (x << s) as int,
        srl_sum(le_bits(x), one_hot(s as int), 32) == (x >> s) as int,
        fadd(srl_sum(le_bits(x), one_hot(s as int), 32), sra_ext_sum(le_bits(x), one_hot(s as int), 32))
            == apply_spec(Op::SRA, x, s) as int,
{
    let bits = le_bits(x);
    let si = s as int;
    assert forall|i: int| 0 <= i < 32 implies #[trigger] bits[i] <= 1 by {
        let iu = i as u32;
        assert(((x >> iu) & 1u32) <= 1u32) by (bit_vector);
    }
    lemma_sll_sum_one_hot(bits, si, 32);
    lemma_srl_sum_one_hot(bits, si, 32);
    lemma_sra_sum_one_hot(bits, si, 32);

    // left shift: the low `s` bits are zero, bit `s + j` is bit `j` of `x`
    let y = x << s;
    lemma_value_full(y);
    lemma_isum_split(value_terms(y), si, 32 - si);
    assert forall|j: int| 0 <= j < si implies (#[trigger] value_terms(y)(j)).0 == 0 by {
        let ju = j as u32;
        assert(((x << s) >> ju) & 1u32 == 0u32) by (bit_vector)
            requires
                ju < s,
                s < 32u32,
        ;
    }
    lemma_isum_zero(value_terms(y), si);
    let hi = |j: int| value_terms(y)(si + j);
    assert forall|j: int| 0 <= j < 32 - si implies (#[trigger] hi(j)).0 * pow2(hi(j).1 as nat) == sll_terms(bits, si)(j).0 * pow2(
        sll_terms(bits, si)(j).1 as nat,
    ) by {
        let ju = j as u32;
        assert(((x << s) >> (s + ju)) & 1u32 == (x >> ju) & 1u32) by (bit_vector)
            requires
                s + ju < 32u32,
        ;
        assert((si + j) as u32 == s + ju);
    }
    lemma_isum_ext(hi, sll_terms(bits, si), 32 - si);

    // logical right shift: bit `j` is bit `s + j` of `x`, the top `s` bits are zero
    let z = x >> s;
    lemma_value_full(z);
    lemma_isum_split(value_terms(z), 32 - si, si);
    assert forall|j: int| 0 <= j < 32 - si implies (#[trigger] value_terms(z)(j)).0 * pow2(value_terms(z)(j).1 as nat)
        == srl_terms(bits, si)(j).0 * pow2(srl_terms(bits, si)(j).1 as nat) by {
        let ju = j as u32;
        assert(((x >> s) >> ju) & 1u32 == (x >> (s + ju)) & 1u32) by (bit_vector)
            requires
                s + ju < 32u32,
        ;
        assert((si + j) as u32 == s + ju);
    }
    lemma_isum_ext(value_terms(z), srl_terms(bits, si), 32 - si);
    let top = |j: int| value_terms(z)(32 - si + j);
    assert forall|j: int| 0 <= j < si implies (#[trigger] top(j)).0 == 0 by {
        let ju = j as u32;
        let k = (32 - si + j) as u32;
        assert(((x >> s) >> k) & 1u32 == 0u32) by (bit_vector)
            requires
                ju < s,
                s < 32u32,
                k + s == 32u32 + ju,
        ;
    }
    lemma_isum_zero(top, si);

    // arithmetic right shift: as the logical one, with the top `s` bits
    // copies of the sign bit
    let w = apply_spec(Op::SRA, x, s);
    lemma_value_full(w);
    lemma_isum_split(value_terms(w), 32 - si, si);
    assert forall|j: int| 0 <= j < 32 - si implies (#[trigger] value_terms(w)(j)).0 * pow2(value_terms(w)(j).1 as nat)
        == srl_terms(bits, si)(j).0 * pow2(srl_terms(bits, si)(j).1 as nat) by {
        let ju = j as u32;
        assert(((if x >> 31u32 == 0 { x >> s } else { !((!x) >> s) }) >> ju) & 1u32 == (x >> (s + ju)) & 1u32)
            by (bit_vector)
            requires
                s + ju < 32u32,
        ;
        assert((si + j) as u32 == s + ju);
    }
    lemma_isum_ext(value_terms(w), srl_terms(bits, si), 32 - si);
    let wtop = |j: int| value_terms(w)(32 - si + j);
    assert forall|j: int| 0 <= j < si implies (#[trigger] wtop(j)).0 * pow2(wtop(j).1 as nat) == sra_terms(bits, si)(j).0
        * pow2(sra_terms(bits, si)(j).1 as nat) by {
        let ju = j as u32;
        let k = (32 - si + j) as u32;
        assert(((if x >> 31u32 == 0 { x >> s } else { !((!x) >> s) }) >> k) & 1u32 == (x >> 31u32) & 1u32)
            by (bit_vector)
            requires
                ju < s,
                s < 32u32,
                k + s == 32u32 + ju,
        ;
    }
    lemma_isum_ext(wtop, sra_terms(bits, si), si);
    assert(small_terms(srl_terms(bits, si), 32 - si));
    assert(small_terms(sra_terms(bits, si), si));
    lemma_isum_bound(srl_terms(bits, si), 32 - si);
    lemma_isum_bound(sra_terms(bits, si), si);
    crate::field::lemma_felt_small(w as int);
}

/// A bit satisfies its bit constraint.
proof fn lemma_bitc(b: int)
    requires
        b == 0 || b == 1,
    ensures
        bitc(b) == 0,
{
    crate::field::lemma_felt_small(0);
    crate::field::lemma_fmul_zero(fsub(b, 1));
    crate::field::lemma_fmul_zero(b);
}

/// Exclusive flags and operand bits satisfy the flag constraints.
proof fn lemma_bit_flags_hold(lv: BitCols<u64>)
    requires
        forall|i: int| 0 <= i < 6 ==> #[trigger] flag_seq(lv)[i] <= 1,
        lv.op.f_and + lv.op.f_xor + lv.op.f_or + lv.op.f_sll + lv.op.f_srl + lv.op.f_sra <= 1,
        forall|i: int| 0 <= i < 32 ==> lv.in0[i] <= 1 && lv.in1[i] <= 1,
    ensures
        crate::constraint::all_zero(bit_flag_constraints(lv)),
{
    let e = ConstraintKind::EveryRow;
    let f = flag_seq(lv);
    assert(f[0] <= 1 && f[1] <= 1 && f[2] <= 1 && f[3] <= 1 && f[4] <= 1 && f[5] <= 1);
    reveal_with_fuel(crate::arith::sum_prefix, 6);
    crate::field::lemma_felt_small(f[0] + f[1]);
    crate::field::lemma_felt_small(f[0] + f[1] + f[2]);
    crate::field::lemma_felt_small(f[0] + f[1] + f[2] + f[3]);
    crate::field::lemma_felt_small(f[0] + f[1] + f[2] + f[3] + f[4]);
    crate::field::lemma_felt_small(f[0] + f[1] + f[2] + f[3] + f[4] + f[5]);
    let a = Seq::new(6, |i: int| cons(e, bitc(f[i] as int)));
    let b = seq![cons(e, bitc(crate::arith::sum_prefix(f, 6)))];
    let c = Seq::new(32, |i: int| cons(e, bitc(lv.in0[i] as int)));
    let d = Seq::new(32, |i: int| cons(e, bitc(lv.in1[i] as int)));
    assert forall|k: int| 0 <= k < a.len() implies (#[trigger] a[k]).1 == 0 by {
        lemma_bitc(f[k] as int);
    }
    lemma_bitc(crate::arith::sum_prefix(f, 6));
    assert forall|k: int| 0 <= k < c.len() implies (#[trigger] c[k]).1 == 0 by {
        lemma_bitc(lv.in0[k] as int);
    }
    assert forall|k: int| 0 <= k < d.len() implies (#[trigger] d[k]).1 == 0 by {
        lemma_bitc(lv.in1[k] as int);
    }
    crate::constraint::lemma_all_zero_concat(a, b);
    crate::constraint::lemma_all_zero_concat(a + b, c);
    crate::constraint::lemma_all_zero_concat(a + b + c, d);
}

/// The array of the first 32 elements of `s`.
pub open spec fn arr32(s: Seq<u64>) -> [u64; 32] {
    [s[0], s[1], s[2], s[3], s[4], s[5], s[6], s[7], s[8], s[9], s[10], s[11], s[12], s[13], s[14], s[15], s[16], s[17], s[18], s[19], s[20], s[21], s[22], s[23], s[24], s[25], s[26], s[27], s[28], s[29], s[30], s[31]]
}

/// The constraints of the bits table vanish on the row of any shift.
pub proof fn lemma_shift_row_holds(o: BitOp)
    requires
        is_shift(o.op),
        o.in1 < 32,
    ensures
        crate::constraint::all_zero(bit_constraints(bit_row(o))),
{
    let lv = bit_row(o);
    let s = o.in1;
    lemma_shift_correct(o.in0, s);
    assert(arr32(le_bits(o.in0))@ =~= le_bits(o.in0));
    assert(arr32(one_hot(s as int))@ =~= one_hot(s as int));
    assert(lv.in0@ == le_bits(o.in0));
    assert(lv.in1@ == one_hot(s as int));
    assert forall|i: int| 0 <= i < 32 implies lv.in0[i] <= 1 && lv.in1[i] <= 1 by {
        let iu = i as u32;
        let x = o.in0;
        assert(((x >> iu) & 1u32) <= 1u32) by (bit_vector);
        assert(lv.in0[i] == lv.in0@[i]);
        assert(lv.in1[i] == lv.in1@[i]);
    }
    lemma_bit_flags_hold(lv);
    let cs = bit_op_constraints(lv);
    let out = lv.out as int;
    let srl_out = srl_sum(lv.in0@, lv.in1@, 32);
    crate::field::lemma_felt_small(0);
    crate::field::lemma_fsub_zero_right(out);
    assert(fadd(fadd(0, 0), 0) == 0);
    assert forall|k: int| 0 <= k < cs.len() implies (#[trigger] cs[k]).1 == 0 by {
        if k == 0 {
            crate::field::lemma_fmul_zero(fsub(lv.and as int, and_weighted(lv.in0@, lv.in1@, 32)));
        } else if k == 1 {
            crate::field::lemma_fmul_zero(cs[1].1);
            let x = weighted(lv.in0@, 32);
            let y = weighted(lv.in1@, 32);
            let and_coeff = fsub(fsub(0, 0), fmul(0, 2));
            crate::field::lemma_fmul_zero(fsub(out, fadd(fmul(fadd(0, 0), fadd(x, y)), fmul(and_coeff, lv.and as int))));
        } else {
            crate::field::lemma_fmul_zero(fsub(out, sll_sum(lv.in0@, lv.in1@, 32)));
            crate::field::lemma_fmul_zero(fsub(out, srl_out));
            crate::field::lemma_fmul_zero(fsub(out, fadd(srl_out, sra_ext_sum(lv.in0@, lv.in1@, 32))));
        }
    }
    crate::constraint::lemma_all_zero_concat(bit_flag_constraints(lv), cs);
}

/// A row with every flag off and operand columns that hold bits satisfies
/// every constraint of the table, whatever its output columns hold.
pub proof fn lemma_bit_flags_off_holds(lv: BitCols<u64>)
    requires
        row_is_felt(lv),
        flag_seq(lv) == seq![0u64, 0, 0, 0, 0, 0],
        forall|i: int| 0 <= i < 32 ==> lv.in0[i] <= 1 && lv.in1[i] <= 1,
    ensures
        crate::constraint::all_zero(bit_constraints(lv)),
{
    assert(flag_seq(lv)[0] == 0 && flag_seq(lv)[1] == 0 && flag_seq(lv)[2] == 0);
    assert(flag_seq(lv)[3] == 0 && flag_seq(lv)[4] == 0 && flag_seq(lv)[5] == 0);
    lemma_bit_flags_hold(lv);
    let cs = bit_op_constraints(lv);
    crate::field::lemma_felt_small(0);
    assert(fadd(fadd(0, 0), 0) == 0);
    assert forall|k: int| 0 <= k < cs.len() implies (#[trigger] cs[k]).1 == 0 by {
        let out = lv.out as int;
        let srl_out = srl_sum(lv.in0@, lv.in1@, 32);
        crate::field::lemma_fmul_zero(fsub(lv.and as int, and_weighted(lv.in0@, lv.in1@, 32)));
        crate::field::lemma_fmul_zero(fsub(out, sll_sum(lv.in0@, lv.in1@, 32)));
        crate::field::lemma_fmul_zero(fsub(out, srl_out));
        crate::field::lemma_fmul_zero(fsub(out, fadd(srl_out, sra_ext_sum(lv.in0@, lv.in1@, 32))));
        if k == 1 {
            let x = weighted(lv.in0@, 32);
            let y = weighted(lv.in1@, 32);
            let and_coeff = fsub(fsub(0, 0), fmul(0, 2));
            crate::field::lemma_fmul_zero(fsub(out, fadd(fmul(fadd(0, 0), fadd(x, y)), fmul(and_coeff, lv.and as int))));
        }
    }
    crate::constraint::lemma_all_zero_concat(bit_flag_constraints(lv), cs);
}

/// The failures of building the bits trace.
#[derive(Clone, Copy, Debug, PartialEq, Eq, Structural)]
pub enum BitError {
    /// The shift at this index has an amount of 32 or more.
    InvalidShift(usize),
}

/// The all-zero row that pads the table.
pub open spec fn zero_row() -> BitCols<u64> {
    BitCols {
        op: OpCols { f_and: 0, f_xor: 0, f_or: 0, f_sll: 0, f_srl: 0, f_sra: 0 },
        in0: arr32(Seq::new(32, |i: int| 0u64)),
        in1: arr32(Seq::new(32, |i: int| 0u64)),
        out: 0,
        and: 0,
    }
}

/// Returns the all-zero row.
pub fn padding_row() -> (r: BitCols<u64>)
    ensures
        r == zero_row(),
{
    let r = BitCols {
        op: OpCols { f_and: 0, f_xor: 0, f_or: 0, f_sll: 0, f_srl: 0, f_sra: 0 },
        in0: [0; 32],
        in1: [0; 32],
        out: 0,
        and: 0,
    };
    assert(r.in0 =~= zero_row().in0);
    assert(r.in1 =~= zero_row().in1);
    r
}

/// Returns one row per operation, in order, then all-zero padding rows up
/// to the next power of two of the larger of `ops.len()` and `min_rows`;
/// fails on the first shift by 32 or more.
pub fn gen_trace_rows(ops: &Vec<BitOp>, min_rows: usize) -> (r: Result<Vec<BitCols<u64>>, BitError>)
    requires
        ops@.len() <= crate::trace::MAX_ROWS,
        min_rows <= crate::trace::MAX_ROWS,
    ensures
        r matches Err(BitError::InvalidShift(k)) ==> k < ops@.len() && is_shift(ops@[k as int].op)
            && ops@[k as int].in1 >= 32 && forall|j: int|
            0 <= j < k ==> !(is_shift(#[trigger] ops@[j].op) && ops@[j].in1 >= 32),
        r is Ok <==> forall|j: int| 0 <= j < ops@.len() ==> !(is_shift(#[trigger] ops@[j].op) && ops@[j].in1 >= 32),
        r matches Ok(rows) ==> {
            &&& crate::arith::n_rows_for(ops@.len() as int, min_rows as int, rows@.len() as int)
            &&& forall|i: int| 0 <= i < ops@.len() ==> #[trigger] rows@[i] == bit_row(ops@[i])
            &&& forall|i: int| ops@.len() <= i < rows@.len() ==> #[trigger] rows@[i] == zero_row()
        },
{
    let mut k: usize = 0;
    while k < ops.len()
        invariant
            k <= ops@.len(),
            forall|j: int| 0 <= j < k ==> !(is_shift(#[trigger] ops@[j].op) && ops@[j].in1 >= 32),
        decreases ops@.len() - k,
    {
        let o = ops[k];
        if (o.op == Op::SLL || o.op == Op::SRL || o.op == Op::SRA) && o.in1 >= 32 {
            return Err(BitError::InvalidShift(k));
        }
        k += 1;
    }
    let n = if ops.len() > min_rows {
        ops.len()
    } else {
        min_rows
    };
    let n_rows = crate::trace::next_power_of_two(n);
    let mut rows: Vec<BitCols<u64>> = Vec::new();
    let mut i: usize = 0;
    while i < n_rows
        invariant
            i <= n_rows,
            ops@.len() <= n_rows,
            rows@.len() == i,
            forall|j: int| 0 <= j < ops@.len() ==> !(is_shift(#[trigger] ops@[j].op) && ops@[j].in1 >= 32),
            forall|j: int| 0 <= j < i && j < ops@.len() ==> #[trigger] rows@[j] == bit_row(ops@[j]),
            forall|j: int| ops@.len() <= j < i ==> #[trigger] rows@[j] == zero_row(),
        decreases n_rows - i,
    {
        if i < ops.len() {
            let o = ops[i];
            assert(!(is_shift(ops@[i as int].op) && ops@[i as int].in1 >= 32));
            rows.push(o.into_row());
        } else {
            rows.push(padding_row());
        }
        i += 1;
    }
    Ok(rows)
}

/// The terms of a sequence of bits at their own places.
pub open spec fn seq_terms(s: Seq<u64>) -> spec_fn(int) -> (u64, int) {
    |i: int| (s[i], i)
}

/// The terms of the products of two sequences of bits at their own places.
pub open spec fn prod_terms(a: Seq<u64>, b: Seq<u64>) -> spec_fn(int) -> (u64, int) {
    |i: int| ((a[i] * b[i]) as u64, i)
}

/// Weighted bits summed in the field give their integer sum.
proof fn lemma_weighted_isum(s: Seq<u64>, k: int)
    requires
        0 <= k <= 32,
        k <= s.len(),
        forall|i: int| 0 <= i < k ==> #[trigger] s[i] <= 1,
    ensures
        weighted(s, k) == isum(seq_terms(s), k),
    decreases k,
{
    if k > 0 {
        lemma_weighted_isum(s, k - 1);
        assert(small_terms(seq_terms(s), k));
        lemma_isum_bound(seq_terms(s), k);
        let p = pow2((k - 1) as nat) as int;
        vstd::arithmetic::power2::lemma2_to64();
        if k - 1 < 31 {
            vstd::arithmetic::power2::lemma_pow2_strictly_increases((k - 1) as nat, 31);
        }
        let bit = s[k - 1] as int;
        assert(0 <= bit * p <= p) by (nonlinear_arith)
            requires
                0 <= bit <= 1,
                p > 0,
        ;
        crate::field::lemma_felt_small(bit * p);
        crate::field::lemma_felt_small(isum(seq_terms(s), k));
        assert(seq_terms(s)(k - 1) == (s[k - 1], k - 1));
    }
}

/// Weighted products of bits summed in the field give their integer sum.
proof fn lemma_and_weighted_isum(a: Seq<u64>, b: Seq<u64>, k: int)
    requires
        0 <= k <= 32,
        k <= a.len(),
        k <= b.len(),
        forall|i: int| 0 <= i < k ==> #[trigger] a[i] <= 1 && b[i] <= 1,
    ensures
        and_weighted(a, b, k) == isum(prod_terms(a, b), k),
    decreases k,
{
    if k > 0 {
        lemma_and_weighted_isum(a, b, k - 1);
        assert forall|j: int| 0 <= j < k implies (#[trigger] prod_terms(a, b)(j)).0 <= 1 && 0 <= prod_terms(a, b)(j).1 < 32 by {
            assert(a[j] <= 1 && b[j] <= 1);
            assert(a[j] * b[j] <= 1) by (nonlinear_arith)
                requires
                    a[j] <= 1,
                    b[j] <= 1,
            ;
        }
        lemma_isum_bound(prod_terms(a, b), k);
        let p = pow2((k - 1) as nat) as int;
        vstd::arithmetic::power2::lemma2_to64();
        if k - 1 < 31 {
            vstd::arithmetic::power2::lemma_pow2_strictly_increases((k - 1) as nat, 31);
        }
        let (x, y) = (a[k - 1] as int, b[k - 1] as int);
        assert(0 <= x * y <= 1 && 0 <= x * y * p <= p) by (nonlinear_arith)
            requires
                0 <= x <= 1,
                0 <= y <= 1,
                p > 0,
        ;
        crate::field::lemma_felt_small(x * y);
        crate::field::lemma_felt_small(x * y * p);
        crate::field::lemma_felt_small(isum(prod_terms(a, b), k));
        assert(prod_terms(a, b)(k - 1) == ((a[k - 1] * b[k - 1]) as u64, k - 1));
    }
}

/// The bits of `x` weighted in the field give `x`.
proof fn lemma_weighted_word(x: u32)
    ensures
        weighted(le_bits(x), 32) == x,
        forall|i: int| 0 <= i < 32 ==> #[trigger] le_bits(x)[i] <= 1,
{
    assert forall|i: int| 0 <= i < 32 implies #[trigger] le_bits(x)[i] <= 1 by {
        let iu = i as u32;
        assert(((x >> iu) & 1u32) <= 1u32) by (bit_vector);
    }
    lemma_weighted_isum(le_bits(x), 32);
    lemma_isum_ext(seq_terms(le_bits(x)), value_terms(x), 32);
    lemma_value_full(x);
}

/// The products of the bits of `x` and `y`, weighted in the field, give
/// `x & y`.
proof fn lemma_and_weighted_word(x: u32, y: u32)
    ensures
        and_weighted(le_bits(x), le_bits(y), 32) == (x & y),
{
    lemma_weighted_word(x);
    lemma_weighted_word(y);
    lemma_and_weighted_isum(le_bits(x), le_bits(y), 32);
    assert forall|j: int| 0 <= j < 32 implies (#[trigger] prod_terms(le_bits(x), le_bits(y))(j)).0 * pow2(
        prod_terms(le_bits(x), le_bits(y))(j).1 as nat,
    ) == value_terms(x & y)(j).0 * pow2(value_terms(x & y)(j).1 as nat) by {
        let ju = j as u32;
        assert(((x & y) >> ju) & 1u32 == ((x >> ju) & 1u32) * ((y >> ju) & 1u32)) by (bit_vector);
        assert((((x >> ju) & 1u32) as u64) * (((y >> ju) & 1u32) as u64) == (((x >> ju) & 1u32) * ((y >> ju) & 1u32)) as u64) by (bit_vector);
    }
    lemma_isum_ext(prod_terms(le_bits(x), le_bits(y)), value_terms(x & y), 32);
    lemma_value_full(x & y);
}

/// Adding the field element `-a` subtracts `a`.
proof fn lemma_fadd_neg(s: int, a: int, c: int)
    requires
        0 <= a,
        0 <= s - c * a < crate::field::p(),
        0 <= c,
    ensures
        fadd(s, fmul(crate::field::p() - c, a)) == s - c * a,
{
    let p = crate::field::p();
    let t = -c * a;
    assert((p - c) * a == p * a + t) by (nonlinear_arith)
        requires
            t == -c * a,
    ;
    vstd::arithmetic::div_mod::lemma_mod_multiples_vanish(a, t, p);
    assert(fmul(p - c, a) == t % p);
    vstd::arithmetic::div_mod::lemma_add_mod_noop_right(s, t, p);
    assert(fadd(s, t % p) == (s + t) % p);
    assert(s + t == s - c * a) by (nonlinear_arith)
        requires
            t == -c * a,
    ;
    crate::field::lemma_felt_small(s + t);
}

/// The constraints of the bits table vanish on the row of any logic
/// operation.
pub proof fn lemma_logic_row_holds(o: BitOp)
    requires
        !is_shift(o.op),
    ensures
        crate::constraint::all_zero(bit_constraints(bit_row(o))),
{
    let lv = bit_row(o);
    let (x, y) = (o.in0, o.in1);
    assert(arr32(le_bits(x))@ =~= le_bits(x));
    assert(arr32(le_bits(y))@ =~= le_bits(y));
    assert(lv.in0@ == le_bits(x));
    assert(lv.in1@ == le_bits(y));
    lemma_weighted_word(x);
    lemma_weighted_word(y);
    lemma_and_weighted_word(x, y);
    assert forall|i: int| 0 <= i < 32 implies lv.in0[i] <= 1 && lv.in1[i] <= 1 by {
        assert(lv.in0[i] == lv.in0@[i]);
        assert(lv.in1[i] == lv.in1@[i]);
    }
    lemma_bit_flags_hold(lv);
    let cs = bit_op_constraints(lv);
    let p = crate::field::p();
    crate::field::lemma_felt_small(0);
    crate::field::lemma_felt_small(1);
    crate::field::lemma_felt_small(2);
    let xi = x as int;
    let yi = y as int;
    let a = (x & y) as int;
    assert((x | y) as int + (x & y) as int == xi + yi) by {
        assert(((x | y) as u64) + ((x & y) as u64) == (x as u64) + (y as u64)) by (bit_vector);
    }
    assert((x ^ y) as int + 2 * (x & y) as int == xi + yi) by {
        assert(((x ^ y) as u64) + 2 * ((x & y) as u64) == (x as u64) + (y as u64)) by (bit_vector);
    }
    assert(a <= xi && a <= yi) by {
        assert((x & y) <= x && (x & y) <= y) by (bit_vector);
    }
    crate::field::lemma_felt_small(xi + yi);
    let f_logic = fadd(fadd(lv.op.f_and as int, lv.op.f_xor as int), lv.op.f_or as int);
    assert(f_logic == 1);
    let sum_coeff = fadd(lv.op.f_or as int, lv.op.f_xor as int);
    let and_coeff = fsub(fsub(lv.op.f_and as int, lv.op.f_or as int), fmul(lv.op.f_xor as int, 2));
    let x_op_y = fadd(fmul(sum_coeff, fadd(xi, yi)), fmul(and_coeff, a));
    if o.op == Op::AND {
        crate::field::lemma_fmul_zero(xi + yi);
        crate::field::lemma_fmul_zero(2);
        crate::field::lemma_fmul_one(a);
        crate::field::lemma_fsub_zero_right(1);
        assert(x_op_y == a);
    } else if o.op == Op::OR {
        crate::field::lemma_fmul_one(xi + yi);
        crate::field::lemma_fmul_zero(2);
        crate::field::lemma_felt_neg(-1);
        lemma_fadd_neg(xi + yi, a, 1);
        assert(x_op_y == (x | y) as int);
    } else {
        crate::field::lemma_fmul_one(xi + yi);
        crate::field::lemma_fmul_one(2);
        crate::field::lemma_felt_neg(-2);
        lemma_fadd_neg(xi + yi, a, 2);
        assert(x_op_y == (x ^ y) as int);
    }
    assert forall|k: int| 0 <= k < cs.len() implies (#[trigger] cs[k]).1 == 0 by {
        crate::field::lemma_fmul_zero(fsub(lv.out as int, sll_sum(lv.in0@, lv.in1@, 32)));
        crate::field::lemma_fmul_zero(fsub(lv.out as int, srl_sum(lv.in0@, lv.in1@, 32)));
        crate::field::lemma_fmul_zero(
            fsub(lv.out as int, fadd(srl_sum(lv.in0@, lv.in1@, 32), sra_ext_sum(lv.in0@, lv.in1@, 32))),
        );
        crate::field::lemma_fmul_one(0);
    }
    crate::constraint::lemma_all_zero_concat(bit_flag_constraints(lv), cs);
}

/// The constraints of the bits table vanish on every row of a generated
/// trace: the row of each operation and each padding row.
pub proof fn lemma_bits_trace_holds(ops: Seq<BitOp>, rows: Seq<BitCols<u64>>)
    requires
        ops.len() <= rows.len(),
        forall|j: int| 0 <= j < ops.len() ==> !(is_shift(#[trigger] ops[j].op) && ops[j].in1 >= 32),
        forall|i: int| 0 <= i < ops.len() ==> #[trigger] rows[i] == bit_row(ops[i]),
        forall|i: int| ops.len() <= i < rows.len() ==> #[trigger] rows[i] == zero_row(),
    ensures
        forall|i: int| 0 <= i < rows.len() ==> crate::constraint::all_zero(#[trigger] bit_constraints(rows[i])),
{
    assert forall|i: int| 0 <= i < rows.len() implies crate::constraint::all_zero(#[trigger] bit_constraints(rows[i])) by {
        if i < ops.len() {
            let o = ops[i];
            if is_shift(o.op) {
                lemma_shift_row_holds(o);
            } else {
                lemma_logic_row_holds(o);
            }
        } else {
            let z = zero_row();
            assert(z.in0@ =~= Seq::new(32, |k: int| 0u64));
            assert(z.in1@ =~= Seq::new(32, |k: int| 0u64));
            assert forall|k: int| 0 <= k < N_BIT_COLS implies (#[trigger] z.as_seq()[k]) < ORDER by {
                if 6 <= k < 38 {
                    assert(z.as_seq()[k] == z.in0@[k - 6]);
                } else if 38 <= k < 70 {
                    assert(z.as_seq()[k] == z.in1@[k - 38]);
                }
            }
            assert forall|k: int| 0 <= k < 32 implies z.in0[k] <= 1 && z.in1[k] <= 1 by {
                assert(z.in0[k] == z.in0@[k]);
                assert(z.in1[k] == z.in1@[k]);
            }
            assert(flag_seq(z) =~= seq![0u64, 0, 0, 0, 0, 0]);
            lemma_bit_flags_off_holds(z);
        }
    }
}

/// The generated row of an operation has exactly one flag set: the flags
/// sum to one.
pub proof fn lemma_bit_flags_one_hot(o: BitOp)
    ensures
        crate::arith::sum_prefix(flag_seq(bit_row(o)), 6) == 1,
{
    let f = flag_seq(bit_row(o));
    reveal_with_fuel(crate::arith::sum_prefix, 6);
    crate::field::lemma_felt_small(f[0] + f[1]);
    crate::field::lemma_felt_small(f[0] + f[1] + f[2]);
    crate::field::lemma_felt_small(f[0] + f[1] + f[2] + f[3]);
    crate::field::lemma_felt_small(f[0] + f[1] + f[2] + f[3] + f[4]);
    crate::field::lemma_felt_small(f[0] + f[1] + f[2] + f[3] + f[4] + f[5]);
}

/// Returns the trace of `ops` as columns, each holding one value per row;
/// fails as [`gen_trace_rows`] does.
pub fn gen_trace(ops: &Vec<BitOp>, min_rows: usize) -> (r: Result<Vec<Vec<u64>>, BitError>)
    requires
        ops@.len() <= crate::trace::MAX_ROWS,
        min_rows <= crate::trace::MAX_ROWS,
    ensures
        r is Ok <==> forall|j: int| 0 <= j < ops@.len() ==> !(is_shift(#[trigger] ops@[j].op) && ops@[j].in1 >= 32),
        r matches Ok(cols) ==> cols@.len() == N_BIT_COLS && exists|n: int|
            {
                &&& crate::arith::n_rows_for(ops@.len() as int, min_rows as int, n)
                &&& forall|j: int| 0 <= j < N_BIT_COLS ==> (#[trigger] cols@[j])@.len() == n
                &&& forall|i: int, j: int|
                    0 <= i < n && 0 <= j < N_BIT_COLS ==> cols@[j]@[i] == (if i < ops@.len() {
                        bit_row(ops@[i])
                    } else {
                        zero_row()
                    }).as_seq()[j]
            },
{
    let rows = match gen_trace_rows(ops, min_rows) {
        Ok(rows) => rows,
        Err(e) => return Err(e),
    };
    let mut flat: Vec<Vec<u64>> = Vec::new();
    let mut i: usize = 0;
    while i < rows.len()
        invariant
            i <= rows@.len(),
            flat@.len() == i,
            forall|k: int| 0 <= k < i ==> (#[trigger] flat@[k])@ == rows@[k].as_seq(),
        decreases rows@.len() - i,
    {
        flat.push(rows[i].to_vec());
        i += 1;
    }
    assert forall|k: int| 0 <= k < flat@.len() implies (#[trigger] flat@[k])@.len() == N_BIT_COLS by {
        lemma_bit_cols_round_trip(rows@[k], rows@[k].as_seq());
    }
    let cols = crate::trace::transpose(&flat, N_BIT_COLS);
    assert(forall|i: int| 0 <= i < rows@.len() ==> #[trigger] rows@[i] == (if i < ops@.len() {
        bit_row(ops@[i])
    } else {
        zero_row()
    }));
    Ok(cols)
}

/// Returns whether every constraint of the table vanishes on every row of
/// `rows`.
pub fn trace_holds(rows: &Vec<BitCols<u64>>) -> (r: bool)
    requires
        forall|i: int| 0 <= i < rows@.len() ==> row_is_felt(#[trigger] rows@[i]),
    ensures
        r == forall|i: int| 0 <= i < rows@.len() ==> crate::constraint::all_zero(#[trigger] bit_constraints(rows@[i])),
{
    let n = rows.len();
    let mut i: usize = 0;
    while i < n
        invariant
            n == rows@.len(),
            i <= n,
            forall|i: int| 0 <= i < rows@.len() ==> row_is_felt(#[trigger] rows@[i]),
            forall|k: int| 0 <= k < i ==> crate::constraint::all_zero(#[trigger] bit_constraints(rows@[k])),
        decreases n - i,
    {
        let mut cc = ConstraintSet::new();
        eval(&rows[i], &mut cc);
        assert(cc@ =~= bit_constraints(rows@[i as int]));
        if !cc.is_all_zero() {
            return false;
        }
        i += 1;
    }
    true
}

} // verus!
