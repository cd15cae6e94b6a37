//! The arithmetic table: addition, subtraction and the unsigned and signed
//! comparisons of 32-bit words, one operation per row.
use crate::addcy::{addcy_constraints, eval_add, eval_ltu, eval_sub, lemma_addcy_holds, lemma_addcy_off, SIGN_BIT};
use crate::constraint::{
    all_hold_at, all_zero, cons, lemma_all_zero_concat, lemma_all_zero_holds, ConstraintKind,
    ConstraintSet,
};
use crate::field::{
    fadd, felt_add, felt_mul, felt_sub, fmul, from_bool, fsub, lemma_felt_small,
    lemma_fmul_zero, ORDER, WORD_MOD,
};
use crate::trace::{is_pow2, next_power_of_two, transpose, MAX_ROWS};
use crate::vm::Opcode;
use vstd::prelude::*;

verus! {

/// The number of operation flag columns.
pub const N_OP_COLS: usize = 6;

/// The number of columns of the arithmetic table.
pub const N_ARITH_COLS: usize = 14;

/// Flag columns for the operation to perform.
#[derive(Clone, Copy, Debug, PartialEq, Eq)]
pub struct OpCols<T> {
    /// Addition.
    pub f_add: T,
    /// Subtraction.
    pub f_sub: T,
    /// Unsigned less than.
    pub f_ltu: T,
    /// Signed less than.
    pub f_lts: T,
    /// Unsigned greater than or equal to.
    pub f_geu: T,
    /// Signed greater than or equal to.
    pub f_ges: T,
}

/// Columns of the arithmetic table.
#[derive(Clone, Copy, Debug, PartialEq, Eq)]
pub struct ArithCols<T> {
    /// The operation to perform.
    pub op: OpCols<T>,
    /// First operand.
    pub in0: T,
    /// Second operand.
    pub in1: T,
    /// Output.
    pub out: T,
    /// Auxiliary column: the carry, or the difference of a comparison.
    pub aux: T,
    /// `in0 + 2^31` modulo `2^32`, for the signed comparisons.
    pub in0_bias: T,
    /// `in1 + 2^31` modulo `2^32`, for the signed comparisons.
    pub in1_bias: T,
    /// The carry out of `in0 + 2^31`.
    pub in0_aux: T,
    /// The carry out of `in1 + 2^31`.
    pub in1_aux: T,
}

impl<T: Copy> OpCols<T> {
    /// The flags in column order.
    pub open spec fn as_seq(self) -> Seq<T> {
        seq![self.f_add, self.f_sub, self.f_ltu, self.f_lts, self.f_geu, self.f_ges]
    }

    /// The flags in column order.
    pub fn to_vec(&self) -> (r: Vec<T>)
        ensures
            r@ == self.as_seq(),
    {
        let r = vec![self.f_add, self.f_sub, self.f_ltu, self.f_lts, self.f_geu, self.f_ges];
        assert(r@ =~= self.as_seq());
        r
    }
}

impl<T: Copy> ArithCols<T> {
    /// The record flattened in column order.
    pub open spec fn as_seq(self) -> Seq<T> {
        self.op.as_seq() + seq![
            self.in0,
            self.in1,
            self.out,
            self.aux,
            self.in0_bias,
            self.in1_bias,
            self.in0_aux,
            self.in1_aux,
        ]
    }

    /// The record whose flattened form is `s`.
    pub open spec fn from_seq(s: Seq<T>) -> Self {
        ArithCols {
            op: OpCols { f_add: s[0], f_sub: s[1], f_ltu: s[2], f_lts: s[3], f_geu: s[4], f_ges: s[5] },
            in0: s[6],
            in1: s[7],
            out: s[8],
            aux: s[9],
            in0_bias: s[10],
            in1_bias: s[11],
            in0_aux: s[12],
            in1_aux: s[13],
        }
    }

    /// The record flattened in column order.
    pub fn to_vec(&self) -> (r: Vec<T>)
        ensures
            r@ == self.as_seq(),
    {
        let mut r = self.op.to_vec();
        r.push(self.in0);
        r.push(self.in1);
        r.push(self.out);
        r.push(self.aux);
        r.push(self.in0_bias);
        r.push(self.in1_bias);
        r.push(self.in0_aux);
        r.push(self.in1_aux);
        assert(r@ =~= self.as_seq());
        r
    }

    /// Reads a record from its flattened form.
    pub fn from_slice(s: &[T]) -> (r: Self)
        requires
            s@.len() == N_ARITH_COLS,
        ensures
            r == Self::from_seq(s@),
    {
        ArithCols {
            op: OpCols { f_add: s[0], f_sub: s[1], f_ltu: s[2], f_lts: s[3], f_geu: s[4], f_ges: s[5] },
            in0: s[6],
            in1: s[7],
            out: s[8],
            aux: s[9],
            in0_bias: s[10],
            in1_bias: s[11],
            in0_aux: s[12],
            in1_aux: s[13],
        }
    }
}

/// Flattening a record and reading it back gives the record; reading a
/// flattened form and flattening it again gives the same values.
pub proof fn lemma_arith_cols_round_trip<T: Copy>(r: ArithCols<T>, s: Seq<T>)
    requires
        s.len() == N_ARITH_COLS,
    ensures
        ArithCols::from_seq(r.as_seq()) == r,
        ArithCols::from_seq(s).as_seq() == s,
        r.as_seq().len() == N_ARITH_COLS,
{
    assert(ArithCols::from_seq(s).as_seq() =~= s);
}

/// The column index map: each field holds its own column index.
pub fn arith_col_map() -> (r: ArithCols<usize>)
    ensures
        r.as_seq() == Seq::new(N_ARITH_COLS as nat, |i: int| i as usize),
{
    let idx = crate::util::indices_arr(N_ARITH_COLS);
    let r = ArithCols::from_slice(idx.as_slice());
    assert(r.as_seq() =~= Seq::new(N_ARITH_COLS as nat, |i: int| i as usize));
    r
}

/// The operations of the table.
#[allow(non_camel_case_types, clippy::upper_case_acronyms)]
#[derive(Clone, Copy, Debug, PartialEq, Eq, Structural)]
pub enum Op {
    /// Addition.
    ADD,
    /// Subtraction.
    SUB,
    /// Unsigned less than.
    LTU,
    /// Signed less than.
    LTS,
    /// Unsigned greater than or equal to.
    GEU,
    /// Signed greater than or equal to.
    GES,
}

/// The field element of a truth value.
pub open spec fn bit(b: bool) -> u64 {
    if b {
        1
    } else {
        0
    }
}

/// The flags row that selects `op`.
pub open spec fn op_cols(op: Op) -> OpCols<u64> {
    OpCols {
        f_add: bit(op == Op::ADD),
        f_sub: bit(op == Op::SUB),
        f_ltu: bit(op == Op::LTU),
        f_lts: bit(op == Op::LTS),
        f_geu: bit(op == Op::GEU),
        f_ges: bit(op == Op::GES),
    }
}

impl Op {
    /// The flag columns with exactly the flag of this operation set.
    pub fn to_op_cols(self) -> (r: OpCols<u64>)
        ensures
            r == op_cols(self),
    {
        OpCols {
            f_add: from_bool(self == Op::ADD),
            f_sub: from_bool(self == Op::SUB),
            f_ltu: from_bool(self == Op::LTU),
            f_lts: from_bool(self == Op::LTS),
            f_geu: from_bool(self == Op::GEU),
            f_ges: from_bool(self == Op::GES),
        }
    }
}

/// The value of a word read as a two's complement signed integer.
pub open spec fn signed(x: u32) -> int {
    if x < SIGN_BIT {
        x as int
    } else {
        x - WORD_MOD
    }
}

/// `x + 2^31` modulo `2^32`.
pub open spec fn bias(x: u32) -> int {
    if x < SIGN_BIT {
        x + SIGN_BIT
    } else {
        x + SIGN_BIT - WORD_MOD
    }
}

/// `a - b` modulo `2^32`.
pub open spec fn wrapping_sub(a: int, b: int) -> int {
    if a >= b {
        a - b
    } else {
        a - b + WORD_MOD
    }
}

/// An arithmetic operation on two words.
#[derive(Clone, Copy, Debug, PartialEq, Eq)]
pub struct ArithOp {
    pub op: Op,
    pub in0: u32,
    pub in1: u32,
}

/// The row that an operation generates.
pub open spec fn arith_row(o: ArithOp) -> ArithCols<u64> {
    let (in0, in1) = (o.in0 as int, o.in1 as int);
    let signed_op = o.op == Op::LTS || o.op == Op::GES;
    let (b0, b1) = (bias(o.in0), bias(o.in1));
    let (out, aux): (int, int) = match o.op {
        Op::ADD => (
            if in0 + in1 >= WORD_MOD { in0 + in1 - WORD_MOD } else { in0 + in1 },
            bit(in0 + in1 >= WORD_MOD) as int,
        ),
        Op::SUB => (wrapping_sub(in0, in1), bit(in0 < in1) as int),
        Op::LTU => (bit(in0 < in1) as int, wrapping_sub(in0, in1)),
        Op::GEU => (bit(in0 >= in1) as int, wrapping_sub(in0, in1)),
        Op::LTS => (bit(b0 < b1) as int, wrapping_sub(b0, b1)),
        Op::GES => (bit(b0 >= b1) as int, wrapping_sub(b0, b1)),
    };
    ArithCols {
        op: op_cols(o.op),
        in0: o.in0 as u64,
        in1: o.in1 as u64,
        out: out as u64,
        aux: aux as u64,
        in0_bias: if signed_op { b0 as u64 } else { 0 },
        in1_bias: if signed_op { b1 as u64 } else { 0 },
        in0_aux: if signed_op { bit(o.in0 >= SIGN_BIT) } else { 0 },
        in1_aux: if signed_op { bit(o.in1 >= SIGN_BIT) } else { 0 },
    }
}

/// The all-zero row that pads the table.
pub open spec fn zero_row() -> ArithCols<u64> {
    ArithCols {
        op: OpCols { f_add: 0, f_sub: 0, f_ltu: 0, f_lts: 0, f_geu: 0, f_ges: 0 },
        in0: 0,
        in1: 0,
        out: 0,
        aux: 0,
        in0_bias: 0,
        in1_bias: 0,
        in0_aux: 0,
        in1_aux: 0,
    }
}

/// Returns the all-zero row.
pub fn padding_row() -> (r: ArithCols<u64>)
    ensures
        r == zero_row(),
{
    ArithCols {
        op: OpCols { f_add: 0, f_sub: 0, f_ltu: 0, f_lts: 0, f_geu: 0, f_ges: 0 },
        in0: 0,
        in1: 0,
        out: 0,
        aux: 0,
        in0_bias: 0,
        in1_bias: 0,
        in0_aux: 0,
        in1_aux: 0,
    }
}

/// Returns `(a + b) mod 2^32` and the carry out.
fn overflowing_add(a: u32, b: u32) -> (r: (u32, bool))
    ensures
        r.1 == (a + b >= WORD_MOD),
        r.0 == (if r.1 { a + b - WORD_MOD } else { a + b }),
{
    let s: u64 = a as u64 + b as u64;
    if s >= WORD_MOD {
        ((s - WORD_MOD) as u32, true)
    } else {
        (s as u32, false)
    }
}

/// Returns `(a - b) mod 2^32` and the borrow out.
fn overflowing_sub(a: u32, b: u32) -> (r: (u32, bool))
    ensures
        r.1 == (a < b),
        r.0 == wrapping_sub(a as int, b as int),
{
    if a >= b {
        (a - b, false)
    } else {
        ((a as u64 + WORD_MOD - b as u64) as u32, true)
    }
}

impl ArithOp {
    pub fn new(op: Op, in0: u32, in1: u32) -> (r: Self)
        ensures
            r == (ArithOp { op, in0, in1 }),
    {
        Self { op, in0, in1 }
    }

    /// Returns the row of this operation: operands, the flag of the
    /// operation, the result and the helper columns its constraints need.
    pub fn into_row(self) -> (r: ArithCols<u64>)
        ensures
            r == arith_row(self),
            self.op == Op::ADD ==> r.out == (self.in0 + self.in1) % (WORD_MOD as int) && r.aux == bit(
                self.in0 + self.in1 >= WORD_MOD,
            ),
            self.op == Op::SUB ==> r.out == (self.in0 - self.in1) % (WORD_MOD as int) && r.aux == bit(
                self.in0 < self.in1,
            ),
            self.op == Op::LTU ==> r.out == bit(self.in0 < self.in1),
            self.op == Op::GEU ==> r.out == bit(self.in0 >= self.in1),
            self.op == Op::LTS ==> r.out == bit(signed(self.in0) < signed(self.in1)),
            self.op == Op::GES ==> r.out == bit(signed(self.in0) >= signed(self.in1)),
    {
        let mut row = ArithCols {
            op: self.op.to_op_cols(),
            in0: self.in0 as u64,
            in1: self.in1 as u64,
            ..padding_row()
        };
        match self.op {
            Op::ADD => {
                let (res, cy) = overflowing_add(self.in0, self.in1);
                row.aux = from_bool(cy);
                row.out = res as u64;
            },
            Op::SUB => {
                let (diff, cy) = overflowing_sub(self.in0, self.in1);
                row.aux = from_bool(cy);
                row.out = diff as u64;
            },
            Op::LTU => {
                let (diff, lt) = overflowing_sub(self.in0, self.in1);
                row.aux = diff as u64;
                row.out = from_bool(lt);
            },
            Op::GEU => {
                let (diff, lt) = overflowing_sub(self.in0, self.in1);
                row.aux = diff as u64;
                row.out = from_bool(!lt);
            },
            Op::LTS | Op::GES => {
                let (bias0, cy0) = overflowing_add(self.in0, SIGN_BIT as u32);
                let (bias1, cy1) = overflowing_add(self.in1, SIGN_BIT as u32);
                let (diff, lt) = overflowing_sub(bias0, bias1);
                row.in0_bias = bias0 as u64;
                row.in1_bias = bias1 as u64;
                row.in0_aux = from_bool(cy0);
                row.in1_aux = from_bool(cy1);
                row.aux = diff as u64;
                row.out = from_bool(if self.op == Op::LTS { lt } else { !lt });
            },
        }
        proof {
            lemma_row_semantics(self);
        }
        row
    }
}

/// The row's output agrees with the word semantics of the operation.
proof fn lemma_row_semantics(o: ArithOp)
    ensures
        o.op == Op::ADD ==> arith_row(o).out == (o.in0 + o.in1) % (WORD_MOD as int),
        o.op == Op::SUB ==> arith_row(o).out == (o.in0 - o.in1) % (WORD_MOD as int),
        bias(o.in0) < bias(o.in1) <==> signed(o.in0) < signed(o.in1),
{
    let (a, b) = (o.in0 as int, o.in1 as int);
    if a + b >= WORD_MOD {
        vstd::arithmetic::div_mod::lemma_mod_multiples_vanish(1, a + b - WORD_MOD, WORD_MOD as int);
        vstd::arithmetic::div_mod::lemma_small_mod((a + b - WORD_MOD) as nat, WORD_MOD as nat);
    } else {
        vstd::arithmetic::div_mod::lemma_small_mod((a + b) as nat, WORD_MOD as nat);
    }
    if a >= b {
        vstd::arithmetic::div_mod::lemma_small_mod((a - b) as nat, WORD_MOD as nat);
    } else {
        vstd::arithmetic::div_mod::lemma_mod_multiples_vanish(1, a - b, WORD_MOD as int);
        vstd::arithmetic::div_mod::lemma_small_mod((a - b + WORD_MOD) as nat, WORD_MOD as nat);
    }
}

/// The constraints that each flag is a bit and that at most one is set.
pub open spec fn flag_constraints(op: OpCols<u64>) -> Seq<(ConstraintKind, int)> {
    let f = op.as_seq();
    let sum = sum_prefix(f, 6);
    Seq::new(6, |i: int| cons(ConstraintKind::EveryRow, fmul(f[i] as int, fsub(f[i] as int, 1))))
        .push(cons(ConstraintKind::EveryRow, fmul(sum, fsub(sum, 1))))
}

/// The constraints that tie the output to the operands, for each operation.
pub open spec fn addcy_row_constraints(lv: ArithCols<u64>) -> Seq<(ConstraintKind, int)> {
    let (in0, in1, out, aux) = (lv.in0 as int, lv.in1 as int, lv.out as int, lv.aux as int);
    let not_out = fsub(1, out);
    let f_signed = fadd(lv.op.f_lts as int, lv.op.f_ges as int);
    let (b0, b1) = (lv.in0_bias as int, lv.in1_bias as int);
    addcy_constraints(lv.op.f_add as int, in0, in1, out, aux, false)
        + addcy_constraints(lv.op.f_sub as int, in1, out, in0, aux, false)
        + addcy_constraints(lv.op.f_ltu as int, in1, aux, in0, out, false)
        + addcy_constraints(lv.op.f_geu as int, in1, aux, in0, not_out, false)
        + addcy_constraints(f_signed, in0, SIGN_BIT as int, b0, lv.in0_aux as int, false)
        + addcy_constraints(f_signed, in1, SIGN_BIT as int, b1, lv.in1_aux as int, false)
        + addcy_constraints(lv.op.f_lts as int, b1, aux, b0, out, false)
        + addcy_constraints(lv.op.f_ges as int, b1, aux, b0, not_out, false)
}

/// All constraints of the table on a row.
pub open spec fn arith_constraints(lv: ArithCols<u64>) -> Seq<(ConstraintKind, int)> {
    flag_constraints(lv.op) + addcy_row_constraints(lv)
}

/// Whether every value of a row is a canonical field element.
pub open spec fn row_is_felt(lv: ArithCols<u64>) -> bool {
    forall|i: int| 0 <= i < N_ARITH_COLS ==> (#[trigger] lv.as_seq()[i]) < ORDER
}

/// Emits the flag constraints.
pub fn eval_flags(lv: &ArithCols<u64>, cc: &mut ConstraintSet)
    requires
        row_is_felt(*lv),
    ensures
        final(cc)@ == old(cc)@ + flag_constraints(lv.op),
{
    let flags = lv.op.to_vec();
    assert(lv.as_seq()[0] < ORDER && lv.as_seq()[1] < ORDER && lv.as_seq()[2] < ORDER);
    assert(lv.as_seq()[3] < ORDER && lv.as_seq()[4] < ORDER && lv.as_seq()[5] < ORDER);
    let mut sum: u64 = 0;
    let mut i: usize = 0;
    while i < N_OP_COLS
        invariant
            i <= N_OP_COLS,
            flags@ == lv.op.as_seq(),
            forall|k: int| 0 <= k < N_OP_COLS ==> flags@[k] < ORDER,
            sum < ORDER,
            sum == (if i == 0 { 0 } else { sum_prefix(flags@, i as int) }),
            cc@ == old(cc)@ + Seq::new(
                i as nat,
                |k: int| cons(ConstraintKind::EveryRow, fmul(flags@[k] as int, fsub(flags@[k] as int, 1))),
            ),
        decreases N_OP_COLS - i,
    {
        let f = flags[i];
        cc.constraint(felt_mul(f, felt_sub(f, 1)));
        if i == 0 {
            sum = f;
        } else {
            sum = felt_add(sum, f);
        }
        i += 1;
        assert(cc@ =~= old(cc)@ + Seq::new(
            i as nat,
            |k: int| cons(ConstraintKind::EveryRow, fmul(flags@[k] as int, fsub(flags@[k] as int, 1))),
        ));
    }
    cc.constraint(felt_mul(sum, felt_sub(sum, 1)));
    assert(cc@ =~= old(cc)@ + flag_constraints(lv.op));
}

/// `f[0] + .. + f[n - 1]` in the field, added from the left.
pub open spec fn sum_prefix(f: Seq<u64>, n: int) -> int
    decreases n,
{
    if n <= 1 {
        f[0] as int
    } else {
        fadd(sum_prefix(f, n - 1), f[n - 1] as int)
    }
}

/// Emits the constraints of [`addcy_row_constraints`].
#[verifier::rlimit(60)]
fn eval_addcy_row(lv: &ArithCols<u64>, cc: &mut ConstraintSet)
    requires
        row_is_felt(*lv),
    ensures
        final(cc)@ == old(cc)@ + addcy_row_constraints(*lv),
{
    assert(lv.as_seq()[6] < ORDER && lv.as_seq()[7] < ORDER && lv.as_seq()[8] < ORDER);
    assert(lv.as_seq()[9] < ORDER && lv.as_seq()[10] < ORDER && lv.as_seq()[11] < ORDER);
    assert(lv.as_seq()[12] < ORDER && lv.as_seq()[13] < ORDER);
    assert(lv.as_seq()[0] < ORDER && lv.as_seq()[1] < ORDER && lv.as_seq()[2] < ORDER);
    assert(lv.as_seq()[3] < ORDER && lv.as_seq()[4] < ORDER && lv.as_seq()[5] < ORDER);
    let (in0, in1, out, aux) = (lv.in0, lv.in1, lv.out, lv.aux);
    eval_add(cc, lv.op.f_add, in0, in1, out, aux);
    eval_sub(cc, lv.op.f_sub, in0, in1, out, aux);
    eval_ltu(cc, lv.op.f_ltu, in0, in1, out, aux);
    let not_out = felt_sub(1, out);
    eval_ltu(cc, lv.op.f_geu, in0, in1, not_out, aux);
    let ghost half = cc@;
    let f_signed = felt_add(lv.op.f_lts, lv.op.f_ges);
    eval_add(cc, f_signed, in0, SIGN_BIT, lv.in0_bias, lv.in0_aux);
    eval_add(cc, f_signed, in1, SIGN_BIT, lv.in1_bias, lv.in1_aux);
    eval_ltu(cc, lv.op.f_lts, lv.in0_bias, lv.in1_bias, out, aux);
    eval_ltu(cc, lv.op.f_ges, lv.in0_bias, lv.in1_bias, not_out, aux);
    assert(cc@ =~= old(cc)@ + addcy_row_constraints(*lv));
}

/// Emits all constraints of the table on the row `lv`.
pub fn eval(lv: &ArithCols<u64>, cc: &mut ConstraintSet)
    requires
        row_is_felt(*lv),
    ensures
        final(cc)@ == old(cc)@ + arith_constraints(*lv),
{
    eval_flags(lv, cc);
    eval_addcy_row(lv, cc);
    assert(cc@ =~= old(cc)@ + arith_constraints(*lv));
}

/// Whether each flag is a bit and at most one is set.
pub open spec fn flags_exclusive(op: OpCols<u64>) -> bool {
    &&& forall|i: int| 0 <= i < N_OP_COLS ==> #[trigger] op.as_seq()[i] <= 1
    &&& op.f_add + op.f_sub + op.f_ltu + op.f_lts + op.f_geu + op.f_ges <= 1
}

/// The field sum of the flags, where each is a bit, is their integer sum.
pub proof fn lemma_flag_sum(op: OpCols<u64>)
    requires
        flags_exclusive(op),
    ensures
        sum_prefix(op.as_seq(), 6) == op.f_add + op.f_sub + op.f_ltu + op.f_lts + op.f_geu + op.f_ges,
{
    let f = op.as_seq();
    assert(f[0] <= 1 && f[1] <= 1 && f[2] <= 1 && f[3] <= 1 && f[4] <= 1 && f[5] <= 1);
    reveal_with_fuel(sum_prefix, 6);
    lemma_felt_small(f[0] + f[1]);
    lemma_felt_small(f[0] + f[1] + f[2]);
    lemma_felt_small(f[0] + f[1] + f[2] + f[3]);
    lemma_felt_small(f[0] + f[1] + f[2] + f[3] + f[4]);
    lemma_felt_small(f[0] + f[1] + f[2] + f[3] + f[4] + f[5]);
}

/// A bit times itself less one is zero.
proof fn lemma_bit_constraint(b: int)
    requires
        b == 0 || b == 1,
    ensures
        fmul(b, fsub(b, 1)) == 0,
{
    lemma_felt_small(0);
    lemma_fmul_zero(fsub(b, 1));
    lemma_fmul_zero(b);
}

/// Exclusive flags satisfy the flag constraints.
pub proof fn lemma_flags_hold(op: OpCols<u64>)
    requires
        flags_exclusive(op),
    ensures
        all_zero(flag_constraints(op)),
{
    let f = op.as_seq();
    lemma_flag_sum(op);
    assert forall|i: int| 0 <= i < 6 implies fmul(f[i] as int, fsub(f[i] as int, 1)) == 0 by {
        assert(f[i] <= 1);
        lemma_bit_constraint(f[i] as int);
    }
    lemma_bit_constraint(sum_prefix(f, 6));
    let cs = flag_constraints(op);
    assert forall|k: int| 0 <= k < cs.len() implies (#[trigger] cs[k]).1 == 0 by {
        if k < 6 {
            assert(cs[k].1 == fmul(f[k] as int, fsub(f[k] as int, 1)));
        }
    }
}

/// The generated row of an operation has exactly one flag set: the flags
/// sum to one.
pub proof fn lemma_flags_one_hot(o: ArithOp)
    ensures
        flags_exclusive(arith_row(o).op),
        sum_prefix(arith_row(o).op.as_seq(), 6) == 1,
{
    lemma_flag_sum(arith_row(o).op);
}

/// The generated row holds canonical field elements.
pub proof fn lemma_row_is_felt(o: ArithOp)
    ensures
        row_is_felt(arith_row(o)),
{
    let s = arith_row(o).as_seq();
    assert forall|i: int| 0 <= i < N_ARITH_COLS implies (#[trigger] s[i]) < ORDER by {
        assert(s[i] < WORD_MOD);
    }
}

/// The constraints of the table vanish on the row that any operation
/// generates.
pub proof fn lemma_arith_row_holds(o: ArithOp)
    ensures
        all_zero(arith_constraints(arith_row(o))),
{
    let lv = arith_row(o);
    let (in0, in1, out, aux) = (lv.in0 as int, lv.in1 as int, lv.out as int, lv.aux as int);
    lemma_flags_one_hot(o);
    lemma_flags_hold(lv.op);
    if o.op == Op::GEU || o.op == Op::GES {
        lemma_felt_small(1 - out);
    }
    let not_out = fsub(1, out);
    let f_signed = fadd(lv.op.f_lts as int, lv.op.f_ges as int);
    lemma_felt_small(lv.op.f_lts + lv.op.f_ges);
    let (b0, b1) = (lv.in0_bias as int, lv.in1_bias as int);
    let a1 = addcy_constraints(lv.op.f_add as int, in0, in1, out, aux, false);
    let a2 = addcy_constraints(lv.op.f_sub as int, in1, out, in0, aux, false);
    let a3 = addcy_constraints(lv.op.f_ltu as int, in1, aux, in0, out, false);
    let a4 = addcy_constraints(lv.op.f_geu as int, in1, aux, in0, not_out, false);
    let a5 = addcy_constraints(f_signed, in0, SIGN_BIT as int, b0, lv.in0_aux as int, false);
    let a6 = addcy_constraints(f_signed, in1, SIGN_BIT as int, b1, lv.in1_aux as int, false);
    let a7 = addcy_constraints(lv.op.f_lts as int, b1, aux, b0, out, false);
    let a8 = addcy_constraints(lv.op.f_ges as int, b1, aux, b0, not_out, false);
    if o.op == Op::ADD { lemma_addcy_holds(1, in0, in1, out, aux, false); } else { lemma_addcy_off(in0, in1, out, aux, false); }
    if o.op == Op::SUB { lemma_addcy_holds(1, in1, out, in0, aux, false); } else { lemma_addcy_off(in1, out, in0, aux, false); }
    if o.op == Op::LTU { lemma_addcy_holds(1, in1, aux, in0, out, false); } else { lemma_addcy_off(in1, aux, in0, out, false); }
    if o.op == Op::GEU { lemma_addcy_holds(1, in1, aux, in0, not_out, false); } else { lemma_addcy_off(in1, aux, in0, not_out, false); }
    if o.op == Op::LTS || o.op == Op::GES {
        lemma_addcy_holds(1, in0, SIGN_BIT as int, b0, lv.in0_aux as int, false);
        lemma_addcy_holds(1, in1, SIGN_BIT as int, b1, lv.in1_aux as int, false);
    } else {
        lemma_addcy_off(in0, SIGN_BIT as int, b0, lv.in0_aux as int, false);
        lemma_addcy_off(in1, SIGN_BIT as int, b1, lv.in1_aux as int, false);
    }
    if o.op == Op::LTS { lemma_addcy_holds(1, b1, aux, b0, out, false); } else { lemma_addcy_off(b1, aux, b0, out, false); }
    if o.op == Op::GES { lemma_addcy_holds(1, b1, aux, b0, not_out, false); } else { lemma_addcy_off(b1, aux, b0, not_out, false); }
    lemma_all_zero_concat(a1, a2);
    lemma_all_zero_concat(a1 + a2, a3);
    lemma_all_zero_concat(a1 + a2 + a3, a4);
    lemma_all_zero_concat(a1 + a2 + a3 + a4, a5);
    lemma_all_zero_concat(a1 + a2 + a3 + a4 + a5, a6);
    lemma_all_zero_concat(a1 + a2 + a3 + a4 + a5 + a6, a7);
    lemma_all_zero_concat(a1 + a2 + a3 + a4 + a5 + a6 + a7, a8);
    lemma_all_zero_concat(flag_constraints(lv.op), addcy_row_constraints(lv));
}

/// A row with every flag off satisfies all constraints of the table, whatever
/// its other columns hold.
pub proof fn lemma_flags_off_holds(lv: ArithCols<u64>)
    requires
        row_is_felt(lv),
        lv.op.as_seq() == seq![0u64, 0, 0, 0, 0, 0],
    ensures
        all_zero(arith_constraints(lv)),
{
    let (in0, in1, out, aux) = (lv.in0 as int, lv.in1 as int, lv.out as int, lv.aux as int);
    assert(lv.op.as_seq()[0] == 0 && lv.op.as_seq()[5] == 0);
    lemma_flags_hold(lv.op);
    lemma_felt_small(0);
    let not_out = fsub(1, out);
    let (b0, b1) = (lv.in0_bias as int, lv.in1_bias as int);
    let a1 = addcy_constraints(0, in0, in1, out, aux, false);
    let a2 = addcy_constraints(0, in1, out, in0, aux, false);
    let a3 = addcy_constraints(0, in1, aux, in0, out, false);
    let a4 = addcy_constraints(0, in1, aux, in0, not_out, false);
    let a5 = addcy_constraints(0, in0, SIGN_BIT as int, b0, lv.in0_aux as int, false);
    let a6 = addcy_constraints(0, in1, SIGN_BIT as int, b1, lv.in1_aux as int, false);
    let a7 = addcy_constraints(0, b1, aux, b0, out, false);
    let a8 = addcy_constraints(0, b1, aux, b0, not_out, false);
    lemma_addcy_off(in0, in1, out, aux, false);
    lemma_addcy_off(in1, out, in0, aux, false);
    lemma_addcy_off(in1, aux, in0, out, false);
    lemma_addcy_off(in1, aux, in0, not_out, false);
    lemma_addcy_off(in0, SIGN_BIT as int, b0, lv.in0_aux as int, false);
    lemma_addcy_off(in1, SIGN_BIT as int, b1, lv.in1_aux as int, false);
    lemma_addcy_off(b1, aux, b0, out, false);
    lemma_addcy_off(b1, aux, b0, not_out, false);
    lemma_all_zero_concat(a1, a2);
    lemma_all_zero_concat(a1 + a2, a3);
    lemma_all_zero_concat(a1 + a2 + a3, a4);
    lemma_all_zero_concat(a1 + a2 + a3 + a4, a5);
    lemma_all_zero_concat(a1 + a2 + a3 + a4 + a5, a6);
    lemma_all_zero_concat(a1 + a2 + a3 + a4 + a5 + a6, a7);
    lemma_all_zero_concat(a1 + a2 + a3 + a4 + a5 + a6 + a7, a8);
    lemma_all_zero_concat(flag_constraints(lv.op), addcy_row_constraints(lv));
}

/// The number of rows of a table with `n_ops` operations and at least
/// `min_rows` rows: the next power of two of the larger.
pub open spec fn n_rows_for(n_ops: int, min_rows: int, n: int) -> bool {
    &&& is_pow2(n)
    &&& n_ops <= n
    &&& min_rows <= n
    &&& (n == 1 || n < 2 * n_ops || n < 2 * min_rows)
}

/// The padded rows that a list of operations generates.
pub open spec fn is_arith_trace(ops: Seq<ArithOp>, rows: Seq<ArithCols<u64>>) -> bool {
    &&& ops.len() <= rows.len()
    &&& forall|i: int| 0 <= i < ops.len() ==> #[trigger] rows[i] == arith_row(ops[i])
    &&& forall|i: int| ops.len() <= i < rows.len() ==> #[trigger] rows[i] == zero_row()
}

/// Returns one row per operation, in order, then all-zero padding rows up to
/// the next power of two of the larger of `ops.len()` and `min_rows`.
pub fn gen_trace_rows(ops: Vec<ArithOp>, min_rows: usize) -> (r: Vec<ArithCols<u64>>)
    requires
        ops@.len() <= MAX_ROWS,
        min_rows <= MAX_ROWS,
    ensures
        n_rows_for(ops@.len() as int, min_rows as int, r@.len() as int),
        is_arith_trace(ops@, r@),
{
    let n = if ops.len() > min_rows { ops.len() } else { min_rows };
    let n_rows = next_power_of_two(n);
    let mut rows: Vec<ArithCols<u64>> = Vec::new();
    let mut i: usize = 0;
    while i < n_rows
        invariant
            i <= n_rows,
            ops@.len() <= n_rows,
            rows@.len() == i,
            forall|k: int| 0 <= k < i && k < ops@.len() ==> #[trigger] rows@[k] == arith_row(ops@[k]),
            forall|k: int| ops@.len() <= k < i ==> #[trigger] rows@[k] == zero_row(),
        decreases n_rows - i,
    {
        if i < ops.len() {
            rows.push(ops[i].into_row());
        } else {
            rows.push(padding_row());
        }
        i += 1;
    }
    rows
}

/// Returns the trace as columns, each holding one value per row.
pub fn gen_trace(ops: Vec<ArithOp>, min_rows: usize) -> (r: Vec<Vec<u64>>)
    requires
        ops@.len() <= MAX_ROWS,
        min_rows <= MAX_ROWS,
    ensures
        r@.len() == N_ARITH_COLS,
        exists|rows: Seq<ArithCols<u64>>|
            {
                &&& is_arith_trace(ops@, rows)
                &&& n_rows_for(ops@.len() as int, min_rows as int, rows.len() as int)
                &&& forall|j: int| 0 <= j < N_ARITH_COLS ==> (#[trigger] r@[j])@.len() == rows.len()
                &&& forall|i: int, j: int|
                    0 <= i < rows.len() && 0 <= j < N_ARITH_COLS ==> r@[j]@[i] == rows[i].as_seq()[j]
            },
{
    let rows = gen_trace_rows(ops, min_rows);
    let mut flat: Vec<Vec<u64>> = Vec::new();
    let mut i: usize = 0;
    while i < rows.len()
        invariant
            i <= rows@.len(),
            flat@.len() == i,
            forall|k: int| 0 <= k < i ==> (#[trigger] flat@[k])@ == rows@[k].as_seq(),
        decreases rows@.len() - i,
    {
        flat.push(rows[i].to_vec());
        i += 1;
    }
    assert forall|k: int| 0 <= k < flat@.len() implies (#[trigger] flat@[k])@.len() == N_ARITH_COLS by {
        lemma_arith_cols_round_trip(rows@[k], rows@[k].as_seq());
    }
    transpose(&flat, N_ARITH_COLS)
}

/// Returns whether every constraint of the table holds on every row of
/// `rows`.
pub fn trace_holds(rows: &Vec<ArithCols<u64>>) -> (r: bool)
    requires
        forall|i: int| 0 <= i < rows@.len() ==> row_is_felt(#[trigger] rows@[i]),
    ensures
        r == forall|i: int|
            0 <= i < rows@.len() ==> all_hold_at(
                #[trigger] arith_constraints(rows@[i]),
                i,
                rows@.len() as int,
            ),
{
    let n = rows.len();
    let mut i: usize = 0;
    while i < n
        invariant
            n == rows@.len(),
            i <= n,
            forall|i: int| 0 <= i < rows@.len() ==> row_is_felt(#[trigger] rows@[i]),
            forall|k: int| 0 <= k < i ==> all_hold_at(#[trigger] arith_constraints(rows@[k]), k, n as int),
        decreases n - i,
    {
        let mut cc = ConstraintSet::new();
        eval(&rows[i], &mut cc);
        assert(cc@ =~= arith_constraints(rows@[i as int]));
        if !cc.holds_at(i, n) {
            return false;
        }
        i += 1;
    }
    true
}

/// Every row of a generated trace, operation rows and padding rows alike,
/// satisfies every constraint of the table.
pub proof fn lemma_arith_trace_holds(ops: Seq<ArithOp>, rows: Seq<ArithCols<u64>>)
    requires
        is_arith_trace(ops, rows),
    ensures
        forall|i: int| 0 <= i < rows.len() ==> row_is_felt(#[trigger] rows[i]),
        forall|i: int|
            0 <= i < rows.len() ==> all_hold_at(#[trigger] arith_constraints(rows[i]), i, rows.len() as int),
{
    assert forall|i: int| 0 <= i < rows.len() implies row_is_felt(#[trigger] rows[i]) && all_hold_at(
        arith_constraints(rows[i]),
        i,
        rows.len() as int,
    ) by {
        if i < ops.len() {
            lemma_row_is_felt(ops[i]);
            lemma_arith_row_holds(ops[i]);
        } else {
            let z = zero_row();
            assert forall|j: int| 0 <= j < N_ARITH_COLS implies (#[trigger] z.as_seq()[j]) < ORDER by {}
            assert(z.op.as_seq() =~= seq![0u64, 0, 0, 0, 0, 0]);
            lemma_flags_off_holds(z);
        }
        lemma_all_zero_holds(arith_constraints(rows[i]), i, rows.len() as int);
    }
}

/// The columns and filter of [`ctl_looked`].
pub open spec fn looked_arith(r: crate::ctl::TableWithColumns) -> bool {
    &&& r.table == crate::stark::table_index(crate::stark::Table::Arith)
    &&& r.columns@.len() == 4
    &&& r.columns@[0].lin@ == seq![(0usize, 0u64), (1usize, 1u64), (2usize, 3u64), (3usize, 2u64), (4usize, 22u64), (5usize, 20u64)]
    &&& r.columns@[0].constant == 0
    &&& r.columns@[1].lin@ == seq![(6usize, 1u64)] && r.columns@[1].constant == 0
    &&& r.columns@[2].lin@ == seq![(7usize, 1u64)] && r.columns@[2].constant == 0
    &&& r.columns@[3].lin@ == seq![(8usize, 1u64)] && r.columns@[3].constant == 0
    &&& r.filter.products@.len() == 0 && r.filter.constants@.len() == 1
    &&& r.filter.constants@[0].lin@ == seq![(0usize, 1u64), (1usize, 1u64), (2usize, 1u64), (3usize, 1u64), (4usize, 1u64), (5usize, 1u64)]
    &&& r.filter.constants@[0].constant == 0
}

/// The lookup that the arithmetic table offers: `(opcode, in0, in1, out)`
/// on every row with an operation flag set; the opcode is the flag
/// combination weighted by the opcodes.
pub fn ctl_looked() -> (r: crate::ctl::TableWithColumns)
    ensures
        looked_arith(r),
{
    let op_comb = vec![
        (0usize, Opcode::ADD.value()),
        (1, Opcode::SUB.value()),
        (2, Opcode::SLTU.value()),
        (3, Opcode::SLT.value()),
        (4, Opcode::BGEU.value()),
        (5, Opcode::BGE.value()),
    ];
    let cols = vec![
        crate::ctl::Column::linear_combination(op_comb),
        crate::ctl::Column::single(6),
        crate::ctl::Column::single(7),
        crate::ctl::Column::single(8),
    ];
    let filter = crate::ctl::Filter::new_simple(crate::ctl::Column::sum(&vec![0usize, 1, 2, 3, 4, 5]));
    let r = crate::ctl::TableWithColumns::new(crate::stark::Table::Arith.index(), cols, filter);
    assert(r.columns@[0].lin@ =~= seq![(0usize, 0u64), (1usize, 1u64), (2usize, 3u64), (3usize, 2u64), (4usize, 22u64), (5usize, 20u64)]);
    assert(r.filter.constants@[0].lin@ =~= seq![(0usize, 1u64), (1usize, 1u64), (2usize, 1u64), (3usize, 1u64), (4usize, 1u64), (5usize, 1u64)]);
    r
}

/// The table as a unit of the proof: its constraints and their degree.
#[derive(Clone, Copy, Debug, Default)]
pub struct ArithStark {}

impl ArithStark {
    /// Emits every constraint of the table on a row and its successor.
    pub fn eval_all(&self, lv: &ArithCols<u64>, cc: &mut ConstraintSet)
        requires
            row_is_felt(*lv),
        ensures
            final(cc)@ == old(cc)@ + arith_constraints(*lv),
    {
        eval(lv, cc)
    }

    /// The largest degree of the table's constraints.
    pub fn constraint_degree(&self) -> (r: usize)
        ensures
            r == crate::stark::CONSTRAINT_DEGREE,
    {
        crate::stark::CONSTRAINT_DEGREE
    }

    /// Whether the table takes part in cross-table lookups.
    pub fn requires_ctls(&self) -> (r: bool)
        ensures
            r,
    {
        true
    }
}

} // verus!
