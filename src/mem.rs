//! The memory table: every memory access, sorted by segment, address and
//! time, with the range-checked deltas between neighbouring accesses.
use crate::constraint::{all_hold_at, cons, ConstraintKind, ConstraintSet};
use crate::field::{
    fadd, felt_add, felt_mul, felt_sub, fmul, from_bool, fsub, lemma_felt_neg,
    lemma_felt_small, lemma_fmul_one, lemma_fmul_one_zero, lemma_fmul_zero, lemma_fsub_zero,
    lemma_fsub_zero_right, p, ORDER,
};
use crate::freq::{count_in, freq_count, lemma_count_le_len, lemma_sum_counts_all, sum_counts, FreqMap};
use crate::trace::{is_pow2, next_power_of_two, MAX_ROWS};
use crate::ctl::Column;
use vstd::prelude::*;

verus! {

/// The largest address or time stamp of an access.
pub const MAX_WORD: usize = 0xFFFF_FFFF;

/// The number of columns of the memory table.
pub const N_MEM_COLS: usize = 13;

/// An address space.
#[derive(Clone, Copy, Debug, PartialEq, Eq, Hash, Structural)]
pub enum Segment {
    /// The register file.
    Reg,
    /// Main memory.
    Main,
}

/// The position of a segment in the sort order, also its column value.
pub open spec fn seg_index(s: Segment) -> int {
    match s {
        Segment::Reg => 0,
        Segment::Main => 1,
    }
}

impl Segment {
    /// The column value of the segment.
    pub fn index(self) -> (r: usize)
        ensures
            r == seg_index(self),
    {
        match self {
            Segment::Reg => 0,
            Segment::Main => 1,
        }
    }
}

/// Whether an access reads or writes.
#[derive(Clone, Copy, Debug, PartialEq, Eq, Structural)]
pub enum MemKind {
    Read,
    Write,
}

impl MemKind {
    /// Whether this is a write.
    pub fn is_write(self) -> (r: bool)
        ensures
            r == (self == MemKind::Write),
    {
        match self {
            MemKind::Read => false,
            MemKind::Write => true,
        }
    }
}

/// A memory address: a segment and a virtual address within it.
#[derive(Clone, Copy, Debug, PartialEq, Eq, Structural)]
pub struct MemAddress {
    pub seg: Segment,
    pub virt: usize,
}

impl MemAddress {
    pub fn new(seg: Segment, virt: usize) -> (r: Self)
        ensures
            r == (MemAddress { seg, virt }),
    {
        Self { seg, virt }
    }

    /// Whether this is register `x0`, which always reads zero.
    pub fn is_reg0(&self) -> (r: bool)
        ensures
            r == is_reg0(*self),
    {
        self.seg == Segment::Reg && self.virt == 0
    }
}

/// Whether an address is register `x0`.
pub open spec fn is_reg0(a: MemAddress) -> bool {
    a.seg == Segment::Reg && a.virt == 0
}

/// One memory access.
#[derive(Clone, Copy, Debug, PartialEq, Eq, Structural)]
pub struct MemOp {
    /// Whether this is a real access rather than a filler or padding.
    pub on: bool,
    pub time: usize,
    pub kind: MemKind,
    pub adr: MemAddress,
    pub val: u32,
}

/// Whether the address and time of an access fit in a word.
pub open spec fn op_wf(op: MemOp) -> bool {
    op.time <= MAX_WORD && op.adr.virt <= MAX_WORD
}

/// The sort key of an access.
pub open spec fn key(op: MemOp) -> (int, int, int) {
    (seg_index(op.adr.seg), op.adr.virt as int, op.time as int)
}

/// Lexicographic order on sort keys.
pub open spec fn key_le(a: (int, int, int), b: (int, int, int)) -> bool {
    a.0 < b.0 || (a.0 == b.0 && (a.1 < b.1 || (a.1 == b.1 && a.2 <= b.2)))
}

/// Whether the accesses are sorted by segment, address and time.
pub open spec fn sorted(ops: Seq<MemOp>) -> bool {
    forall|i: int, j: int| 0 <= i <= j < ops.len() ==> key_le(key(ops[i]), key(ops[j]))
}

impl MemOp {
    /// The key that orders the table: segment, then address, then time.
    pub fn sort_key(&self) -> (r: (usize, usize, usize))
        ensures
            (r.0 as int, r.1 as int, r.2 as int) == key(*self),
    {
        (self.adr.seg.index(), self.adr.virt, self.time)
    }

    /// A read that is not a real access, used to bridge gaps; it reads zero
    /// from register `x0`.
    pub fn filler(adr: MemAddress, time: usize, val: u32) -> (r: Self)
        ensures
            r == filler(adr, time, val),
    {
        let val = if adr.is_reg0() {
            0
        } else {
            val
        };
        Self { on: false, time, kind: MemKind::Read, adr, val }
    }

    /// The row of this access, before the columns that depend on its
    /// successor are filled in.
    pub fn into_row(self) -> (r: MemCols<u64>)
        requires
            op_wf(self),
        ensures
            r == mem_row(self),
    {
        MemCols {
            f_on: from_bool(self.on),
            f_rw: from_bool(self.kind.is_write()),
            time: self.time as u64,
            adr_seg: self.adr.seg.index() as u64,
            adr_virt: self.adr.virt as u64,
            val: self.val as u64,
            aux: 0,
            f_reg0: from_bool(self.adr.is_reg0()),
            f_seg_diff: 0,
            f_virt_diff: 0,
            range_check: RangeCheck { val: 0, count: 0, freq: 0 },
        }
    }
}

/// The filler read of [`MemOp::filler`].
pub open spec fn filler(adr: MemAddress, time: usize, val: u32) -> MemOp {
    MemOp { on: false, time, kind: MemKind::Read, adr, val: if is_reg0(adr) { 0 } else { val } }
}

/// The field element of a truth value.
pub open spec fn bit(b: bool) -> u64 {
    if b {
        1
    } else {
        0
    }
}

/// Range checking columns.
#[derive(Clone, Copy, Debug, PartialEq, Eq)]
pub struct RangeCheck<T> {
    /// The value to range check.
    pub val: T,
    /// The range check counter.
    pub count: T,
    /// The range check frequency.
    pub freq: T,
}

/// Columns of the memory table.
#[derive(Clone, Copy, Debug, PartialEq, Eq)]
pub struct MemCols<T> {
    /// 1 for a real access, 0 for a filler or padding row.
    pub f_on: T,
    /// 1 for a write, 0 for a read.
    pub f_rw: T,
    /// Time stamp.
    pub time: T,
    /// Address segment.
    pub adr_seg: T,
    /// Virtual address.
    pub adr_virt: T,
    /// The value read or written.
    pub val: T,
    /// `(1 - f_seg_diff - f_virt_diff) * (1 - f_reg0)`.
    pub aux: T,
    /// 1 if the access targets register `x0`.
    pub f_reg0: T,
    /// 1 if the segment differs in the next row.
    pub f_seg_diff: T,
    /// 1 if the address differs in the next row and the segment does not.
    pub f_virt_diff: T,
    /// Range check columns.
    pub range_check: RangeCheck<T>,
}

impl<T: Copy> MemCols<T> {
    /// The record flattened in column order.
    pub open spec fn as_seq(self) -> Seq<T> {
        seq![
            self.f_on,
            self.f_rw,
            self.time,
            self.adr_seg,
            self.adr_virt,
            self.val,
            self.aux,
            self.f_reg0,
            self.f_seg_diff,
            self.f_virt_diff,
            self.range_check.val,
            self.range_check.count,
            self.range_check.freq,
        ]
    }

    /// The record whose flattened form is `s`.
    pub open spec fn from_seq(s: Seq<T>) -> Self {
        MemCols {
            f_on: s[0],
            f_rw: s[1],
            time: s[2],
            adr_seg: s[3],
            adr_virt: s[4],
            val: s[5],
            aux: s[6],
            f_reg0: s[7],
            f_seg_diff: s[8],
            f_virt_diff: s[9],
            range_check: RangeCheck { val: s[10], count: s[11], freq: s[12] },
        }
    }

    /// The record flattened in column order.
    pub fn to_vec(&self) -> (r: Vec<T>)
        ensures
            r@ == self.as_seq(),
    {
        let r = vec![
            self.f_on,
            self.f_rw,
            self.time,
            self.adr_seg,
            self.adr_virt,
            self.val,
            self.aux,
            self.f_reg0,
            self.f_seg_diff,
            self.f_virt_diff,
            self.range_check.val,
            self.range_check.count,
            self.range_check.freq,
        ];
        assert(r@ =~= self.as_seq());
        r
    }

    /// Reads a record from its flattened form.
    pub fn from_slice(s: &[T]) -> (r: Self)
        requires
            s@.len() == N_MEM_COLS,
        ensures
            r == Self::from_seq(s@),
    {
        MemCols {
            f_on: s[0],
            f_rw: s[1],
            time: s[2],
            adr_seg: s[3],
            adr_virt: s[4],
            val: s[5],
            aux: s[6],
            f_reg0: s[7],
            f_seg_diff: s[8],
            f_virt_diff: s[9],
            range_check: RangeCheck { val: s[10], count: s[11], freq: s[12] },
        }
    }
}

/// Flattening a record and reading it back gives the record; reading a
/// flattened form and flattening it again gives the same values.
pub proof fn lemma_mem_cols_round_trip<T: Copy>(r: MemCols<T>, s: Seq<T>)
    requires
        s.len() == N_MEM_COLS,
    ensures
        MemCols::from_seq(r.as_seq()) == r,
        MemCols::from_seq(s).as_seq() == s,
        r.as_seq().len() == N_MEM_COLS,
{
    assert(MemCols::from_seq(s).as_seq() =~= s);
}

/// The column index map: each field holds its own column index.
pub fn mem_col_map() -> (r: MemCols<usize>)
    ensures
        r.as_seq() == Seq::new(N_MEM_COLS as nat, |i: int| i as usize),
{
    let idx = crate::util::indices_arr(N_MEM_COLS);
    let r = MemCols::from_slice(idx.as_slice());
    assert(r.as_seq() =~= Seq::new(N_MEM_COLS as nat, |i: int| i as usize));
    r
}

/// The row of an access before its successor is known.
pub open spec fn mem_row(op: MemOp) -> MemCols<u64> {
    MemCols {
        f_on: bit(op.on),
        f_rw: bit(op.kind == MemKind::Write),
        time: op.time as u64,
        adr_seg: seg_index(op.adr.seg) as u64,
        adr_virt: op.adr.virt as u64,
        val: op.val as u64,
        aux: 0,
        f_reg0: bit(is_reg0(op.adr)),
        f_seg_diff: 0,
        f_virt_diff: 0,
        range_check: RangeCheck { val: 0, count: 0, freq: 0 },
    }
}

/// Whether the segment changes from `a` to `b`.
pub open spec fn seg_diff(a: MemOp, b: MemOp) -> bool {
    a.adr.seg != b.adr.seg
}

/// Whether the address changes from `a` to `b` within one segment.
pub open spec fn virt_diff(a: MemOp, b: MemOp) -> bool {
    !seg_diff(a, b) && a.adr.virt != b.adr.virt
}

/// The value range checked on the transition from `a` to `b`: the change of
/// segment or of address less one, or else the time that passed.
pub open spec fn rc_value(a: MemOp, b: MemOp) -> int {
    if seg_diff(a, b) {
        seg_index(b.adr.seg) - seg_index(a.adr.seg) - 1
    } else if virt_diff(a, b) {
        b.adr.virt - a.adr.virt - 1
    } else {
        b.time - a.time
    }
}

/// Whether the values checked on the transition from `a` to `b` lie in
/// `0..=max_rc`; a change of segment also checks the new address.
pub open spec fn bridged(a: MemOp, b: MemOp, max_rc: int) -> bool {
    &&& 0 <= rc_value(a, b) <= max_rc
    &&& seg_diff(a, b) ==> b.adr.virt <= max_rc
}

/// Whether every transition of `chain` is bridged.
pub open spec fn chain_bridged(chain: Seq<MemOp>, max_rc: int) -> bool {
    forall|i: int| 0 <= i < chain.len() - 1 ==> bridged(#[trigger] chain[i], chain[i + 1], max_rc)
}

/// The number of filler reads that bridge the gap from `lv` to `nv`.
pub open spec fn gap_len(lv: MemOp, nv: MemOp, max_rc: int) -> int {
    if seg_diff(lv, nv) {
        (nv.adr.virt as int) / (max_rc + 1)
    } else if virt_diff(lv, nv) {
        (nv.adr.virt - lv.adr.virt - 1) / (max_rc + 1)
    } else if nv.time > lv.time {
        (nv.time - lv.time - 1) / max_rc
    } else {
        0
    }
}

/// The `k`-th filler read (from zero) between `lv` and `nv`.
pub open spec fn gap_filler(lv: MemOp, nv: MemOp, max_rc: int, k: int) -> MemOp {
    if seg_diff(lv, nv) {
        filler(MemAddress { seg: nv.adr.seg, virt: ((max_rc + 1) * (k + 1) - 1) as usize }, 0, 0)
    } else if virt_diff(lv, nv) {
        filler(MemAddress { seg: lv.adr.seg, virt: (lv.adr.virt + (max_rc + 1) * (k + 1)) as usize }, 0, 0)
    } else {
        filler(lv.adr, (lv.time + max_rc * (k + 1)) as usize, lv.val)
    }
}

/// The filler reads that bridge the gap from `lv` to `nv`.
pub open spec fn gap_fillers(lv: MemOp, nv: MemOp, max_rc: int) -> Seq<MemOp> {
    Seq::new(gap_len(lv, nv, max_rc) as nat, |k: int| gap_filler(lv, nv, max_rc, k))
}

/// The gap fillers lie between their neighbours in the sort order, and with
/// them every transition from `lv` to `nv` is bridged.
pub proof fn lemma_gap_bridged(lv: MemOp, nv: MemOp, max_rc: int)
    requires
        key_le(key(lv), key(nv)),
        op_wf(lv),
        op_wf(nv),
        1 <= max_rc <= MAX_ROWS,
    ensures
        chain_bridged(seq![lv] + gap_fillers(lv, nv, max_rc) + seq![nv], max_rc),
        gap_len(lv, nv, max_rc) >= 0,
        seg_diff(lv, nv) ==> gap_len(lv, nv, max_rc) * (max_rc + 1) <= nv.adr.virt,
        virt_diff(lv, nv) ==> gap_len(lv, nv, max_rc) * (max_rc + 1) <= nv.adr.virt - lv.adr.virt - 1,
        !seg_diff(lv, nv) && !virt_diff(lv, nv) && nv.time > lv.time ==> gap_len(lv, nv, max_rc)
            * max_rc <= nv.time - lv.time - 1,
        forall|k: int| 0 <= k < gap_len(lv, nv, max_rc) ==> {
            let f = #[trigger] gap_filler(lv, nv, max_rc, k);
            &&& op_wf(f)
            &&& key_le(key(lv), key(f))
            &&& key_le(key(f), key(nv))
            &&& !f.on && f.kind == MemKind::Read
        },
{
    let step = max_rc + 1;
    let g = gap_len(lv, nv, max_rc);
    let fs = gap_fillers(lv, nv, max_rc);
    let chain = seq![lv] + fs + seq![nv];
    assert(g >= 0) by {
        if seg_diff(lv, nv) {
            vstd::arithmetic::div_mod::lemma_div_pos_is_pos(nv.adr.virt as int, step);
        } else if virt_diff(lv, nv) {
            vstd::arithmetic::div_mod::lemma_div_pos_is_pos(nv.adr.virt - lv.adr.virt - 1, step);
        } else if nv.time > lv.time {
            vstd::arithmetic::div_mod::lemma_div_pos_is_pos(nv.time - lv.time - 1, max_rc);
        }
    }
    // the quotient and remainder that place the fillers
    let (num, d) = if seg_diff(lv, nv) {
        (nv.adr.virt as int, step)
    } else if virt_diff(lv, nv) {
        (nv.adr.virt - lv.adr.virt - 1, step)
    } else if nv.time > lv.time {
        (nv.time - lv.time - 1, max_rc)
    } else {
        (0int, max_rc)
    };
    vstd::arithmetic::div_mod::lemma_fundamental_div_mod(num, d);
    vstd::arithmetic::div_mod::lemma_mod_bound(num, d);
    if seg_diff(lv, nv) || virt_diff(lv, nv) || nv.time > lv.time {
        assert(g == num / d);
    } else {
        assert(num / d == 0);
    }
    vstd::arithmetic::mul::lemma_mul_is_commutative(g, d);
    assert(0 <= num - d * g < d);
    assert forall|k: int| 0 <= k < g implies {
        let f = #[trigger] gap_filler(lv, nv, max_rc, k);
        &&& op_wf(f)
        &&& key_le(key(lv), key(f))
        &&& key_le(key(f), key(nv))
        &&& !f.on && f.kind == MemKind::Read
    } by {
        vstd::arithmetic::mul::lemma_mul_inequality(k + 1, g, d);
        vstd::arithmetic::mul::lemma_mul_is_commutative(k + 1, d);
        vstd::arithmetic::mul::lemma_mul_is_commutative(g, d);
        assert(d * (k + 1) <= num);
        vstd::arithmetic::mul::lemma_mul_increases(k + 1, d);
        if !seg_diff(lv, nv) && !virt_diff(lv, nv) {
            assert(nv.time > lv.time);
        }
    }
    assert(seg_diff(lv, nv) ==> seg_index(lv.adr.seg) == 0 && seg_index(nv.adr.seg) == 1);
    assert(virt_diff(lv, nv) ==> lv.adr.virt < nv.adr.virt);
    assert forall|i: int| 0 <= i < chain.len() - 1 implies bridged(
        #[trigger] chain[i],
        chain[i + 1],
        max_rc,
    ) by {
        if g == 0 {
            assert(chain[i] == lv && chain[i + 1] == nv);
            assert(d * g == 0);
        } else if i == 0 {
            let f = gap_filler(lv, nv, max_rc, 0);
            assert(chain[1] == f);
            assert(d * (0 + 1) == d);
            vstd::arithmetic::mul::lemma_mul_inequality(1, g, d);
            vstd::arithmetic::mul::lemma_mul_is_commutative(g, d);
            assert(d <= d * g);
            if seg_diff(lv, nv) {
                assert(f.adr.virt == max_rc);
            } else if virt_diff(lv, nv) {
                assert(f.adr.virt == lv.adr.virt + d);
            } else {
                assert(max_rc * (0 + 1) == max_rc);
                assert(f.time == lv.time + max_rc);
            }
        } else if i == g {
            let f = gap_filler(lv, nv, max_rc, g - 1);
            assert(chain[i] == f);
            assert(chain[i + 1] == nv);
            assert(d * (g - 1 + 1) == d * g);
            vstd::arithmetic::mul::lemma_mul_increases(d, g);
            if seg_diff(lv, nv) {
                assert(f.adr.virt == d * g - 1);
            } else if virt_diff(lv, nv) {
                assert(f.adr.virt == lv.adr.virt + d * g);
            } else {
                assert(f.time == lv.time + d * g);
            }
        } else {
            let f0 = gap_filler(lv, nv, max_rc, i - 1);
            let f1 = gap_filler(lv, nv, max_rc, i);
            assert(chain[i] == f0);
            assert(chain[i + 1] == f1);
            vstd::arithmetic::mul::lemma_mul_is_distributive_add(d, i, 1);
            vstd::arithmetic::mul::lemma_mul_inequality(i + 1, g, d);
            vstd::arithmetic::mul::lemma_mul_is_commutative(i + 1, d);
            vstd::arithmetic::mul::lemma_mul_is_commutative(g, d);
            assert(d * (i + 1) <= num);
            assert(d * (i - 1 + 1) == d * i);
            vstd::arithmetic::mul::lemma_mul_increases(d, i);
            if seg_diff(lv, nv) {
                assert(f0.adr.virt == d * i - 1);
                assert(f1.adr.virt == d * i + d - 1);
            } else if virt_diff(lv, nv) {
                assert(f0.adr.virt == lv.adr.virt + d * i);
                assert(f1.adr.virt == lv.adr.virt + d * i + d);
            } else {
                assert(f0.time == lv.time + d * i);
                assert(f1.time == lv.time + d * i + d);
            }
        }
    }
}

/// Returns the filler reads that bridge the gap from `lv` to `nv`: after
/// them, every change of segment, of address or of time between
/// neighbouring accesses is range checked within `0..=max_rc`.
pub fn fill_gap(lv: &MemOp, nv: &MemOp, max_rc: usize) -> (r: Vec<MemOp>)
    requires
        key_le(key(*lv), key(*nv)),
        op_wf(*lv),
        op_wf(*nv),
        1 <= max_rc <= MAX_ROWS,
    ensures
        r@ == gap_fillers(*lv, *nv, max_rc as int),
        chain_bridged(seq![*lv] + r@ + seq![*nv], max_rc as int),
{
    proof {
        lemma_gap_bridged(*lv, *nv, max_rc as int);
    }
    let ghost m = max_rc as int;
    let mut res: Vec<MemOp> = Vec::new();
    if lv.adr.seg != nv.adr.seg {
        let step = max_rc + 1;
        let gap = nv.adr.virt / step;
        let mut i: usize = 0;
        while i < gap
            invariant
                gap == gap_len(*lv, *nv, m),
                step == m + 1,
                m >= 1,
                seg_diff(*lv, *nv),
                i <= gap,
                res@ == gap_fillers(*lv, *nv, m).subrange(0, i as int),
                forall|k: int| 0 <= k < gap ==> op_wf(#[trigger] gap_filler(*lv, *nv, m, k)),
                gap * step <= nv.adr.virt,
            decreases gap - i,
        {
            assert(op_wf(gap_filler(*lv, *nv, m, i as int)));
            proof {
                vstd::arithmetic::mul::lemma_mul_inequality(i + 1, gap as int, step as int);
                vstd::arithmetic::mul::lemma_mul_is_commutative(i + 1, step as int);
                vstd::arithmetic::mul::lemma_mul_is_commutative(gap as int, step as int);
            }
            proof {
                vstd::arithmetic::mul::lemma_mul_increases(step as int, i + 1);
            }
            let adr = MemAddress::new(nv.adr.seg, step * (i + 1) - 1);
            res.push(MemOp::filler(adr, 0, 0));
            i += 1;
            assert(res@ =~= gap_fillers(*lv, *nv, m).subrange(0, i as int));
        }
    } else if lv.adr.virt != nv.adr.virt {
        let step = max_rc + 1;
        let gap = (nv.adr.virt - lv.adr.virt - 1) / step;
        let mut i: usize = 0;
        while i < gap
            invariant
                gap == gap_len(*lv, *nv, m),
                step == m + 1,
                virt_diff(*lv, *nv),
                lv.adr.virt < nv.adr.virt,
                i <= gap,
                res@ == gap_fillers(*lv, *nv, m).subrange(0, i as int),
                forall|k: int| 0 <= k < gap ==> op_wf(#[trigger] gap_filler(*lv, *nv, m, k)),
                gap * step <= nv.adr.virt - lv.adr.virt - 1,
            decreases gap - i,
        {
            assert(op_wf(gap_filler(*lv, *nv, m, i as int)));
            proof {
                vstd::arithmetic::mul::lemma_mul_inequality(i + 1, gap as int, step as int);
                vstd::arithmetic::mul::lemma_mul_is_commutative(i + 1, step as int);
                vstd::arithmetic::mul::lemma_mul_is_commutative(gap as int, step as int);
            }
            let adr = MemAddress::new(lv.adr.seg, lv.adr.virt + step * (i + 1));
            res.push(MemOp::filler(adr, 0, 0));
            i += 1;
            assert(res@ =~= gap_fillers(*lv, *nv, m).subrange(0, i as int));
        }
    } else if nv.time > lv.time {
        let gap = (nv.time - lv.time - 1) / max_rc;
        let mut i: usize = 0;
        while i < gap
            invariant
                gap == gap_len(*lv, *nv, m),
                m == max_rc,
                !seg_diff(*lv, *nv) && !virt_diff(*lv, *nv),
                lv.time < nv.time,
                i <= gap,
                res@ == gap_fillers(*lv, *nv, m).subrange(0, i as int),
                forall|k: int| 0 <= k < gap ==> op_wf(#[trigger] gap_filler(*lv, *nv, m, k)),
                gap * max_rc <= nv.time - lv.time - 1,
            decreases gap - i,
        {
            assert(op_wf(gap_filler(*lv, *nv, m, i as int)));
            proof {
                vstd::arithmetic::mul::lemma_mul_inequality(i + 1, gap as int, max_rc as int);
                vstd::arithmetic::mul::lemma_mul_is_commutative(i + 1, max_rc as int);
                vstd::arithmetic::mul::lemma_mul_is_commutative(gap as int, max_rc as int);
            }
            res.push(MemOp::filler(lv.adr, lv.time + max_rc * (i + 1), lv.val));
            i += 1;
            assert(res@ =~= gap_fillers(*lv, *nv, m).subrange(0, i as int));
        }
    }
    assert(res@ =~= gap_fillers(*lv, *nv, m));
    res
}

/// Relies on `slice::sort_by_key` from std: the result is a permutation of
/// the input, ordered by [`MemOp::sort_key`].
#[verifier::external_body]
fn sort_by_key(ops: &mut Vec<MemOp>)
    ensures
        final(ops)@.to_multiset() == old(ops)@.to_multiset(),
        sorted(final(ops)@),
{
    ops.sort_by_key(MemOp::sort_key)
}

/// The first `k` accesses of `s`, with the fillers of each gap between
/// neighbours placed between them.
pub open spec fn interleave(s: Seq<MemOp>, max_rc: int, k: int) -> Seq<MemOp>
    decreases k,
{
    if k <= 0 {
        Seq::empty()
    } else if k == 1 {
        seq![s[0]]
    } else {
        interleave(s, max_rc, k - 1) + gap_fillers(s[k - 2], s[k - 1], max_rc) + seq![s[k - 1]]
    }
}

/// Whether `s` is `ops` sorted by segment, address and time, and `max_rc`
/// is one less than the next power of two of the number of accesses.
pub open spec fn sorted_fill(ops: Seq<MemOp>, s: Seq<MemOp>, max_rc: int) -> bool {
    &&& s.to_multiset() == ops.to_multiset()
    &&& sorted(s)
    &&& crate::trace::is_next_pow2(ops.len() as int, max_rc + 1)
}

/// A bridged transition goes forward in the sort order.
proof fn lemma_bridged_key_le(a: MemOp, b: MemOp, m: int)
    requires
        bridged(a, b, m),
    ensures
        key_le(key(a), key(b)),
{
}

/// A chain whose transitions are all bridged is sorted.
pub proof fn lemma_bridged_sorted(c: Seq<MemOp>, m: int)
    requires
        chain_bridged(c, m),
    ensures
        sorted(c),
    decreases c.len(),
{
    if c.len() > 1 {
        let d = c.drop_last();
        assert forall|i: int| 0 <= i < d.len() - 1 implies bridged(#[trigger] d[i], d[i + 1], m) by {
            assert(bridged(c[i], c[i + 1], m));
        }
        lemma_bridged_sorted(d, m);
        let n = c.len() as int;
        assert forall|i: int, j: int| 0 <= i <= j < n implies key_le(key(c[i]), key(c[j])) by {
            if j == n - 1 && i < j {
                assert(bridged(c[n - 2], c[n - 1], m));
                lemma_bridged_key_le(c[n - 2], c[n - 1], m);
                assert(key_le(key(d[i]), key(d[n - 2])));
            } else if i < j {
                assert(key_le(key(d[i]), key(d[j])));
            }
        }
    }
}

/// Joining a bridged chain with a bridged continuation from its last
/// element gives a bridged chain.
proof fn lemma_chain_concat(a: Seq<MemOp>, b: Seq<MemOp>, m: int)
    requires
        a.len() >= 1,
        chain_bridged(a, m),
        chain_bridged(seq![a.last()] + b, m),
    ensures
        chain_bridged(a + b, m),
{
    let c = a + b;
    let t = seq![a.last()] + b;
    assert forall|i: int| 0 <= i < c.len() - 1 implies bridged(#[trigger] c[i], c[i + 1], m) by {
        if i < a.len() - 1 {
            assert(c[i] == a[i] && c[i + 1] == a[i + 1]);
        } else {
            let k = i - a.len() + 1;
            assert(c[i] == t[k] && c[i + 1] == t[k + 1]);
            assert(bridged(t[k], t[k + 1], m));
        }
    }
}

/// The interleaved sequence ends with the last access taken, holds every
/// access taken, and all its transitions are bridged.
proof fn lemma_interleave(s: Seq<MemOp>, m: int, k: int)
    requires
        sorted(s),
        all_wf(s),
        1 <= k <= s.len(),
        1 <= m <= MAX_ROWS || s.len() == 1,
    ensures
        interleave(s, m, k).len() >= k,
        interleave(s, m, k).last() == s[k - 1],
        chain_bridged(interleave(s, m, k), m),
        all_wf(interleave(s, m, k)),
        forall|j: int| 0 <= j < k ==> interleave(s, m, k).contains(#[trigger] s[j]),
    decreases k,
{
    let c = interleave(s, m, k);
    if k == 1 {
        assert(c =~= seq![s[0]]);
        assert(c[0] == s[0]);
    } else {
        lemma_interleave(s, m, k - 1);
        let prev = interleave(s, m, k - 1);
        let (lv, nv) = (s[k - 2], s[k - 1]);
        assert(op_wf(lv) && op_wf(nv) && key_le(key(lv), key(nv)));
        lemma_gap_bridged(lv, nv, m);
        let tail = gap_fillers(lv, nv, m) + seq![nv];
        assert(seq![prev.last()] + tail =~= seq![lv] + gap_fillers(lv, nv, m) + seq![nv]);
        lemma_chain_concat(prev, tail, m);
        assert(c =~= prev + tail);
        assert(c.last() == nv);
        assert forall|i: int| 0 <= i < c.len() implies op_wf(#[trigger] c[i]) by {
            if i < prev.len() {
                assert(c[i] == prev[i]);
            } else if i < c.len() - 1 {
                assert(c[i] == gap_filler(lv, nv, m, i - prev.len()));
            }
        }
        assert forall|j: int| 0 <= j < k implies c.contains(#[trigger] s[j]) by {
            if j == k - 1 {
                assert(c[c.len() - 1] == s[j]);
            } else {
                let t = choose|t: int| 0 <= t < prev.len() && prev[t] == s[j];
                assert(c[t] == s[j]);
            }
        }
    }
}

/// Whether every access in `s` has a word-sized address and time.
pub open spec fn all_wf(s: Seq<MemOp>) -> bool {
    forall|i: int| 0 <= i < s.len() ==> op_wf(#[trigger] s[i])
}

/// A permutation keeps every element of a sequence.
proof fn lemma_perm_keeps_wf(a: Seq<MemOp>, b: Seq<MemOp>)
    requires
        a.to_multiset() == b.to_multiset(),
        all_wf(a),
    ensures
        all_wf(b),
{
    assert forall|i: int| 0 <= i < b.len() implies op_wf(#[trigger] b[i]) by {
        b.to_multiset_ensures();
        a.to_multiset_ensures();
        assert(b.to_multiset().count(b[i]) > 0);
        assert(a.contains(b[i]));
    }
}

/// One more step of [`interleave`].
proof fn lemma_interleave_step(s: Seq<MemOp>, m: int, k: int)
    requires
        2 <= k,
    ensures
        interleave(s, m, k) == interleave(s, m, k - 1) + gap_fillers(s[k - 2], s[k - 1], m) + seq![s[k - 1]],
{
}

/// The facts that [`fill_rc_gaps`] promises of its result.
proof fn lemma_fill_done(orig: Seq<MemOp>, s: Seq<MemOp>, m: int, out: Seq<MemOp>)
    requires
        s.to_multiset() == orig.to_multiset(),
        sorted(s),
        all_wf(s),
        1 <= s.len() <= MAX_ROWS,
        1 <= m <= MAX_ROWS || s.len() == 1,
        out == interleave(s, m, s.len() as int),
    ensures
        chain_bridged(out, m),
        all_wf(out),
        sorted(out),
        forall|op: MemOp| orig.contains(op) ==> out.contains(op),
        out.len() >= orig.len(),
{
    lemma_interleave(s, m, s.len() as int);
    lemma_bridged_sorted(out, m);
    orig.to_multiset_ensures();
    s.to_multiset_ensures();
    assert forall|op: MemOp| orig.contains(op) implies out.contains(op) by {
        assert(orig.to_multiset().count(op) > 0);
        assert(s.to_multiset().count(op) > 0);
        let j = choose|j: int| 0 <= j < s.len() && s[j] == op;
        assert(out.contains(s[j]));
    }
}

/// Sorts the accesses and puts between each pair of neighbours the filler
/// reads that bridge a gap larger than the range check can cover, where
/// `max_rc` is one less than the next power of two of the number of
/// accesses. The result is in order already.
pub fn fill_rc_gaps(ops: &mut Vec<MemOp>)
    requires
        all_wf(old(ops)@),
        1 <= old(ops)@.len() <= MAX_ROWS,
    ensures
        exists|s: Seq<MemOp>, max_rc: int|
            {
                &&& #[trigger] sorted_fill(old(ops)@, s, max_rc)
                &&& final(ops)@ == interleave(s, max_rc, s.len() as int)
                &&& chain_bridged(final(ops)@, max_rc)
            },
        all_wf(final(ops)@),
        sorted(final(ops)@),
        forall|op: MemOp| old(ops)@.contains(op) ==> final(ops)@.contains(op),
        final(ops)@.len() >= old(ops)@.len(),
{
    let ghost orig = ops@;
    sort_by_key(ops);
    proof {
        lemma_perm_keeps_wf(orig, ops@);
        orig.to_multiset_ensures();
        ops@.to_multiset_ensures();
    }
    let ghost s = ops@;
    let max_rc = next_power_of_two(ops.len()) - 1;
    let ghost m = max_rc as int;
    let mut out: Vec<MemOp> = vec![ops[0]];
    assert(out@ =~= interleave(s, m, 1));
    let mut i: usize = 0;
    while i + 1 < ops.len()
        invariant
            ops@ == s,
            sorted(s),
            all_wf(s),
            1 <= s.len() <= MAX_ROWS,
            i < s.len(),
            max_rc <= MAX_ROWS,
            max_rc >= 1 || s.len() == 1,
            m == max_rc,
            out@ == interleave(s, m, i + 1),
        decreases s.len() - i,
    {
        assert(key_le(key(s[i as int]), key(s[i + 1])));
        let mut gap = fill_gap(&ops[i], &ops[i + 1], max_rc);
        let ghost prev = out@;
        out.append(&mut gap);
        out.push(ops[i + 1]);
        proof {
            lemma_interleave_step(s, m, i + 2);
            assert(out@ =~= prev + gap_fillers(s[i as int], s[i + 1], m) + seq![s[i + 1]]);
        }
        i += 1;
    }
    proof {
        lemma_fill_done(orig, s, m, out@);
        assert(sorted_fill(orig, s, m));
    }
    *ops = out;
}

/// Appends copies of the last access, as reads that are not real accesses,
/// up to the next power of two.
pub fn pad(ops: &mut Vec<MemOp>)
    requires
        1 <= old(ops)@.len() <= MAX_ROWS,
    ensures
        is_pow2(final(ops)@.len() as int),
        old(ops)@.len() <= final(ops)@.len() <= MAX_ROWS,
        final(ops)@.len() == 1 || final(ops)@.len() < 2 * old(ops)@.len(),
        final(ops)@.subrange(0, old(ops)@.len() as int) == old(ops)@,
        forall|i: int|
            old(ops)@.len() <= i < final(ops)@.len() ==> #[trigger] final(ops)@[i] == (MemOp {
                on: false,
                kind: MemKind::Read,
                ..old(ops)@.last()
            }),
{
    let last_op = ops[ops.len() - 1];
    let pad_op = MemOp { on: false, kind: MemKind::Read, ..last_op };
    let len = ops.len();
    let padded_len = next_power_of_two(len);
    let mut i: usize = len;
    while i < padded_len
        invariant
            len <= i <= padded_len,
            ops@.len() == i,
            ops@.subrange(0, len as int) == old(ops)@,
            forall|k: int| len <= k < i ==> #[trigger] ops@[k] == pad_op,
        decreases padded_len - i,
    {
        ops.push(pad_op);
        i += 1;
        assert(ops@.subrange(0, len as int) =~= old(ops)@);
    }
}

/// A failure to build the memory trace.
#[derive(Clone, Copy, Debug, PartialEq, Eq, Structural)]
pub enum MemError {
    /// More rows than a trace can hold.
    TooManyRows,
}

/// Row `i` of the trace of the sorted, padded accesses `s`, before the
/// frequency column is filled in.
pub open spec fn traced_row(s: Seq<MemOp>, i: int) -> MemCols<u64> {
    let base = mem_row(s[i]);
    if i + 1 < s.len() {
        let (a, b) = (s[i], s[i + 1]);
        let (sd, vd) = (seg_diff(a, b), virt_diff(a, b));
        MemCols {
            aux: bit(!(sd || vd || is_reg0(a.adr))),
            f_seg_diff: bit(sd),
            f_virt_diff: bit(vd),
            range_check: RangeCheck { val: rc_value(a, b) as u64, count: i as u64, freq: 0 },
            ..base
        }
    } else {
        MemCols { range_check: RangeCheck { val: 0, count: i as u64, freq: 0 }, ..base }
    }
}

/// The values that the first `k` rows range check, in order: the new
/// address where the segment changes, then the row's range-check value.
pub open spec fn checked_upto(s: Seq<MemOp>, k: int) -> Seq<u64>
    decreases k,
{
    if k <= 0 {
        Seq::empty()
    } else {
        let i = k - 1;
        let prev = checked_upto(s, i);
        let with_adr = if i + 1 < s.len() && seg_diff(s[i], s[i + 1]) {
            prev.push(s[i + 1].adr.virt as u64)
        } else {
            prev
        };
        with_adr.push(traced_row(s, i).range_check.val)
    }
}

/// Every range-checked value of the trace of `s`.
pub open spec fn checked_values(s: Seq<MemOp>) -> Seq<u64> {
    checked_upto(s, s.len() as int)
}

/// The complete row `i`: [`traced_row`] with the number of times the value
/// `i` is range checked.
pub open spec fn final_row(s: Seq<MemOp>, i: int) -> MemCols<u64> {
    let r = traced_row(s, i);
    MemCols {
        range_check: RangeCheck { freq: count_in(checked_values(s), i as u64) as u64, ..r.range_check },
        ..r
    }
}

/// The sum of the frequency column over the first `k` rows.
pub open spec fn freq_sum(rows: Seq<MemCols<u64>>, k: int) -> int
    decreases k,
{
    if k <= 0 {
        0
    } else {
        freq_sum(rows, k - 1) + rows[k - 1].range_check.freq
    }
}

/// Fills in the columns that depend on the next row, the range check
/// counter and the frequency column.
fn trace_rows(ops: &Vec<MemOp>) -> (rows: Vec<MemCols<u64>>)
    requires
        sorted(ops@),
        all_wf(ops@),
        1 <= ops@.len() <= MAX_ROWS,
    ensures
        rows@.len() == ops@.len(),
        forall|i: int| 0 <= i < ops@.len() ==> #[trigger] rows@[i] == final_row(ops@, i),
{
    let n = ops.len();
    let mut rows: Vec<MemCols<u64>> = Vec::new();
    let mut freq = FreqMap::new();
    let mut i: usize = 0;
    while i < n
        invariant
            n == ops@.len(),
            1 <= n <= MAX_ROWS,
            sorted(ops@),
            all_wf(ops@),
            i <= n,
            rows@.len() == i,
            forall|k: int| 0 <= k < i ==> #[trigger] rows@[k] == traced_row(ops@, k),
            checked_upto(ops@, i as int).len() <= 2 * i,
            forall|v: u64| #[trigger] freq_count(freq, v) == count_in(checked_upto(ops@, i as int), v),
        decreases n - i,
    {
        let ghost prev = checked_upto(ops@, i as int);
        let op = ops[i];
        proof {
            assert(op_wf(ops@[i as int]));
        }
        let mut row = op.into_row();
        row.range_check.count = i as u64;
        let ghost mut with_adr = prev;
        if i + 1 < n {
            let nx = ops[i + 1];
            proof {
                assert(op_wf(ops@[i + 1]));
                assert(key_le(key(op), key(nx)));
            }
            let sd = op.adr.seg != nx.adr.seg;
            let vd = !sd && op.adr.virt != nx.adr.virt;
            row.f_seg_diff = from_bool(sd);
            row.f_virt_diff = from_bool(vd);
            row.aux = from_bool(!(sd || vd || op.adr.is_reg0()));
            row.range_check.val = if sd {
                (nx.adr.seg.index() - op.adr.seg.index() - 1) as u64
            } else if vd {
                (nx.adr.virt - op.adr.virt - 1) as u64
            } else {
                (nx.time - op.time) as u64
            };
            if sd {
                let v = nx.adr.virt as u64;
                proof {
                    lemma_count_le_len(prev, v);
                }
                freq.increment(v);
                proof {
                    with_adr = prev.push(v);
                    assert forall|w: u64| #[trigger] freq_count(freq, w) == count_in(with_adr, w) by {
                        assert(with_adr.drop_last() =~= prev);
                    }
                }
            }
        }
        assert(row == traced_row(ops@, i as int));
        let val = row.range_check.val;
        proof {
            lemma_count_le_len(with_adr, val);
        }
        freq.increment(val);
        proof {
            let next = with_adr.push(val);
            assert(next == checked_upto(ops@, i + 1));
            assert forall|w: u64| #[trigger] freq_count(freq, w) == count_in(next, w) by {
                assert(next.drop_last() =~= with_adr);
            }
        }
        rows.push(row);
        i += 1;
    }
    let ghost checked = checked_upto(ops@, n as int);
    let mut v: usize = 0;
    while v < n
        invariant
            n == ops@.len(),
            v <= n,
            rows@.len() == n,
            checked == checked_values(ops@),
            forall|w: u64| #[trigger] freq_count(freq, w) == count_in(checked, w),
            checked.len() <= 2 * n,
            n <= MAX_ROWS,
            forall|k: int| 0 <= k < v ==> #[trigger] rows@[k] == final_row(ops@, k),
            forall|k: int| v <= k < n ==> #[trigger] rows@[k] == traced_row(ops@, k),
        decreases n - v,
    {
        let c = freq.count(v as u64);
        proof {
            lemma_count_le_len(checked, v as u64);
        }
        let mut row = rows[v];
        row.range_check.freq = c as u64;
        rows.set(v, row);
        v += 1;
    }
    rows
}

/// Padding keeps the accesses sorted.
proof fn lemma_pad_sorted(old_ops: Seq<MemOp>, ops: Seq<MemOp>)
    requires
        sorted(old_ops),
        all_wf(old_ops),
        1 <= old_ops.len() <= ops.len(),
        ops.subrange(0, old_ops.len() as int) == old_ops,
        forall|i: int|
            old_ops.len() <= i < ops.len() ==> #[trigger] ops[i] == (MemOp {
                on: false,
                kind: MemKind::Read,
                ..old_ops.last()
            }),
    ensures
        sorted(ops),
        all_wf(ops),
        forall|i: int| 0 <= i < old_ops.len() ==> ops[i] == #[trigger] old_ops[i],
{
    let m = old_ops.len() as int;
    assert forall|i: int| 0 <= i < m implies ops[i] == #[trigger] old_ops[i] by {
        assert(ops.subrange(0, m)[i] == ops[i]);
    }
    assert forall|i: int, j: int| 0 <= i <= j < ops.len() implies key_le(key(ops[i]), key(ops[j])) by {
        if j >= m {
            assert(key(ops[j]) == key(old_ops[m - 1]));
            if i < m {
                assert(key_le(key(old_ops[i]), key(old_ops[m - 1])));
            }
        } else {
            assert(key_le(key(old_ops[i]), key(old_ops[j])));
        }
    }
    assert forall|i: int| 0 <= i < ops.len() implies op_wf(#[trigger] ops[i]) by {
        if i < m {
            assert(op_wf(old_ops[i]));
        } else {
            assert(op_wf(old_ops[m - 1]));
        }
    }
}

/// Padding keeps every transition bridged: a padding row repeats the
/// address and time of the row before it.
proof fn lemma_pad_bridged(old_ops: Seq<MemOp>, ops: Seq<MemOp>, m: int)
    requires
        chain_bridged(old_ops, m),
        1 <= old_ops.len() <= ops.len(),
        0 <= m,
        ops.subrange(0, old_ops.len() as int) == old_ops,
        forall|i: int|
            old_ops.len() <= i < ops.len() ==> #[trigger] ops[i] == (MemOp {
                on: false,
                kind: MemKind::Read,
                ..old_ops.last()
            }),
    ensures
        chain_bridged(ops, m),
{
    let k = old_ops.len() as int;
    assert forall|i: int| 0 <= i < ops.len() - 1 implies bridged(#[trigger] ops[i], ops[i + 1], m) by {
        if i + 1 < k {
            assert(ops.subrange(0, k)[i] == ops[i]);
            assert(ops.subrange(0, k)[i + 1] == ops[i + 1]);
            assert(bridged(old_ops[i], old_ops[i + 1], m));
        } else if i + 1 == k {
            assert(ops.subrange(0, k)[i] == ops[i]);
        }
    }
}

/// In a bridged chain every range-checked value is at most `m`.
proof fn lemma_checked_bounded(s: Seq<MemOp>, m: int, k: int)
    requires
        chain_bridged(s, m),
        all_wf(s),
        0 <= m,
        0 <= k <= s.len(),
    ensures
        forall|j: int| 0 <= j < checked_upto(s, k).len() ==> #[trigger] checked_upto(s, k)[j] <= m,
    decreases k,
{
    if k > 0 {
        lemma_checked_bounded(s, m, k - 1);
        let i = k - 1;
        let prev = checked_upto(s, i);
        if i + 1 < s.len() {
            assert(bridged(s[i], s[i + 1], m));
            assert(op_wf(s[i]) && op_wf(s[i + 1]));
        }
        let c = checked_upto(s, k);
        assert forall|j: int| 0 <= j < c.len() implies #[trigger] c[j] <= m by {
            if j < prev.len() {
                assert(c[j] == prev[j]);
            }
        }
    }
}

/// Whether the entries of `s` from `m` on are padding: copies of entry
/// `m - 1` as reads that are not real accesses.
pub open spec fn padded_from(s: Seq<MemOp>, m: int) -> bool {
    &&& 1 <= m <= s.len()
    &&& forall|i: int|
        m <= i < s.len() ==> #[trigger] s[i] == (MemOp { on: false, kind: MemKind::Read, ..s[m - 1] })
}

/// Whether `s` is the sorted, padded list of accesses behind a memory trace
/// of `ops`: it holds every access of `ops`, sorted, with a power of two
/// entries, and every range-checked value is a row index.
pub open spec fn is_mem_accesses(ops: Seq<MemOp>, s: Seq<MemOp>) -> bool {
    &&& sorted(s)
    &&& all_wf(s)
    &&& is_pow2(s.len() as int)
    &&& 1 <= s.len() <= MAX_ROWS
    &&& forall|op: MemOp| ops.contains(op) ==> s.contains(op)
    &&& exists|m: int| #[trigger] padded_from(s, m)
    &&& forall|k: int| 0 <= k < checked_values(s).len() ==> #[trigger] checked_values(s)[k] < s.len()
}

/// Returns the memory trace of `ops`: the accesses sorted by segment,
/// address and time, with filler reads that keep every range-checked delta
/// small, padded to a power of two, and with the range-check columns. It
/// fails only where the accesses and fillers are more than a trace holds.
pub fn gen_trace_rows(ops: Vec<MemOp>) -> (r: Result<Vec<MemCols<u64>>, MemError>)
    requires
        1 <= ops@.len() <= MAX_ROWS,
        all_wf(ops@),
    ensures
        r matches Ok(rows) ==> exists|s: Seq<MemOp>|
            {
                &&& #[trigger] is_mem_accesses(ops@, s)
                &&& rows@.len() == s.len()
                &&& forall|i: int| 0 <= i < s.len() ==> #[trigger] rows@[i] == final_row(s, i)
            },
        r matches Err(e) ==> e == MemError::TooManyRows && exists|s: Seq<MemOp>, max_rc: int|
            {
                &&& #[trigger] sorted_fill(ops@, s, max_rc)
                &&& interleave(s, max_rc, s.len() as int).len() > MAX_ROWS
            },
{
    let ghost orig = ops@;
    let mut ops = ops;
    fill_rc_gaps(&mut ops);
    let ghost filled = ops@;
    let ghost (s0, m) = choose|s: Seq<MemOp>, max_rc: int| {
        &&& #[trigger] sorted_fill(orig, s, max_rc)
        &&& filled == interleave(s, max_rc, s.len() as int)
        &&& chain_bridged(filled, max_rc)
    };
    if ops.len() > MAX_ROWS {
        return Err(MemError::TooManyRows);
    }
    pad(&mut ops);
    proof {
        lemma_pad_sorted(filled, ops@);
        lemma_pad_bridged(filled, ops@, m);
        orig.to_multiset_ensures();
        s0.to_multiset_ensures();
        assert(orig.len() >= 1);
        assert(m >= 0);
        // the range check covers `0..=m`, and `m + 1` is at most the row count
        crate::trace::lemma_next_pow2_least(orig.len() as int, m + 1, ops@.len() as int);
        lemma_checked_bounded(ops@, m, ops@.len() as int);
        assert(padded_from(ops@, filled.len() as int));
        assert forall|op: MemOp| orig.contains(op) implies ops@.contains(op) by {
            assert(filled.contains(op));
            let k = choose|k: int| 0 <= k < filled.len() && filled[k] == op;
            assert(ops@.subrange(0, filled.len() as int)[k] == op);
        }
        assert(is_mem_accesses(orig, ops@));
    }
    let rows = trace_rows(&ops);
    Ok(rows)
}

/// The frequency column of the first `k` rows sums the occurrences of the
/// values `0..k`.
proof fn lemma_freq_sum(s: Seq<MemOp>, rows: Seq<MemCols<u64>>, k: int)
    requires
        0 <= k <= rows.len() == s.len(),
        s.len() <= 2 * MAX_ROWS,
        forall|i: int| 0 <= i < s.len() ==> #[trigger] rows[i] == final_row(s, i),
        checked_values(s).len() <= u64::MAX,
    ensures
        freq_sum(rows, k) == sum_counts(checked_values(s), k as nat),
    decreases k,
{
    if k > 0 {
        lemma_freq_sum(s, rows, k - 1);
        lemma_count_le_len(checked_values(s), (k - 1) as u64);
        assert(rows[k - 1] == final_row(s, k - 1));
    }
}

/// Every row checks one value, and each change of segment one more.
proof fn lemma_checked_len(s: Seq<MemOp>, k: int)
    requires
        0 <= k <= s.len(),
    ensures
        checked_upto(s, k).len() <= 2 * k,
    decreases k,
{
    if k > 0 {
        lemma_checked_len(s, k - 1);
    }
}

/// Range-check soundness of a generated memory trace: the frequency column
/// sums to the number of range-checked values, and each checked value is a
/// row index, so the counter column holds it.
pub proof fn lemma_mem_range_check(s: Seq<MemOp>, rows: Seq<MemCols<u64>>)
    requires
        rows.len() == s.len(),
        1 <= s.len() <= 2 * MAX_ROWS,
        forall|k: int| 0 <= k < checked_values(s).len() ==> #[trigger] checked_values(s)[k] < s.len(),
        forall|i: int| 0 <= i < s.len() ==> #[trigger] rows[i] == final_row(s, i),
    ensures
        freq_sum(rows, rows.len() as int) == checked_values(s).len(),
        forall|k: int|
            0 <= k < checked_values(s).len() ==> rows[#[trigger] checked_values(s)[k] as int].range_check.count
                == checked_values(s)[k],
{
    lemma_checked_len(s, s.len() as int);
    lemma_freq_sum(s, rows, rows.len() as int);
    lemma_sum_counts_all(checked_values(s), s.len() as nat);
    assert forall|k: int| 0 <= k < checked_values(s).len() implies rows[#[trigger] checked_values(
        s,
    )[k] as int].range_check.count == checked_values(s)[k] by {
        let v = checked_values(s)[k] as int;
        assert(rows[v] == final_row(s, v));
    }
}

/// Whether every value of a row is a canonical field element.
pub open spec fn row_is_felt(lv: MemCols<u64>) -> bool {
    forall|i: int| 0 <= i < N_MEM_COLS ==> (#[trigger] lv.as_seq()[i]) < ORDER
}

/// The constraints of the memory table on a row `lv` and its successor `nv`.
pub open spec fn mem_constraints(lv: MemCols<u64>, nv: MemCols<u64>) -> Seq<(ConstraintKind, int)> {
    let every = ConstraintKind::EveryRow;
    let trans = ConstraintKind::Transition;
    let f_on = lv.f_on as int;
    let f_off = fsub(1, f_on);
    let f_read = fsub(1, lv.f_rw as int);
    let f_read_next = fsub(1, nv.f_rw as int);
    let f_reg0 = lv.f_reg0 as int;
    let f_not_reg0 = fsub(1, f_reg0);
    let f_seg_diff = lv.f_seg_diff as int;
    let f_virt_diff = lv.f_virt_diff as int;
    let f_adr_diff = fadd(f_seg_diff, f_virt_diff);
    let f_adr_same = fsub(1, f_adr_diff);
    let d_seg = fsub(nv.adr_seg as int, lv.adr_seg as int);
    let d_virt = fsub(nv.adr_virt as int, lv.adr_virt as int);
    let d_time = fsub(nv.time as int, lv.time as int);
    let d_val = fsub(nv.val as int, lv.val as int);
    let range_check = fadd(
        fadd(fmul(f_seg_diff, fsub(d_seg, 1)), fmul(f_virt_diff, fsub(d_virt, 1))),
        fmul(f_adr_same, d_time),
    );
    let aux = lv.aux as int;
    seq![
        cons(every, fmul(f_on, f_off)),
        cons(every, fmul(f_off, lv.f_rw as int)),
        cons(every, fmul(f_reg0, f_not_reg0)),
        cons(every, fmul(f_seg_diff, fsub(1, f_seg_diff))),
        cons(every, fmul(f_virt_diff, fsub(1, f_virt_diff))),
        cons(every, fmul(f_adr_diff, f_adr_same)),
        cons(every, fmul(f_reg0, lv.adr_seg as int)),
        cons(every, fmul(f_reg0, lv.adr_virt as int)),
        cons(every, fmul(fmul(f_read, f_reg0), lv.val as int)),
        cons(trans, fmul(f_virt_diff, d_seg)),
        cons(trans, fmul(f_adr_same, d_seg)),
        cons(trans, fmul(f_adr_same, d_virt)),
        cons(trans, fsub(lv.range_check.val as int, range_check)),
        cons(trans, fsub(aux, fmul(f_adr_same, f_not_reg0))),
        cons(trans, fmul(fmul(f_read_next, aux), d_val)),
        cons(trans, fmul(fmul(f_read_next, f_adr_diff), nv.val as int)),
        cons(ConstraintKind::FirstRow, lv.range_check.count as int),
        cons(trans, fsub(fsub(nv.range_check.count as int, lv.range_check.count as int), 1)),
    ]
}

/// Emits the constraints of the memory table on `lv` and its successor `nv`.
#[verifier::rlimit(40)]
pub fn eval(lv: &MemCols<u64>, nv: &MemCols<u64>, cc: &mut ConstraintSet)
    requires
        row_is_felt(*lv),
        row_is_felt(*nv),
    ensures
        final(cc)@ == old(cc)@ + mem_constraints(*lv, *nv),
{
    assert(lv.as_seq()[0] < ORDER && lv.as_seq()[1] < ORDER && lv.as_seq()[2] < ORDER);
    assert(lv.as_seq()[3] < ORDER && lv.as_seq()[4] < ORDER && lv.as_seq()[5] < ORDER);
    assert(lv.as_seq()[6] < ORDER && lv.as_seq()[7] < ORDER && lv.as_seq()[8] < ORDER);
    assert(lv.as_seq()[9] < ORDER && lv.as_seq()[10] < ORDER && lv.as_seq()[11] < ORDER);
    assert(nv.as_seq()[1] < ORDER && nv.as_seq()[2] < ORDER && nv.as_seq()[3] < ORDER);
    assert(nv.as_seq()[4] < ORDER && nv.as_seq()[5] < ORDER && nv.as_seq()[11] < ORDER);
    let f_on = lv.f_on;
    let f_off = felt_sub(1, f_on);
    let f_read = felt_sub(1, lv.f_rw);
    let f_read_next = felt_sub(1, nv.f_rw);
    let f_reg0 = lv.f_reg0;
    let f_not_reg0 = felt_sub(1, f_reg0);
    let f_seg_diff = lv.f_seg_diff;
    let f_virt_diff = lv.f_virt_diff;
    let f_adr_diff = felt_add(f_seg_diff, f_virt_diff);
    let f_adr_same = felt_sub(1, f_adr_diff);
    let d_seg = felt_sub(nv.adr_seg, lv.adr_seg);
    let d_virt = felt_sub(nv.adr_virt, lv.adr_virt);
    let d_time = felt_sub(nv.time, lv.time);
    let d_val = felt_sub(nv.val, lv.val);

    // flags are bits, and padding rows are reads
    cc.constraint(felt_mul(f_on, f_off));
    cc.constraint(felt_mul(f_off, lv.f_rw));
    cc.constraint(felt_mul(f_reg0, f_not_reg0));
    cc.constraint(felt_mul(f_seg_diff, felt_sub(1, f_seg_diff)));
    cc.constraint(felt_mul(f_virt_diff, felt_sub(1, f_virt_diff)));
    // at most one change flag is set
    cc.constraint(felt_mul(f_adr_diff, f_adr_same));
    // register x0 is always zero
    cc.constraint(felt_mul(f_reg0, lv.adr_seg));
    cc.constraint(felt_mul(f_reg0, lv.adr_virt));
    cc.constraint(felt_mul(felt_mul(f_read, f_reg0), lv.val));
    // nothing changes but what the change flags say
    cc.constraint_transition(felt_mul(f_virt_diff, d_seg));
    cc.constraint_transition(felt_mul(f_adr_same, d_seg));
    cc.constraint_transition(felt_mul(f_adr_same, d_virt));
    // the range-checked value is the delta that the flags select
    let range_check = felt_add(
        felt_add(felt_mul(f_seg_diff, felt_sub(d_seg, 1)), felt_mul(f_virt_diff, felt_sub(d_virt, 1))),
        felt_mul(f_adr_same, d_time),
    );
    cc.constraint_transition(felt_sub(lv.range_check.val, range_check));
    // reads of the same address see the previous value, except at x0
    let aux = lv.aux;
    cc.constraint_transition(felt_sub(aux, felt_mul(f_adr_same, f_not_reg0)));
    cc.constraint_transition(felt_mul(felt_mul(f_read_next, aux), d_val));
    // memory is initialised to zero
    cc.constraint_transition(felt_mul(felt_mul(f_read_next, f_adr_diff), nv.val));
    // the range-check counter starts at zero and counts up by one
    cc.constraint_first_row(lv.range_check.count);
    cc.constraint_transition(felt_sub(felt_sub(nv.range_check.count, lv.range_check.count), 1));
    assert(cc@ =~= old(cc)@ + mem_constraints(*lv, *nv));
}

/// What the memory constraints enforce between neighbouring rows whose
/// flags are bits: at most one change flag is set; with neither set, the
/// address is unchanged and a read sees the previous value unless the
/// address is `x0`; and a read of `x0` is zero.
pub proof fn lemma_mem_constraints_enforce(lv: MemCols<u64>, nv: MemCols<u64>)
    requires
        row_is_felt(lv),
        row_is_felt(nv),
        lv.f_seg_diff <= 1,
        lv.f_virt_diff <= 1,
        lv.f_reg0 <= 1,
        lv.f_rw <= 1,
        nv.f_rw <= 1,
        crate::constraint::all_zero(mem_constraints(lv, nv)),
    ensures
        !(lv.f_seg_diff == 1 && lv.f_virt_diff == 1),
        lv.f_seg_diff == 0 && lv.f_virt_diff == 0 ==> nv.adr_seg == lv.adr_seg && nv.adr_virt
            == lv.adr_virt,
        lv.f_seg_diff == 0 && lv.f_virt_diff == 0 && nv.f_rw == 0 && lv.f_reg0 == 0 ==> nv.val
            == lv.val,
        lv.f_reg0 == 1 && lv.f_rw == 0 ==> lv.val == 0,
{
    let cs = mem_constraints(lv, nv);
    assert(lv.as_seq()[2] < ORDER && lv.as_seq()[3] < ORDER && lv.as_seq()[4] < ORDER);
    assert(lv.as_seq()[5] < ORDER && lv.as_seq()[6] < ORDER);
    assert(nv.as_seq()[3] < ORDER && nv.as_seq()[4] < ORDER && nv.as_seq()[5] < ORDER);
    lemma_felt_small(0);
    lemma_felt_small(1);
    lemma_felt_small(2);
    if lv.f_seg_diff == 1 && lv.f_virt_diff == 1 {
        assert(cs[5].1 == fmul(2, fsub(1, 2)));
        lemma_felt_neg(-1);
        assert(fmul(2, p() - 1) != 0) by {
            assert(2 * (p() - 1) == p() + (p() - 2));
            vstd::arithmetic::div_mod::lemma_mod_multiples_vanish(1, p() - 2, p());
            lemma_felt_small(p() - 2);
        }
    }
    if lv.f_seg_diff == 0 && lv.f_virt_diff == 0 {
        lemma_fsub_zero_right(0);
        assert(cs[10].1 == fmul(1, fsub(nv.adr_seg as int, lv.adr_seg as int)));
        lemma_fmul_one_zero(fsub(nv.adr_seg as int, lv.adr_seg as int));
        lemma_fsub_zero(nv.adr_seg as int, lv.adr_seg as int);
        assert(cs[11].1 == fmul(1, fsub(nv.adr_virt as int, lv.adr_virt as int)));
        lemma_fmul_one_zero(fsub(nv.adr_virt as int, lv.adr_virt as int));
        lemma_fsub_zero(nv.adr_virt as int, lv.adr_virt as int);
        if nv.f_rw == 0 && lv.f_reg0 == 0 {
            assert(cs[13].1 == fsub(lv.aux as int, fmul(1, 1)));
            lemma_fmul_one(1);
            lemma_fsub_zero(lv.aux as int, 1);
            assert(cs[14].1 == fmul(fmul(1, 1), fsub(nv.val as int, lv.val as int)));
            lemma_fmul_one_zero(fsub(nv.val as int, lv.val as int));
            lemma_fsub_zero(nv.val as int, lv.val as int);
        }
    }
    if lv.f_reg0 == 1 && lv.f_rw == 0 {
        assert(cs[8].1 == fmul(fmul(1, 1), lv.val as int));
        lemma_fmul_one(1);
        lemma_fmul_one_zero(lv.val as int);
    }
}

/// In a generated trace, neighbouring rows are in order and the change
/// flags say exactly which of segment, address or neither changes.
pub proof fn lemma_mem_trace_ordering(s: Seq<MemOp>, i: int)
    requires
        sorted(s),
        all_wf(s),
        0 <= i < s.len() - 1,
    ensures
        ({
            let (lv, nv) = (final_row(s, i), final_row(s, i + 1));
            &&& (lv.f_seg_diff == 1) == (lv.adr_seg != nv.adr_seg)
            &&& (lv.f_virt_diff == 1) == (lv.adr_seg == nv.adr_seg && lv.adr_virt != nv.adr_virt)
            &&& lv.f_seg_diff + lv.f_virt_diff <= 1
            &&& key_le(
                (lv.adr_seg as int, lv.adr_virt as int, lv.time as int),
                (nv.adr_seg as int, nv.adr_virt as int, nv.time as int),
            )
        }),
{
    assert(key_le(key(s[i]), key(s[i + 1])));
    assert(op_wf(s[i]) && op_wf(s[i + 1]));
}

/// Returns whether every constraint of the table holds on every row of
/// `rows`, each row taken with its successor (the first row for the last).
pub fn trace_holds(rows: &Vec<MemCols<u64>>) -> (r: bool)
    requires
        forall|i: int| 0 <= i < rows@.len() ==> row_is_felt(#[trigger] rows@[i]),
    ensures
        r == forall|i: int|
            0 <= i < rows@.len() ==> all_hold_at(
                #[trigger] mem_constraints(rows@[i], rows@[(i + 1) % (rows@.len() as int)]),
                i,
                rows@.len() as int,
            ),
{
    let n = rows.len();
    let mut i: usize = 0;
    while i < n
        invariant
            n == rows@.len(),
            i <= n,
            forall|i: int| 0 <= i < rows@.len() ==> row_is_felt(#[trigger] rows@[i]),
            forall|k: int|
                0 <= k < i ==> all_hold_at(
                    #[trigger] mem_constraints(rows@[k], rows@[(k + 1) % (n as int)]),
                    k,
                    n as int,
                ),
        decreases n - i,
    {
        let j = if i + 1 < n {
            i + 1
        } else {
            0
        };
        assert(j == (i + 1) % (n as int)) by {
            if i + 1 == n {
                vstd::arithmetic::div_mod::lemma_mod_self_0(n as int);
            } else {
                vstd::arithmetic::div_mod::lemma_small_mod((i + 1) as nat, n as nat);
            }
        }
        let mut cc = ConstraintSet::new();
        eval(&rows[i], &rows[j], &mut cc);
        assert(cc@ =~= mem_constraints(rows@[i as int], rows@[j as int]));
        if !cc.holds_at(i, n) {
            return false;
        }
        i += 1;
    }
    true
}

/// The columns and filter of [`ctl_looked`].
pub open spec fn looked_mem(r: crate::ctl::TableWithColumns) -> bool {
    &&& r.table == crate::stark::table_index(crate::stark::Table::Mem)
    &&& r.columns@.len() == 5
    &&& r.columns@[0].lin@ == seq![(1usize, 1u64)]
    &&& r.columns@[1].lin@ == seq![(3usize, 1u64)]
    &&& r.columns@[2].lin@ == seq![(4usize, 1u64)]
    &&& r.columns@[3].lin@ == seq![(5usize, 1u64)]
    &&& r.columns@[4].lin@ == seq![(2usize, 1u64)]
    &&& forall|k: int| 0 <= k < 5 ==> (#[trigger] r.columns@[k]).constant == 0
    &&& r.filter.products@.len() == 0 && r.filter.constants@.len() == 1
    &&& r.filter.constants@[0].lin@ == seq![(0usize, 1u64)] && r.filter.constants@[0].constant == 0
}

/// The lookup that the memory table offers: `(f_rw, adr_seg, adr_virt,
/// val, time)` on the rows of real accesses.
pub fn ctl_looked() -> (r: crate::ctl::TableWithColumns)
    ensures
        looked_mem(r),
{
    let cols = vec![Column::single(1), Column::single(3), Column::single(4), Column::single(5), Column::single(2)];
    let filter = crate::ctl::Filter::new_simple(Column::single(0));
    crate::ctl::TableWithColumns::new(crate::stark::Table::Mem.index(), cols, filter)
}

/// The table as a unit of the proof: its constraints and their degree.
#[derive(Clone, Copy, Debug, Default)]
pub struct MemStark {}

impl MemStark {
    /// Emits every constraint of the table on a row and its successor.
    pub fn eval_all(&self, lv: &MemCols<u64>, nv: &MemCols<u64>, cc: &mut ConstraintSet)
        requires
            row_is_felt(*lv),
            row_is_felt(*nv),
        ensures
            final(cc)@ == old(cc)@ + mem_constraints(*lv, *nv),
    {
        eval(lv, nv, cc)
    }

    /// The largest degree of the table's constraints.
    pub fn constraint_degree(&self) -> (r: usize)
        ensures
            r == crate::stark::CONSTRAINT_DEGREE,
    {
        crate::stark::CONSTRAINT_DEGREE
    }

    /// Whether the table takes part in cross-table lookups.
    pub fn requires_ctls(&self) -> (r: bool)
        ensures
            r,
    {
        true
    }
}

/// Padding keeps a memory trace valid: on every padding row, every
/// constraint holds, taken with its successor, provided the last real
/// access, which the padding repeats, reads zero from `x0`.
pub proof fn lemma_mem_padding_holds(s: Seq<MemOp>, m: int, i: int)
    requires
        padded_from(s, m),
        all_wf(s),
        is_reg0(s[m - 1].adr) ==> s[m - 1].val == 0,
        m <= i < s.len(),
        s.len() <= 2 * MAX_ROWS,
    ensures
        all_hold_at(
            mem_constraints(final_row(s, i), final_row(s, (i + 1) % (s.len() as int))),
            i,
            s.len() as int,
        ),
{
    let n = s.len() as int;
    let j = (i + 1) % n;
    if i + 1 < n {
        vstd::arithmetic::div_mod::lemma_small_mod((i + 1) as nat, n as nat);
    } else {
        vstd::arithmetic::div_mod::lemma_mod_self_0(n);
    }
    let lv = final_row(s, i);
    let nv = final_row(s, j);
    let last = s[m - 1];
    assert(s[i] == (MemOp { on: false, kind: MemKind::Read, ..last }));
    assert(op_wf(last));
    if i + 1 < n {
        assert(s[i + 1] == (MemOp { on: false, kind: MemKind::Read, ..last }));
    }
    let cs = mem_constraints(lv, nv);
    lemma_felt_small(0);
    lemma_felt_small(1);
    lemma_felt_small(lv.time as int);
    lemma_felt_small(lv.adr_seg as int);
    lemma_felt_small(lv.adr_virt as int);
    lemma_felt_small(lv.val as int);
    lemma_felt_small(lv.range_check.count as int);
    lemma_fsub_zero_right(1);
    lemma_fmul_zero(0);
    lemma_fmul_zero(1);
    lemma_fmul_one(0);
    lemma_fmul_one(1);
    assert forall|k: int| 0 <= k < cs.len() implies crate::constraint::holds_at(#[trigger] cs[k], i, n) by {
        lemma_fmul_zero(lv.adr_seg as int);
        lemma_fmul_zero(lv.adr_virt as int);
        lemma_fmul_zero(lv.val as int);
        lemma_fmul_zero(fsub(1, lv.f_rw as int));
        lemma_fmul_zero(fmul(1, lv.f_reg0 as int));
        lemma_fmul_zero(fmul(1, 0));
        lemma_fmul_zero(fsub(1, lv.f_reg0 as int));
        if is_reg0(last.adr) {
            lemma_fmul_one(lv.val as int);
            lemma_fmul_one(lv.adr_seg as int);
            lemma_fmul_one(lv.adr_virt as int);
        }
        if i + 1 < n {
            lemma_fmul_zero(fsub(nv.adr_seg as int, lv.adr_seg as int));
            lemma_fmul_zero(nv.val as int);
            lemma_fmul_one(fsub(nv.adr_seg as int, lv.adr_seg as int));
            lemma_fmul_one(fsub(nv.adr_virt as int, lv.adr_virt as int));
            lemma_fmul_one(fsub(nv.time as int, lv.time as int));
            lemma_fmul_one(fsub(1, lv.f_reg0 as int));
            lemma_fmul_one(lv.aux as int);
            lemma_fmul_one(fmul(1, lv.aux as int));
            lemma_fmul_zero(fsub(0, 1));
            lemma_fmul_zero(fsub(nv.val as int, lv.val as int));
            lemma_fmul_zero(fmul(1, 0));
            lemma_fsub_zero_right(0);
            lemma_felt_small((i + 1) - i);
            if is_reg0(last.adr) {
                lemma_fmul_zero(fsub(nv.val as int, lv.val as int));
            } else {
                lemma_fmul_one(fsub(nv.val as int, lv.val as int));
            }
        }
    }
}

/// The range check of the memory table: the range-check value of every
/// row, and the address of the next row where the segment changes, must
/// appear in the counter column; the frequency column counts them.
pub fn lookups() -> (r: crate::ctl::Lookup)
    ensures
        r.columns@ == seq![(10usize, false), (4usize, true)],
        r.filter_columns@ == seq![None, Some(8usize)],
        r.table_column == 11,
        r.frequencies_column == 12,
{
    let r = crate::ctl::Lookup {
        columns: vec![(10usize, false), (4usize, true)],
        filter_columns: vec![None, Some(8usize)],
        table_column: 11,
        frequencies_column: 12,
    };
    assert(r.columns@ =~= seq![(10usize, false), (4usize, true)]);
    assert(r.filter_columns@ =~= seq![None, Some(8usize)]);
    r
}

/// Whether the accesses `s[i]` and `s[i + 1]` are consistent: only real
/// accesses write, a read of `x0` is zero, and a read sees the value of the
/// previous access to its address (but for `x0`), or zero at an address
/// not accessed before.
pub open spec fn consistent_at(s: Seq<MemOp>, i: int) -> bool {
    &&& !s[i].on ==> s[i].kind == MemKind::Read
    &&& is_reg0(s[i].adr) && s[i].kind == MemKind::Read ==> s[i].val == 0
    &&& i + 1 < s.len() && s[i + 1].kind == MemKind::Read ==> {
        if s[i].adr != s[i + 1].adr {
            s[i + 1].val == 0
        } else {
            !is_reg0(s[i].adr) ==> s[i + 1].val == s[i].val
        }
    }
}

/// `f * (1 - f)` vanishes on bits.
proof fn lemma_bit_mem(f: int)
    requires
        f == 0 || f == 1,
    ensures
        fmul(f, fsub(1, f)) == 0,
{
    lemma_felt_small(0);
    lemma_felt_small(1);
    lemma_fmul_zero(fsub(1, f));
    lemma_fmul_zero(f);
}

/// A product with a zero factor vanishes; with a unit factor it is the
/// other factor.
proof fn lemma_prod(a: int, b: int)
    requires
        a == 0 || a == 1,
        crate::field::is_felt(b),
    ensures
        a == 0 ==> fmul(a, b) == 0 && fmul(b, a) == 0,
        a == 1 ==> fmul(a, b) == b && fmul(b, a) == b,
{
    lemma_fmul_zero(b);
    lemma_fmul_one(b);
}

/// The constraints of row `i` that do not read the next row hold.
#[verifier::rlimit(60)]
proof fn lemma_mem_row_every(s: Seq<MemOp>, i: int, nv: MemCols<u64>)
    requires
        sorted(s),
        all_wf(s),
        0 <= i < s.len(),
        consistent_at(s, i),
    ensures
        forall|k: int| 0 <= k < 9 ==> (#[trigger] mem_constraints(final_row(s, i), nv)[k]).1 == 0,
{
    let lv = final_row(s, i);
    let a = s[i];
    assert(op_wf(a));
    let cs = mem_constraints(lv, nv);
    lemma_felt_small(0);
    lemma_felt_small(1);
    lemma_felt_small(2);
    lemma_bit_mem(lv.f_on as int);
    lemma_bit_mem(lv.f_reg0 as int);
    lemma_bit_mem(lv.f_seg_diff as int);
    lemma_bit_mem(lv.f_virt_diff as int);
    let f_adr_diff = fadd(lv.f_seg_diff as int, lv.f_virt_diff as int);
    assert(f_adr_diff == lv.f_seg_diff + lv.f_virt_diff);
    lemma_bit_mem(f_adr_diff);
    let f_off = fsub(1, lv.f_on as int);
    assert(f_off == 1 - lv.f_on);
    lemma_prod(f_off, lv.f_rw as int);
    lemma_prod(lv.f_reg0 as int, lv.adr_seg as int);
    lemma_prod(lv.f_reg0 as int, lv.adr_virt as int);
    let f_read = fsub(1, lv.f_rw as int);
    assert(f_read == 1 - lv.f_rw);
    lemma_prod(f_read, lv.f_reg0 as int);
    lemma_prod(fmul(f_read, lv.f_reg0 as int), lv.val as int);
    lemma_prod(lv.f_reg0 as int, f_read);
    assert(cs[0].1 == 0);
    assert(cs[1].1 == 0);
    assert(cs[2].1 == 0);
    assert(cs[3].1 == 0);
    assert(cs[4].1 == 0);
    assert(cs[5].1 == 0);
    assert(cs[6].1 == 0);
    assert(cs[7].1 == 0);
    assert(cs[8].1 == 0);
}

/// The constraints between row `i` and row `i + 1` hold.
#[verifier::rlimit(100)]
proof fn lemma_mem_row_trans(s: Seq<MemOp>, i: int)
    requires
        sorted(s),
        all_wf(s),
        s.len() <= 2 * MAX_ROWS,
        0 <= i < s.len() - 1,
        consistent_at(s, i),
    ensures
        forall|k: int| 9 <= k < 18 && k != 16 ==> (#[trigger] mem_constraints(final_row(s, i), final_row(s, i + 1))[k]).1 == 0,
{
    let lv = final_row(s, i);
    let nv = final_row(s, i + 1);
    let (a, b) = (s[i], s[i + 1]);
    assert(op_wf(a) && op_wf(b));
    assert(key_le(key(a), key(b)));
    let cs = mem_constraints(lv, nv);
    lemma_felt_small(0);
    lemma_felt_small(1);
    lemma_felt_small(2);
    let (sd, vd) = (lv.f_seg_diff as int, lv.f_virt_diff as int);
    let f_adr_diff = fadd(sd, vd);
    assert(f_adr_diff == sd + vd);
    let f_adr_same = fsub(1, f_adr_diff);
    assert(f_adr_same == 1 - sd - vd);
    let dseg = fsub(nv.adr_seg as int, lv.adr_seg as int);
    let dvirt = fsub(nv.adr_virt as int, lv.adr_virt as int);
    let dtime = fsub(nv.time as int, lv.time as int);
    let dval = fsub(nv.val as int, lv.val as int);
    lemma_felt_small(nv.val as int);
    lemma_felt_small(lv.aux as int);
    if seg_diff(a, b) {
        lemma_felt_small(nv.adr_seg - lv.adr_seg);
        assert(dseg == 1);
    } else {
        lemma_felt_small(0);
        assert(dseg == 0);
        if virt_diff(a, b) {
            lemma_felt_small(nv.adr_virt - lv.adr_virt);
            lemma_felt_small(nv.adr_virt - lv.adr_virt - 1);
        } else {
            assert(dvirt == 0);
            lemma_felt_small(nv.time - lv.time);
        }
    }
    // no change but what the flags say
    lemma_prod(vd, dseg);
    lemma_prod(f_adr_same, dseg);
    lemma_prod(f_adr_same, dvirt);
    // the range-checked delta
    lemma_felt_small(lv.range_check.val as int);
    lemma_prod(sd, fsub(dseg, 1));
    lemma_prod(vd, fsub(dvirt, 1));
    lemma_prod(f_adr_same, dtime);
    if vd == 1 {
        assert(fsub(dvirt, 1) == nv.adr_virt - lv.adr_virt - 1);
    }
    lemma_fsub_zero_right(fmul(f_adr_same, dtime));
    lemma_fsub_zero_right(fmul(vd, fsub(dvirt, 1)));
    lemma_fsub_zero_right(fadd(fmul(sd, fsub(dseg, 1)), fmul(vd, fsub(dvirt, 1))));
    assert(cs[12].1 == 0);
    // reads see the previous value
    let f_not_reg0 = fsub(1, lv.f_reg0 as int);
    assert(f_not_reg0 == 1 - lv.f_reg0);
    lemma_prod(f_adr_same, f_not_reg0);
    let f_read_next = fsub(1, nv.f_rw as int);
    assert(f_read_next == 1 - nv.f_rw);
    lemma_prod(f_read_next, lv.aux as int);
    lemma_prod(lv.aux as int, dval);
    lemma_prod(fmul(f_read_next, lv.aux as int), dval);
    lemma_prod(f_read_next, f_adr_diff);
    lemma_prod(fmul(f_read_next, f_adr_diff), nv.val as int);
    if lv.aux == 1 && nv.f_rw == 0 {
        assert(dval == 0);
    }
    lemma_felt_small(lv.range_check.count as int);
    lemma_felt_small(nv.range_check.count as int);
    assert(cs[9].1 == 0);
    assert(cs[10].1 == 0);
    assert(cs[11].1 == 0);
    assert(cs[13].1 == 0);
    assert(cs[14].1 == 0);
    assert(cs[15].1 == 0);
    assert(cs[17].1 == 0);
}

/// Every constraint of the memory table holds on row `i` of the trace of
/// sorted accesses, taken with its successor, where the accesses are
/// consistent there.
pub proof fn lemma_mem_row_holds(s: Seq<MemOp>, i: int)
    requires
        sorted(s),
        all_wf(s),
        s.len() <= 2 * MAX_ROWS,
        0 <= i < s.len(),
        consistent_at(s, i),
    ensures
        all_hold_at(
            mem_constraints(final_row(s, i), final_row(s, (i + 1) % (s.len() as int))),
            i,
            s.len() as int,
        ),
{
    let n = s.len() as int;
    let j = (i + 1) % n;
    if i + 1 < n {
        vstd::arithmetic::div_mod::lemma_small_mod((i + 1) as nat, n as nat);
        lemma_mem_row_trans(s, i);
    } else {
        vstd::arithmetic::div_mod::lemma_mod_self_0(n);
    }
    let nv = final_row(s, j);
    lemma_mem_row_every(s, i, nv);
    let cs = mem_constraints(final_row(s, i), nv);
    assert forall|k: int| 0 <= k < cs.len() implies crate::constraint::holds_at(#[trigger] cs[k], i, n) by {
        if k < 9 {
            assert(cs[k].1 == 0);
        } else if k != 16 && i + 1 < n {
            assert(cs[k].1 == 0);
        }
    }
}

/// Returns the memory trace of `ops` as columns, each holding one value
/// per row; fails as [`gen_trace_rows`] does.
pub fn gen_trace(ops: Vec<MemOp>) -> (r: Result<Vec<Vec<u64>>, MemError>)
    requires
        1 <= ops@.len() <= MAX_ROWS,
        all_wf(ops@),
    ensures
        r matches Ok(cols) ==> cols@.len() == N_MEM_COLS && exists|s: Seq<MemOp>|
            {
                &&& #[trigger] is_mem_accesses(ops@, s)
                &&& forall|j: int| 0 <= j < N_MEM_COLS ==> (#[trigger] cols@[j])@.len() == s.len()
                &&& forall|i: int, j: int|
                    0 <= i < s.len() && 0 <= j < N_MEM_COLS ==> cols@[j]@[i] == final_row(s, i).as_seq()[j]
            },
        r matches Err(e) ==> e == MemError::TooManyRows && exists|s: Seq<MemOp>, max_rc: int|
            {
                &&& #[trigger] sorted_fill(ops@, s, max_rc)
                &&& interleave(s, max_rc, s.len() as int).len() > MAX_ROWS
            },
{
    let ghost orig = ops@;
    let rows = match gen_trace_rows(ops) {
        Ok(rows) => rows,
        Err(e) => return Err(e),
    };
    let mut flat: Vec<Vec<u64>> = Vec::new();
    let mut i: usize = 0;
    while i < rows.len()
        invariant
            i <= rows@.len(),
            flat@.len() == i,
            forall|k: int| 0 <= k < i ==> (#[trigger] flat@[k])@ == rows@[k].as_seq(),
        decreases rows@.len() - i,
    {
        flat.push(rows[i].to_vec());
        i += 1;
    }
    assert forall|k: int| 0 <= k < flat@.len() implies (#[trigger] flat@[k])@.len() == N_MEM_COLS by {
        lemma_mem_cols_round_trip(rows@[k], rows@[k].as_seq());
    }
    let cols = crate::trace::transpose(&flat, N_MEM_COLS);
    proof {
        let s = choose|s: Seq<MemOp>| {
            &&& #[trigger] is_mem_accesses(orig, s)
            &&& rows@.len() == s.len()
            &&& forall|i: int| 0 <= i < s.len() ==> #[trigger] rows@[i] == final_row(s, i)
        };
        assert(is_mem_accesses(orig, s));
    }
    Ok(cols)
}

/// A generated memory trace whose sorted accesses form a consistent
/// history (each read sees the previous value at its address, or zero at a
/// new address, and `x0` reads zero) satisfies every constraint on every
/// row, each row taken with its successor.
pub proof fn lemma_mem_trace_holds(ops: Seq<MemOp>, s: Seq<MemOp>)
    requires
        is_mem_accesses(ops, s),
        forall|i: int| 0 <= i < s.len() ==> #[trigger] consistent_at(s, i),
    ensures
        forall|i: int|
            0 <= i < s.len() ==> all_hold_at(
                #[trigger] mem_constraints(final_row(s, i), final_row(s, (i + 1) % (s.len() as int))),
                i,
                s.len() as int,
            ),
{
    assert forall|i: int| 0 <= i < s.len() implies all_hold_at(
        #[trigger] mem_constraints(final_row(s, i), final_row(s, (i + 1) % (s.len() as int))),
        i,
        s.len() as int,
    ) by {
        assert(consistent_at(s, i));
        lemma_mem_row_holds(s, i);
    }
}

} // verus!
