//! The byte-packing table: loads and stores of one to four bytes, packed
//! into or unpacked from a word, with sign or zero extension.
use crate::constraint::{all_hold_at, cons, ConstraintKind, ConstraintSet};
use crate::field::{fadd, felt_add, felt_mul, felt_sub, fmul, from_bool, fsub, ORDER};
use crate::freq::{count_in, freq_count, FreqMap};
use crate::trace::{next_power_of_two, MAX_ROWS};
use crate::ctl::Column;
use vstd::prelude::*;

verus! {

/// The bytes of a word.
pub const BYTES_WORD: usize = 4;

/// The most rows of a byte-packing trace: each row checks four bytes, and
/// every count must fit a `usize`.
pub const MAX_BYTE_ROWS: usize = 0x0800_0000;

/// The number of columns of the byte-packing table.
pub const N_BYTE_COLS: usize = 23;

/// The largest value of a byte, and the last value of the range-check counter.
pub const BYTE_MAX: u64 = 255;

/// Range checking columns.
#[derive(Clone, Copy, Debug, PartialEq, Eq)]
pub struct RangeCheck<T> {
    /// The range check counter.
    pub count: T,
    /// The range check frequency.
    pub freq: T,
}

/// Columns of the byte-packing table.
#[derive(Clone, Copy, Debug, PartialEq, Eq)]
pub struct ByteCols<T> {
    /// 1 for a write (unpacking), 0 for a read (packing).
    pub f_rw: T,
    /// 1 if the bytes are read as signed (`lb` or `lh`).
    pub f_signed: T,
    /// `0xff` if the bytes are signed and the sign bit is set, else 0.
    pub ext_byte: T,
    /// The starting virtual address.
    pub adr_virt: T,
    /// The time stamp of the access.
    pub time: T,
    /// One at index `length - 1`, zero elsewhere.
    pub len_idx: [T; 4],
    /// The little-endian bytes of the value, extended to a word.
    pub bytes: [T; 4],
    /// The little-endian bits of the most significant byte.
    pub high_bits: [T; 8],
    /// Range check columns.
    pub range_check: RangeCheck<T>,
}

impl<T: Copy> ByteCols<T> {
    /// The record flattened in column order.
    pub open spec fn as_seq(self) -> Seq<T> {
        seq![self.f_rw, self.f_signed, self.ext_byte, self.adr_virt, self.time] + self.len_idx@
            + self.bytes@ + self.high_bits@ + seq![self.range_check.count, self.range_check.freq]
    }

    /// The record whose flattened form is `s`.
    pub open spec fn from_seq(s: Seq<T>) -> Self {
        ByteCols {
            f_rw: s[0],
            f_signed: s[1],
            ext_byte: s[2],
            adr_virt: s[3],
            time: s[4],
            len_idx: [s[5], s[6], s[7], s[8]],
            bytes: [s[9], s[10], s[11], s[12]],
            high_bits: [s[13], s[14], s[15], s[16], s[17], s[18], s[19], s[20]],
            range_check: RangeCheck { count: s[21], freq: s[22] },
        }
    }

    /// The record flattened in column order.
    pub fn to_vec(&self) -> (r: Vec<T>)
        ensures
            r@ == self.as_seq(),
    {
        let mut r = vec![self.f_rw, self.f_signed, self.ext_byte, self.adr_virt, self.time];
        let mut i: usize = 0;
        while i < 4
            invariant
                i <= 4,
                r@ == seq![self.f_rw, self.f_signed, self.ext_byte, self.adr_virt, self.time]
                    + self.len_idx@.subrange(0, i as int),
            decreases 4 - i,
        {
            r.push(self.len_idx[i]);
            i += 1;
            assert(r@ =~= seq![self.f_rw, self.f_signed, self.ext_byte, self.adr_virt, self.time]
                + self.len_idx@.subrange(0, i as int));
        }
        let ghost pre1 = r@;
        let mut i: usize = 0;
        while i < 4
            invariant
                i <= 4,
                r@ == pre1 + self.bytes@.subrange(0, i as int),
            decreases 4 - i,
        {
            r.push(self.bytes[i]);
            i += 1;
            assert(r@ =~= pre1 + self.bytes@.subrange(0, i as int));
        }
        let ghost pre2 = r@;
        let mut i: usize = 0;
        while i < 8
            invariant
                i <= 8,
                r@ == pre2 + self.high_bits@.subrange(0, i as int),
            decreases 8 - i,
        {
            r.push(self.high_bits[i]);
            i += 1;
            assert(r@ =~= pre2 + self.high_bits@.subrange(0, i as int));
        }
        r.push(self.range_check.count);
        r.push(self.range_check.freq);
        assert(self.len_idx@.subrange(0, 4) =~= self.len_idx@);
        assert(self.bytes@.subrange(0, 4) =~= self.bytes@);
        assert(self.high_bits@.subrange(0, 8) =~= self.high_bits@);
        assert(r@ =~= self.as_seq());
        r
    }

    /// Reads a record from its flattened form.
    pub fn from_slice(s: &[T]) -> (r: Self)
        requires
            s@.len() == N_BYTE_COLS,
        ensures
            r == Self::from_seq(s@),
    {
        ByteCols {
            f_rw: s[0],
            f_signed: s[1],
            ext_byte: s[2],
            adr_virt: s[3],
            time: s[4],
            len_idx: [s[5], s[6], s[7], s[8]],
            bytes: [s[9], s[10], s[11], s[12]],
            high_bits: [s[13], s[14], s[15], s[16], s[17], s[18], s[19], s[20]],
            range_check: RangeCheck { count: s[21], freq: s[22] },
        }
    }
}

/// Flattening a record and reading it back gives the record; reading a
/// flattened form and flattening it again gives the same values.
pub proof fn lemma_byte_cols_round_trip<T: Copy>(r: ByteCols<T>, s: Seq<T>)
    requires
        s.len() == N_BYTE_COLS,
    ensures
        ByteCols::from_seq(r.as_seq()) == r,
        ByteCols::from_seq(s).as_seq() == s,
        r.as_seq().len() == N_BYTE_COLS,
{
    let f = ByteCols::from_seq(r.as_seq());
    assert(f.len_idx =~= r.len_idx);
    assert(f.bytes =~= r.bytes);
    assert(f.high_bits =~= r.high_bits);
    assert(ByteCols::from_seq(s).as_seq() =~= s);
}

/// The column index map: each field holds its own column index.
pub fn byte_col_map() -> (r: ByteCols<usize>)
    ensures
        r.as_seq() == Seq::new(N_BYTE_COLS as nat, |i: int| i as usize),
{
    let idx = crate::util::indices_arr(N_BYTE_COLS);
    let r = ByteCols::from_slice(idx.as_slice());
    proof {
        lemma_byte_cols_round_trip(r, idx@);
    }
    r
}

/// A load or store of one to four bytes.
#[derive(Clone, Debug)]
pub struct ByteOp {
    /// Whether this is a write.
    pub rw: bool,
    /// Whether the bytes are read as signed.
    pub signed: bool,
    pub adr_virt: u32,
    pub time: u32,
    /// The bytes, most significant first.
    pub bytes: Vec<u8>,
}

/// The failures of building the byte-packing trace.
#[derive(Clone, Copy, Debug, PartialEq, Eq, Structural)]
pub enum ByteError {
    /// The operation at this index has more bytes than a word.
    InvalidLength(usize),
    /// More rows than a trace can hold.
    TooManyRows,
}

/// The field element of a truth value.
pub open spec fn bit(b: bool) -> u64 {
    if b {
        1
    } else {
        0
    }
}

/// The extension byte: `0xff` for signed bytes whose sign bit is set.
pub open spec fn ext_of(signed: bool, b: Seq<u8>) -> u8 {
    if signed && b[0] >= 128 {
        255
    } else {
        0
    }
}

/// Byte `k` of the value, least significant first, extended to a word.
pub open spec fn le_byte(signed: bool, b: Seq<u8>, k: int) -> u8 {
    if k < b.len() {
        b[b.len() - 1 - k]
    } else {
        ext_of(signed, b)
    }
}

/// Bit `i` of a byte.
pub open spec fn bit_of(x: u8, i: u8) -> u64 {
    ((x >> i) & 1u8) as u64
}

/// The value of the range-check counter on row `index`.
pub open spec fn rc_count(index: int) -> u64 {
    if index < BYTE_MAX {
        index as u64
    } else {
        BYTE_MAX
    }
}

/// The row of an operation with the bytes `b`, at row `index`.
pub open spec fn byte_row(rw: bool, signed: bool, adr_virt: u32, time: u32, b: Seq<u8>, index: int) -> ByteCols<u64> {
    let n = b.len();
    ByteCols {
        f_rw: bit(rw),
        f_signed: bit(signed),
        ext_byte: ext_of(signed, b) as u64,
        adr_virt: adr_virt as u64,
        time: time as u64,
        len_idx: [bit(n == 1), bit(n == 2), bit(n == 3), bit(n == 4)],
        bytes: [
            le_byte(signed, b, 0) as u64,
            le_byte(signed, b, 1) as u64,
            le_byte(signed, b, 2) as u64,
            le_byte(signed, b, 3) as u64,
        ],
        high_bits: [
            bit_of(b[0], 0),
            bit_of(b[0], 1),
            bit_of(b[0], 2),
            bit_of(b[0], 3),
            bit_of(b[0], 4),
            bit_of(b[0], 5),
            bit_of(b[0], 6),
            bit_of(b[0], 7),
        ],
        range_check: RangeCheck { count: rc_count(index), freq: 0 },
    }
}

/// The all-zero row at `index`, but for the range-check counter.
pub open spec fn pad_row(index: int) -> ByteCols<u64> {
    ByteCols {
        f_rw: 0,
        f_signed: 0,
        ext_byte: 0,
        adr_virt: 0,
        time: 0,
        len_idx: [0, 0, 0, 0],
        bytes: [0, 0, 0, 0],
        high_bits: [0, 0, 0, 0, 0, 0, 0, 0],
        range_check: RangeCheck { count: rc_count(index), freq: 0 },
    }
}

/// Returns the range-check counter of row `index`: the index, up to 255.
pub fn range_check_count(index: usize) -> (r: u64)
    ensures
        r == rc_count(index as int),
{
    if index < 255 {
        index as u64
    } else {
        BYTE_MAX
    }
}

/// Returns the padding row at `index`.
pub fn padding_row(index: usize) -> (r: ByteCols<u64>)
    ensures
        r == pad_row(index as int),
{
    ByteCols {
        f_rw: 0,
        f_signed: 0,
        ext_byte: 0,
        adr_virt: 0,
        time: 0,
        len_idx: [0, 0, 0, 0],
        bytes: [0, 0, 0, 0],
        high_bits: [0, 0, 0, 0, 0, 0, 0, 0],
        range_check: RangeCheck { count: range_check_count(index), freq: 0 },
    }
}

/// The bytes that a row range checks, as field elements.
pub open spec fn row_bytes(r: ByteCols<u64>) -> Seq<u64> {
    r.bytes@
}

impl ByteOp {
    /// Returns the row of this operation at row `index`, and counts each of
    /// its four little-endian bytes in `freq`.
    pub fn into_row(&self, freq: &mut FreqMap, index: usize) -> (r: ByteCols<u64>)
        requires
            1 <= self.bytes@.len() <= BYTES_WORD,
            forall|v: u64| freq_count(*old(freq), v) + 4 < usize::MAX,
        ensures
            r == byte_row(self.rw, self.signed, self.adr_virt, self.time, self.bytes@, index as int),
            forall|v: u64| freq_count(*final(freq), v) == freq_count(*old(freq), v) + count_in(row_bytes(r), v),
    {
        let len = self.bytes.len();
        let high_byte = self.bytes[0];
        let sign_bit = high_byte >> 7;
        proof {
            assert(sign_bit != 0 <==> high_byte >= 128) by (bit_vector)
                requires
                    sign_bit == high_byte >> 7u8,
            ;
        }
        let ext_byte: u8 = if self.signed && sign_bit != 0 {
            255
        } else {
            0
        };
        let mut high_bits: [u64; 8] = [0; 8];
        let mut i: u8 = 0;
        while i < 8
            invariant
                i <= 8,
                high_byte == self.bytes@[0],
                forall|k: int| 0 <= k < i ==> high_bits@[k] == bit_of(high_byte, k as u8),
            decreases 8 - i,
        {
            high_bits[i as usize] = ((high_byte >> i) & 1u8) as u64;
            i += 1;
        }
        let mut bytes: [u64; 4] = [0; 4];
        let mut k: usize = 0;
        while k < 4
            invariant
                k <= 4,
                len == self.bytes@.len(),
                1 <= len <= 4,
                ext_byte == ext_of(self.signed, self.bytes@),
                forall|j: int| 0 <= j < k ==> bytes@[j] == le_byte(self.signed, self.bytes@, j) as u64,
                forall|v: u64| freq_count(*old(freq), v) + 4 < usize::MAX,
                forall|v: u64| freq_count(*freq, v) == freq_count(*old(freq), v) + count_in(bytes@.subrange(0, k as int), v),
            decreases 4 - k,
        {
            let b = if k < len {
                self.bytes[len - 1 - k]
            } else {
                ext_byte
            };
            proof {
                crate::freq::lemma_count_le_len(bytes@.subrange(0, k as int), b as u64);
            }
            freq.increment(b as u64);
            let ghost prev = bytes@.subrange(0, k as int);
            bytes[k] = b as u64;
            proof {
                assert(bytes@.subrange(0, k + 1).drop_last() =~= prev);
                assert(bytes@.subrange(0, k as int) =~= prev);
            }
            k += 1;
        }
        let r = ByteCols {
            f_rw: from_bool(self.rw),
            f_signed: from_bool(self.signed),
            ext_byte: ext_byte as u64,
            adr_virt: self.adr_virt as u64,
            time: self.time as u64,
            len_idx: [from_bool(len == 1), from_bool(len == 2), from_bool(len == 3), from_bool(len == 4)],
            bytes,
            high_bits,
            range_check: RangeCheck { count: range_check_count(index), freq: 0 },
        };
        proof {
            let spec_row = byte_row(self.rw, self.signed, self.adr_virt, self.time, self.bytes@, index as int);
            assert(r.bytes =~= spec_row.bytes);
            assert(r.high_bits =~= spec_row.high_bits);
            assert(bytes@.subrange(0, 4) =~= bytes@);
        }
        r
    }
}

/// A row with its frequency column replaced.
pub open spec fn with_freq(r: ByteCols<u64>, freq: u64) -> ByteCols<u64> {
    ByteCols { range_check: RangeCheck { freq, ..r.range_check }, ..r }
}

/// The bytes that the first `k` rows range check, row after row.
pub open spec fn checked_bytes(rows: Seq<ByteCols<u64>>, k: int) -> Seq<u64>
    decreases k,
{
    if k <= 0 {
        Seq::empty()
    } else {
        checked_bytes(rows, k - 1) + row_bytes(rows[k - 1])
    }
}

/// Whether `rows` is the byte-packing trace of the operations `sel`:
/// their rows in order, then padding rows.
pub open spec fn is_byte_trace(sel: Seq<ByteOp>, rows: Seq<ByteCols<u64>>) -> bool {
    &&& sel.len() <= rows.len()
    &&& forall|i: int|
        0 <= i < sel.len() ==> #[trigger] rows[i] == with_freq(
            byte_row(sel[i].rw, sel[i].signed, sel[i].adr_virt, sel[i].time, sel[i].bytes@, i),
            rows[i].range_check.freq,
        )
    &&& forall|i: int| sel.len() <= i < rows.len() ==> #[trigger] rows[i] == with_freq(pad_row(i), rows[i].range_check.freq)
}

/// Counts the four bytes of the padding row at `index`.
fn count_padding(freq: &mut FreqMap, index: usize)
    requires
        freq_count(*old(freq), 0) + 4 < usize::MAX,
    ensures
        forall|v: u64| freq_count(*final(freq), v) == freq_count(*old(freq), v) + count_in(row_bytes(pad_row(index as int)), v),
{
    freq.increment(0);
    freq.increment(0);
    freq.increment(0);
    freq.increment(0);
    proof {
        let b = row_bytes(pad_row(index as int));
        assert(b =~= seq![0u64, 0, 0, 0]);
        assert(b.drop_last() =~= seq![0u64, 0, 0]);
        assert(b.drop_last().drop_last() =~= seq![0u64, 0]);
        assert(b.drop_last().drop_last().drop_last() =~= seq![0u64]);
        assert(b.drop_last().drop_last().drop_last().drop_last() =~= Seq::<u64>::empty());
        reveal_with_fuel(count_in, 5);
    }
}

/// Whether an operation has one to four bytes.
pub open spec fn valid_len(o: ByteOp) -> bool {
    1 <= o.bytes@.len() <= BYTES_WORD
}

/// The larger of the number of operations, 255 and `min_rows`.
pub open spec fn min_size(n_ops: int, min_rows: int) -> int {
    let m = if n_ops > 255 { n_ops } else { 255 };
    if m > min_rows { m } else { min_rows }
}

/// Returns the byte-packing trace of `ops`: a row per operation, in order,
/// then padding rows up to the next power of two of the largest of their
/// number, 255 and `min_rows`; the frequency column counts every byte of
/// every row. An operation with no bytes or more than four fails, naming
/// the first such index.
pub fn gen_trace_rows(ops: &Vec<ByteOp>, min_rows: usize) -> (r: Result<Vec<ByteCols<u64>>, ByteError>)
    requires
        ops@.len() <= MAX_ROWS,
    ensures
        r matches Err(ByteError::InvalidLength(k)) ==> k < ops@.len() && !valid_len(ops@[k as int])
            && forall|j: int| 0 <= j < k ==> valid_len(#[trigger] ops@[j]),
        r matches Err(ByteError::TooManyRows) ==> (forall|j: int| 0 <= j < ops@.len() ==> valid_len(#[trigger] ops@[j]))
            && min_size(ops@.len() as int, min_rows as int) > MAX_BYTE_ROWS,
        (forall|j: int| 0 <= j < ops@.len() ==> valid_len(#[trigger] ops@[j])) && min_size(
            ops@.len() as int,
            min_rows as int,
        ) <= MAX_BYTE_ROWS ==> r is Ok,
        r matches Ok(rows) ==> {
            &&& forall|j: int| 0 <= j < ops@.len() ==> valid_len(#[trigger] ops@[j])
            &&& crate::trace::is_next_pow2(min_size(ops@.len() as int, min_rows as int), rows@.len() as int)
            &&& rows@.len() <= MAX_BYTE_ROWS
            &&& is_byte_trace(ops@, rows@)
            &&& forall|v: int|
                0 <= v < rows@.len() ==> (#[trigger] rows@[v]).range_check.freq == count_in(
                    checked_bytes(rows@, rows@.len() as int),
                    v as u64,
                )
        },
{
    let mut k: usize = 0;
    while k < ops.len()
        invariant
            k <= ops@.len() <= MAX_ROWS,
            forall|j: int| 0 <= j < k ==> valid_len(#[trigger] ops@[j]),
        decreases ops@.len() - k,
    {
        let len = ops[k].bytes.len();
        if len == 0 || len > BYTES_WORD {
            return Err(ByteError::InvalidLength(k));
        }
        k += 1;
    }
    let m = if ops.len() > 255 {
        ops.len()
    } else {
        255
    };
    let n = if m > min_rows {
        m
    } else {
        min_rows
    };
    if n > MAX_BYTE_ROWS {
        return Err(ByteError::TooManyRows);
    }
    let n_rows = next_power_of_two(n);
    proof {
        vstd::arithmetic::power2::lemma2_to64();
        assert(MAX_BYTE_ROWS == vstd::arithmetic::power2::pow2(27));
        crate::trace::lemma_next_pow2_least(n as int, n_rows as int, MAX_BYTE_ROWS as int);
    }
    let ghost sel = ops@;
    let mut rows: Vec<ByteCols<u64>> = Vec::new();
    let mut freq = FreqMap::new();
    let mut k: usize = 0;
    while k < ops.len()
        invariant
            k <= ops@.len() <= MAX_BYTE_ROWS,
            sel == ops@,
            forall|j: int| 0 <= j < ops@.len() ==> valid_len(#[trigger] ops@[j]),
            rows@.len() == k,
            forall|i: int| 0 <= i < rows@.len() ==> #[trigger] rows@[i] == byte_row(
                sel[i].rw,
                sel[i].signed,
                sel[i].adr_virt,
                sel[i].time,
                sel[i].bytes@,
                i,
            ),
            forall|v: u64| #[trigger] freq_count(freq, v) == count_in(checked_bytes(rows@, rows@.len() as int), v),
            checked_bytes(rows@, rows@.len() as int).len() == 4 * rows@.len(),
        decreases ops@.len() - k,
    {
        assert(valid_len(ops@[k as int]));
        proof {
            assert forall|v: u64| freq_count(freq, v) + 4 < usize::MAX by {
                crate::freq::lemma_count_le_len(checked_bytes(rows@, rows@.len() as int), v);
            }
        }
        let ghost prev_rows = rows@;
        let row = ops[k].into_row(&mut freq, k);
        rows.push(row);
        proof {
            lemma_checked_bytes_prefix(prev_rows, rows@, prev_rows.len() as int);
            assert forall|v: u64| #[trigger] freq_count(freq, v) == count_in(checked_bytes(rows@, rows@.len() as int), v) by {
                lemma_count_concat(checked_bytes(prev_rows, prev_rows.len() as int), row_bytes(row), v);
            }
        }
        k += 1;
    }
    let mut i: usize = rows.len();
    while i < n_rows
        invariant
            sel.len() <= i <= n_rows <= MAX_BYTE_ROWS,
            rows@.len() == i,
            forall|i: int| 0 <= i < sel.len() ==> #[trigger] rows@[i] == byte_row(
                sel[i].rw,
                sel[i].signed,
                sel[i].adr_virt,
                sel[i].time,
                sel[i].bytes@,
                i,
            ),
            forall|j: int| sel.len() <= j < i ==> #[trigger] rows@[j] == pad_row(j),
            forall|v: u64| #[trigger] freq_count(freq, v) == count_in(checked_bytes(rows@, rows@.len() as int), v),
            checked_bytes(rows@, rows@.len() as int).len() == 4 * rows@.len(),
        decreases n_rows - i,
    {
        proof {
            crate::freq::lemma_count_le_len(checked_bytes(rows@, rows@.len() as int), 0);
        }
        let ghost prev_rows = rows@;
        count_padding(&mut freq, i);
        rows.push(padding_row(i));
        proof {
            lemma_checked_bytes_prefix(prev_rows, rows@, prev_rows.len() as int);
            assert forall|v: u64| #[trigger] freq_count(freq, v) == count_in(checked_bytes(rows@, rows@.len() as int), v) by {
                lemma_count_concat(checked_bytes(prev_rows, prev_rows.len() as int), row_bytes(pad_row(i as int)), v);
            }
        }
        i += 1;
    }
    let ghost all = checked_bytes(rows@, rows@.len() as int);
    let ghost base = rows@;
    let mut v: usize = 0;
    while v < n_rows
        invariant
            v <= n_rows,
            rows@.len() == n_rows,
            base.len() == n_rows,
            all == checked_bytes(base, n_rows as int),
            all.len() == 4 * n_rows,
            n_rows <= MAX_BYTE_ROWS,
            forall|w: u64| #[trigger] freq_count(freq, w) == count_in(all, w),
            forall|j: int| 0 <= j < v ==> #[trigger] rows@[j] == with_freq(base[j], count_in(all, j as u64) as u64),
            forall|j: int| v <= j < n_rows ==> #[trigger] rows@[j] == base[j],
        decreases n_rows - v,
    {
        let c = freq.count(v as u64);
        proof {
            crate::freq::lemma_count_le_len(all, v as u64);
        }
        let mut row = rows[v];
        row.range_check.freq = c as u64;
        rows.set(v, row);
        v += 1;
    }
    proof {
        lemma_checked_bytes_same(base, rows@, n_rows as int);
        assert forall|j: int| 0 <= j < rows@.len() implies (#[trigger] rows@[j]).range_check.freq == count_in(
            checked_bytes(rows@, rows@.len() as int),
            j as u64,
        ) by {
            crate::freq::lemma_count_le_len(all, j as u64);
        }
        assert forall|i: int| sel.len() <= i < rows@.len() implies #[trigger] rows@[i] == with_freq(pad_row(i), rows@[i].range_check.freq) by {
            assert(base[i] == pad_row(i));
        }
    }
    Ok(rows)
}

/// Rows with the same bytes check the same values.
proof fn lemma_checked_bytes_same(a: Seq<ByteCols<u64>>, b: Seq<ByteCols<u64>>, k: int)
    requires
        0 <= k <= a.len(),
        k <= b.len(),
        forall|i: int| 0 <= i < k ==> (#[trigger] a[i]).bytes == b[i].bytes,
    ensures
        checked_bytes(a, k) == checked_bytes(b, k),
    decreases k,
{
    if k > 0 {
        lemma_checked_bytes_same(a, b, k - 1);
        assert(a[k - 1].bytes == b[k - 1].bytes);
    }
}

/// Appending a row leaves the bytes checked by the earlier rows.
proof fn lemma_checked_bytes_prefix(a: Seq<ByteCols<u64>>, b: Seq<ByteCols<u64>>, k: int)
    requires
        0 <= k <= a.len(),
        k <= b.len(),
        forall|i: int| 0 <= i < k ==> a[i] == b[i],
    ensures
        checked_bytes(a, k) == checked_bytes(b, k),
    decreases k,
{
    if k > 0 {
        lemma_checked_bytes_prefix(a, b, k - 1);
    }
}

/// Occurrences in a concatenation add up.
proof fn lemma_count_concat(a: Seq<u64>, b: Seq<u64>, v: u64)
    ensures
        count_in(a + b, v) == count_in(a, v) + count_in(b, v),
    decreases b.len(),
{
    if b.len() == 0 {
        assert(a + b =~= a);
    } else {
        lemma_count_concat(a, b.drop_last(), v);
        assert((a + b).drop_last() =~= a + b.drop_last());
    }
}

/// `x * (x - 1)`: zero exactly on bits.
pub open spec fn bitc(x: int) -> int {
    fmul(x, fsub(x, 1))
}

/// `s[0] * 2^0 + .. + s[k - 1] * 2^(k - 1)` in the field.
pub open spec fn weighted(s: Seq<u64>, k: int) -> int
    decreases k,
{
    if k <= 0 {
        0
    } else {
        fadd(weighted(s, k - 1), fmul(s[k - 1] as int, vstd::arithmetic::power2::pow2((k - 1) as nat) as int))
    }
}

/// The sum of the length flags.
pub open spec fn len_filter(lv: ByteCols<u64>) -> int {
    fadd(fadd(fadd(lv.len_idx[0] as int, lv.len_idx[1] as int), lv.len_idx[2] as int), lv.len_idx[3] as int)
}

/// The pairs `(i, j)`, `i < j < 4`, in order: byte `j` lies beyond a length of `i + 1`.
pub open spec fn beyond(t: int) -> (int, int) {
    if t == 0 {
        (0, 1)
    } else if t == 1 {
        (0, 2)
    } else if t == 2 {
        (0, 3)
    } else if t == 3 {
        (1, 2)
    } else if t == 4 {
        (1, 3)
    } else {
        (2, 3)
    }
}

/// The constraints of the byte-packing table on a row `lv` and its successor `nv`.
pub open spec fn byte_constraints(lv: ByteCols<u64>, nv: ByteCols<u64>) -> Seq<(ConstraintKind, int)> {
    let every = ConstraintKind::EveryRow;
    let filter = len_filter(lv);
    let ext = lv.ext_byte as int;
    let f_signed = lv.f_signed as int;
    let sign_bit = lv.high_bits[7] as int;
    let high_byte = weighted(lv.high_bits@, 8);
    let filter_next = len_filter(nv);
    let delta = fsub(nv.range_check.count as int, lv.range_check.count as int);
    seq![cons(every, bitc(filter)), cons(ConstraintKind::FirstRow, fsub(filter, 1))]
        + Seq::new(4, |i: int| cons(every, bitc(lv.len_idx[i] as int)))
        + seq![cons(every, bitc(lv.f_rw as int)), cons(every, bitc(f_signed))]
        + Seq::new(8, |i: int| cons(every, bitc(lv.high_bits[i] as int)))
        + seq![
            cons(every, fmul(ext, fsub(ext, 255))),
            cons(every, fmul(fmul(f_signed, sign_bit), fsub(ext, 255))),
            cons(every, fmul(fadd(fsub(1, f_signed), fsub(1, sign_bit)), ext)),
        ]
        + Seq::new(4, |i: int| cons(every, fmul(lv.len_idx[i] as int, fsub(high_byte, lv.bytes[i] as int))))
        + Seq::new(
            6,
            |t: int| cons(every, fmul(lv.len_idx[beyond(t).0] as int, fsub(lv.bytes[beyond(t).1] as int, ext))),
        )
        + seq![
            cons(ConstraintKind::Transition, fmul(filter_next, fsub(filter_next, filter))),
            cons(ConstraintKind::FirstRow, lv.range_check.count as int),
            cons(ConstraintKind::Transition, bitc(delta)),
            cons(ConstraintKind::LastRow, fsub(lv.range_check.count as int, 255)),
        ]
}

/// Whether every value of a row is a canonical field element.
pub open spec fn row_is_felt(lv: ByteCols<u64>) -> bool {
    forall|i: int| 0 <= i < N_BYTE_COLS ==> (#[trigger] lv.as_seq()[i]) < ORDER
}

/// Returns `s[0] * 2^0 + .. + s[7] * 2^7` in the field.
fn eval_weighted(s: &[u64; 8]) -> (r: u64)
    requires
        forall|i: int| 0 <= i < 8 ==> s@[i] < ORDER,
    ensures
        r == weighted(s@, 8),
{
    let mut acc: u64 = 0;
    let mut base: u64 = 1;
    let mut i: usize = 0;
    proof {
        vstd::arithmetic::power2::lemma2_to64();
    }
    while i < 8
        invariant
            i <= 8,
            forall|i: int| 0 <= i < 8 ==> s@[i] < ORDER,
            acc == weighted(s@, i as int),
            acc < ORDER,
            base == vstd::arithmetic::power2::pow2(i as nat),
            base <= 256,
        decreases 8 - i,
    {
        proof {
            vstd::arithmetic::power2::lemma2_to64();
        }
        acc = felt_add(acc, felt_mul(s[i], base));
        proof {
            vstd::arithmetic::power2::lemma_pow2_adds(i as nat, 1);
        }
        base = base * 2;
        i += 1;
    }
    acc
}

/// Emits the constraints of the byte-packing table on `lv` and its successor `nv`.
#[verifier::rlimit(60)]
pub fn eval(lv: &ByteCols<u64>, nv: &ByteCols<u64>, cc: &mut ConstraintSet)
    requires
        row_is_felt(*lv),
        row_is_felt(*nv),
    ensures
        final(cc)@ == old(cc)@ + byte_constraints(*lv, *nv),
{
    let ghost s = lv.as_seq();
    assert forall|i: int| 0 <= i < 4 implies lv.len_idx[i] < ORDER && lv.bytes[i] < ORDER by {
        assert(s[5 + i] == lv.len_idx[i] && s[5 + i] < ORDER);
        assert(s[9 + i] == lv.bytes[i] && s[9 + i] < ORDER);
    }
    assert forall|i: int| 0 <= i < 8 implies lv.high_bits[i] < ORDER by {
        assert(s[13 + i] == lv.high_bits[i] && s[13 + i] < ORDER);
    }
    assert(s[0] < ORDER && s[1] < ORDER && s[2] < ORDER && s[21] < ORDER);
    assert(nv.as_seq()[5] < ORDER && nv.as_seq()[6] < ORDER && nv.as_seq()[7] < ORDER);
    assert(nv.as_seq()[8] < ORDER && nv.as_seq()[21] < ORDER);
    let ghost c0 = cc@;
    let filter = felt_add(felt_add(felt_add(lv.len_idx[0], lv.len_idx[1]), lv.len_idx[2]), lv.len_idx[3]);
    cc.constraint(felt_mul(filter, felt_sub(filter, 1)));
    cc.constraint_first_row(felt_sub(filter, 1));
    let ghost c1 = cc@;
    let mut i: usize = 0;
    while i < 4
        invariant
            i <= 4,
            forall|i: int| 0 <= i < 4 ==> lv.len_idx[i] < ORDER,
            cc@ == c1 + Seq::new(i as nat, |k: int| cons(ConstraintKind::EveryRow, bitc(lv.len_idx[k] as int))),
        decreases 4 - i,
    {
        let x = lv.len_idx[i];
        cc.constraint(felt_mul(x, felt_sub(x, 1)));
        i += 1;
        assert(cc@ =~= c1 + Seq::new(i as nat, |k: int| cons(ConstraintKind::EveryRow, bitc(lv.len_idx[k] as int))));
    }
    cc.constraint(felt_mul(lv.f_rw, felt_sub(lv.f_rw, 1)));
    cc.constraint(felt_mul(lv.f_signed, felt_sub(lv.f_signed, 1)));
    let ghost c2 = cc@;
    let mut i: usize = 0;
    while i < 8
        invariant
            i <= 8,
            forall|i: int| 0 <= i < 8 ==> lv.high_bits[i] < ORDER,
            cc@ == c2 + Seq::new(i as nat, |k: int| cons(ConstraintKind::EveryRow, bitc(lv.high_bits[k] as int))),
        decreases 8 - i,
    {
        let x = lv.high_bits[i];
        cc.constraint(felt_mul(x, felt_sub(x, 1)));
        i += 1;
        assert(cc@ =~= c2 + Seq::new(i as nat, |k: int| cons(ConstraintKind::EveryRow, bitc(lv.high_bits[k] as int))));
    }
    let ext = lv.ext_byte;
    let sign_bit = lv.high_bits[7];
    cc.constraint(felt_mul(ext, felt_sub(ext, 255)));
    cc.constraint(felt_mul(felt_mul(lv.f_signed, sign_bit), felt_sub(ext, 255)));
    cc.constraint(felt_mul(felt_add(felt_sub(1, lv.f_signed), felt_sub(1, sign_bit)), ext));
    let high_byte = eval_weighted(&lv.high_bits);
    let ghost c3 = cc@;
    let mut i: usize = 0;
    while i < 4
        invariant
            i <= 4,
            forall|i: int| 0 <= i < 4 ==> lv.len_idx[i] < ORDER,
            forall|i: int| 0 <= i < 4 ==> lv.bytes[i] < ORDER,
            high_byte < ORDER,
            high_byte == weighted(lv.high_bits@, 8),
            cc@ == c3 + Seq::new(
                i as nat,
                |k: int| cons(ConstraintKind::EveryRow, fmul(lv.len_idx[k] as int, fsub(high_byte as int, lv.bytes[k] as int))),
            ),
        decreases 4 - i,
    {
        cc.constraint(felt_mul(lv.len_idx[i], felt_sub(high_byte, lv.bytes[i])));
        i += 1;
        assert(cc@ =~= c3 + Seq::new(
            i as nat,
            |k: int| cons(ConstraintKind::EveryRow, fmul(lv.len_idx[k] as int, fsub(high_byte as int, lv.bytes[k] as int))),
        ));
    }
    let ghost c4 = cc@;
    let mut t: usize = 0;
    let mut i: usize = 0;
    while i < 4
        invariant
            i <= 4,
            t == (if i == 0 { 0int } else if i == 1 { 3int } else if i == 2 { 5int } else { 6int }),
            forall|i: int| 0 <= i < 4 ==> lv.len_idx[i] < ORDER,
            forall|i: int| 0 <= i < 4 ==> lv.bytes[i] < ORDER,
            ext < ORDER,
            cc@ == c4 + Seq::new(
                t as nat,
                |u: int| cons(ConstraintKind::EveryRow, fmul(lv.len_idx[beyond(u).0] as int, fsub(lv.bytes[beyond(u).1] as int, ext as int))),
            ),
        decreases 4 - i,
    {
        let mut j: usize = i + 1;
        while j < 4
            invariant
                i < 4,
                i + 1 <= j <= 4,
                t == (if i == 0 { 0int } else if i == 1 { 3int } else if i == 2 { 5int } else { 6int }) + (j - i - 1),
                forall|i: int| 0 <= i < 4 ==> lv.len_idx[i] < ORDER,
                forall|i: int| 0 <= i < 4 ==> lv.bytes[i] < ORDER,
                ext < ORDER,
                cc@ == c4 + Seq::new(
                    t as nat,
                    |u: int| cons(ConstraintKind::EveryRow, fmul(lv.len_idx[beyond(u).0] as int, fsub(lv.bytes[beyond(u).1] as int, ext as int))),
                ),
            decreases 4 - j,
        {
            assert(beyond(t as int) == (i as int, j as int));
            cc.constraint(felt_mul(lv.len_idx[i], felt_sub(lv.bytes[j], ext)));
            t += 1;
            j += 1;
            assert(cc@ =~= c4 + Seq::new(
                t as nat,
                |u: int| cons(ConstraintKind::EveryRow, fmul(lv.len_idx[beyond(u).0] as int, fsub(lv.bytes[beyond(u).1] as int, ext as int))),
            ));
        }
        i += 1;
    }
    let filter_next = felt_add(felt_add(felt_add(nv.len_idx[0], nv.len_idx[1]), nv.len_idx[2]), nv.len_idx[3]);
    cc.constraint_transition(felt_mul(filter_next, felt_sub(filter_next, filter)));
    let count = lv.range_check.count;
    let delta = felt_sub(nv.range_check.count, count);
    cc.constraint_first_row(count);
    cc.constraint_transition(felt_mul(delta, felt_sub(delta, 1)));
    cc.constraint_last_row(felt_sub(count, 255));
    assert(cc@ =~= old(cc)@ + byte_constraints(*lv, *nv));
}

/// The columns and filter of [`ctl_looked`].
pub open spec fn looked_bytes(r: crate::ctl::TableWithColumns) -> bool {
    &&& r.table == crate::stark::table_index(crate::stark::Table::Bytes)
    &&& r.columns@.len() == 6
    &&& r.columns@[0].lin@ == seq![(0usize, 1u64)]
    &&& r.columns@[1].lin@ == seq![(1usize, 1u64)]
    &&& r.columns@[2].lin@ == seq![(3usize, 1u64)]
    &&& r.columns@[3].lin@ == seq![(5usize, 1u64), (6usize, 2u64), (7usize, 3u64), (8usize, 4u64)]
    &&& r.columns@[4].lin@ == seq![(9usize, 1u64), (10usize, 256u64), (11usize, 65536u64), (12usize, 16777216u64)]
    &&& r.columns@[5].lin@ == seq![(4usize, 1u64)]
    &&& forall|k: int| 0 <= k < 6 ==> (#[trigger] r.columns@[k]).constant == 0
    &&& r.filter.products@.len() == 0 && r.filter.constants@.len() == 1
    &&& r.filter.constants@[0].lin@ == seq![(5usize, 1u64), (6usize, 1u64), (7usize, 1u64), (8usize, 1u64)]
    &&& r.filter.constants@[0].constant == 0
}

/// The lookup that the byte-packing table offers: `(f_rw, f_signed,
/// adr_virt, length, value, time)` on the rows of real operations; the
/// length is read from the one-hot length flags and the value from the
/// little-endian bytes.
pub fn ctl_looked() -> (r: crate::ctl::TableWithColumns)
    ensures
        looked_bytes(r),
{
    let len = Column::linear_combination(vec![(5usize, 1u64), (6, 2), (7, 3), (8, 4)]);
    let val = Column::linear_combination(vec![(9usize, 1u64), (10, 256), (11, 65536), (12, 16777216)]);
    let cols = vec![Column::single(0), Column::single(1), Column::single(3), len, val, Column::single(4)];
    let filter = crate::ctl::Filter::new_simple(Column::sum(&vec![5usize, 6, 7, 8]));
    let r = crate::ctl::TableWithColumns::new(crate::stark::Table::Bytes.index(), cols, filter);
    assert(r.filter.constants@[0].lin@ =~= seq![(5usize, 1u64), (6usize, 1u64), (7usize, 1u64), (8usize, 1u64)]);
    r
}

/// The columns and filter of [`ctl_looking_mem`] for byte `i`.
pub open spec fn looking_bytes_mem(r: crate::ctl::TableWithColumns, i: usize) -> bool {
    &&& r.table == crate::stark::table_index(crate::stark::Table::Bytes)
    &&& r.columns@.len() == 5
    &&& r.columns@[0].lin@ == seq![(0usize, 1u64)] && r.columns@[0].constant == 0
    &&& r.columns@[1].lin@.len() == 0 && r.columns@[1].constant == 1
    &&& r.columns@[2].lin@ == seq![(3usize, 1u64), (5usize, 0u64), (6usize, 1u64), (7usize, 2u64), (8usize, 3u64)]
    &&& r.columns@[2].constant == (if i == 0 { 0 } else { ORDER - i })
    &&& r.columns@[3].lin@ == seq![((9 + i) as usize, 1u64)] && r.columns@[3].constant == 0
    &&& r.columns@[4].lin@ == seq![(4usize, 1u64)] && r.columns@[4].constant == 0
    &&& r.filter.products@.len() == 0 && r.filter.constants@.len() == 1
    &&& r.filter.constants@[0].lin@ == Seq::new((4 - i) as nat, |k: int| ((5 + i + k) as usize, 1u64))
}

/// The lookup of byte `i` of an operation into the memory table:
/// `(f_rw, 1, adr_virt + length - 1 - i, byte, time)` on the rows whose
/// length exceeds `i`; byte `i` counts from the least significant, which
/// lies at the highest address.
pub fn ctl_looking_mem(i: usize) -> (r: crate::ctl::TableWithColumns)
    requires
        i < BYTES_WORD,
    ensures
        looking_bytes_mem(r, i),
{
    let adr_comb = vec![(3usize, 1u64), (5, 0), (6, 1), (7, 2), (8, 3)];
    let neg_i = if i == 0 {
        0
    } else {
        ORDER - i as u64
    };
    let adr_virt = Column::linear_combination_with_constant(adr_comb, neg_i);
    let cols = vec![
        Column::single(0),
        Column::constant(1),
        adr_virt,
        Column::single(9 + i),
        Column::single(4),
    ];
    let mut idx: Vec<usize> = Vec::new();
    let mut k: usize = 5 + i;
    while k < 9
        invariant
            5 + i <= k <= 9,
            idx@ == Seq::new((k - 5 - i) as nat, |j: int| (5 + i + j) as usize),
        decreases 9 - k,
    {
        idx.push(k);
        k += 1;
        assert(idx@ =~= Seq::new((k - 5 - i) as nat, |j: int| (5 + i + j) as usize));
    }
    let filter = crate::ctl::Filter::new_simple(Column::sum(&idx));
    let r = crate::ctl::TableWithColumns::new(crate::stark::Table::Bytes.index(), cols, filter);
    assert(r.filter.constants@[0].lin@ =~= Seq::new((4 - i) as nat, |k: int| ((5 + i + k) as usize, 1u64)));
    r
}

/// The table as a unit of the proof: its constraints and their degree.
#[derive(Clone, Copy, Debug, Default)]
pub struct ByteStark {}

impl ByteStark {
    /// Emits every constraint of the table on a row and its successor.
    pub fn eval_all(&self, lv: &ByteCols<u64>, nv: &ByteCols<u64>, cc: &mut ConstraintSet)
        requires
            row_is_felt(*lv),
            row_is_felt(*nv),
        ensures
            final(cc)@ == old(cc)@ + byte_constraints(*lv, *nv),
    {
        eval(lv, nv, cc)
    }

    /// The largest degree of the table's constraints.
    pub fn constraint_degree(&self) -> (r: usize)
        ensures
            r == crate::stark::CONSTRAINT_DEGREE,
    {
        crate::stark::CONSTRAINT_DEGREE
    }

    /// Whether the table takes part in cross-table lookups.
    pub fn requires_ctls(&self) -> (r: bool)
        ensures
            r,
    {
        true
    }
}

/// The sum of the frequency column over the first `k` rows.
pub open spec fn freq_sum(rows: Seq<ByteCols<u64>>, k: int) -> int
    decreases k,
{
    if k <= 0 {
        0
    } else {
        freq_sum(rows, k - 1) + rows[k - 1].range_check.freq
    }
}

/// The bytes of every row of a byte-packing trace are bytes.
proof fn lemma_checked_are_bytes(sel: Seq<ByteOp>, rows: Seq<ByteCols<u64>>, k: int)
    requires
        is_byte_trace(sel, rows),
        forall|i: int| 0 <= i < sel.len() ==> 1 <= (#[trigger] sel[i]).bytes@.len() <= BYTES_WORD,
        0 <= k <= rows.len(),
    ensures
        checked_bytes(rows, k).len() == 4 * k,
        forall|j: int| 0 <= j < checked_bytes(rows, k).len() ==> #[trigger] checked_bytes(rows, k)[j] <= BYTE_MAX,
    decreases k,
{
    if k > 0 {
        lemma_checked_are_bytes(sel, rows, k - 1);
        let r = rows[k - 1];
        assert forall|j: int| 0 <= j < 4 implies #[trigger] r.bytes@[j] <= BYTE_MAX by {
            if k - 1 < sel.len() {
                let o = sel[k - 1];
                assert(r.bytes@[j] == le_byte(o.signed, o.bytes@, j) as u64);
            }
        }
        let prev = checked_bytes(rows, k - 1);
        assert forall|j: int| 0 <= j < checked_bytes(rows, k).len() implies #[trigger] checked_bytes(rows, k)[j] <= BYTE_MAX by {
            if j >= prev.len() {
                assert(checked_bytes(rows, k)[j] == r.bytes@[j - prev.len()]);
            }
        }
    }
}

/// The frequency column of the first `k` rows sums the occurrences of the
/// values `0..k`.
proof fn lemma_freq_sum(rows: Seq<ByteCols<u64>>, all: Seq<u64>, k: int)
    requires
        0 <= k <= rows.len(),
        all.len() <= u64::MAX,
        forall|v: int| 0 <= v < rows.len() ==> (#[trigger] rows[v]).range_check.freq == count_in(all, v as u64),
    ensures
        freq_sum(rows, k) == crate::freq::sum_counts(all, k as nat),
    decreases k,
{
    if k > 0 {
        lemma_freq_sum(rows, all, k - 1);
        assert(rows[k - 1].range_check.freq == count_in(all, (k - 1) as u64));
    }
}

/// Range-check soundness of a generated byte-packing trace: the frequency
/// column sums to the number of checked bytes, four per row, and each
/// checked byte has a row whose counter holds it.
pub proof fn lemma_byte_range_check(sel: Seq<ByteOp>, rows: Seq<ByteCols<u64>>)
    requires
        is_byte_trace(sel, rows),
        forall|i: int| 0 <= i < sel.len() ==> 1 <= (#[trigger] sel[i]).bytes@.len() <= BYTES_WORD,
        256 <= rows.len() <= MAX_BYTE_ROWS,
        forall|v: int|
            0 <= v < rows.len() ==> (#[trigger] rows[v]).range_check.freq == count_in(
                checked_bytes(rows, rows.len() as int),
                v as u64,
            ),
    ensures
        freq_sum(rows, rows.len() as int) == checked_bytes(rows, rows.len() as int).len(),
        checked_bytes(rows, rows.len() as int).len() == 4 * rows.len(),
        forall|j: int|
            0 <= j < checked_bytes(rows, rows.len() as int).len() ==> rows[#[trigger] checked_bytes(
                rows,
                rows.len() as int,
            )[j] as int].range_check.count == checked_bytes(rows, rows.len() as int)[j],
{
    let n = rows.len() as int;
    let all = checked_bytes(rows, n);
    lemma_checked_are_bytes(sel, rows, n);
    lemma_freq_sum(rows, all, n);
    crate::freq::lemma_sum_counts_all(all, n as nat);
    assert forall|j: int| 0 <= j < all.len() implies rows[#[trigger] all[j] as int].range_check.count == all[j] by {
        let v = all[j] as int;
        let r = rows[v];
        if v < sel.len() {
            assert(r.range_check.count == rc_count(v));
        } else {
            assert(r.range_check.count == rc_count(v));
        }
    }
}

/// A bit satisfies its bit constraint.
proof fn lemma_bitc(b: int)
    requires
        b == 0 || b == 1,
    ensures
        bitc(b) == 0,
{
    crate::field::lemma_felt_small(0);
    crate::field::lemma_fmul_zero(fsub(b, 1));
    crate::field::lemma_fmul_zero(b);
}

/// Bit `i` of a byte is the parity of `b / 2^i`.
proof fn lemma_bit_of(b: u8, i: int)
    requires
        0 <= i < 8,
    ensures
        bit_of(b, i as u8) == (b as int / vstd::arithmetic::power2::pow2(i as nat) as int) % 2,
        bit_of(b, i as u8) <= 1,
{
    let iu = i as u8;
    vstd::bits::lemma_u8_shr_is_div(b, iu);
    let z = b >> iu;
    assert((z & 1u8) == z % 2) by (bit_vector);
}

/// The weighted bits of a byte give its value modulo `2^k`.
proof fn lemma_weighted_byte(s: Seq<u64>, b: u8, k: int)
    requires
        s.len() == 8,
        forall|i: int| 0 <= i < 8 ==> #[trigger] s[i] == bit_of(b, i as u8),
        0 <= k <= 8,
    ensures
        weighted(s, k) == b as int % vstd::arithmetic::power2::pow2(k as nat) as int,
    decreases k,
{
    vstd::arithmetic::power2::lemma2_to64();
    if k == 0 {
        assert(b as int % 1 == 0);
    } else {
        lemma_weighted_byte(s, b, k - 1);
        lemma_bit_of(b, k - 1);
        let p = vstd::arithmetic::power2::pow2((k - 1) as nat) as int;
        vstd::arithmetic::power2::lemma_pow2_pos((k - 1) as nat);
        vstd::arithmetic::power2::lemma_pow2_adds((k - 1) as nat, 1);
        vstd::arithmetic::div_mod::lemma_mod_breakdown(b as int, p, 2);
        vstd::arithmetic::mul::lemma_mul_is_commutative(p, (b as int / p) % 2);
        if k - 1 < 7 {
            vstd::arithmetic::power2::lemma_pow2_strictly_increases((k - 1) as nat, 7);
        }
        let bit = s[k - 1] as int;
        assert(0 <= bit * p <= p) by (nonlinear_arith)
            requires
                0 <= bit <= 1,
                p > 0,
        ;
        vstd::arithmetic::div_mod::lemma_mod_bound(b as int, p);
        crate::field::lemma_felt_small(bit);
        crate::field::lemma_felt_small(bit * p);
        crate::field::lemma_felt_small(b as int % p + bit * p);
    }
}

/// Whether the constraints of a row that are neither transitions nor first
/// or last row constraints, but for the length filter, vanish.
pub open spec fn every_ok(lv: ByteCols<u64>) -> bool {
    &&& forall|k: int| 0 <= k < 4 ==> bitc(#[trigger] lv.len_idx[k] as int) == 0
    &&& bitc(lv.f_rw as int) == 0 && bitc(lv.f_signed as int) == 0
    &&& forall|k: int| 0 <= k < 8 ==> bitc(#[trigger] lv.high_bits[k] as int) == 0
    &&& fmul(lv.ext_byte as int, fsub(lv.ext_byte as int, 255)) == 0
    &&& fmul(fmul(lv.f_signed as int, lv.high_bits[7] as int), fsub(lv.ext_byte as int, 255)) == 0
    &&& fmul(fadd(fsub(1, lv.f_signed as int), fsub(1, lv.high_bits[7] as int)), lv.ext_byte as int) == 0
    &&& forall|k: int| 0 <= k < 4 ==> fmul(#[trigger] lv.len_idx[k] as int, fsub(weighted(lv.high_bits@, 8), lv.bytes[k] as int)) == 0
    &&& forall|t: int| 0 <= t < 6 ==> fmul(lv.len_idx[(#[trigger] beyond(t)).0] as int, fsub(lv.bytes[beyond(t).1] as int, lv.ext_byte as int)) == 0
}

/// The sum of one-hot length flags is one.
proof fn lemma_len_filter(lv: ByteCols<u64>, n: int)
    requires
        1 <= n <= 4,
        forall|i: int| 0 <= i < 4 ==> lv.len_idx[i] == bit(i == n - 1),
    ensures
        len_filter(lv) == 1,
{
    assert(lv.len_idx[0] == bit(0 == n - 1));
    assert(lv.len_idx[1] == bit(1 == n - 1));
    assert(lv.len_idx[2] == bit(2 == n - 1));
    assert(lv.len_idx[3] == bit(3 == n - 1));
    crate::field::lemma_felt_small(0);
    crate::field::lemma_felt_small(1);
}

/// The constraints of one row, without the transitions and the first and
/// last row constraints, vanish on the row of an operation.
proof fn lemma_op_row_every(o: ByteOp, i: int, f: u64)
    requires
        1 <= o.bytes@.len() <= BYTES_WORD,
    ensures
        ({
            let lv = with_freq(byte_row(o.rw, o.signed, o.adr_virt, o.time, o.bytes@, i), f);
            &&& len_filter(lv) == 1
            &&& every_ok(lv)
        }),
{
    let b = o.bytes@;
    let n = b.len() as int;
    let lv = with_freq(byte_row(o.rw, o.signed, o.adr_virt, o.time, b, i), f);
    let ext = ext_of(o.signed, b);
    crate::field::lemma_felt_small(0);
    crate::field::lemma_felt_small(1);
    crate::field::lemma_felt_small(255);
    assert forall|k: int| 0 <= k < 4 implies lv.len_idx[k] == bit(k == n - 1) by {}
    lemma_len_filter(lv, n);
    assert forall|k: int| 0 <= k < 4 implies bitc(#[trigger] lv.len_idx[k] as int) == 0 by {
        lemma_bitc(lv.len_idx[k] as int);
    }
    lemma_bitc(lv.f_rw as int);
    lemma_bitc(lv.f_signed as int);
    let hb = Seq::new(8, |k: int| bit_of(b[0], k as u8));
    assert(lv.high_bits@ =~= hb);
    assert forall|k: int| 0 <= k < 8 implies bitc(#[trigger] lv.high_bits[k] as int) == 0 by {
        lemma_bit_of(b[0], k);
        assert(lv.high_bits[k] == hb[k]);
        lemma_bitc(lv.high_bits[k] as int);
    }
    // the sign bit and the extension byte
    lemma_bit_of(b[0], 7);
    vstd::arithmetic::power2::lemma2_to64();
    assert(lv.high_bits[7] == bit_of(b[0], 7));
    assert((lv.high_bits[7] == 1) == (b[0] >= 128)) by {
        assert(b[0] as int / 128 < 2);
        assert((b[0] as int / 128 == 1) == (b[0] >= 128));
    }
    lemma_fmul_facts(lv.f_signed as int, lv.high_bits[7] as int, ext as int);
    // the high byte is the most significant byte
    lemma_weighted_byte(lv.high_bits@, b[0], 8);
    vstd::arithmetic::div_mod::lemma_small_mod(b[0] as nat, 256);
    assert forall|k: int| 0 <= k < 4 implies fmul(#[trigger] lv.len_idx[k] as int, fsub(weighted(lv.high_bits@, 8), lv.bytes[k] as int)) == 0 by {
        if k == n - 1 {
            assert(lv.bytes[k] == le_byte(o.signed, b, k) as u64);
            assert(le_byte(o.signed, b, k) == b[0]);
            crate::field::lemma_fmul_zero(1);
        } else {
            crate::field::lemma_fmul_zero(fsub(weighted(lv.high_bits@, 8), lv.bytes[k] as int));
        }
    }
    assert forall|t: int| 0 <= t < 6 implies fmul(lv.len_idx[(#[trigger] beyond(t)).0] as int, fsub(lv.bytes[beyond(t).1] as int, lv.ext_byte as int)) == 0 by {
        let (a, c) = beyond(t);
        if a == n - 1 {
            assert(lv.bytes[c] == le_byte(o.signed, b, c) as u64);
            crate::field::lemma_fmul_zero(1);
        } else {
            crate::field::lemma_fmul_zero(fsub(lv.bytes[c] as int, lv.ext_byte as int));
        }
    }
}

/// The extension constraints hold where the extension byte is `0xff`
/// exactly for signed bytes with the sign bit set.
proof fn lemma_fmul_facts(f_signed: int, sign: int, ext: int)
    requires
        f_signed == 0 || f_signed == 1,
        sign == 0 || sign == 1,
        ext == (if f_signed == 1 && sign == 1 { 255int } else { 0int }),
    ensures
        fmul(ext, fsub(ext, 255)) == 0,
        fmul(fmul(f_signed, sign), fsub(ext, 255)) == 0,
        fmul(fadd(fsub(1, f_signed), fsub(1, sign)), ext) == 0,
{
    crate::field::lemma_felt_small(0);
    crate::field::lemma_felt_small(1);
    crate::field::lemma_felt_small(2);
    crate::field::lemma_felt_small(255);
    crate::field::lemma_fmul_zero(fsub(ext, 255));
    crate::field::lemma_fmul_zero(ext);
    crate::field::lemma_fmul_zero(sign);
    crate::field::lemma_fmul_zero(f_signed);
    crate::field::lemma_fmul_zero(fsub(1, f_signed));
    crate::field::lemma_fmul_zero(fadd(fsub(1, f_signed), fsub(1, sign)));
    crate::field::lemma_fmul_one(1);
    crate::field::lemma_fmul_zero(fmul(f_signed, sign));
}

/// The constraints of a padding row, without the transitions and the first
/// and last row constraints, vanish.
proof fn lemma_pad_row_every(i: int, f: u64)
    ensures
        ({
            let lv = with_freq(pad_row(i), f);
            &&& len_filter(lv) == 0
            &&& every_ok(lv)
        }),
{
    let lv = with_freq(pad_row(i), f);
    crate::field::lemma_felt_small(0);
    lemma_bitc(0);
    lemma_fmul_facts(0, 0, 0);
    assert forall|k: int| 0 <= k < 4 implies fmul(#[trigger] lv.len_idx[k] as int, fsub(weighted(lv.high_bits@, 8), lv.bytes[k] as int)) == 0 by {
        crate::field::lemma_fmul_zero(fsub(weighted(lv.high_bits@, 8), lv.bytes[k] as int));
    }
    assert forall|t: int| 0 <= t < 6 implies fmul(lv.len_idx[(#[trigger] beyond(t)).0] as int, fsub(lv.bytes[beyond(t).1] as int, lv.ext_byte as int)) == 0 by {
        crate::field::lemma_fmul_zero(fsub(lv.bytes[beyond(t).1] as int, lv.ext_byte as int));
    }
}

/// The constraints on a row and its successor hold where the row's own
/// constraints vanish, its length filter is a bit (one on the first row),
/// the filter stays or drops to zero, and the counter starts at zero,
/// steps by zero or one, and ends at 255.
#[verifier::rlimit(80)]
proof fn lemma_row_constraints_hold(lv: ByteCols<u64>, nv: ByteCols<u64>, i: int, n: int)
    requires
        every_ok(lv),
        len_filter(lv) == 0 || len_filter(lv) == 1,
        i == 0 ==> len_filter(lv) == 1,
        i < n - 1 ==> len_filter(nv) == 0 || (len_filter(nv) == 1 && len_filter(lv) == 1),
        i == 0 ==> lv.range_check.count == 0,
        i < n - 1 ==> (nv.range_check.count == lv.range_check.count || nv.range_check.count
            == lv.range_check.count + 1),
        i < n - 1 ==> lv.range_check.count < ORDER - 1,
        i == n - 1 ==> lv.range_check.count == 255,
    ensures
        all_hold_at(byte_constraints(lv, nv), i, n),
{
    let e = ConstraintKind::EveryRow;
    crate::field::lemma_felt_small(0);
    crate::field::lemma_felt_small(1);
    crate::field::lemma_felt_small(255);
    let filter = len_filter(lv);
    let ext = lv.ext_byte as int;
    let f_signed = lv.f_signed as int;
    let sign_bit = lv.high_bits[7] as int;
    let high_byte = weighted(lv.high_bits@, 8);
    let filter_next = len_filter(nv);
    let delta = fsub(nv.range_check.count as int, lv.range_check.count as int);
    let a = seq![cons(e, bitc(filter)), cons(ConstraintKind::FirstRow, fsub(filter, 1))];
    let b = Seq::new(4, |k: int| cons(e, bitc(lv.len_idx[k] as int)));
    let c = seq![cons(e, bitc(lv.f_rw as int)), cons(e, bitc(f_signed))];
    let d = Seq::new(8, |k: int| cons(e, bitc(lv.high_bits[k] as int)));
    let ee = seq![
        cons(e, fmul(ext, fsub(ext, 255))),
        cons(e, fmul(fmul(f_signed, sign_bit), fsub(ext, 255))),
        cons(e, fmul(fadd(fsub(1, f_signed), fsub(1, sign_bit)), ext)),
    ];
    let f = Seq::new(4, |k: int| cons(e, fmul(lv.len_idx[k] as int, fsub(high_byte, lv.bytes[k] as int))));
    let g = Seq::new(
        6,
        |t: int| cons(e, fmul(lv.len_idx[beyond(t).0] as int, fsub(lv.bytes[beyond(t).1] as int, ext))),
    );
    let h = seq![
        cons(ConstraintKind::Transition, fmul(filter_next, fsub(filter_next, filter))),
        cons(ConstraintKind::FirstRow, lv.range_check.count as int),
        cons(ConstraintKind::Transition, bitc(delta)),
        cons(ConstraintKind::LastRow, fsub(lv.range_check.count as int, 255)),
    ];
    assert(byte_constraints(lv, nv) == a + b + c + d + ee + f + g + h);
    lemma_bitc(filter);
    assert(all_hold_at(a, i, n));
    assert(all_hold_at(b, i, n));
    assert(all_hold_at(c, i, n));
    assert(all_hold_at(d, i, n));
    assert(all_hold_at(ee, i, n));
    assert(all_hold_at(f, i, n));
    assert(all_hold_at(g, i, n));
    assert(all_hold_at(h, i, n)) by {
        if i < n - 1 {
            if filter_next == 1 {
                crate::field::lemma_fmul_zero(1);
            } else {
                crate::field::lemma_fmul_zero(fsub(filter_next, filter));
            }
            crate::field::lemma_felt_small(nv.range_check.count - lv.range_check.count);
            lemma_bitc(delta);
        }
    }
    crate::constraint::lemma_all_hold_concat(a, b, i, n);
    crate::constraint::lemma_all_hold_concat(a + b, c, i, n);
    crate::constraint::lemma_all_hold_concat(a + b + c, d, i, n);
    crate::constraint::lemma_all_hold_concat(a + b + c + d, ee, i, n);
    crate::constraint::lemma_all_hold_concat(a + b + c + d + ee, f, i, n);
    crate::constraint::lemma_all_hold_concat(a + b + c + d + ee + f, g, i, n);
    crate::constraint::lemma_all_hold_concat(a + b + c + d + ee + f + g, h, i, n);
}

/// Every constraint of the byte-packing table holds on row `i` of a
/// generated trace, taken with its successor.
proof fn lemma_byte_row_holds(sel: Seq<ByteOp>, rows: Seq<ByteCols<u64>>, i: int)
    requires
        is_byte_trace(sel, rows),
        forall|j: int| 0 <= j < sel.len() ==> 1 <= (#[trigger] sel[j]).bytes@.len() <= BYTES_WORD,
        1 <= sel.len(),
        256 <= rows.len() <= MAX_BYTE_ROWS,
        0 <= i < rows.len(),
    ensures
        all_hold_at(byte_constraints(rows[i], rows[(i + 1) % (rows.len() as int)]), i, rows.len() as int),
{
    let n = rows.len() as int;
    let j = (i + 1) % n;
    let lv = rows[i];
    let nv = rows[j];
    if i + 1 < n {
        vstd::arithmetic::div_mod::lemma_small_mod((i + 1) as nat, n as nat);
    } else {
        vstd::arithmetic::div_mod::lemma_mod_self_0(n);
    }
    if i < sel.len() {
        lemma_op_row_every(sel[i], i, lv.range_check.freq);
    } else {
        lemma_pad_row_every(i, lv.range_check.freq);
    }
    if j < sel.len() {
        lemma_op_row_every(sel[j], j, nv.range_check.freq);
    } else {
        lemma_pad_row_every(j, nv.range_check.freq);
    }
    assert(lv.range_check.count == rc_count(i));
    assert(nv.range_check.count == rc_count(j));
    lemma_row_constraints_hold(lv, nv, i, n);
}

/// A generated byte-packing trace, operation rows and padding rows alike,
/// satisfies every constraint of the table on every row, with the first-row
/// and last-row constraints met at the true boundaries.
pub proof fn lemma_byte_trace_holds(sel: Seq<ByteOp>, rows: Seq<ByteCols<u64>>)
    requires
        is_byte_trace(sel, rows),
        forall|j: int| 0 <= j < sel.len() ==> 1 <= (#[trigger] sel[j]).bytes@.len() <= BYTES_WORD,
        1 <= sel.len(),
        256 <= rows.len() <= MAX_BYTE_ROWS,
    ensures
        forall|i: int|
            0 <= i < rows.len() ==> all_hold_at(
                #[trigger] byte_constraints(rows[i], rows[(i + 1) % (rows.len() as int)]),
                i,
                rows.len() as int,
            ),
{
    assert forall|i: int| 0 <= i < rows.len() implies all_hold_at(
        #[trigger] byte_constraints(rows[i], rows[(i + 1) % (rows.len() as int)]),
        i,
        rows.len() as int,
    ) by {
        lemma_byte_row_holds(sel, rows, i);
    }
}

/// The range check of the byte-packing table: each of the four bytes of
/// every row must appear in the counter column; the frequency column counts
/// them.
pub fn lookups() -> (r: crate::ctl::Lookup)
    ensures
        r.columns@ == seq![(9usize, false), (10usize, false), (11usize, false), (12usize, false)],
        r.filter_columns@ == seq![None::<usize>, None, None, None],
        r.table_column == 21,
        r.frequencies_column == 22,
{
    let r = crate::ctl::Lookup {
        columns: vec![(9usize, false), (10, false), (11, false), (12, false)],
        filter_columns: vec![None, None, None, None],
        table_column: 21,
        frequencies_column: 22,
    };
    assert(r.columns@ =~= seq![(9usize, false), (10usize, false), (11usize, false), (12usize, false)]);
    assert(r.filter_columns@ =~= seq![None::<usize>, None, None, None]);
    r
}

/// Returns the byte-packing trace of `ops` as columns, each holding one
/// value per row; fails as [`gen_trace_rows`] does.
pub fn gen_trace(ops: &Vec<ByteOp>, min_rows: usize) -> (r: Result<Vec<Vec<u64>>, ByteError>)
    requires
        ops@.len() <= MAX_ROWS,
    ensures
        r matches Err(ByteError::InvalidLength(k)) ==> k < ops@.len() && !valid_len(ops@[k as int])
            && forall|j: int| 0 <= j < k ==> valid_len(#[trigger] ops@[j]),
        r matches Err(ByteError::TooManyRows) ==> (forall|j: int| 0 <= j < ops@.len() ==> valid_len(#[trigger] ops@[j]))
            && min_size(ops@.len() as int, min_rows as int) > MAX_BYTE_ROWS,
        (forall|j: int| 0 <= j < ops@.len() ==> valid_len(#[trigger] ops@[j])) && min_size(
            ops@.len() as int,
            min_rows as int,
        ) <= MAX_BYTE_ROWS ==> r is Ok,
        r matches Ok(cols) ==> cols@.len() == N_BYTE_COLS && exists|rows: Seq<ByteCols<u64>>|
            {
                &&& #[trigger] is_byte_trace(ops@, rows)
                &&& crate::trace::is_next_pow2(min_size(ops@.len() as int, min_rows as int), rows.len() as int)
                &&& forall|j: int| 0 <= j < N_BYTE_COLS ==> (#[trigger] cols@[j])@.len() == rows.len()
                &&& forall|i: int, j: int|
                    0 <= i < rows.len() && 0 <= j < N_BYTE_COLS ==> cols@[j]@[i] == rows[i].as_seq()[j]
            },
{
    let rows = match gen_trace_rows(ops, min_rows) {
        Ok(rows) => rows,
        Err(e) => return Err(e),
    };
    let mut flat: Vec<Vec<u64>> = Vec::new();
    let mut i: usize = 0;
    while i < rows.len()
        invariant
            i <= rows@.len(),
            flat@.len() == i,
            forall|k: int| 0 <= k < i ==> (#[trigger] flat@[k])@ == rows@[k].as_seq(),
        decreases rows@.len() - i,
    {
        flat.push(rows[i].to_vec());
        i += 1;
    }
    assert forall|k: int| 0 <= k < flat@.len() implies (#[trigger] flat@[k])@.len() == N_BYTE_COLS by {
        lemma_byte_cols_round_trip(rows@[k], rows@[k].as_seq());
    }
    let cols = crate::trace::transpose(&flat, N_BYTE_COLS);
    assert(is_byte_trace(ops@, rows@));
    Ok(cols)
}

/// Returns whether every constraint of the table holds on every row of
/// `rows`, each row taken with its successor (the first row for the last).
pub fn trace_holds(rows: &Vec<ByteCols<u64>>) -> (r: bool)
    requires
        forall|i: int| 0 <= i < rows@.len() ==> row_is_felt(#[trigger] rows@[i]),
    ensures
        r == forall|i: int|
            0 <= i < rows@.len() ==> all_hold_at(
                #[trigger] byte_constraints(rows@[i], rows@[(i + 1) % (rows@.len() as int)]),
                i,
                rows@.len() as int,
            ),
{
    let n = rows.len();
    let mut i: usize = 0;
    while i < n
        invariant
            n == rows@.len(),
            i <= n,
            forall|i: int| 0 <= i < rows@.len() ==> row_is_felt(#[trigger] rows@[i]),
            forall|k: int|
                0 <= k < i ==> all_hold_at(
                    #[trigger] byte_constraints(rows@[k], rows@[(k + 1) % (n as int)]),
                    k,
                    n as int,
                ),
        decreases n - i,
    {
        let j = if i + 1 < n {
            i + 1
        } else {
            0
        };
        assert(j == (i + 1) % (n as int)) by {
            if i + 1 == n {
                vstd::arithmetic::div_mod::lemma_mod_self_0(n as int);
            } else {
                vstd::arithmetic::div_mod::lemma_small_mod((i + 1) as nat, n as nat);
            }
        }
        let mut cc = ConstraintSet::new();
        eval(&rows[i], &rows[j], &mut cc);
        assert(cc@ =~= byte_constraints(rows@[i as int], rows@[j as int]));
        if !cc.holds_at(i, n) {
            return false;
        }
        i += 1;
    }
    true
}

/// Two consecutive padding rows satisfy every constraint of the table on
/// the first of them, away from the first row; at the last row, from row
/// 255 on, the counter has reached its end.
pub proof fn lemma_padding_pair_holds(i: int, n: int, f0: u64, f1: u64)
    requires
        1 <= i < n,
        i == n - 1 ==> i >= 255,
    ensures
        all_hold_at(byte_constraints(with_freq(pad_row(i), f0), with_freq(pad_row(i + 1), f1)), i, n),
{
    lemma_pad_row_every(i, f0);
    lemma_pad_row_every(i + 1, f1);
    lemma_row_constraints_hold(with_freq(pad_row(i), f0), with_freq(pad_row(i + 1), f1), i, n);
}

} // verus!
