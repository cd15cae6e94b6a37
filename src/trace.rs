//! Shape of a trace: padding to a power of two and the switch from rows to
//! columns that the proving backend consumes.
use vstd::arithmetic::power2::{pow2, lemma2_to64};
use vstd::prelude::*;

verus! {

/// Whether `n` is a power of two.
pub open spec fn is_pow2(n: int) -> bool {
    exists|k: nat| n == pow2(k)
}

/// Whether `r` is the smallest power of two that is at least `n`.
pub open spec fn is_next_pow2(n: int, r: int) -> bool {
    &&& is_pow2(r)
    &&& n <= r
    &&& (r == 1 || r < 2 * n)
}

/// The most rows of a trace, `2^30`: a power of two small enough that row
/// counts, their doubles and the sums built from them stay well inside a
/// `usize`, on a 32-bit target too.
pub const MAX_ROWS: usize = 0x4000_0000;

/// The next power of two of `n` lies below every power of two that is at
/// least `n`.
pub proof fn lemma_next_pow2_least(n: int, r: int, q: int)
    requires
        is_next_pow2(n, r),
        is_pow2(q),
        n <= q,
    ensures
        r <= q,
{
    let j = choose|j: nat| r == pow2(j);
    let k = choose|k: nat| q == pow2(k);
    vstd::arithmetic::power2::lemma_pow2_pos(k);
    if k < j {
        vstd::arithmetic::power2::lemma_pow2_adds((j - 1) as nat, 1);
        lemma2_to64();
        if k < j - 1 {
            vstd::arithmetic::power2::lemma_pow2_strictly_increases(k, (j - 1) as nat);
        }
        if j > 0 {
            assert(pow2(j) == pow2((j - 1) as nat) * 2);
        }
        assert(false) by {
            if r == 1 {
                vstd::arithmetic::power2::lemma_pow2_strictly_increases(k, j);
            }
        }
    } else if k > j {
        vstd::arithmetic::power2::lemma_pow2_strictly_increases(j, k);
    }
}

/// Returns the smallest power of two that is at least `n`.
pub fn next_power_of_two(n: usize) -> (r: usize)
    requires
        n <= MAX_ROWS,
    ensures
        is_next_pow2(n as int, r as int),
        r <= MAX_ROWS,
{
    let mut r: usize = 1;
    let ghost mut k: nat = 0;
    proof {
        lemma2_to64();
    }
    while r < n
        invariant
            r == pow2(k),
            1 <= r <= MAX_ROWS,
            r == 1 || r < 2 * n,
            n <= MAX_ROWS,
        decreases MAX_ROWS - r,
    {
        proof {
            vstd::arithmetic::power2::lemma_pow2_adds(k, 1);
            lemma2_to64();
        }
        r = r * 2;
        proof {
            k = k + 1;
        }
        assert(r <= MAX_ROWS) by {
            if r > MAX_ROWS {
                // r / 2 < n <= MAX_ROWS, and both are powers of two
                lemma_pow2_bound(k);
            }
        }
    }
    r
}

/// A power of two above `2^30` is at least `2^31`.
proof fn lemma_pow2_bound(k: nat)
    ensures
        pow2(k) <= MAX_ROWS || pow2(k) >= 2 * MAX_ROWS,
{
    lemma2_to64();
    if k <= 30 {
        if k < 30 {
            vstd::arithmetic::power2::lemma_pow2_strictly_increases(k, 30);
        }
    } else {
        if k > 31 {
            vstd::arithmetic::power2::lemma_pow2_strictly_increases(31, k);
        }
    }
}

/// Returns the columns of a matrix given by rows of `width` values.
pub fn transpose(rows: &Vec<Vec<u64>>, width: usize) -> (r: Vec<Vec<u64>>)
    requires
        forall|i: int| 0 <= i < rows@.len() ==> (#[trigger] rows@[i])@.len() == width,
    ensures
        r@.len() == width,
        forall|j: int| 0 <= j < width ==> (#[trigger] r@[j])@.len() == rows@.len(),
        forall|i: int, j: int|
            0 <= i < rows@.len() && 0 <= j < width ==> r@[j]@[i] == rows@[i]@[j],
{
    let mut cols: Vec<Vec<u64>> = Vec::new();
    let mut j: usize = 0;
    while j < width
        invariant
            j <= width,
            cols@.len() == j,
            forall|i: int| 0 <= i < rows@.len() ==> (#[trigger] rows@[i])@.len() == width,
            forall|c: int| 0 <= c < j ==> (#[trigger] cols@[c])@.len() == rows@.len(),
            forall|i: int, c: int|
                0 <= i < rows@.len() && 0 <= c < j ==> cols@[c]@[i] == rows@[i]@[c],
        decreases width - j,
    {
        let mut col: Vec<u64> = Vec::new();
        let mut i: usize = 0;
        while i < rows.len()
            invariant
                j < width,
                i <= rows@.len(),
                col@.len() == i,
                forall|t: int| 0 <= t < rows@.len() ==> (#[trigger] rows@[t])@.len() == width,
                forall|t: int| 0 <= t < i ==> col@[t] == rows@[t]@[j as int],
            decreases rows@.len() - i,
        {
            col.push(rows[i][j]);
            i += 1;
        }
        cols.push(col);
        j += 1;
    }
    cols
}

} // verus!
