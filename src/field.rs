//! Arithmetic in the Goldilocks prime field, whose elements are held in
//! canonical form as `u64` values below [`ORDER`].
use vstd::arithmetic::div_mod::{lemma_small_mod, lemma_mod_multiples_vanish};
use vstd::prelude::*;

verus! {

/// The field order `2^64 - 2^32 + 1`.
pub const ORDER: u64 = 18446744069414584321;

/// `2^32`, the modulus of a machine word.
pub const WORD_MOD: u64 = 4294967296;

/// The multiplicative inverse of `2^32` in the field.
pub const WORD_MOD_INV: u64 = 18446744065119617026;

/// The field order as a mathematical integer.
pub open spec fn p() -> int {
    ORDER as int
}

/// A canonical field element.
pub open spec fn is_felt(x: int) -> bool {
    0 <= x < p()
}

/// The field element that the integer `x` reduces to.
pub open spec fn felt(x: int) -> int {
    x % p()
}

/// Field addition.
pub open spec fn fadd(a: int, b: int) -> int {
    felt(a + b)
}

/// Field subtraction.
pub open spec fn fsub(a: int, b: int) -> int {
    felt(a - b)
}

/// Field multiplication.
pub open spec fn fmul(a: int, b: int) -> int {
    felt(a * b)
}

/// Returns `a + b` in the field.
pub fn felt_add(a: u64, b: u64) -> (r: u64)
    requires
        a < ORDER,
        b < ORDER,
    ensures
        r == fadd(a as int, b as int),
{
    let s: u128 = a as u128 + b as u128;
    (s % (ORDER as u128)) as u64
}

/// Returns `a - b` in the field.
pub fn felt_sub(a: u64, b: u64) -> (r: u64)
    requires
        a < ORDER,
        b < ORDER,
    ensures
        r == fsub(a as int, b as int),
{
    proof {
        lemma_mod_multiples_vanish(1, a - b, p());
    }
    let s: u128 = a as u128 + ORDER as u128 - b as u128;
    (s % (ORDER as u128)) as u64
}

/// Returns `a * b` in the field.
pub fn felt_mul(a: u64, b: u64) -> (r: u64)
    requires
        a < ORDER,
        b < ORDER,
    ensures
        r == fmul(a as int, b as int),
{
    proof {
        assert(a * b <= u64::MAX * u64::MAX) by (nonlinear_arith)
            requires
                a <= u64::MAX,
                b <= u64::MAX,
        ;
    }
    let s: u128 = a as u128 * b as u128;
    (s % (ORDER as u128)) as u64
}

/// Returns the field element `1` if `b` holds, else `0`.
pub fn from_bool(b: bool) -> (r: u64)
    ensures
        r == (if b { 1int } else { 0int }),
{
    if b {
        1
    } else {
        0
    }
}

/// A value already below the order is its own reduction.
pub proof fn lemma_felt_small(x: int)
    requires
        0 <= x < p(),
    ensures
        felt(x) == x,
{
    lemma_small_mod(x as nat, p() as nat);
}

/// Reduction of a negative value above `-p`.
pub proof fn lemma_felt_neg(x: int)
    requires
        -p() <= x < 0,
    ensures
        felt(x) == x + p(),
{
    lemma_mod_multiples_vanish(1, x, p());
    lemma_small_mod((x + p()) as nat, p() as nat);
}

/// Multiplying by zero gives zero, on either side.
pub proof fn lemma_fmul_zero(a: int)
    ensures
        fmul(a, 0) == 0,
        fmul(0, a) == 0,
{
}

/// Multiplying a canonical element by one leaves it unchanged.
pub proof fn lemma_fmul_one(a: int)
    requires
        is_felt(a),
    ensures
        fmul(a, 1) == a,
        fmul(1, a) == a,
{
    lemma_felt_small(a);
}

/// `2^32` times its inverse is one.
pub proof fn lemma_word_mod_inv()
    ensures
        fmul(WORD_MOD as int, WORD_MOD_INV as int) == 1,
{
    assert(4294967296int * 18446744065119617026int == 4294967295 * 18446744069414584321int + 1);
    lemma_mod_multiples_vanish(4294967295, 1, p());
    lemma_felt_small(1);
}

/// Two canonical elements whose difference is zero are equal.
pub proof fn lemma_fsub_zero(a: int, b: int)
    requires
        is_felt(a),
        is_felt(b),
        fsub(a, b) == 0,
    ensures
        a == b,
{
    if a >= b {
        lemma_felt_small(a - b);
    } else {
        lemma_felt_neg(a - b);
    }
}

/// A canonical element times one is itself, so a product with a unit factor
/// vanishes only with the other factor.
pub proof fn lemma_fmul_one_zero(a: int)
    requires
        is_felt(a),
        fmul(1, a) == 0,
    ensures
        a == 0,
{
    lemma_fmul_one(a);
}

/// Subtracting zero from a canonical element leaves it unchanged.
pub proof fn lemma_fsub_zero_right(a: int)
    requires
        is_felt(a),
    ensures
        fsub(a, 0) == a,
        fadd(a, 0) == a,
        fadd(0, a) == a,
{
    lemma_felt_small(a);
}

} // verus!
