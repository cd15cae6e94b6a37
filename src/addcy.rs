//! The "add with carry" identity `x + y == z + cy * 2^32` on which addition,
//! subtraction and the comparisons rest.
use crate::constraint::{cons, ConstraintKind, ConstraintSet};
use crate::field::{
    felt_add, felt_mul, felt_sub, fadd, fmul, fsub, is_felt, lemma_felt_small, lemma_fmul_zero,
    lemma_word_mod_inv, ORDER, WORD_MOD, WORD_MOD_INV,
};
use vstd::prelude::*;

verus! {

/// `2^31`, the sign bit of a word.
pub const SIGN_BIT: u64 = 2147483648;

/// The kind of a constraint that is either a transition or on every row.
pub open spec fn kind_of(transition: bool) -> ConstraintKind {
    if transition {
        ConstraintKind::Transition
    } else {
        ConstraintKind::EveryRow
    }
}

/// The constraints that force `x + y == z + cy * 2^32` where `filter` is
/// nonzero: the difference `x + y - z` is `0` or `2^32`, `cy` is a bit, and
/// `cy` matches the difference scaled by `2^-32`.
pub open spec fn addcy_constraints(
    filter: int,
    x: int,
    y: int,
    z: int,
    cy: int,
    transition: bool,
) -> Seq<(ConstraintKind, int)> {
    let diff = fsub(fadd(x, y), z);
    let did_cy = fmul(diff, WORD_MOD_INV as int);
    seq![
        cons(kind_of(transition), fmul(fmul(filter, diff), fsub(diff, WORD_MOD as int))),
        cons(ConstraintKind::EveryRow, fmul(fmul(filter, cy), fsub(cy, 1))),
        cons(kind_of(transition), fmul(filter, fsub(did_cy, cy))),
    ]
}

/// Emits the constraints of [`addcy_constraints`].
pub fn eval_addcy(
    cc: &mut ConstraintSet,
    filter: u64,
    x: u64,
    y: u64,
    z: u64,
    cy: u64,
    transition: bool,
)
    requires
        filter < ORDER,
        x < ORDER,
        y < ORDER,
        z < ORDER,
        cy < ORDER,
    ensures
        final(cc)@ == old(cc)@ + addcy_constraints(
            filter as int,
            x as int,
            y as int,
            z as int,
            cy as int,
            transition,
        ),
{
    let diff = felt_sub(felt_add(x, y), z);
    let c0 = felt_mul(felt_mul(filter, diff), felt_sub(diff, WORD_MOD));
    if transition {
        cc.constraint_transition(c0);
    } else {
        cc.constraint(c0);
    }
    let did_cy = felt_mul(diff, WORD_MOD_INV);
    cc.constraint(felt_mul(felt_mul(filter, cy), felt_sub(cy, 1)));
    let c2 = felt_mul(filter, felt_sub(did_cy, cy));
    if transition {
        cc.constraint_transition(c2);
    } else {
        cc.constraint(c2);
    }
    assert(final(cc)@ =~= old(cc)@ + addcy_constraints(
        filter as int,
        x as int,
        y as int,
        z as int,
        cy as int,
        transition,
    ));
}

/// Constrains `left + right == out + overflow * 2^32`.
pub fn eval_add(cc: &mut ConstraintSet, filter: u64, left: u64, right: u64, out: u64, overflow: u64)
    requires
        filter < ORDER,
        left < ORDER,
        right < ORDER,
        out < ORDER,
        overflow < ORDER,
    ensures
        final(cc)@ == old(cc)@ + addcy_constraints(
            filter as int,
            left as int,
            right as int,
            out as int,
            overflow as int,
            false,
        ),
{
    eval_addcy(cc, filter, left, right, out, overflow, false)
}

/// Constrains `left + right == out + overflow * 2^32` between each row and
/// its successor.
pub fn eval_add_transition(
    cc: &mut ConstraintSet,
    filter: u64,
    left: u64,
    right: u64,
    out: u64,
    overflow: u64,
)
    requires
        filter < ORDER,
        left < ORDER,
        right < ORDER,
        out < ORDER,
        overflow < ORDER,
    ensures
        final(cc)@ == old(cc)@ + addcy_constraints(
            filter as int,
            left as int,
            right as int,
            out as int,
            overflow as int,
            true,
        ),
{
    eval_addcy(cc, filter, left, right, out, overflow, true)
}

/// Constrains `left - right == out`, that is `right + out == left + overflow * 2^32`.
pub fn eval_sub(cc: &mut ConstraintSet, filter: u64, left: u64, right: u64, out: u64, overflow: u64)
    requires
        filter < ORDER,
        left < ORDER,
        right < ORDER,
        out < ORDER,
        overflow < ORDER,
    ensures
        final(cc)@ == old(cc)@ + addcy_constraints(
            filter as int,
            right as int,
            out as int,
            left as int,
            overflow as int,
            false,
        ),
{
    eval_addcy(cc, filter, right, out, left, overflow, false)
}

/// Constrains `out == (left <u right)`, that is
/// `right + diff == left + out * 2^32`.
pub fn eval_ltu(cc: &mut ConstraintSet, filter: u64, left: u64, right: u64, out: u64, diff: u64)
    requires
        filter < ORDER,
        left < ORDER,
        right < ORDER,
        out < ORDER,
        diff < ORDER,
    ensures
        final(cc)@ == old(cc)@ + addcy_constraints(
            filter as int,
            right as int,
            diff as int,
            left as int,
            out as int,
            false,
        ),
{
    eval_addcy(cc, filter, right, diff, left, out, false)
}

/// With a zero filter every constraint vanishes.
pub proof fn lemma_addcy_off(x: int, y: int, z: int, cy: int, transition: bool)
    ensures
        crate::constraint::all_zero(addcy_constraints(0, x, y, z, cy, transition)),
{
    let diff = fsub(fadd(x, y), z);
    lemma_fmul_zero(diff);
    lemma_fmul_zero(cy);
    lemma_fmul_zero(fsub(diff, WORD_MOD as int));
    lemma_fmul_zero(fsub(fmul(diff, WORD_MOD_INV as int), cy));
}

/// Where the words satisfy `x + y == z + cy * 2^32` and `cy` is a bit, every
/// constraint vanishes whatever the filter.
pub proof fn lemma_addcy_holds(filter: int, x: int, y: int, z: int, cy: int, transition: bool)
    requires
        is_felt(filter),
        0 <= x < WORD_MOD,
        0 <= y < WORD_MOD,
        0 <= z < WORD_MOD,
        cy == 0 || cy == 1,
        x + y == z + cy * WORD_MOD,
    ensures
        crate::constraint::all_zero(addcy_constraints(filter, x, y, z, cy, transition)),
{
    lemma_felt_small(x + y);
    let diff = fsub(fadd(x, y), z);
    lemma_felt_small(cy * WORD_MOD);
    assert(diff == cy * WORD_MOD);
    let did_cy = fmul(diff, WORD_MOD_INV as int);
    if cy == 0 {
        lemma_fmul_zero(filter);
        lemma_fmul_zero(fsub(diff, WORD_MOD as int));
        lemma_fmul_zero(WORD_MOD_INV as int);
        lemma_felt_small(0);
        lemma_fmul_zero(fsub(cy, 1));
    } else {
        lemma_felt_small(0);
        lemma_fmul_zero(fmul(filter, diff));
        lemma_word_mod_inv();
        lemma_felt_small(1);
        lemma_fmul_zero(filter);
        lemma_fmul_zero(fmul(filter, cy));
    }
}

} // verus!
