//! Collection of the polynomial constraints that a table's evaluator emits
//! for one pair of adjacent rows.
use vstd::prelude::*;

verus! {

/// The rows on which a constraint must vanish.
#[derive(Clone, Copy, Debug, PartialEq, Eq, Structural)]
pub enum ConstraintKind {
    /// Every row of the trace.
    EveryRow,
    /// The first row only.
    FirstRow,
    /// The last row only.
    LastRow,
    /// Every row but the last, which has no successor.
    Transition,
}

/// One evaluated constraint.
#[derive(Clone, Copy, Debug, PartialEq, Eq, Structural)]
pub struct Constraint {
    pub kind: ConstraintKind,
    /// The value of the constraint polynomial, a field element.
    pub val: u64,
}

/// The constraints emitted so far, in order.
#[derive(Clone, Debug)]
pub struct ConstraintSet {
    pub constraints: Vec<Constraint>,
}

/// A constraint as a kind and a field value.
pub open spec fn cons(kind: ConstraintKind, val: int) -> (ConstraintKind, int) {
    (kind, val)
}

/// Whether the constraint `c` holds on row `i` of a trace of `n` rows.
pub open spec fn holds_at(c: (ConstraintKind, int), i: int, n: int) -> bool {
    match c.0 {
        ConstraintKind::EveryRow => c.1 == 0,
        ConstraintKind::FirstRow => i == 0 ==> c.1 == 0,
        ConstraintKind::LastRow => i == n - 1 ==> c.1 == 0,
        ConstraintKind::Transition => i < n - 1 ==> c.1 == 0,
    }
}

/// Whether every constraint of `cs` holds on row `i` of a trace of `n` rows.
pub open spec fn all_hold_at(cs: Seq<(ConstraintKind, int)>, i: int, n: int) -> bool {
    forall|k: int| 0 <= k < cs.len() ==> holds_at(#[trigger] cs[k], i, n)
}

/// Whether every constraint of `cs` evaluates to zero.
pub open spec fn all_zero(cs: Seq<(ConstraintKind, int)>) -> bool {
    forall|k: int| 0 <= k < cs.len() ==> (#[trigger] cs[k]).1 == 0
}

/// Concatenated sets of vanishing constraints vanish.
pub proof fn lemma_all_zero_concat(a: Seq<(ConstraintKind, int)>, b: Seq<(ConstraintKind, int)>)
    requires
        all_zero(a),
        all_zero(b),
    ensures
        all_zero(a + b),
{
    assert forall|k: int| 0 <= k < (a + b).len() implies (#[trigger] (a + b)[k]).1 == 0 by {
        if k >= a.len() {
            assert((a + b)[k] == b[k - a.len()]);
        }
    }
}

/// Constraints that all vanish hold on every row.
pub proof fn lemma_all_zero_holds(cs: Seq<(ConstraintKind, int)>, i: int, n: int)
    requires
        all_zero(cs),
    ensures
        all_hold_at(cs, i, n),
{
    assert forall|k: int| 0 <= k < cs.len() implies holds_at(#[trigger] cs[k], i, n) by {
        assert(cs[k].1 == 0);
    }
}

/// Concatenated sets of constraints that hold on a row hold on it.
pub proof fn lemma_all_hold_concat(a: Seq<(ConstraintKind, int)>, b: Seq<(ConstraintKind, int)>, i: int, n: int)
    requires
        all_hold_at(a, i, n),
        all_hold_at(b, i, n),
    ensures
        all_hold_at(a + b, i, n),
{
    assert forall|k: int| 0 <= k < (a + b).len() implies holds_at(#[trigger] (a + b)[k], i, n) by {
        if k < a.len() {
            assert((a + b)[k] == a[k]);
        } else {
            assert((a + b)[k] == b[k - a.len()]);
        }
    }
}

impl View for ConstraintSet {
    type V = Seq<(ConstraintKind, int)>;

    open spec fn view(&self) -> Seq<(ConstraintKind, int)> {
        self.constraints@.map_values(|c: Constraint| (c.kind, c.val as int))
    }
}

impl ConstraintSet {
    /// An empty set.
    pub fn new() -> (r: Self)
        ensures
            r@ == Seq::<(ConstraintKind, int)>::empty(),
    {
        let r = ConstraintSet { constraints: Vec::new() };
        assert(r@ =~= Seq::<(ConstraintKind, int)>::empty());
        r
    }

    /// Appends a constraint of the given kind.
    pub fn push(&mut self, kind: ConstraintKind, val: u64)
        ensures
            final(self)@ == old(self)@.push(cons(kind, val as int)),
    {
        self.constraints.push(Constraint { kind, val });
        assert(self@ =~= old(self)@.push(cons(kind, val as int)));
    }

    /// A constraint on every row.
    pub fn constraint(&mut self, val: u64)
        ensures
            final(self)@ == old(self)@.push(cons(ConstraintKind::EveryRow, val as int)),
    {
        self.push(ConstraintKind::EveryRow, val);
    }

    /// A constraint on the first row.
    pub fn constraint_first_row(&mut self, val: u64)
        ensures
            final(self)@ == old(self)@.push(cons(ConstraintKind::FirstRow, val as int)),
    {
        self.push(ConstraintKind::FirstRow, val);
    }

    /// A constraint on the last row.
    pub fn constraint_last_row(&mut self, val: u64)
        ensures
            final(self)@ == old(self)@.push(cons(ConstraintKind::LastRow, val as int)),
    {
        self.push(ConstraintKind::LastRow, val);
    }

    /// A constraint between each row and its successor.
    pub fn constraint_transition(&mut self, val: u64)
        ensures
            final(self)@ == old(self)@.push(cons(ConstraintKind::Transition, val as int)),
    {
        self.push(ConstraintKind::Transition, val);
    }

    /// Whether every constraint evaluated to zero.
    pub fn is_all_zero(&self) -> (r: bool)
        ensures
            r == all_zero(self@),
    {
        let mut i: usize = 0;
        while i < self.constraints.len()
            invariant
                i <= self.constraints@.len(),
                forall|k: int| 0 <= k < i ==> (#[trigger] self@[k]).1 == 0,
            decreases self.constraints@.len() - i,
        {
            if self.constraints[i].val != 0 {
                assert(self@[i as int].1 != 0);
                return false;
            }
            i += 1;
        }
        true
    }

    /// Whether every constraint holds on row `i` of a trace of `n` rows.
    pub fn holds_at(&self, i: usize, n: usize) -> (r: bool)
        ensures
            r == all_hold_at(self@, i as int, n as int),
    {
        let mut k: usize = 0;
        while k < self.constraints.len()
            invariant
                k <= self.constraints@.len(),
                forall|j: int| 0 <= j < k ==> holds_at(#[trigger] self@[j], i as int, n as int),
            decreases self.constraints@.len() - k,
        {
            let c = self.constraints[k];
            let applies = match c.kind {
                ConstraintKind::EveryRow => true,
                ConstraintKind::FirstRow => i == 0,
                ConstraintKind::LastRow => i as u128 + 1 == n as u128,
                ConstraintKind::Transition => (i as u128) + 1 < n as u128,
            };
            if applies && c.val != 0 {
                assert(!holds_at(self@[k as int], i as int, n as int));
                return false;
            }
            k += 1;
        }
        true
    }
}

} // verus!
