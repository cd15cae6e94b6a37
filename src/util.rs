//! Small helpers shared by the tables.
use vstd::prelude::*;

verus! {

/// Returns `[0, 1, .., n - 1]`.
pub fn indices_arr(n: usize) -> (r: Vec<usize>)
    ensures
        r@ == Seq::new(n as nat, |i: int| i as usize),
{
    let mut arr: Vec<usize> = Vec::new();
    let mut i: usize = 0;
    while i < n
        invariant
            i <= n,
            arr@ == Seq::new(i as nat, |j: int| j as usize),
        decreases n - i,
    {
        arr.push(i);
        i += 1;
        assert(arr@ =~= Seq::new(i as nat, |j: int| j as usize));
    }
    arr
}

/// Returns the first element of a pair.
pub fn fst<A, B>(x: (A, B)) -> (r: A)
    ensures
        r == x.0,
{
    x.0
}

/// Returns the second element of a pair.
pub fn snd<A, B>(x: (A, B)) -> (r: B)
    ensures
        r == x.1,
{
    x.1
}

} // verus!
