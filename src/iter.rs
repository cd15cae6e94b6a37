//! Lending iterators over overlapping windows of a sequence.
use vstd::prelude::*;

verus! {

/// An iterator whose items are described by the sequence still to come.
pub trait LendIter: Sized {
    /// The type of the items.
    type Item;

    /// The items that the iterator has yet to hand out, in order.
    spec fn rest(&self) -> Seq<Self::Item>;

    /// Advances the iterator and returns the next item, or `None` when it is
    /// exhausted.
    fn next(&mut self) -> (r: Option<Self::Item>)
        ensures
            old(self).rest().len() == 0 ==> r is None && final(self).rest() == old(self).rest(),
            old(self).rest().len() > 0 ==> r == Some(old(self).rest()[0]) && final(self).rest()
                == old(self).rest().drop_first(),
    ;
}

/// Items taken in turn from two iterators; it ends when either ends.
#[derive(Clone, Debug)]
pub struct Zip<A, B> {
    pub a: A,
    pub b: B,
}

impl<A, B> Zip<A, B> {
    pub fn new(a: A, b: B) -> (r: Self)
        ensures
            r.a == a,
            r.b == b,
    {
        Self { a, b }
    }
}

/// The pairs that zipping `a` with `b` gives.
pub open spec fn zip_seqs<X, Y>(a: Seq<X>, b: Seq<Y>) -> Seq<(X, Y)> {
    let n = if a.len() < b.len() {
        a.len()
    } else {
        b.len()
    };
    Seq::new(n, |k: int| (a[k], b[k]))
}

impl<A: LendIter, B: LendIter> LendIter for Zip<A, B> {
    type Item = (A::Item, B::Item);

    open spec fn rest(&self) -> Seq<(A::Item, B::Item)> {
        zip_seqs(self.a.rest(), self.b.rest())
    }

    fn next(&mut self) -> (r: Option<(A::Item, B::Item)>) {
        let a = self.a.next();
        match a {
            None => {
                assert(self.rest() =~= old(self).rest());
                None
            },
            Some(x) => {
                let b = self.b.next();
                match b {
                    None => {
                        assert(self.rest() =~= old(self).rest());
                        None
                    },
                    Some(y) => {
                        assert(self.rest() =~= old(self).rest().drop_first());
                        Some((x, y))
                    },
                }
            },
        }
    }
}

/// Lends the elements of a vector one after another.
#[derive(Clone, Debug)]
pub struct Lend<T> {
    /// The elements still to come, last first.
    pub rev: Vec<T>,
}

impl<T> Lend<T> {
    pub fn new(items: Vec<T>) -> (r: Self)
        ensures
            r.rest() == items@,
    {
        let mut items = items;
        let ghost all = items@;
        let mut rev: Vec<T> = Vec::new();
        while items.len() > 0
            invariant
                all == items@ + rev@.reverse(),
            decreases items@.len(),
        {
            let x = items.pop().unwrap();
            rev.push(x);
            assert(all =~= items@ + rev@.reverse());
        }
        assert(all =~= rev@.reverse());
        Self { rev }
    }
}

impl<T> LendIter for Lend<T> {
    type Item = T;

    open spec fn rest(&self) -> Seq<T> {
        self.rev@.reverse()
    }

    fn next(&mut self) -> (r: Option<T>) {
        if self.rev.len() > 0 {
            let r = self.rev.pop();
            assert(self.rest() =~= old(self).rest().drop_first());
            r
        } else {
            None
        }
    }
}

/// The number of windows of length `size` in `len` elements from `idx` on;
/// there are none of length zero.
pub open spec fn n_windows(len: int, idx: int, size: int) -> int {
    if 0 < size && idx + size <= len {
        len - size - idx + 1
    } else {
        0
    }
}

/// The window of `v` that starts at `start`, as an array.
pub open spec fn window<T, const SIZE: usize>(v: Seq<T>, start: int) -> [T; SIZE] {
    choose|w: [T; SIZE]| w@ == v.subrange(start, start + SIZE)
}

/// All windows of `SIZE` contiguous elements of a vector, in order.
#[derive(Clone, Debug)]
pub struct WindowsMut<T, const SIZE: usize> {
    pub v: Vec<T>,
    pub idx: usize,
}

impl<T: Copy, const SIZE: usize> WindowsMut<T, SIZE> {
    pub fn new(v: Vec<T>) -> (r: Self)
        ensures
            r.v@ == v@,
            r.idx == 0,
    {
        Self { v, idx: 0 }
    }

    /// Pairs each item with the matching element of `other`.
    pub fn zip<U>(self, other: Vec<U>) -> (r: Zip<Self, Lend<U>>)
        ensures
            r.a == self,
            r.b.rest() == other@,
    {
        Zip::new(self, Lend::new(other))
    }

    /// The elements that the windows are taken from.
    pub open spec fn elems(&self) -> Seq<T> {
        self.v@
    }
}

impl<T: Copy, const SIZE: usize> LendIter for WindowsMut<T, SIZE> {
    type Item = [T; SIZE];

    open spec fn rest(&self) -> Seq<[T; SIZE]> {
        Seq::new(
            n_windows(self.v@.len() as int, self.idx as int, SIZE as int) as nat,
            |k: int| window::<T, SIZE>(self.v@, self.idx + k),
        )
    }

    fn next(&mut self) -> (r: Option<[T; SIZE]>) {
        if SIZE > 0 && self.idx as u128 + SIZE as u128 <= self.v.len() as u128 {
            let mut w: [T; SIZE] = vstd::array::array_fill_for_copy_types(self.v[self.idx]);
            let start = self.idx;
            let n = self.v.len();
            let mut j: usize = 0;
            while j < SIZE
                invariant
                    j <= SIZE,
                    start == self.idx,
                    n == self.v@.len(),
                    start + SIZE <= n,
                    forall|k: int| 0 <= k < j ==> w@[k] == self.v@[start + k],
                decreases SIZE - j,
            {
                let pos: usize = start + j;
                w[j] = self.v[pos];
                j += 1;
            }
            let ghost sub = self.v@.subrange(self.idx as int, self.idx + SIZE);
            assert(w@ =~= sub);
            let ghost c = window::<T, SIZE>(self.v@, self.idx as int);
            assert(c@ == sub);
            assert(c =~= w);
            self.idx += 1;
            assert(self.rest() =~= old(self).rest().drop_first());
            Some(w)
        } else {
            None
        }
    }
}

/// Returns an iterator over all windows of `SIZE` contiguous elements of `v`.
pub fn windows_mut<T: Copy, const SIZE: usize>(v: Vec<T>) -> (r: WindowsMut<T, SIZE>)
    ensures
        r.elems() == v@,
        r.rest() == Seq::new(
            n_windows(v@.len() as int, 0, SIZE as int) as nat,
            |k: int| window::<T, SIZE>(v@, k),
        ),
{
    WindowsMut::new(v)
}

} // verus!
