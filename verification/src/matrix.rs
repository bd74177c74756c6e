//! Square matrices of numbers.

use vstd::prelude::*;

use crate::math::{over, Bits, Calc, Sem, TWO, ZERO};
use crate::model::{repeat, Mat, MatV};
use crate::text::views;

verus! {

/// An `n` by `n` matrix of one value on the diagonal and another off it.
pub open spec fn two_valued(n: nat, on: Bits, off: Bits) -> MatV {
    Seq::new(
        n,
        |i: int|
            Seq::new(
                n,
                |j: int|
                    if i == j {
                        on
                    } else {
                        off
                    },
            ),
    )
}

pub fn two_valued_mat(n: usize, on: Bits, off: Bits) -> (r: Mat)
    ensures
        views(r@) == two_valued(n as nat, on, off),
{
    let mut r: Mat = Vec::new();
    let mut i: usize = 0;
    while i < n
        invariant
            i <= n,
            r.len() == i,
            forall|k: int|
                0 <= k < i ==> (#[trigger] r@[k])@ == two_valued(n as nat, on, off)[k],
        decreases n - i,
    {
        let mut row = repeat(off, n);
        row.set(i, on);
        assert(row@ =~= two_valued(n as nat, on, off)[i as int]);
        r.push(row);
        i = i + 1;
    }
    assert(views(r@) =~= two_valued(n as nat, on, off));
    r
}

/// A diagonal matrix.
pub open spec fn diagonal_of(values: Seq<Bits>) -> MatV {
    Seq::new(
        values.len(),
        |i: int|
            Seq::new(
                values.len(),
                |j: int|
                    if i == j {
                        values[i]
                    } else {
                        ZERO
                    },
            ),
    )
}

pub fn diagonal(values: &Vec<Bits>) -> (r: Mat)
    ensures
        views(r@) == diagonal_of(values@),
{
    let n = values.len();
    let mut r: Mat = Vec::new();
    let mut i: usize = 0;
    while i < n
        invariant
            i <= n,
            n == values.len(),
            r.len() == i,
            forall|k: int| 0 <= k < i ==> (#[trigger] r@[k])@ == diagonal_of(values@)[k],
        decreases n - i,
    {
        let mut row = repeat(ZERO, n);
        row.set(i, values[i]);
        assert(row@ =~= diagonal_of(values@)[i as int]);
        r.push(row);
        i = i + 1;
    }
    assert(views(r@) =~= diagonal_of(values@));
    r
}

/// The matrix with `v` in row `i`, column `j`.
pub open spec fn set_of(a: MatV, i: int, j: int, v: Bits) -> MatV {
    a.update(i, a[i].update(j, v))
}

/// The matrix with `v` in row `i`, column `j` and in row `j`, column `i`.
pub open spec fn mirror_of(a: MatV, i: int, j: int, v: Bits) -> MatV {
    set_of(set_of(a, i, j, v), j, i, v)
}

/// The symmetric matrix of a lower triangle.
pub open spec fn mirrored(n: nat, v: spec_fn(int, int) -> Bits) -> MatV {
    Seq::new(
        n,
        |a: int|
            Seq::new(
                n,
                |b: int|
                    if a < b {
                        v(b, a)
                    } else {
                        v(a, b)
                    },
            ),
    )
}

/// As many rows as columns.
pub open spec fn square(a: MatV, n: nat) -> bool {
    a.len() == n && forall|i: int| 0 <= i < n ==> (#[trigger] a[i]).len() == n
}

pub fn set_entry(a: &mut Mat, i: usize, j: usize, v: Bits)
    requires
        i < old(a)@.len(),
        j < old(a)@[i as int].len(),
    ensures
        views(final(a)@) == set_of(views(old(a)@), i as int, j as int, v),
{
    let ghost before = views(a@);
    assert(before[i as int] == a@[i as int]@);
    let ghost row = a@[i as int]@;
    a[i].set(j, v);
    assert(a@[i as int]@ == row.update(j as int, v));
    assert(views(a@) =~= set_of(before, i as int, j as int, v));
}

pub fn mirror(a: &mut Mat, n: usize, i: usize, j: usize, v: Bits)
    requires
        square(views(old(a)@), n as nat),
        i < n,
        j < n,
    ensures
        views(final(a)@) == mirror_of(views(old(a)@), i as int, j as int, v),
        square(views(final(a)@), n as nat),
{
    assert(views(a@)[i as int] == a@[i as int]@);
    set_entry(a, i, j, v);
    assert(square(views(a@), n as nat));
    assert(views(a@)[j as int] == a@[j as int]@);
    set_entry(a, j, i, v);
}

/// A number as an index, at most the largest one.
pub open spec fn to_usize_of(x: u64) -> usize {
    if x > usize::MAX {
        usize::MAX
    } else {
        x as usize
    }
}

pub fn to_usize(x: u64) -> (r: usize)
    ensures
        r == to_usize_of(x),
{
    if x > usize::MAX as u64 {
        usize::MAX
    } else {
        x as usize
    }
}

pub open spec fn max3(a: nat, b: nat, c: nat) -> nat {
    let ab = if a > b {
        a
    } else {
        b
    };
    if ab > c {
        ab
    } else {
        c
    }
}

pub fn max_usize(a: usize, b: usize) -> (r: usize)
    ensures
        r == if a > b {
            a
        } else {
            b
        },
{
    if a > b {
        a
    } else {
        b
    }
}

/// Each entry divided by two.
pub open spec fn halved(m: Sem, b: MatV) -> MatV {
    Seq::new(b.len(), |i: int| Seq::new(b[i].len(), |j: int| m.over(b[i][j], TWO)))
}

pub fn halve<C: Calc>(math: &C, b: &Mat) -> (r: Mat)
    ensures
        views(r@) == halved(math.sem(), views(b@)),
{
    let mut r: Mat = Vec::new();
    let mut i: usize = 0;
    while i < b.len()
        invariant
            i <= b.len(),
            r.len() == i,
            forall|k: int|
                0 <= k < i ==> (#[trigger] r@[k])@ == halved(math.sem(), views(b@))[k],
        decreases b.len() - i,
    {
        let mut row: Vec<Bits> = Vec::new();
        let mut j: usize = 0;
        assert(views(b@)[i as int] == b@[i as int]@);
        while j < b[i].len()
            invariant
                i < b.len(),
                j <= b@[i as int].len(),
                row.len() == j,
                forall|k: int|
                    0 <= k < j ==> (#[trigger] row@[k]) == math.sem().over(
                        b@[i as int]@[k],
                        TWO,
                    ),
            decreases b@[i as int].len() - j,
        {
            row.push(over(math, b[i][j], TWO));
            j = j + 1;
        }
        assert(row@ =~= halved(math.sem(), views(b@))[i as int]);
        r.push(row);
        i = i + 1;
    }
    assert(views(r@) =~= halved(math.sem(), views(b@)));
    r
}

} // verus!
