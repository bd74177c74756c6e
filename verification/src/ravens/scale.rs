//! Scaled values that survive being read and written again.

use vstd::prelude::*;

use crate::math::{
    le, minus, num_le, over, plus, rem_euclid, root3, times, Bits, Calc, Sem, HUNDRED, PI, TAU,
    THOUSAND, ZERO,
};
use crate::ravens::emit::{stable, stable_fixed};

verus! {

/// One turn of a number in thousands as a plain one: what reading and writing make of a value.
pub open spec fn thousands_cycle(m: Sem) -> spec_fn(Bits) -> Bits {
    |v: Bits| m.times(m.over(v, THOUSAND), THOUSAND)
}

/// A number in thousands as a plain one, at the fixed point of reading and writing.
#[verifier::opaque]
pub open spec fn thousands_of(m: Sem, x: Bits) -> Bits {
    stable(thousands_cycle(m), m.times(x, THOUSAND))
}

pub fn thousands<C: Calc>(math: &C, x: Bits) -> (r: Bits)
    ensures
        r == thousands_of(math.sem(), x),
{
    reveal(thousands_of);
    let ghost m = math.sem();
    let f = |v: Bits| -> (r: Bits)
        ensures
            r == math.sem().times(math.sem().over(v, THOUSAND), THOUSAND),
        { times(math, over(math, v, THOUSAND), THOUSAND) };
    stable_fixed(times(math, x, THOUSAND), f, Ghost(thousands_cycle(m)))
}

/// One turn of line-to-line kilovolts as line-to-neutral volts: what reading and writing make of a value.
pub open spec fn wye_volts_cycle(m: Sem) -> spec_fn(Bits) -> Bits {
    |v: Bits| m.over(m.times(m.over(m.times(v, m.root3()), THOUSAND), THOUSAND), m.root3())
}

/// Line-to-line kilovolts as line-to-neutral volts, at the fixed point of reading and writing.
#[verifier::opaque]
pub open spec fn wye_volts_of(m: Sem, x: Bits) -> Bits {
    stable(wye_volts_cycle(m), m.over(m.times(x, THOUSAND), m.root3()))
}

pub fn wye_volts<C: Calc>(math: &C, x: Bits) -> (r: Bits)
    ensures
        r == wye_volts_of(math.sem(), x),
{
    reveal(wye_volts_of);
    let ghost m = math.sem();
    let f = |v: Bits| -> (r: Bits)
        ensures
            r == math.sem().over(math.sem().times(math.sem().over(math.sem().times(v, math.sem().root3()), THOUSAND), THOUSAND), math.sem().root3()),
        { over(math, times(math, over(math, times(math, v, root3(math)), THOUSAND), THOUSAND), root3(math)) };
    stable_fixed(over(math, times(math, x, THOUSAND), root3(math)), f, Ghost(wye_volts_cycle(m)))
}

/// One turn of a value times a factor: what reading and writing make of a value.
pub open spec fn multiple_cycle(m: Sem, k: Bits) -> spec_fn(Bits) -> Bits {
    |v: Bits| m.times(m.over(v, k), k)
}

/// A value times a factor, at the fixed point of reading and writing.
#[verifier::opaque]
pub open spec fn multiple_of(m: Sem, x: Bits, k: Bits) -> Bits {
    stable(multiple_cycle(m, k), m.times(x, k))
}

pub fn multiple<C: Calc>(math: &C, x: Bits, k: Bits) -> (r: Bits)
    ensures
        r == multiple_of(math.sem(), x, k),
{
    reveal(multiple_of);
    let ghost m = math.sem();
    let f = |v: Bits| -> (r: Bits)
        ensures
            r == math.sem().times(math.sem().over(v, k), k),
        { times(math, over(math, v, k), k) };
    stable_fixed(times(math, x, k), f, Ghost(multiple_cycle(m, k)))
}

/// One turn of a value as a share of a whole: what reading and writing make of a value.
pub open spec fn share_cycle(m: Sem, k: Bits) -> spec_fn(Bits) -> Bits {
    |v: Bits| m.over(m.times(v, k), k)
}

/// A value as a share of a whole, at the fixed point of reading and writing.
#[verifier::opaque]
pub open spec fn share_of(m: Sem, x: Bits, k: Bits) -> Bits {
    stable(share_cycle(m, k), m.over(x, k))
}

pub fn share<C: Calc>(math: &C, x: Bits, k: Bits) -> (r: Bits)
    ensures
        r == share_of(math.sem(), x, k),
{
    reveal(share_of);
    let ghost m = math.sem();
    let f = |v: Bits| -> (r: Bits)
        ensures
            r == math.sem().over(math.sem().times(v, k), k),
        { over(math, times(math, v, k), k) };
    stable_fixed(over(math, x, k), f, Ghost(share_cycle(m, k)))
}

/// One turn of a percentage of a base: what reading and writing make of a value.
pub open spec fn of_base_cycle(m: Sem, k: Bits) -> spec_fn(Bits) -> Bits {
    |v: Bits| m.times(m.over(m.times(m.over(v, k), HUNDRED), HUNDRED), k)
}

/// A percentage of a base, at the fixed point of reading and writing.
#[verifier::opaque]
pub open spec fn of_base_of(m: Sem, x: Bits, k: Bits) -> Bits {
    stable(of_base_cycle(m, k), m.times(m.over(x, HUNDRED), k))
}

pub fn of_base<C: Calc>(math: &C, x: Bits, k: Bits) -> (r: Bits)
    ensures
        r == of_base_of(math.sem(), x, k),
{
    reveal(of_base_of);
    let ghost m = math.sem();
    let f = |v: Bits| -> (r: Bits)
        ensures
            r == math.sem().times(math.sem().over(math.sem().times(math.sem().over(v, k), HUNDRED), HUNDRED), k),
        { times(math, over(math, times(math, over(math, v, k), HUNDRED), HUNDRED), k) };
    stable_fixed(times(math, over(math, x, HUNDRED), k), f, Ghost(of_base_cycle(m, k)))
}

/// An angle in the half-open turn above minus pi.
pub open spec fn wrap_of(m: Sem, a: Bits) -> Bits {
    let shifted = m.rem_euclid(m.plus(a, PI), TAU);
    if num_le(shifted, ZERO) {
        PI
    } else {
        m.minus(shifted, PI)
    }
}

pub fn wrap_angle<C: Calc>(math: &C, a: Bits) -> (r: Bits)
    ensures
        r == wrap_of(math.sem(), a),
{
    let shifted = rem_euclid(math, plus(math, a, PI), TAU);
    if le(shifted, ZERO) {
        PI
    } else {
        minus(math, shifted, PI)
    }
}

pub open spec fn wrap_cycle(m: Sem) -> spec_fn(Bits) -> Bits {
    |v: Bits| wrap_of(m, v)
}

/// An angle at the fixed point of wrapping.
#[verifier::opaque]
pub open spec fn wrapped_of(m: Sem, a: Bits) -> Bits {
    stable(wrap_cycle(m), a)
}

pub fn wrapped<C: Calc>(math: &C, a: Bits) -> (r: Bits)
    ensures
        r == wrapped_of(math.sem(), a),
{
    reveal(wrapped_of);
    let f = |v: Bits| -> (r: Bits)
        ensures
            r == wrap_of(math.sem(), v),
        { wrap_angle(math, v) };
    stable_fixed(a, f, Ghost(wrap_cycle(math.sem())))
}

} // verus!
