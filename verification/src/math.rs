//! Real numbers as binary64 bit patterns.
//!
//! A quantity is the `u64` that holds its IEEE 754 bits. Ordering, sign and
//! finiteness are read off the bits here. Arithmetic, reading and printing are
//! handed in as functions when a [`Math`] is made; every reader and writer is
//! stated and proved over whatever functions those are ([`Sem`]), so a contract
//! says which operations are applied to which operands, in which order.

use vstd::prelude::*;

verus! {

/// A binary64 bit pattern.
pub type Bits = u64;

/// The operations of the arithmetic. A unary operation ignores its second
/// operand.
#[derive(Clone, Copy, PartialEq, Eq, Structural)]
pub enum Op {
    Add,
    Sub,
    Mul,
    Div,
    /// The larger operand; the other one where one is not a number.
    Max,
    Sqrt,
    Sin,
    RemEuclid,
    Radians,
    Degrees,
    /// The number nearest to an unsigned integer.
    FromInt,
    /// Truncation to an unsigned integer, saturating.
    Trunc,
    /// Rounding half away from zero to a signed integer, saturating, as its
    /// two's complement.
    Round,
}

/// What the arithmetic computes.
pub struct Sem {
    /// The number a text denotes, where it denotes one.
    pub parse: spec_fn(Seq<char>) -> Option<Bits>,
    pub op: spec_fn(Op, Bits, Bits) -> Bits,
    /// The shortest text that reads back as the number.
    pub show: spec_fn(Bits) -> Seq<char>,
}

impl Sem {
    pub open spec fn plus(self, a: Bits, b: Bits) -> Bits {
        (self.op)(Op::Add, a, b)
    }

    pub open spec fn minus(self, a: Bits, b: Bits) -> Bits {
        (self.op)(Op::Sub, a, b)
    }

    pub open spec fn times(self, a: Bits, b: Bits) -> Bits {
        (self.op)(Op::Mul, a, b)
    }

    pub open spec fn over(self, a: Bits, b: Bits) -> Bits {
        (self.op)(Op::Div, a, b)
    }

    pub open spec fn max(self, a: Bits, b: Bits) -> Bits {
        (self.op)(Op::Max, a, b)
    }

    pub open spec fn sqrt(self, a: Bits) -> Bits {
        (self.op)(Op::Sqrt, a, 0)
    }

    pub open spec fn sin(self, a: Bits) -> Bits {
        (self.op)(Op::Sin, a, 0)
    }

    pub open spec fn rem_euclid(self, a: Bits, b: Bits) -> Bits {
        (self.op)(Op::RemEuclid, a, b)
    }

    pub open spec fn radians(self, a: Bits) -> Bits {
        (self.op)(Op::Radians, a, 0)
    }

    pub open spec fn degrees(self, a: Bits) -> Bits {
        (self.op)(Op::Degrees, a, 0)
    }

    pub open spec fn from_int(self, n: u64) -> Bits {
        (self.op)(Op::FromInt, n, 0)
    }

    pub open spec fn trunc(self, a: Bits) -> u64 {
        (self.op)(Op::Trunc, a, 0)
    }

    pub open spec fn round(self, a: Bits) -> u64 {
        (self.op)(Op::Round, a, 0)
    }

    /// The square root of three.
    pub open spec fn root3(self) -> Bits {
        self.sqrt(THREE)
    }
}

/// The functions hand in what they compute, the same on the same operands, and
/// can be applied to every operand.
pub open spec fn functional<P, A, S>(parse: P, op: A, show: S) -> bool where
    P: Fn(&str) -> Option<u64>,
    A: Fn(Op, u64, u64) -> u64,
    S: Fn(u64) -> String,
 {
    &&& forall|s: &str| call_requires(parse, (s,))
    &&& forall|o: Op, a: u64, b: u64| call_requires(op, (o, a, b))
    &&& forall|a: u64| call_requires(show, (a,))
    &&& forall|s: &str, t: &str, x: Option<u64>, y: Option<u64>|
        s@ == t@ && call_ensures(parse, (s,), x) && call_ensures(parse, (t,), y) ==> x == y
    &&& forall|o: Op, a: u64, b: u64, x: u64, y: u64|
        call_ensures(op, (o, a, b), x) && call_ensures(op, (o, a, b), y) ==> x == y
    &&& forall|a: u64, x: String, y: String|
        call_ensures(show, (a,), x) && call_ensures(show, (a,), y) ==> x@ == y@
}

/// `parse` can give `x` on the text `s`.
pub open spec fn reads<P: Fn(&str) -> Option<u64>>(parse: P, s: Seq<char>, x: Option<u64>) -> bool {
    exists|t: &str| t@ == s && call_ensures(parse, (t,), x)
}

/// `show` can give the text `x` on `a`.
pub open spec fn writes<S: Fn(u64) -> String>(show: S, a: u64, x: Seq<char>) -> bool {
    exists|t: String| t@ == x && call_ensures(show, (a,), t)
}

/// What the three functions compute.
pub open spec fn sem_of<P, A, S>(parse: P, op: A, show: S) -> Sem where
    P: Fn(&str) -> Option<u64>,
    A: Fn(Op, u64, u64) -> u64,
    S: Fn(u64) -> String,
 {
    Sem {
        parse: |s: Seq<char>| choose|x: Option<u64>| reads(parse, s, x),
        op: |o: Op, a: u64, b: u64| choose|x: u64| call_ensures(op, (o, a, b), x),
        show: |a: u64| choose|x: Seq<char>| writes(show, a, x),
    }
}

/// An arithmetic that code can compute with.
pub trait Calc {
    /// What it computes.
    spec fn sem(&self) -> Sem;

    fn op(&self, o: Op, a: Bits, b: Bits) -> (r: Bits)
        ensures
            r == (self.sem().op)(o, a, b),
    ;

    fn parse(&self, s: &str) -> (r: Option<Bits>)
        ensures
            r == (self.sem().parse)(s@),
    ;

    fn show(&self, a: Bits) -> (r: String)
        ensures
            r@ == (self.sem().show)(a),
    ;
}

/// The arithmetic made of three functions.
pub struct Math<P, A, S> where
    P: Fn(&str) -> Option<u64>,
    A: Fn(Op, u64, u64) -> u64,
    S: Fn(u64) -> String,
 {
    parse: P,
    op: A,
    show: S,
}

impl<P, A, S> Math<P, A, S> where
    P: Fn(&str) -> Option<u64>,
    A: Fn(Op, u64, u64) -> u64,
    S: Fn(u64) -> String,
 {
    #[verifier::type_invariant]
    spec fn wf(&self) -> bool {
        functional(self.parse, self.op, self.show)
    }

    pub fn new(parse: P, op: A, show: S) -> (r: Self)
        requires
            functional(parse, op, show),
        ensures
            r.sem() == sem_of(parse, op, show),
    {
        Math { parse, op, show }
    }
}

impl<P, A, S> Calc for Math<P, A, S> where
    P: Fn(&str) -> Option<u64>,
    A: Fn(Op, u64, u64) -> u64,
    S: Fn(u64) -> String,
 {
    closed spec fn sem(&self) -> Sem {
        sem_of(self.parse, self.op, self.show)
    }

    fn op(&self, o: Op, a: Bits, b: Bits) -> (r: Bits) {
        proof {
            use_type_invariant(self);
        }
        (self.op)(o, a, b)
    }

    fn parse(&self, s: &str) -> (r: Option<Bits>) {
        proof {
            use_type_invariant(self);
        }
        let r = (self.parse)(s);
        proof {
            assert(reads(self.parse, s@, r));
            assert(reads(self.parse, s@, (self.sem().parse)(s@)));
        }
        r
    }

    fn show(&self, a: Bits) -> (r: String) {
        proof {
            use_type_invariant(self);
        }
        let r = (self.show)(a);
        assert(writes(self.show, a, r@));
        r
    }
}

pub fn plus<C: Calc>(m: &C, a: Bits, b: Bits) -> (r: Bits)
    ensures
        r == m.sem().plus(a, b),
{
    m.op(Op::Add, a, b)
}

pub fn minus<C: Calc>(m: &C, a: Bits, b: Bits) -> (r: Bits)
    ensures
        r == m.sem().minus(a, b),
{
    m.op(Op::Sub, a, b)
}

pub fn times<C: Calc>(m: &C, a: Bits, b: Bits) -> (r: Bits)
    ensures
        r == m.sem().times(a, b),
{
    m.op(Op::Mul, a, b)
}

pub fn over<C: Calc>(m: &C, a: Bits, b: Bits) -> (r: Bits)
    ensures
        r == m.sem().over(a, b),
{
    m.op(Op::Div, a, b)
}

pub fn larger<C: Calc>(m: &C, a: Bits, b: Bits) -> (r: Bits)
    ensures
        r == m.sem().max(a, b),
{
    m.op(Op::Max, a, b)
}

pub fn sqrt<C: Calc>(m: &C, a: Bits) -> (r: Bits)
    ensures
        r == m.sem().sqrt(a),
{
    m.op(Op::Sqrt, a, 0)
}

pub fn sin<C: Calc>(m: &C, a: Bits) -> (r: Bits)
    ensures
        r == m.sem().sin(a),
{
    m.op(Op::Sin, a, 0)
}

pub fn rem_euclid<C: Calc>(m: &C, a: Bits, b: Bits) -> (r: Bits)
    ensures
        r == m.sem().rem_euclid(a, b),
{
    m.op(Op::RemEuclid, a, b)
}

pub fn radians<C: Calc>(m: &C, a: Bits) -> (r: Bits)
    ensures
        r == m.sem().radians(a),
{
    m.op(Op::Radians, a, 0)
}

pub fn degrees<C: Calc>(m: &C, a: Bits) -> (r: Bits)
    ensures
        r == m.sem().degrees(a),
{
    m.op(Op::Degrees, a, 0)
}

pub fn from_int<C: Calc>(m: &C, n: u64) -> (r: Bits)
    ensures
        r == m.sem().from_int(n),
{
    m.op(Op::FromInt, n, 0)
}

pub fn trunc<C: Calc>(m: &C, a: Bits) -> (r: u64)
    ensures
        r == m.sem().trunc(a),
{
    m.op(Op::Trunc, a, 0)
}

pub fn round<C: Calc>(m: &C, a: Bits) -> (r: u64)
    ensures
        r == m.sem().round(a),
{
    m.op(Op::Round, a, 0)
}

pub fn root3<C: Calc>(m: &C) -> (r: Bits)
    ensures
        r == m.sem().root3(),
{
    sqrt(m, THREE)
}

// ---- what the bits say -----------------------------------------------------

/// The sign bit.
pub const SIGN: u64 = 0x8000_0000_0000_0000;

/// The bits of positive infinity.
pub const INFINITE: u64 = 0x7ff0_0000_0000_0000;

/// The bits without the sign.
pub open spec fn abs_of(a: Bits) -> Bits {
    if a >= SIGN {
        (a - SIGN) as u64
    } else {
        a
    }
}

/// Not a number.
pub open spec fn is_nan(a: Bits) -> bool {
    abs_of(a) > INFINITE
}

/// Neither infinite nor not a number.
pub open spec fn is_finite(a: Bits) -> bool {
    abs_of(a) < INFINITE
}

/// An integer that orders the numbers: bit patterns grow with the magnitude,
/// and the two zeros share one.
pub open spec fn rank(a: Bits) -> int {
    if a >= SIGN {
        -(a - SIGN)
    } else {
        a as int
    }
}

/// `a < b` as numbers; false where one of them is not a number.
pub open spec fn num_lt(a: Bits, b: Bits) -> bool {
    !is_nan(a) && !is_nan(b) && rank(a) < rank(b)
}

/// `a <= b` as numbers.
pub open spec fn num_le(a: Bits, b: Bits) -> bool {
    !is_nan(a) && !is_nan(b) && rank(a) <= rank(b)
}

/// `a == b` as numbers.
pub open spec fn num_eq(a: Bits, b: Bits) -> bool {
    !is_nan(a) && !is_nan(b) && rank(a) == rank(b)
}

/// The order that ranks every bit pattern: negative zero below positive zero,
/// and what is not a number at the ends.
pub open spec fn total_rank(a: Bits) -> int {
    if a >= SIGN {
        -(a - SIGN) - 1
    } else {
        a as int
    }
}

pub fn abs(a: Bits) -> (r: Bits)
    ensures
        r == abs_of(a),
{
    if a >= SIGN {
        a - SIGN
    } else {
        a
    }
}

pub fn nan(a: Bits) -> (r: bool)
    ensures
        r == is_nan(a),
{
    abs(a) > INFINITE
}

pub fn finite(a: Bits) -> (r: bool)
    ensures
        r == is_finite(a),
{
    abs(a) < INFINITE
}

pub fn lt(a: Bits, b: Bits) -> (r: bool)
    ensures
        r == num_lt(a, b),
{
    if nan(a) || nan(b) {
        false
    } else if a >= SIGN {
        if b >= SIGN {
            a > b
        } else {
            a != SIGN || b != 0
        }
    } else {
        b < SIGN && a < b
    }
}

pub fn eq(a: Bits, b: Bits) -> (r: bool)
    ensures
        r == num_eq(a, b),
{
    !nan(a) && !nan(b) && (a == b || (abs(a) == 0 && abs(b) == 0))
}

pub fn le(a: Bits, b: Bits) -> (r: bool)
    ensures
        r == num_le(a, b),
{
    lt(a, b) || eq(a, b)
}

/// Whether `a` ranks below `b` in the order of every bit pattern.
pub fn total_lt(a: Bits, b: Bits) -> (r: bool)
    ensures
        r == (total_rank(a) < total_rank(b)),
{
    if a >= SIGN {
        if b >= SIGN {
            a > b
        } else {
            true
        }
    } else {
        b < SIGN && a < b
    }
}

// ---- signs -----------------------------------------------------------------

/// The signs of sums, differences, products and quotients, as far as they hold of
/// binary64 numbers whatever is rounded: none of them speaks of what is not a
/// number, and a product or a quotient may vanish.
pub open spec fn signed(m: Sem) -> bool {
    &&& forall|a: Bits, b: Bits|
        is_finite(a) && is_finite(b) ==> (num_lt(ZERO, #[trigger] m.minus(a, b)) == num_lt(b, a))
    &&& forall|a: Bits, b: Bits|
        is_finite(a) && is_finite(b) ==> (num_lt(#[trigger] m.minus(a, b), ZERO) == num_lt(a, b))
    &&& forall|a: Bits, b: Bits|
        is_finite(a) && is_finite(b) ==> (num_eq(#[trigger] m.minus(a, b), ZERO) == num_eq(a, b))
    &&& forall|a: Bits, b: Bits|
        num_lt(ZERO, a) && num_lt(ZERO, b) ==> num_le(ZERO, #[trigger] m.times(a, b))
    &&& forall|a: Bits, b: Bits|
        num_lt(a, ZERO) && num_lt(ZERO, b) ==> num_le(#[trigger] m.times(a, b), ZERO)
    &&& forall|a: Bits, b: Bits|
        num_eq(a, ZERO) && is_finite(b) ==> num_eq(#[trigger] m.times(a, b), ZERO)
    &&& forall|a: Bits, b: Bits|
        num_le(ZERO, a) && num_lt(ZERO, b) && is_finite(b) ==> num_le(
            ZERO,
            #[trigger] m.over(a, b),
        )
    &&& forall|a: Bits, b: Bits|
        num_le(a, ZERO) && num_lt(ZERO, b) && is_finite(b) ==> num_le(
            #[trigger] m.over(a, b),
            ZERO,
        )
    &&& forall|a: Bits, b: Bits|
        is_finite(a) && num_le(ZERO, b) ==> num_le(a, #[trigger] m.plus(a, b))
    &&& forall|a: Bits, b: Bits|
        is_finite(a) && num_le(b, ZERO) ==> num_le(#[trigger] m.plus(a, b), a)
}

// ---- constants -------------------------------------------------------------

pub const ZERO: u64 = 0;

pub const HALF: u64 = 0x3fe0000000000000;

pub const ONE: u64 = 0x3ff0000000000000;

pub const ONE_AND_HALF: u64 = 0x3ff8000000000000;

pub const TWO: u64 = 0x4000000000000000;

pub const THREE: u64 = 0x4008000000000000;

pub const TEN: u64 = 0x4024000000000000;

pub const FIFTY: u64 = 0x4049000000000000;

pub const SIXTY: u64 = 0x404e000000000000;

pub const HUNDRED: u64 = 0x4059000000000000;

pub const THOUSAND: u64 = 0x408f400000000000;

/// 86400, the seconds of a day.
pub const DAY: u64 = 0x40f5180000000000;

/// 1e6.
pub const MILLION: u64 = 0x412e848000000000;

/// 1e9.
pub const BILLION: u64 = 0x41cdcd6500000000;

/// 5e9.
pub const FIVE_BILLION: u64 = 0x41f2a05f20000000;

/// 1e-6.
pub const MICRO: u64 = 0x3eb0c6f7a0b5ed8d;

/// 1e-9.
pub const NANO: u64 = 0x3e112e0be826d695;

/// 1e-12.
pub const PICO: u64 = 0x3d719799812dea11;

pub const MINUS_ONE: u64 = 0xbff0000000000000;

pub const PI: u64 = 0x400921fb54442d18;

pub const TAU: u64 = 0x401921fb54442d18;

/// The distance from one to the next number.
pub const EPSILON: u64 = 0x3cb0000000000000;

} // verus!
