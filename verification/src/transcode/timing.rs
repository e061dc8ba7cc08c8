//! Time bases and the arithmetic of timestamps.
use vstd::prelude::*;

verus! {

/// The length of one tick in seconds: `num / den`.
#[derive(Clone, Copy, Debug, PartialEq, Eq, Structural)]
pub struct TimeBase {
    pub num: i32,
    pub den: i32,
}

/// The magnitude of an integer.
pub open spec fn magnitude(a: int) -> int {
    if a < 0 {
        -a
    } else {
        a
    }
}

/// The quotient rounded toward zero.
pub open spec fn quotient(a: int, b: int) -> int
    recommends
        b != 0,
{
    let q = magnitude(a) / magnitude(b);
    if (a < 0) == (b < 0) {
        q
    } else {
        -q
    }
}

/// Does a value fit a timestamp?
pub open spec fn fits(a: int) -> bool {
    i64::MIN <= a <= i64::MAX
}

/// Does a value fit a timestamp?
pub fn in_range(a: i128) -> (r: bool)
    ensures
        r == fits(a as int),
{
    a >= i64::MIN as i128 && a <= i64::MAX as i128
}

/// The quotient rounded toward zero.
pub fn truncated_quotient(a: i64, b: i64) -> (r: i64)
    requires
        b != 0,
        a != i64::MIN,
    ensures
        r == quotient(a as int, b as int),
        magnitude(r as int) <= magnitude(a as int),
{
    let x: u64 = if a < 0 {
        (-a) as u64
    } else {
        a as u64
    };
    let y: u64 = if b < 0 {
        (-(b as i128)) as u64
    } else {
        b as u64
    };
    let q: u64 = x / y;
    assert(q <= x) by (nonlinear_arith)
        requires
            q == x / y,
            y >= 1,
    ;
    if (a < 0) == (b < 0) {
        q as i64
    } else {
        -(q as i64)
    }
}

impl TimeBase {
    /// How many ticks make one second, as a time base below one tick per
    /// second is not told apart from one.
    pub open spec fn second(self) -> int {
        quotient(
            self.den as int,
            if self.num < 1 {
                1
            } else {
                self.num as int
            },
        )
    }

    /// How many ticks make one second.
    pub fn ticks_per_second(&self) -> (r: i64)
        ensures
            r == self.second(),
            -0x8000_0000 <= r <= 0x8000_0000,
    {
        let num: i64 = if self.num < 1 {
            1
        } else {
            self.num as i64
        };
        truncated_quotient(self.den as i64, num)
    }
}

/// A second holds as many ticks of a time base as fit into it.
pub proof fn seconds_are_measured(time_base: TimeBase)
    requires
        time_base.num > 0,
        time_base.den >= 0,
    ensures
        time_base.second() * time_base.num <= time_base.den < (time_base.second() + 1)
            * time_base.num,
        0 <= time_base.second() <= time_base.den,
{
    quotients_divide(time_base.den as int, time_base.num as int);
}

/// A quotient times the divisor comes nearest to the dividend from below, for what
/// is not negative; and its sign follows the rule of signs.
pub proof fn quotients_divide(a: int, b: int)
    requires
        a >= 0,
        b > 0,
    ensures
        quotient(a, b) * b <= a < (quotient(a, b) + 1) * b,
        0 <= quotient(a, b) <= a,
        quotient(-a, b) == -quotient(a, b),
        quotient(a, -b) == -quotient(a, b),
        quotient(-a, -b) == quotient(a, b),
{
    vstd::arithmetic::div_mod::lemma_fundamental_div_mod(a, b);
    vstd::arithmetic::div_mod::lemma_mod_bound(a, b);
    let q = a / b;
    assert(q * b <= a < (q + 1) * b && 0 <= q <= a) by (nonlinear_arith)
        requires
            a == b * q + a % b,
            0 <= a % b < b,
            a >= 0,
            b > 0,
    ;
    if a == 0 {
        assert(q == 0);
    }
}

/// Where a time base has no positive numerator, its denominator counts the ticks of a
/// second.
pub proof fn odd_time_bases_count_by_their_denominator(time_base: TimeBase)
    requires
        time_base.num < 1,
        time_base.den >= 0,
    ensures
        time_base.second() == time_base.den,
{
    quotients_divide(time_base.den as int, 1);
}

} // verus!
