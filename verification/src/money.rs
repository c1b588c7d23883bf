//! Fixed-point currency with saturating arithmetic.

use vstd::prelude::*;
use vstd::std_specs::ops::{AddSpecImpl, DivSpecImpl, MulSpecImpl, NegSpecImpl};

verus! {

/// What one worker consumes per second, in the smallest accounted unit of money.
pub const WORKER_CONSUMPTION_PER_SECOND: i64 = 100;

/// Clamps a mathematical integer into the range of `i64`.
pub open spec fn clamp_i64(v: int) -> int {
    if v < i64::MIN as int {
        i64::MIN as int
    } else if v > i64::MAX as int {
        i64::MAX as int
    } else {
        v
    }
}

/// The quotient of `a` by `b`, rounded toward zero.
pub open spec fn div_toward_zero(a: int, b: int) -> int
    recommends
        b != 0,
{
    if a >= 0 && b > 0 {
        a / b
    } else if a < 0 && b > 0 {
        -((-a) / b)
    } else if a >= 0 && b < 0 {
        -(a / (-b))
    } else {
        (-a) / (-b)
    }
}

/// An amount of money in the smallest accounted unit. Negative amounts are
/// debts. Arithmetic saturates at the bounds of `i64` instead of wrapping.
#[derive(Clone, Copy, Debug, PartialEq, Eq, Structural, PartialOrd, Ord, Hash)]
pub struct Money(pub i64);

/// Clamps `v` into the range of `i64`.
fn clamp_i128(v: i128) -> (r: i64)
    ensures
        r == clamp_i64(v as int),
{
    if v < i64::MIN as i128 {
        i64::MIN
    } else if v > i64::MAX as i128 {
        i64::MAX
    } else {
        v as i64
    }
}

impl Money {
    /// The amount held by this value, as a mathematical integer.
    pub open spec fn amount(self) -> int {
        self.0 as int
    }

    /// The sum of two amounts, stopped at the bounds of `i64`.
    pub open spec fn plus(self, rhs: Money) -> Money {
        Money(clamp_i64(self.0 + rhs.0) as i64)
    }

    /// The opposite amount, stopped at the upper bound of `i64`.
    pub open spec fn negated(self) -> Money {
        Money(clamp_i64(-self.0) as i64)
    }

    /// `n` times the amount, stopped at the bounds of `i64`.
    pub open spec fn times(self, n: int) -> Money {
        Money(clamp_i64(self.0 * n) as i64)
    }

    /// The amount divided by `n`, rounded toward zero and stopped at the
    /// upper bound of `i64`.
    pub open spec fn over(self, n: int) -> Money
        recommends
            n != 0,
    {
        Money(clamp_i64(div_toward_zero(self.0 as int, n)) as i64)
    }

    /// No money at all.
    pub fn zero() -> (m: Money)
        ensures
            m.amount() == 0,
    {
        Money(0)
    }

    /// The amount of `inner` smallest units.
    pub fn new_inner(inner: i64) -> (m: Money)
        ensures
            m.amount() == inner,
    {
        Money(inner)
    }

    /// The amount in smallest units.
    pub fn inner(self) -> (v: i64)
        ensures
            v == self.amount(),
    {
        self.0
    }

    /// The smaller of two amounts.
    pub fn min(self, other: Money) -> (m: Money)
        ensures
            m.amount() == if self.amount() <= other.amount() {
                self.amount()
            } else {
                other.amount()
            },
    {
        if self.0 <= other.0 {
            self
        } else {
            other
        }
    }
}

/// `a + b` is the sum, stopped at the bounds of `i64`.
impl core::ops::Add for Money {
    type Output = Money;

    fn add(self, rhs: Money) -> (r: Money) {
        Money(clamp_i128(self.0 as i128 + rhs.0 as i128))
    }
}

impl AddSpecImpl for Money {
    open spec fn obeys_add_spec() -> bool {
        true
    }

    open spec fn add_req(self, rhs: Money) -> bool {
        true
    }

    open spec fn add_spec(self, rhs: Money) -> Money {
        self.plus(rhs)
    }
}

/// `-a` is the opposite amount, stopped at the upper bound of `i64`.
impl core::ops::Neg for Money {
    type Output = Money;

    fn neg(self) -> (r: Money) {
        let v: i128 = -(self.0 as i128);
        assert(v == -self.0);
        Money(clamp_i128(v))
    }
}

impl NegSpecImpl for Money {
    open spec fn obeys_neg_spec() -> bool {
        true
    }

    open spec fn neg_req(self) -> bool {
        true
    }

    open spec fn neg_spec(self) -> Money {
        self.negated()
    }
}

/// `a * n` is `n` times the amount, stopped at the bounds of `i64`.
impl core::ops::Mul<i64> for Money {
    type Output = Money;

    fn mul(self, rhs: i64) -> (r: Money) {
        assert(-0x4000_0000_0000_0000_0000_0000_0000_0000 <= self.0 * rhs
            <= 0x4000_0000_0000_0000_0000_0000_0000_0000) by (nonlinear_arith)
            requires
                -0x8000_0000_0000_0000 <= self.0 <= 0x8000_0000_0000_0000,
                -0x8000_0000_0000_0000 <= rhs <= 0x8000_0000_0000_0000,
        ;
        let v: i128 = self.0 as i128 * rhs as i128;
        assert(v == self.0 * rhs);
        Money(clamp_i128(v))
    }
}

impl MulSpecImpl<i64> for Money {
    open spec fn obeys_mul_spec() -> bool {
        true
    }

    open spec fn mul_req(self, rhs: i64) -> bool {
        true
    }

    open spec fn mul_spec(self, rhs: i64) -> Money {
        self.times(rhs as int)
    }
}

/// `a / n` is the amount divided by `n`, which must not be zero, rounded
/// toward zero and stopped at the upper bound of `i64`.
impl core::ops::Div<i64> for Money {
    type Output = Money;

    fn div(self, rhs: i64) -> (r: Money) {
        let a: i128 = self.0 as i128;
        let b: i128 = rhs as i128;
        let q: i128 = if a >= 0 && b > 0 {
            ((a as u128) / (b as u128)) as i128
        } else if a < 0 && b > 0 {
            -((((-a) as u128) / (b as u128)) as i128)
        } else if a >= 0 {
            -(((a as u128) / ((-b) as u128)) as i128)
        } else {
            (((-a) as u128) / ((-b) as u128)) as i128
        };
        Money(clamp_i128(q))
    }
}

impl DivSpecImpl<i64> for Money {
    open spec fn obeys_div_spec() -> bool {
        true
    }

    open spec fn div_req(self, rhs: i64) -> bool {
        rhs != 0
    }

    open spec fn div_spec(self, rhs: i64) -> Money {
        self.over(rhs as int)
    }
}

} // verus!
