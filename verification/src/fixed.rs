//! Signed fixed-point numbers with 18 decimal places, and the four
//! arithmetic operations on them that scrypto's `Decimal` carries out.

use vstd::prelude::*;

verus! {

/// The number of smallest steps in one whole unit: 10^18.
pub const UNIT: u64 = 1_000_000_000_000_000_000;

/// The first count of steps that is too large to hold: 2^191.
pub open spec fn limit() -> int {
    0x8000_0000_0000_0000_0000_0000_0000_0000_0000_0000_0000_0000int
}

/// Whether a count of steps can be held.
pub open spec fn fits(v: int) -> bool {
    -limit() <= v < limit()
}

/// The product of two numbers, cut off after 18 decimal places.
/// Meant for `x >= 0` and `y >= 0`.
pub open spec fn fx_mul(x: int, y: int) -> int {
    x * y / (UNIT as int)
}

/// The quotient of two numbers, cut off after 18 decimal places.
/// Meant for `x >= 0` and `y > 0`.
pub open spec fn fx_div(x: int, y: int) -> int {
    x * (UNIT as int) / y
}

/// A signed fixed-point number with 18 decimal places, held as the three
/// 64-bit digits of a 192-bit two's-complement integer, least significant
/// digit first. This is the form in which scrypto's `Decimal` holds its value.
#[derive(Clone, Copy, Debug, PartialEq, Eq, Structural)]
pub struct Fixed {
    pub lo: u64,
    pub mid: u64,
    pub hi: u64,
}

impl View for Fixed {
    type V = int;

    /// The number of 10^-18 steps that the value counts.
    open spec fn view(&self) -> int {
        let bits = self.lo as int + self.mid as int * 0x1_0000_0000_0000_0000int + self.hi as int
            * 0x1_0000_0000_0000_0000_0000_0000_0000_0000int;
        if self.hi >= 0x8000_0000_0000_0000 {
            bits - 2 * limit()
        } else {
            bits
        }
    }
}

impl Fixed {
    /// Two values that count the same number of steps have the same digits.
    pub proof fn lemma_same_steps(self, other: Fixed)
        ensures
            self@ == other@ <==> self == other,
    {
    }

    /// Zero.
    pub fn zero() -> (r: Fixed)
        ensures
            r@ == 0,
    {
        Fixed { lo: 0, mid: 0, hi: 0 }
    }

    /// One whole unit.
    pub fn one() -> (r: Fixed)
        ensures
            r@ == UNIT,
    {
        Fixed { lo: UNIT, mid: 0, hi: 0 }
    }

    /// The value that counts `steps` steps of 10^-18.
    pub fn from_attos(steps: i128) -> (r: Fixed)
        ensures
            r@ == steps,
    {
        if steps >= 0 {
            let u: u128 = steps as u128;
            Fixed {
                lo: (u % 0x1_0000_0000_0000_0000) as u64,
                mid: (u / 0x1_0000_0000_0000_0000) as u64,
                hi: 0,
            }
        } else {
            let m: u128 = (-(steps + 1)) as u128;
            Fixed {
                lo: u64::MAX - (m % 0x1_0000_0000_0000_0000) as u64,
                mid: u64::MAX - (m / 0x1_0000_0000_0000_0000) as u64,
                hi: u64::MAX,
            }
        }
    }

    /// The number of steps that the value counts, where 128 bits hold it.
    pub fn to_attos(&self) -> (r: Option<i128>)
        ensures
            r is Some <==> i128::MIN <= self@ <= i128::MAX,
            r is Some ==> r.unwrap() == self@,
    {
        if self.hi == 0 && self.mid < 0x8000_0000_0000_0000 {
            let upper: i128 = self.mid as i128;
            Some(upper * 0x1_0000_0000_0000_0000 + self.lo as i128)
        } else if self.hi == u64::MAX && self.mid >= 0x8000_0000_0000_0000 {
            let upper: i128 = self.mid as i128 - 0x1_0000_0000_0000_0000;
            Some(upper * 0x1_0000_0000_0000_0000 + self.lo as i128)
        } else {
            None
        }
    }

    /// Whether the value is below zero.
    pub fn is_negative(&self) -> (r: bool)
        ensures
            r == (self@ < 0),
    {
        self.hi >= 0x8000_0000_0000_0000
    }

    /// Whether the value is zero.
    pub fn is_zero(&self) -> (r: bool)
        ensures
            r == (self@ == 0),
    {
        self.lo == 0 && self.mid == 0 && self.hi == 0
    }

    /// Whether `self` is smaller than `other`.
    pub fn lt(&self, other: &Fixed) -> (r: bool)
        ensures
            r == (self@ < other@),
    {
        let self_negative = self.hi >= 0x8000_0000_0000_0000;
        let other_negative = other.hi >= 0x8000_0000_0000_0000;
        if self_negative != other_negative {
            self_negative
        } else if self.hi != other.hi {
            self.hi < other.hi
        } else if self.mid != other.mid {
            self.mid < other.mid
        } else {
            self.lo < other.lo
        }
    }

    /// Whether `self` is at most `other`.
    pub fn le(&self, other: &Fixed) -> (r: bool)
        ensures
            r == (self@ <= other@),
    {
        !other.lt(self)
    }
}

/// Calls `Decimal::checked_add` of scrypto on the two numbers. The sum of two
/// 192-bit integers is handed back when it lies in the 192-bit range, and
/// `None` when it does not.
#[verifier::external_body]
pub(crate) fn decimal_add(a: Fixed, b: Fixed) -> (r: Option<Fixed>)
    ensures
        r.is_some() <==> fits(a@ + b@),
        r.is_some() ==> r.unwrap()@ == a@ + b@,
{
    let x = scrypto::math::Decimal::from_attos(scrypto::math::I192::from_digits([a.lo, a.mid, a.hi]));
    let y = scrypto::math::Decimal::from_attos(scrypto::math::I192::from_digits([b.lo, b.mid, b.hi]));
    match scrypto::math::CheckedAdd::checked_add(x, y) {
        Some(s) => {
            let d = s.attos().to_digits();
            Some(Fixed { lo: d[0], mid: d[1], hi: d[2] })
        },
        None => None,
    }
}

/// Calls `Decimal::checked_sub` of scrypto on the two numbers. The difference
/// of two 192-bit integers is handed back when it lies in the 192-bit range,
/// and `None` when it does not.
#[verifier::external_body]
pub(crate) fn decimal_sub(a: Fixed, b: Fixed) -> (r: Option<Fixed>)
    ensures
        r.is_some() <==> fits(a@ - b@),
        r.is_some() ==> r.unwrap()@ == a@ - b@,
{
    let x = scrypto::math::Decimal::from_attos(scrypto::math::I192::from_digits([a.lo, a.mid, a.hi]));
    let y = scrypto::math::Decimal::from_attos(scrypto::math::I192::from_digits([b.lo, b.mid, b.hi]));
    match scrypto::math::CheckedSub::checked_sub(x, y) {
        Some(s) => {
            let d = s.attos().to_digits();
            Some(Fixed { lo: d[0], mid: d[1], hi: d[2] })
        },
        None => None,
    }
}

/// Calls `Decimal::checked_mul` of scrypto on two numbers that are not
/// negative. It multiplies the two counts of steps in 256 bits, divides the
/// product by 10^18 without rounding up, and hands the quotient back when it
/// is below 2^191, `None` when it is not.
#[verifier::external_body]
pub(crate) fn decimal_mul(a: Fixed, b: Fixed) -> (r: Option<Fixed>)
    requires
        a@ >= 0,
        b@ >= 0,
    ensures
        r.is_some() <==> fx_mul(a@, b@) < limit(),
        r.is_some() ==> r.unwrap()@ == fx_mul(a@, b@),
{
    let x = scrypto::math::Decimal::from_attos(scrypto::math::I192::from_digits([a.lo, a.mid, a.hi]));
    let y = scrypto::math::Decimal::from_attos(scrypto::math::I192::from_digits([b.lo, b.mid, b.hi]));
    match scrypto::math::CheckedMul::checked_mul(x, y) {
        Some(p) => {
            let d = p.attos().to_digits();
            Some(Fixed { lo: d[0], mid: d[1], hi: d[2] })
        },
        None => None,
    }
}

/// Calls `Decimal::checked_div` of scrypto on two numbers that are not
/// negative. With a divisor of zero it hands back `None`. Otherwise it
/// multiplies the dividend's count of steps by 10^18 in 256 bits, divides by
/// the divisor's count without rounding up, and hands the quotient back when
/// it is below 2^191, `None` when it is not.
#[verifier::external_body]
pub(crate) fn decimal_div(a: Fixed, b: Fixed) -> (r: Option<Fixed>)
    requires
        a@ >= 0,
        b@ >= 0,
    ensures
        r.is_some() <==> (b@ != 0 && fx_div(a@, b@) < limit()),
        r.is_some() ==> r.unwrap()@ == fx_div(a@, b@),
{
    let x = scrypto::math::Decimal::from_attos(scrypto::math::I192::from_digits([a.lo, a.mid, a.hi]));
    let y = scrypto::math::Decimal::from_attos(scrypto::math::I192::from_digits([b.lo, b.mid, b.hi]));
    match scrypto::math::CheckedDiv::checked_div(x, y) {
        Some(q) => {
            let d = q.attos().to_digits();
            Some(Fixed { lo: d[0], mid: d[1], hi: d[2] })
        },
        None => None,
    }
}

} // verus!
