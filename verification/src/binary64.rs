//! Double-precision numbers by their bits: what has to be known of them to choose a unit.
use std::cmp::Ordering;
use vstd::prelude::*;

verus! {

/// A double-precision number, held as its IEEE 754 bit pattern. `==` and `<` compare the numbers.
#[derive(Copy, Clone, Debug)]
pub struct Binary64 {
    pub bits: u64,
}

/// The bit pattern of positive infinity. Smaller ones are the numbers from zero on, in their
/// order; above it are what is not a number and the numbers with a minus sign.
pub const INFINITY: u64 = 0x7ff0_0000_0000_0000;

/// Two to the power of the number of bits in the fraction.
pub const FRACTIONS: u64 = 0x10_0000_0000_0000;

/// The bit pattern of zero with a minus sign. It is added to that of a number to change the sign.
pub const MINUS: u64 = 0x8000_0000_0000_0000;

impl Binary64 {
    /// The place of a number among all numbers: zero for both zeros, and more for a greater number.
    /// What is not a number has none.
    pub open spec fn rank(self) -> Option<int> {
        if self.bits <= INFINITY {
            Some(self.bits as int)
        } else if MINUS <= self.bits <= MINUS + INFINITY {
            Some(MINUS - self.bits)
        } else {
            None
        }
    }

    /// The place of a number among all numbers.
    fn ranked(self) -> (rank: Option<i64>)
        ensures
            match rank {
                Some(place) => self.rank() == Some(place as int),
                None => self.rank() is None,
            },
    {
        if self.bits <= INFINITY {
            Some(self.bits as i64)
        } else if MINUS <= self.bits && self.bits - MINUS <= INFINITY {
            Some(-((self.bits - MINUS) as i64))
        } else {
            None
        }
    }

    /// A number from zero on, other than infinity.
    pub open spec fn finite(self) -> bool {
        self.bits < INFINITY
    }

    pub open spec fn exponent(self) -> nat {
        (self.bits / FRACTIONS) as nat
    }

    pub open spec fn fraction(self) -> nat {
        (self.bits % FRACTIONS) as nat
    }

    /// A finite number, counted in the smallest positive one, two to the power of -1074.
    pub open spec fn quanta(self) -> nat {
        if self.exponent() == 0 {
            self.fraction()
        } else {
            (FRACTIONS + self.fraction()) as nat * vstd::arithmetic::power2::pow2(
                (self.exponent() - 1) as nat,
            )
        }
    }

    /// The number is greater than two to the power of `power`. What is not a number is not.
    pub open spec fn above(self, power: nat) -> bool {
        ||| self.bits == INFINITY
        ||| self.finite() && self.quanta() > vstd::arithmetic::power2::pow2(1074 + power)
    }

    /// `self` is `quotient` times two to the power of `power`. What is not a finite number from
    /// zero on stays as it is.
    pub open spec fn divides_into(self, quotient: Self, power: nat) -> bool {
        if self.finite() {
            quotient.finite() && self.quanta() == quotient.quanta()
                * vstd::arithmetic::power2::pow2(power)
        } else {
            quotient == self
        }
    }

    proof fn lemma_quanta(self)
        requires
            self.finite(),
        ensures
            self.exponent() > 0 ==> {
                &&& self.quanta() == (FRACTIONS + self.fraction())
                    * vstd::arithmetic::power2::pow2((self.exponent() - 1) as nat)
                &&& vstd::arithmetic::power2::pow2((51 + self.exponent()) as nat) <= self.quanta()
                &&& self.fraction() > 0 ==> vstd::arithmetic::power2::pow2(
                    (51 + self.exponent()) as nat,
                ) < self.quanta()
                &&& self.fraction() == 0 ==> vstd::arithmetic::power2::pow2(
                    (51 + self.exponent()) as nat,
                ) == self.quanta()
            },
            self.quanta() < vstd::arithmetic::power2::pow2((52 + self.exponent()) as nat),
    {
        lemma_fractions();
        if self.exponent() > 0 {
            let e = (self.exponent() - 1) as nat;
            let unit = vstd::arithmetic::power2::pow2(e);
            vstd::arithmetic::power2::lemma_pow2_pos(e);
            vstd::arithmetic::power2::lemma_pow2_adds(52, e);
            vstd::arithmetic::power2::lemma_pow2_adds(53, e);
            let f = self.fraction();
            assert((FRACTIONS + f) * unit == FRACTIONS * unit + f * unit) by (nonlinear_arith);
            assert(f > 0 ==> f * unit > 0) by (nonlinear_arith)
                requires
                    unit > 0,
            ;
            assert(f == 0 ==> f * unit == 0) by (nonlinear_arith);
            assert((FRACTIONS + f) * unit < 2 * FRACTIONS * unit) by (nonlinear_arith)
                requires
                    f < FRACTIONS,
                    unit > 0,
            ;
            assert(2 * FRACTIONS * unit == vstd::arithmetic::power2::pow2(53) * unit);
        }
    }

    /// Whether the number is greater than two to the power of `power`.
    pub fn exceeds(self, power: u64) -> (greater: bool)
        requires
            power <= 16,
        ensures
            greater == self.above(power as nat),
    {
        let limit = (1023 + power) * FRACTIONS;
        proof {
            if self.finite() {
                self.lemma_quanta();
                let e = self.exponent();
                let bound = (1074 + power) as nat;
                if e < 1023 + power {
                    if 52 + e < bound {
                        vstd::arithmetic::power2::lemma_pow2_strictly_increases(
                            (52 + e) as nat,
                            bound,
                        );
                    }
                } else if e > 1023 + power {
                    if bound < 51 + e {
                        vstd::arithmetic::power2::lemma_pow2_strictly_increases(
                            bound,
                            (51 + e) as nat,
                        );
                    }
                }
            }
        }
        self.bits <= INFINITY && self.bits > limit
    }

    /// The number divided by two to the power of `power`, which it is greater than.
    pub fn scaled_down(self, power: u64) -> (quotient: Self)
        requires
            power <= 16,
            self.above(power as nat),
        ensures
            self.divides_into(quotient, power as nat),
    {
        if self.bits == INFINITY {
            self
        } else {
            proof {
                self.lemma_quanta();
                let bound = (1074 + power) as nat;
                if self.exponent() < 1023 + power {
                    if 52 + self.exponent() < bound {
                        vstd::arithmetic::power2::lemma_pow2_strictly_increases(
                            (52 + self.exponent()) as nat,
                            bound,
                        );
                    }
                }
                assert(self.exponent() >= 1023 + power);
            }
            let quotient = Binary64 { bits: self.bits - power * FRACTIONS };
            proof {
                let e = self.exponent();
                let f = self.fraction();
                assert(quotient.exponent() == e - power);
                assert(quotient.fraction() == f);
                let small = vstd::arithmetic::power2::pow2((e - power - 1) as nat);
                let factor = vstd::arithmetic::power2::pow2(power as nat);
                vstd::arithmetic::power2::lemma_pow2_adds((e - power - 1) as nat, power as nat);
                assert((FRACTIONS + f) * (small * factor) == (FRACTIONS + f) * small * factor)
                    by (nonlinear_arith);
            }
            quotient
        }
    }
}

proof fn lemma_fractions()
    ensures
        vstd::arithmetic::power2::pow2(52) == FRACTIONS,
        vstd::arithmetic::power2::pow2(53) == 2 * FRACTIONS,
{
    vstd::arithmetic::power2::lemma2_to64();
    vstd::arithmetic::power2::lemma2_to64_rest();
}

impl PartialEq for Binary64 {
    fn eq(&self, other: &Self) -> (equal: bool) {
        match (self.ranked(), other.ranked()) {
            (Some(a), Some(b)) => a == b,
            _ => false,
        }
    }
}

impl vstd::std_specs::cmp::PartialEqSpecImpl for Binary64 {
    open spec fn obeys_eq_spec() -> bool {
        true
    }

    /// Two numbers are equal if they have the same place. What is not a number equals nothing, not
    /// even itself.
    open spec fn eq_spec(&self, other: &Self) -> bool {
        self.rank() is Some && self.rank() == other.rank()
    }
}

impl PartialOrd for Binary64 {
    fn partial_cmp(&self, other: &Self) -> (order: Option<Ordering>) {
        match (self.ranked(), other.ranked()) {
            (Some(a), Some(b)) => if a < b {
                Some(Ordering::Less)
            } else if a > b {
                Some(Ordering::Greater)
            } else {
                Some(Ordering::Equal)
            },
            _ => None,
        }
    }
}

impl vstd::std_specs::cmp::PartialOrdSpecImpl for Binary64 {
    open spec fn obeys_partial_cmp_spec() -> bool {
        true
    }

    /// Two numbers are in the order of their places. What is not a number is in no order.
    open spec fn partial_cmp_spec(&self, other: &Self) -> Option<Ordering> {
        match (self.rank(), other.rank()) {
            (Some(a), Some(b)) => if a < b {
                Some(Ordering::Less)
            } else if a > b {
                Some(Ordering::Greater)
            } else {
                Some(Ordering::Equal)
            },
            _ => None,
        }
    }
}

/// A greater number from zero on has a higher place, so that numbers are in the order of their
/// values.
pub proof fn law_order_goes_by_value(a: Binary64, b: Binary64)
    requires
        a.finite(),
        b.finite(),
    ensures
        a.rank()->0 < b.rank()->0 <==> a.quanta() < b.quanta(),
{
    if a.bits < b.bits {
        lemma_more_bits_more_quanta(a, b);
    } else if b.bits < a.bits {
        lemma_more_bits_more_quanta(b, a);
    }
}

proof fn lemma_more_bits_more_quanta(a: Binary64, b: Binary64)
    requires
        b.finite(),
        a.bits < b.bits,
    ensures
        a.quanta() < b.quanta(),
{
    let (e, f) = (a.exponent(), b.exponent());
    assert(e <= f);
    vstd::arithmetic::power2::lemma2_to64();
    if e == f {
        if e > 0 {
            let unit = vstd::arithmetic::power2::pow2((e - 1) as nat);
            vstd::arithmetic::power2::lemma_pow2_pos((e - 1) as nat);
            assert((FRACTIONS + a.fraction()) * unit < (FRACTIONS + b.fraction()) * unit)
                by (nonlinear_arith)
                requires
                    a.fraction() < b.fraction(),
                    unit > 0,
            ;
        }
    } else {
        let high = vstd::arithmetic::power2::pow2((f - 1) as nat);
        vstd::arithmetic::power2::lemma_pow2_pos((f - 1) as nat);
        assert(b.quanta() >= FRACTIONS * high) by (nonlinear_arith)
            requires
                b.quanta() == (FRACTIONS + b.fraction()) * high,
                high > 0,
        ;
        if e == 0 {
            assert(FRACTIONS * high >= FRACTIONS) by (nonlinear_arith)
                requires
                    high > 0,
            ;
        } else {
            let low = vstd::arithmetic::power2::pow2((e - 1) as nat);
            vstd::arithmetic::power2::lemma_pow2_pos((e - 1) as nat);
            vstd::arithmetic::power2::lemma_pow2_unfold(e);
            if e < f - 1 {
                vstd::arithmetic::power2::lemma_pow2_strictly_increases(e, (f - 1) as nat);
            }
            assert(a.quanta() < FRACTIONS * high) by (nonlinear_arith)
                requires
                    a.quanta() == (FRACTIONS + a.fraction()) * low,
                    a.fraction() < FRACTIONS,
                    2 * low <= high,
                    low > 0,
            ;
        }
    }
}

/// Two doubles are equal if they are the same number, or the two zeros. Zero is neither less nor
/// more than zero, and the numbers with a minus sign go the other way. What is not a number equals
/// nothing, and is in no order.
pub proof fn law_comparison_by_bits(a: Binary64, b: Binary64)
    ensures
        ({
            let infinity: u64 = 0x7ff0_0000_0000_0000;
            let minus: u64 = 0x8000_0000_0000_0000;
            let no_number = |x: Binary64|
                infinity < x.bits < minus || x.bits > minus + infinity;
            let order = vstd::std_specs::cmp::PartialOrdSpec::partial_cmp_spec(&a, &b);
            &&& vstd::std_specs::cmp::PartialEqSpec::eq_spec(&a, &b) <==> !no_number(a)
                && !no_number(b) && (a.bits == b.bits || (a.bits == 0 || a.bits == minus) && (b.bits
                == 0 || b.bits == minus))
            &&& no_number(a) || no_number(b) <==> order is None
            &&& a.bits <= infinity && b.bits <= infinity ==> (order == Some(Ordering::Less)
                <==> a.bits < b.bits) && (order == Some(Ordering::Greater) <==> a.bits > b.bits)
            &&& minus < a.bits <= minus + infinity && b.bits <= infinity ==> order == Some(
                Ordering::Less,
            )
            &&& a.bits <= infinity && minus < b.bits <= minus + infinity ==> order == Some(
                Ordering::Greater,
            )
            &&& minus <= a.bits <= minus + infinity && minus <= b.bits <= minus + infinity ==> (
            order == Some(Ordering::Less) <==> a.bits > b.bits) && (order == Some(Ordering::Greater)
                <==> a.bits < b.bits)
        }),
{
}

/// The bit pattern zero is the number zero, and from each pattern to the next the number grows by
/// the same step as long as the upper twelve bits are the same: by one in the smallest unit at
/// first, and by twice as much each time that they go up, once they are more than one.
pub proof fn law_value_goes_by_steps(a: Binary64, b: Binary64)
    requires
        b.bits == a.bits + 1,
        b.bits < 0x7ff0_0000_0000_0000,
    ensures
        (Binary64 { bits: 0 }).quanta() == 0,
        ({
            let exponent = a.bits as int / 0x10_0000_0000_0000;
            b.quanta() - a.quanta() == vstd::arithmetic::power2::pow2(
                (if exponent > 1 {
                    exponent - 1
                } else {
                    0
                }) as nat,
            )
        }),
{
    let e = a.exponent();
    vstd::arithmetic::power2::lemma2_to64();
    let unit = vstd::arithmetic::power2::pow2(
        (if e > 1 {
            e - 1
        } else {
            0
        }) as nat,
    );
    if b.exponent() == e {
        assert(b.fraction() == a.fraction() + 1);
        if e > 0 {
            assert((FRACTIONS + b.fraction()) * unit == (FRACTIONS + a.fraction()) * unit + unit)
                by (nonlinear_arith)
                requires
                    b.fraction() == a.fraction() + 1,
            ;
        }
    } else {
        assert(b.exponent() == e + 1 && b.fraction() == 0 && a.fraction() == FRACTIONS - 1);
        if e > 0 {
            vstd::arithmetic::power2::lemma_pow2_unfold(e);
            let high = vstd::arithmetic::power2::pow2(e);
            assert((FRACTIONS + 0) * high == (FRACTIONS + (FRACTIONS - 1)) * unit + unit)
                by (nonlinear_arith)
                requires
                    high == 2 * unit,
            ;
        }
    }
}

} // verus!
