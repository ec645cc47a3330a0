//! Exact fixed-point decimal numbers: the runtime number type of the
//! language. A value is an integer multiple of 10^-12, held as a sign and a
//! scaled magnitude, and kept below 10^14 in absolute value. Arithmetic is
//! exact except where a result would need more than twelve fraction digits
//! (multiplication and division truncate toward zero there) or would leave
//! the representable range (the operation reports that instead of wrapping).
use crate::text::{push_digits, spec_digits, spec_pad, strip_zeros};
use vstd::arithmetic::div_mod::{lemma_div_is_ordered, lemma_div_multiples_vanish};
use vstd::prelude::*;

verus! {

/// The textual rendering of the scaled value `v`: a minus sign for negative
/// values, the whole part in decimal, and, when the twelve-digit fraction
/// part is not zero, a point and the fraction digits with trailing zeros
/// removed.
pub open spec fn spec_render_val(v: int) -> Seq<char> {
    if v < 0 {
        seq!['-'] + spec_render_mag((-v) as nat)
    } else {
        spec_render_mag(v as nat)
    }
}

pub open spec fn spec_render_mag(m: nat) -> Seq<char> {
    let whole = m / (SCALE as nat);
    let frac = m % (SCALE as nat);
    if frac == 0 {
        spec_digits(whole)
    } else {
        spec_digits(whole) + seq!['.'] + strip_zeros(spec_pad(frac, 12))
    }
}

/// Division truncated toward zero, as the runtime's multiplication and
/// division round: the quotient of the magnitudes, with the sign of the
/// exact quotient.
pub open spec fn trunc_div(a: int, b: int) -> int
    recommends
        b != 0,
{
    let m = abs_int(a) / abs_int(b);
    if (a < 0) == (b < 0) {
        m
    } else {
        -m
    }
}

pub open spec fn abs_int(a: int) -> int {
    if a < 0 {
        -a
    } else {
        a
    }
}

/// Scaled magnitudes count units of 10^-12: a number's value is
/// `mag / SCALE`, negated when the sign is set.
pub const SCALE: u128 = 1_000_000_000_000;

/// Exclusive bound on the scaled magnitude, so values stay below 10^14.
pub const MAG_LIMIT: u128 = 100_000_000_000_000_000_000_000_000;

/// A runtime number: `value == (if neg { -1 } else { 1 }) * mag / SCALE`.
/// The representation is canonical: zero is never negative, so two numbers
/// are structurally equal exactly when they denote the same value.
#[derive(Clone, Copy, Debug, PartialEq, Eq, Structural)]
pub struct Decimal {
    neg: bool,
    mag: u128,
}

impl Decimal {
    /// The mathematical value, scaled by 10^12 to an integer.
    pub closed spec fn to_int(&self) -> int {
        if self.neg {
            -(self.mag as int)
        } else {
            self.mag as int
        }
    }

    /// Well-formed: magnitude in range and no negative zero.
    pub closed spec fn inv(&self) -> bool {
        &&& self.mag < MAG_LIMIT
        &&& self.mag == 0 ==> !self.neg
    }

    /// A well-formed number's scaled value lies strictly between
    /// -MAG_LIMIT and MAG_LIMIT.
    pub proof fn lemma_inv_bounds(&self)
        requires
            self.inv(),
        ensures
            -(MAG_LIMIT as int) < self.to_int() < MAG_LIMIT as int,
    {
    }

    /// Well-formed numbers are structurally equal exactly when their values
    /// are equal: the representation is canonical.
    pub proof fn lemma_eq_iff_value_eq(a: Decimal, b: Decimal)
        requires
            a.inv(),
            b.inv(),
        ensures
            a == b <==> a.to_int() == b.to_int(),
    {
    }

    pub fn zero() -> (r: Decimal)
        ensures
            r.inv(),
            r.to_int() == 0,
    {
        Decimal { neg: false, mag: 0 }
    }

    /// Builds a number directly from its sign and scaled magnitude.
    pub fn from_scaled(neg: bool, mag: u128) -> (r: Decimal)
        requires
            mag < MAG_LIMIT,
        ensures
            r.inv(),
            r.to_int() == if neg && mag != 0 {
                -(mag as int)
            } else {
                mag as int
            },
    {
        if mag == 0 {
            Decimal { neg: false, mag: 0 }
        } else {
            Decimal { neg, mag }
        }
    }

    /// Builds the number denoting the integer `n`, when it is in range.
    pub fn from_integer(n: i64) -> (r: Option<Decimal>)
        ensures
            r is Some <==> -(MAG_LIMIT as int) < n * (SCALE as int) < MAG_LIMIT as int,
            r matches Some(d) ==> d.inv() && d.to_int() == n * (SCALE as int),
    {
        let neg = n < 0;
        let wide: i128 = n as i128;
        let mag_whole: u128 = if n < 0 {
            (-wide) as u128
        } else {
            wide as u128
        };
        if mag_whole >= 100_000_000_000_000u128 {
            proof {
                let m = mag_whole as int;
                assert(m * (SCALE as int) >= 100_000_000_000_000 * (SCALE as int))
                    by (nonlinear_arith)
                    requires
                        m >= 100_000_000_000_000,
                ;
            }
            None
        } else {
            let mag = mag_whole * SCALE;
            proof {
                let m = mag_whole as int;
                assert(m * (SCALE as int) < MAG_LIMIT as int) by (nonlinear_arith)
                    requires
                        m < 100_000_000_000_000,
                        m >= 0,
                ;
            }
            Some(Decimal::from_scaled(neg, mag))
        }
    }

    pub fn is_zero(&self) -> (r: bool)
        requires
            self.inv(),
        ensures
            r == (self.to_int() == 0),
    {
        self.mag == 0
    }

    /// Negation; always representable.
    pub fn negated(&self) -> (r: Decimal)
        requires
            self.inv(),
        ensures
            r.inv(),
            r.to_int() == -self.to_int(),
    {
        if self.mag == 0 {
            Decimal { neg: false, mag: 0 }
        } else {
            Decimal { neg: !self.neg, mag: self.mag }
        }
    }

    /// Exact addition, reporting None when the sum leaves the range.
    pub fn add_val(&self, rhs: &Decimal) -> (r: Option<Decimal>)
        requires
            self.inv(),
            rhs.inv(),
        ensures
            r is Some <==> -(MAG_LIMIT as int) < self.to_int() + rhs.to_int() < MAG_LIMIT as int,
            r matches Some(d) ==> d.inv() && d.to_int() == self.to_int() + rhs.to_int(),
    {
        if self.neg == rhs.neg {
            let mag = self.mag + rhs.mag;
            if mag >= MAG_LIMIT {
                None
            } else {
                Some(Decimal::from_scaled(self.neg, mag))
            }
        } else if self.mag >= rhs.mag {
            Some(Decimal::from_scaled(self.neg, self.mag - rhs.mag))
        } else {
            Some(Decimal::from_scaled(rhs.neg, rhs.mag - self.mag))
        }
    }

    /// Exact subtraction, reporting None when the difference leaves the range.
    pub fn sub_val(&self, rhs: &Decimal) -> (r: Option<Decimal>)
        requires
            self.inv(),
            rhs.inv(),
        ensures
            r is Some <==> -(MAG_LIMIT as int) < self.to_int() - rhs.to_int() < MAG_LIMIT as int,
            r matches Some(d) ==> d.inv() && d.to_int() == self.to_int() - rhs.to_int(),
    {
        self.add_val(&rhs.negated())
    }

    /// Multiplication, truncated toward zero to twelve fraction digits,
    /// reporting None when the product leaves the range.
    pub fn mul_val(&self, rhs: &Decimal) -> (r: Option<Decimal>)
        requires
            self.inv(),
            rhs.inv(),
        ensures
            ({
                let v = trunc_div(self.to_int() * rhs.to_int(), SCALE as int);
                &&& (r is Some <==> -(MAG_LIMIT as int) < v < MAG_LIMIT as int)
                &&& (r matches Some(d) ==> d.inv() && d.to_int() == v)
            }),
    {
        proof {
            let m1 = self.mag as int;
            let m2 = rhs.mag as int;
            assert(self.to_int() * rhs.to_int() == if self.neg == rhs.neg {
                m1 * m2
            } else {
                -(m1 * m2)
            }) by (nonlinear_arith)
                requires
                    self.to_int() == if self.neg {
                        -m1
                    } else {
                        m1
                    },
                    rhs.to_int() == if rhs.neg {
                        -m2
                    } else {
                        m2
                    },
            ;
            assert(m1 * m2 >= 0) by (nonlinear_arith)
                requires
                    m1 >= 0,
                    m2 >= 0,
            ;
        }
        match self.mag.checked_mul(rhs.mag) {
            None => {
                proof {
                    let p = self.mag as int * rhs.mag as int;
                    assert((MAG_LIMIT as int) * (SCALE as int) <= u128::MAX as int);
                    lemma_div_is_ordered((MAG_LIMIT as int) * (SCALE as int), p, SCALE as int);
                    lemma_div_multiples_vanish(MAG_LIMIT as int, SCALE as int);
                }
                None
            },
            Some(p) => {
                let q = p / SCALE;
                if q >= MAG_LIMIT {
                    None
                } else {
                    Some(Decimal::from_scaled(self.neg != rhs.neg, q))
                }
            },
        }
    }

    /// Division, truncated toward zero to twelve fraction digits, reporting
    /// None when the quotient leaves the range. Testing the divisor against
    /// zero is the caller's business.
    pub fn div_val(&self, rhs: &Decimal) -> (r: Option<Decimal>)
        requires
            self.inv(),
            rhs.inv(),
            rhs.to_int() != 0,
        ensures
            ({
                let v = trunc_div(self.to_int() * (SCALE as int), rhs.to_int());
                &&& (r is Some <==> -(MAG_LIMIT as int) < v < MAG_LIMIT as int)
                &&& (r matches Some(d) ==> d.inv() && d.to_int() == v)
            }),
    {
        proof {
            let m1 = self.mag as int;
            assert(m1 * (SCALE as int) <= (MAG_LIMIT as int) * (SCALE as int)
                && m1 * (SCALE as int) >= 0) by (nonlinear_arith)
                requires
                    0 <= m1 < MAG_LIMIT as int,
            ;
            assert(self.to_int() * (SCALE as int) == if self.neg {
                -(m1 * (SCALE as int))
            } else {
                m1 * (SCALE as int)
            }) by (nonlinear_arith)
                requires
                    self.to_int() == if self.neg {
                        -m1
                    } else {
                        m1
                    },
            ;
        }
        let num = self.mag * SCALE;
        let q = num / rhs.mag;
        if q >= MAG_LIMIT {
            None
        } else {
            Some(Decimal::from_scaled(self.neg != rhs.neg, q))
        }
    }

    /// The repetition count a number supplies when it multiplies a string:
    /// its value truncated toward zero, clamped below at zero.
    pub fn repeat_count(&self) -> (r: u64)
        requires
            self.inv(),
        ensures
            r == if self.to_int() < 0 {
                0int
            } else {
                self.to_int() / (SCALE as int)
            },
    {
        if self.neg {
            0
        } else {
            proof {
                lemma_div_is_ordered(self.mag as int, MAG_LIMIT as int, SCALE as int);
            }
            (self.mag / SCALE) as u64
        }
    }

    /// The default textual rendering of the number.
    pub fn render(&self) -> (r: String)
        requires
            self.inv(),
        ensures
            r@ == spec_render_val(self.to_int()),
    {
        let mut out = String::new();
        if self.neg {
            out.push('-');
        }
        let whole = self.mag / SCALE;
        let frac = self.mag % SCALE;
        push_digits(whole, &mut out);
        if frac != 0 {
            out.push('.');
            push_frac(frac, &mut out);
        }
        proof {
            if self.neg {
                assert(out@ =~= seq!['-'] + spec_render_mag(self.mag as nat));
            } else {
                assert(out@ =~= spec_render_mag(self.mag as nat));
            }
        }
        out
    }

    /// Strict order on values.
    pub fn lt(&self, rhs: &Decimal) -> (r: bool)
        requires
            self.inv(),
            rhs.inv(),
        ensures
            r == (self.to_int() < rhs.to_int()),
    {
        if self.neg && !rhs.neg {
            true
        } else if !self.neg && rhs.neg {
            false
        } else if self.neg {
            rhs.mag < self.mag
        } else {
            self.mag < rhs.mag
        }
    }
}

/// Appends the nonzero twelve-digit fraction part, trailing zeros removed.
fn push_frac(frac: u128, out: &mut String)
    requires
        0 < frac < SCALE,
    ensures
        final (out)@ == old(out)@ + strip_zeros(spec_pad(frac as nat, 12)),
{
    let mut digits: Vec<char> = Vec::new();
    crate::text::push_padded(frac, 12, &mut digits);
    assert(digits@ =~= spec_pad(frac as nat, 12));
    while digits.len() > 0 && digits[digits.len() - 1] == '0'
        invariant
            strip_zeros(digits@) == strip_zeros(spec_pad(frac as nat, 12)),
        decreases digits@.len(),
    {
        assert(digits@.last() == '0');
        digits.pop();
    }
    assert(digits@ == strip_zeros(spec_pad(frac as nat, 12)));
    let mut i: usize = 0;
    let ghost entry = out@;
    while i < digits.len()
        invariant
            i <= digits@.len(),
            out@ == entry + digits@.subrange(0, i as int),
            digits@ == strip_zeros(spec_pad(frac as nat, 12)),
        decreases digits@.len() - i,
    {
        out.push(digits[i]);
        i += 1;
        assert(out@ =~= entry + digits@.subrange(0, i as int));
    }
    assert(out@ =~= entry + digits@);
}

} // verus!
