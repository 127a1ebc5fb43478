//! Arbitrary-precision integers in sign-magnitude form, and the operations on them.
use crate::arith::{
    abs, cdiv, fdiv, fits_i32, lemma_roundings, sgn, tdiv, trem, zgcd,
};
use crate::digits::{
    digits_value, is_canonical, lemma_canonical_long, lemma_canonical_lower, lemma_short_values,
    lemma_value_bounds,
};
use crate::magnitude::{
    mag_add, mag_cmp, mag_div_exact, mag_div_rem, mag_gcd, mag_mul, mag_shl, mag_sub,
};
use vstd::arithmetic::power::pow;
use vstd::prelude::*;

verus! {

/// An integer of any size: a sign and the base-2^64 digits of the magnitude, least
/// significant first. Well-formed values have no zero digit at the most significant end,
/// and zero is never negative, so each integer has exactly one form.
#[derive(Clone, Debug, PartialEq, Eq)]
pub struct Z {
    pub negative: bool,
    pub digits: Vec<u64>,
}

/// What makes an operation fail.
#[derive(Clone, Copy, Debug, PartialEq, Eq)]
pub enum ZError {
    /// A guest value has neither of the two accepted shapes.
    Conversion,
    /// A result does not fit the native width asked for.
    Overflow,
    /// A division by zero.
    DivisionByZero,
    /// A format specifier that is not supported.
    Unimplemented,
}

/// The integer that a sign and a magnitude stand for.
pub open spec fn signed(negative: bool, magnitude: int) -> int {
    if negative {
        -magnitude
    } else {
        magnitude
    }
}

impl View for Z {
    type V = int;

    open spec fn view(&self) -> int {
        signed(self.negative, digits_value(self.digits@))
    }
}

/// Drops the zero digits at the most significant end.
pub fn canonicalize(digits: Vec<u64>) -> (r: Vec<u64>)
    ensures
        is_canonical(r@),
        digits_value(r@) == digits_value(digits@),
        r@.len() <= digits@.len(),
{
    let mut d = digits;
    while d.len() > 0 && d[d.len() - 1] == 0
        invariant
            digits_value(d@) == digits_value(digits@),
            d@.len() <= digits@.len(),
        decreases d.len(),
    {
        d.pop();
    }
    d
}

impl Z {
    /// Each integer has one form: no leading zero digit, and no negative zero.
    pub open spec fn wf(&self) -> bool {
        is_canonical(self.digits@) && (self.negative ==> self.digits@.len() > 0)
    }

    /// The sign, the magnitude and the zero test read off the form.
    pub proof fn lemma_parts(&self)
        requires
            self.wf(),
        ensures
            abs(self@) == digits_value(self.digits@),
            self.negative <==> self@ < 0,
            self@ == 0 <==> self.digits@.len() == 0,
    {
        lemma_value_bounds(self.digits@);
        if self.digits@.len() > 0 {
            lemma_canonical_lower(self.digits@);
        } else {
            lemma_short_values(self.digits@);
        }
    }

    /// The integer of a sign and canonical digits; zero comes out non-negative.
    fn from_parts(negative: bool, digits: Vec<u64>) -> (r: Z)
        requires
            is_canonical(digits@),
        ensures
            r.wf(),
            r@ == signed(negative, digits_value(digits@)),
    {
        proof {
            if digits@.len() == 0 {
                lemma_short_values(digits@);
            }
        }
        let neg = negative && digits.len() > 0;
        Z { negative: neg, digits }
    }

    /// The integer of a sign and any digits, least significant first.
    pub fn new(negative: bool, digits: Vec<u64>) -> (r: Z)
        ensures
            r.wf(),
            r@ == signed(negative, digits_value(digits@)),
    {
        let d = canonicalize(digits);
        Z::from_parts(negative, d)
    }

    /// The integer of a native machine integer.
    pub fn from_i32(x: i32) -> (r: Z)
        ensures
            r.wf(),
            r@ == x,
    {
        let m: u64 = if x < 0 {
            (-(x as i64)) as u64
        } else {
            x as u64
        };
        let digits: Vec<u64> = if m == 0 {
            Vec::new()
        } else {
            vec![m]
        };
        proof {
            lemma_short_values(digits@);
        }
        Z::from_parts(x < 0, digits)
    }

    /// `-x`.
    pub fn neg(&self) -> (r: Z)
        requires
            self.wf(),
        ensures
            r.wf(),
            r@ == -self@,
    {
        let d = self.digits.clone();
        proof {
            assert(d@ =~= self.digits@);
        }
        Z::from_parts(!self.negative, d)
    }

    /// `|x|`.
    pub fn abs(&self) -> (r: Z)
        requires
            self.wf(),
        ensures
            r.wf(),
            r@ == abs(self@),
    {
        proof {
            self.lemma_parts();
        }
        let d = self.digits.clone();
        proof {
            assert(d@ =~= self.digits@);
        }
        Z::from_parts(false, d)
    }

    /// `x + y`.
    pub fn add(&self, y: &Z) -> (r: Z)
        requires
            self.wf(),
            y.wf(),
        ensures
            r.wf(),
            r@ == self@ + y@,
    {
        if self.negative == y.negative {
            let m = mag_add(&self.digits, &y.digits);
            Z::from_parts(self.negative, m)
        } else {
            let c = mag_cmp(&self.digits, &y.digits);
            let m = mag_sub(&self.digits, &y.digits);
            if c >= 0 {
                Z::from_parts(self.negative, m)
            } else {
                Z::from_parts(y.negative, m)
            }
        }
    }

    /// `x - y`.
    pub fn sub(&self, y: &Z) -> (r: Z)
        requires
            self.wf(),
            y.wf(),
        ensures
            r.wf(),
            r@ == self@ - y@,
    {
        let n = y.neg();
        self.add(&n)
    }

    /// `x * y`.
    pub fn mul(&self, y: &Z) -> (r: Z)
        requires
            self.wf(),
            y.wf(),
        ensures
            r.wf(),
            r@ == self@ * y@,
    {
        let m = mag_mul(&self.digits, &y.digits);
        let r = Z::from_parts(self.negative != y.negative, m);
        proof {
            let a = digits_value(self.digits@);
            let b = digits_value(y.digits@);
            assert((-a) * b == -(a * b) && a * (-b) == -(a * b) && (-a) * (-b) == a * b)
                by (nonlinear_arith);
        }
        r
    }

    /// `x + 1`.
    pub fn succ(&self) -> (r: Z)
        requires
            self.wf(),
        ensures
            r.wf(),
            r@ == self@ + 1,
    {
        self.add(&Z::from_i32(1))
    }

    /// `x - 1`.
    pub fn pred(&self) -> (r: Z)
        requires
            self.wf(),
        ensures
            r.wf(),
            r@ == self@ - 1,
    {
        self.add(&Z::from_i32(-1))
    }

    /// -1, 0 or 1 as `x` is less than, equal to or greater than `y`.
    pub fn compare(&self, y: &Z) -> (r: i32)
        requires
            self.wf(),
            y.wf(),
        ensures
            r == sgn(self@ - y@),
    {
        proof {
            self.lemma_parts();
            y.lemma_parts();
        }
        if self.negative != y.negative {
            if self.negative {
                -1
            } else {
                1
            }
        } else {
            let c = mag_cmp(&self.digits, &y.digits);
            if self.negative {
                -c
            } else {
                c
            }
        }
    }

    /// Whether `x` and `y` are the same integer.
    pub fn equal(&self, y: &Z) -> (r: bool)
        requires
            self.wf(),
            y.wf(),
        ensures
            r == (self@ == y@),
    {
        self.compare(y) == 0
    }

    /// -1, 0 or 1 as `x` is negative, zero or positive.
    pub fn sign(&self) -> (r: i32)
        requires
            self.wf(),
        ensures
            r == sgn(self@),
    {
        proof {
            self.lemma_parts();
        }
        if self.negative {
            -1
        } else if self.digits.len() == 0 {
            0
        } else {
            1
        }
    }

    /// The quotient of the magnitudes and its remainder, with the facts of every rounding.
    fn div_parts(&self, y: &Z) -> (r: (Vec<u64>, Vec<u64>))
        requires
            self.wf(),
            y.wf(),
            y@ != 0,
        ensures
            is_canonical(r.0@),
            is_canonical(r.1@),
            0 <= digits_value(r.0@),
            0 <= digits_value(r.1@) < abs(y@),
            ({
                let q = digits_value(r.0@);
                let m = digits_value(r.1@);
                &&& tdiv(self@, y@) == (if self.negative == y.negative {
                    q
                } else {
                    -q
                })
                &&& trem(self@, y@) == (if self.negative {
                    -m
                } else {
                    m
                })
                &&& fdiv(self@, y@) == (if self.negative == y.negative {
                    q
                } else if m == 0 {
                    -q
                } else {
                    -(q + 1)
                })
                &&& cdiv(self@, y@) == (if self.negative == y.negative {
                    if m == 0 {
                        q
                    } else {
                        q + 1
                    }
                } else {
                    -q
                })
            }),
    {
        proof {
            self.lemma_parts();
            y.lemma_parts();
        }
        let r = mag_div_rem(&self.digits, &y.digits);
        proof {
            lemma_value_bounds(r.0@);
            lemma_roundings(self@, y@, digits_value(r.0@), digits_value(r.1@));
        }
        r
    }

    /// The quotient rounded toward zero; fails on a zero divisor.
    pub fn div(&self, y: &Z) -> (r: Result<Z, ZError>)
        requires
            self.wf(),
            y.wf(),
        ensures
            match r {
                Ok(q) => y@ != 0 && q.wf() && q@ == tdiv(self@, y@),
                Err(e) => y@ == 0 && e == ZError::DivisionByZero,
            },
    {
        proof {
            y.lemma_parts();
        }
        if y.digits.len() == 0 {
            return Err(ZError::DivisionByZero);
        }
        let (q, _m) = self.div_parts(y);
        Ok(Z::from_parts(self.negative != y.negative, q))
    }

    /// The remainder of the division rounded toward zero, with the sign of the dividend;
    /// fails on a zero divisor.
    pub fn rem(&self, y: &Z) -> (r: Result<Z, ZError>)
        requires
            self.wf(),
            y.wf(),
        ensures
            match r {
                Ok(m) => y@ != 0 && m.wf() && m@ == trem(self@, y@),
                Err(e) => y@ == 0 && e == ZError::DivisionByZero,
            },
    {
        proof {
            y.lemma_parts();
        }
        if y.digits.len() == 0 {
            return Err(ZError::DivisionByZero);
        }
        let (_q, m) = self.div_parts(y);
        Ok(Z::from_parts(self.negative, m))
    }

    /// The quotient rounded toward negative infinity; fails on a zero divisor.
    pub fn fdiv(&self, y: &Z) -> (r: Result<Z, ZError>)
        requires
            self.wf(),
            y.wf(),
        ensures
            match r {
                Ok(q) => y@ != 0 && q.wf() && q@ == fdiv(self@, y@),
                Err(e) => y@ == 0 && e == ZError::DivisionByZero,
            },
    {
        proof {
            y.lemma_parts();
        }
        if y.digits.len() == 0 {
            return Err(ZError::DivisionByZero);
        }
        let (q, m) = self.div_parts(y);
        if self.negative == y.negative || m.len() == 0 {
            proof {
                if m@.len() == 0 {
                    lemma_short_values(m@);
                }
            }
            Ok(Z::from_parts(self.negative != y.negative, q))
        } else {
            let one: Vec<u64> = vec![1u64];
            proof {
                lemma_canonical_lower(m@);
                lemma_short_values(one@);
            }
            let q1 = mag_add(&q, &one);
            Ok(Z::from_parts(true, q1))
        }
    }

    /// The quotient rounded toward positive infinity; fails on a zero divisor.
    pub fn cdiv(&self, y: &Z) -> (r: Result<Z, ZError>)
        requires
            self.wf(),
            y.wf(),
        ensures
            match r {
                Ok(q) => y@ != 0 && q.wf() && q@ == cdiv(self@, y@),
                Err(e) => y@ == 0 && e == ZError::DivisionByZero,
            },
    {
        proof {
            y.lemma_parts();
        }
        if y.digits.len() == 0 {
            return Err(ZError::DivisionByZero);
        }
        let (q, m) = self.div_parts(y);
        if self.negative != y.negative || m.len() == 0 {
            proof {
                if m@.len() == 0 {
                    lemma_short_values(m@);
                }
            }
            Ok(Z::from_parts(self.negative != y.negative, q))
        } else {
            let one: Vec<u64> = vec![1u64];
            proof {
                lemma_canonical_lower(m@);
                lemma_short_values(one@);
            }
            let q1 = mag_add(&q, &one);
            Ok(Z::from_parts(false, q1))
        }
    }

    /// The quotient of a division that leaves no remainder, which the caller guarantees;
    /// fails on a zero divisor.
    pub fn divexact(&self, y: &Z) -> (r: Result<Z, ZError>)
        requires
            self.wf(),
            y.wf(),
            y@ != 0 ==> abs(self@) % abs(y@) == 0,
        ensures
            match r {
                Ok(q) => y@ != 0 && q.wf() && q@ * y@ == self@,
                Err(e) => y@ == 0 && e == ZError::DivisionByZero,
            },
    {
        proof {
            self.lemma_parts();
            y.lemma_parts();
        }
        if y.digits.len() == 0 {
            return Err(ZError::DivisionByZero);
        }
        let m = mag_div_exact(&self.digits, &y.digits);
        let r = Z::from_parts(self.negative != y.negative, m);
        proof {
            let q = digits_value(m@);
            let b = digits_value(y.digits@);
            assert((-q) * b == -(q * b) && q * (-b) == -(q * b) && (-q) * (-b) == q * b)
                by (nonlinear_arith);
        }
        Ok(r)
    }

    /// The greatest common divisor of the magnitudes; zero only for two zeros.
    pub fn gcd(&self, y: &Z) -> (r: Z)
        requires
            self.wf(),
            y.wf(),
        ensures
            r.wf(),
            r@ == zgcd(self@, y@),
    {
        proof {
            self.lemma_parts();
            y.lemma_parts();
        }
        let m = mag_gcd(&self.digits, &y.digits);
        Z::from_parts(false, m)
    }

    /// `x * 2^n`.
    pub fn shift_left(&self, n: u32) -> (r: Z)
        requires
            self.wf(),
        ensures
            r.wf(),
            r@ == self@ * pow(2, n as nat),
    {
        let m = mag_shl(&self.digits, n);
        let r = Z::from_parts(self.negative, m);
        proof {
            let a = digits_value(self.digits@);
            let p = pow(2, n as nat);
            assert((-a) * p == -(a * p)) by (nonlinear_arith);
        }
        r
    }

    /// The native machine integer of `x`; fails where `x` leaves the 32-bit signed range.
    pub fn to_int(&self) -> (r: Result<i32, ZError>)
        requires
            self.wf(),
        ensures
            match r {
                Ok(v) => fits_i32(self@) && v == self@,
                Err(e) => !fits_i32(self@) && e == ZError::Overflow,
            },
    {
        proof {
            lemma_value_bounds(self.digits@);
        }
        if self.digits.len() == 0 {
            proof {
                lemma_short_values(self.digits@);
            }
            Ok(0)
        } else if self.digits.len() == 1 {
            proof {
                lemma_short_values(self.digits@);
            }
            let d = self.digits[0];
            if !self.negative && d <= 0x7fff_ffff {
                Ok(d as i32)
            } else if self.negative && d <= 0x8000_0000 {
                Ok((-(d as i64)) as i32)
            } else {
                Err(ZError::Overflow)
            }
        } else {
            proof {
                lemma_canonical_long(self.digits@);
            }
            Err(ZError::Overflow)
        }
    }
}

} // verus!
