//! Laws that relate the operations to one another, over the integers their contracts
//! speak of.
use crate::arith::{abs, gcd, tdiv, trem, zgcd};
use crate::digits::lemma_canonical_unique;
use crate::integer::Z;
use vstd::arithmetic::div_mod::lemma_fundamental_div_mod;
use vstd::prelude::*;

verus! {

/// Two well-formed host integers of one value have the same sign and the same digits: the
/// integer that decoding an encoding gives back is the very one that was encoded.
pub proof fn lemma_host_form_unique(x: Z, y: Z)
    requires
        x.wf(),
        y.wf(),
        x@ == y@,
    ensures
        x.negative == y.negative,
        x.digits@ == y.digits@,
{
    x.lemma_parts();
    y.lemma_parts();
    lemma_canonical_unique(x.digits@, y.digits@);
}

/// Adding the negation gives zero; subtracting is adding the negation; one is neutral
/// for multiplication.
pub proof fn lemma_ring_identities(x: int, y: int)
    ensures
        x + (-x) == 0,
        x - y == x + (-y),
        x * 1 == x,
{
}

/// The quotient rounded toward zero times the divisor, plus the remainder, gives back
/// the dividend; the remainder is smaller than the divisor and takes the sign of the
/// dividend.
pub proof fn lemma_div_rem(x: int, y: int)
    requires
        y != 0,
    ensures
        tdiv(x, y) * y + trem(x, y) == x,
        abs(trem(x, y)) < abs(y),
        x > 0 ==> trem(x, y) >= 0,
        x < 0 ==> trem(x, y) <= 0,
{
    let a = abs(x);
    let b = abs(y);
    lemma_fundamental_div_mod(a, b);
    let q = a / b;
    let m = a % b;
    assert((-q) * (-b) == q * b && (-q) * b == -(q * b) && q * (-b) == -(q * b))
        by (nonlinear_arith);
    assert(b * q == q * b) by (nonlinear_arith);
}

/// The gcd of two naturals does not depend on their order.
pub proof fn lemma_gcd_commutes(a: nat, b: nat)
    ensures
        gcd(a, b) == gcd(b, a),
    decreases a + b,
{
    if a > 0 && b > 0 {
        if a > b {
            lemma_gcd_commutes(b, (a - b) as nat);
        } else if a < b {
            lemma_gcd_commutes((b - a) as nat, a);
        }
    }
}

/// The gcd of two integers does not depend on their order nor on their signs, and the
/// gcd of two zeros is zero.
pub proof fn lemma_gcd_symmetry(x: int, y: int)
    ensures
        zgcd(x, y) == zgcd(y, x),
        zgcd(-x, y) == zgcd(x, y),
        zgcd(0, 0) == 0,
{
    lemma_gcd_commutes(abs(x) as nat, abs(y) as nat);
}

} // verus!
