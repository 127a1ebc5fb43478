//! Arithmetic on magnitudes, carried out by GMP through rug.
//!
//! Each function moves its digit sequences into `rug::Integer` with `Integer::from_digits`,
//! makes one call, and moves the result out with `Integer::to_digits`, which gives the
//! digits of the absolute value with no zero at the most significant end (none for zero).
//! As with any allocation, running out of memory, or past GMP's limit on the size of one
//! number, aborts the process; the contracts speak of the calls that return.
use crate::arith::{gcd, radix_bytes};
use crate::digits::{digits_value, is_canonical};
use rug::integer::Order;
use rug::Integer;
use vstd::arithmetic::power::pow;
use vstd::prelude::*;

verus! {

/// Relies on rug's `Integer + Integer`: the exact sum.
#[verifier::external_body]
pub(crate) fn mag_add(a: &Vec<u64>, b: &Vec<u64>) -> (r: Vec<u64>)
    ensures
        is_canonical(r@),
        digits_value(r@) == digits_value(a@) + digits_value(b@),
{
    let x = Integer::from_digits(a.as_slice(), Order::Lsf);
    let y = Integer::from_digits(b.as_slice(), Order::Lsf);
    (x + y).to_digits::<u64>(Order::Lsf)
}

/// Relies on rug's `Integer - Integer`: the exact difference, of which the digits of the
/// absolute value are kept.
#[verifier::external_body]
pub(crate) fn mag_sub(a: &Vec<u64>, b: &Vec<u64>) -> (r: Vec<u64>)
    ensures
        is_canonical(r@),
        digits_value(a@) >= digits_value(b@) ==> digits_value(r@) == digits_value(a@)
            - digits_value(b@),
        digits_value(a@) < digits_value(b@) ==> digits_value(r@) == digits_value(b@)
            - digits_value(a@),
{
    let x = Integer::from_digits(a.as_slice(), Order::Lsf);
    let y = Integer::from_digits(b.as_slice(), Order::Lsf);
    (x - y).to_digits::<u64>(Order::Lsf)
}

/// Relies on rug's `Integer * Integer`: the exact product.
#[verifier::external_body]
pub(crate) fn mag_mul(a: &Vec<u64>, b: &Vec<u64>) -> (r: Vec<u64>)
    ensures
        is_canonical(r@),
        digits_value(r@) == digits_value(a@) * digits_value(b@),
{
    let x = Integer::from_digits(a.as_slice(), Order::Lsf);
    let y = Integer::from_digits(b.as_slice(), Order::Lsf);
    (x * y).to_digits::<u64>(Order::Lsf)
}

/// Relies on rug's `Ord::cmp` for `Integer`: -1, 0 or 1 as the first magnitude is less
/// than, equal to or greater than the second.
#[verifier::external_body]
pub(crate) fn mag_cmp(a: &Vec<u64>, b: &Vec<u64>) -> (r: i32)
    ensures
        r == -1 <==> digits_value(a@) < digits_value(b@),
        r == 0 <==> digits_value(a@) == digits_value(b@),
        r == 1 <==> digits_value(a@) > digits_value(b@),
{
    let x = Integer::from_digits(a.as_slice(), Order::Lsf);
    let y = Integer::from_digits(b.as_slice(), Order::Lsf);
    match x.cmp(&y) {
        std::cmp::Ordering::Less => -1,
        std::cmp::Ordering::Equal => 0,
        std::cmp::Ordering::Greater => 1,
    }
}

/// Relies on rug's `Integer::div_rem`: on non-negative operands, the quotient and the
/// remainder of Euclid's division. It panics on a zero divisor.
#[verifier::external_body]
pub(crate) fn mag_div_rem(a: &Vec<u64>, b: &Vec<u64>) -> (r: (Vec<u64>, Vec<u64>))
    requires
        digits_value(b@) > 0,
    ensures
        is_canonical(r.0@),
        is_canonical(r.1@),
        digits_value(a@) == digits_value(r.0@) * digits_value(b@) + digits_value(r.1@),
        0 <= digits_value(r.1@) < digits_value(b@),
{
    let x = Integer::from_digits(a.as_slice(), Order::Lsf);
    let y = Integer::from_digits(b.as_slice(), Order::Lsf);
    let (q, m) = x.div_rem(y);
    (q.to_digits::<u64>(Order::Lsf), m.to_digits::<u64>(Order::Lsf))
}

/// Relies on rug's `Integer::div_exact`: the quotient, where the divisor divides the
/// dividend. It panics on a zero divisor.
#[verifier::external_body]
pub(crate) fn mag_div_exact(a: &Vec<u64>, b: &Vec<u64>) -> (r: Vec<u64>)
    requires
        digits_value(b@) > 0,
        digits_value(a@) % digits_value(b@) == 0,
    ensures
        is_canonical(r@),
        digits_value(r@) * digits_value(b@) == digits_value(a@),
{
    let x = Integer::from_digits(a.as_slice(), Order::Lsf);
    let y = Integer::from_digits(b.as_slice(), Order::Lsf);
    x.div_exact(&y).to_digits::<u64>(Order::Lsf)
}

/// Relies on rug's `Integer::gcd`: the greatest common divisor, zero for two zeros.
#[verifier::external_body]
pub(crate) fn mag_gcd(a: &Vec<u64>, b: &Vec<u64>) -> (r: Vec<u64>)
    ensures
        is_canonical(r@),
        digits_value(r@) == gcd(digits_value(a@) as nat, digits_value(b@) as nat),
{
    let x = Integer::from_digits(a.as_slice(), Order::Lsf);
    let y = Integer::from_digits(b.as_slice(), Order::Lsf);
    x.gcd(&y).to_digits::<u64>(Order::Lsf)
}

/// Relies on rug's `Integer << u32`: multiplication by two raised to the count.
#[verifier::external_body]
pub(crate) fn mag_shl(a: &Vec<u64>, n: u32) -> (r: Vec<u64>)
    ensures
        is_canonical(r@),
        digits_value(r@) == digits_value(a@) * pow(2, n as nat),
{
    let x = Integer::from_digits(a.as_slice(), Order::Lsf);
    (x << n).to_digits::<u64>(Order::Lsf)
}

/// Relies on rug's `Integer::to_string_radix`: the digits of the number in the radix, most
/// significant first, with lower-case letters past nine and `0` for zero (no sign, the
/// number being non-negative). It panics on a radix outside 2 to 36.
#[verifier::external_body]
pub(crate) fn mag_to_radix(a: &Vec<u64>, radix: u32) -> (r: Vec<u8>)
    requires
        2 <= radix <= 36,
    ensures
        r@ == radix_bytes(digits_value(a@) as nat, radix as nat),
{
    let x = Integer::from_digits(a.as_slice(), Order::Lsf);
    x.to_string_radix(radix as i32).into_bytes()
}

} // verus!
