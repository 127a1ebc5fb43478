//! The operations that the guest imports: each decodes its operands, computes, and
//! encodes its result.
use crate::arith::{abs, cdiv, fdiv, fits_i32, radix_bytes, sgn, tdiv, trem, zgcd};
use crate::guest::{decode, encode, encodes, GuestValue};
use crate::integer::ZError;
use crate::magnitude::mag_to_radix;
use vstd::arithmetic::power::pow;
use vstd::prelude::*;

verus! {

/// `x + y`.
pub fn z_add(x: &GuestValue, y: &GuestValue) -> (r: GuestValue)
    ensures
        encodes(r, x.value() + y.value()),
{
    let a = decode(x);
    let b = decode(y);
    encode(&a.add(&b))
}

/// `x - y`.
pub fn z_sub(x: &GuestValue, y: &GuestValue) -> (r: GuestValue)
    ensures
        encodes(r, x.value() - y.value()),
{
    let a = decode(x);
    let b = decode(y);
    encode(&a.sub(&b))
}

/// `x * y`.
pub fn z_mul(x: &GuestValue, y: &GuestValue) -> (r: GuestValue)
    ensures
        encodes(r, x.value() * y.value()),
{
    let a = decode(x);
    let b = decode(y);
    encode(&a.mul(&b))
}

/// `-x`.
pub fn z_neg(x: &GuestValue) -> (r: GuestValue)
    ensures
        encodes(r, -x.value()),
{
    let a = decode(x);
    encode(&a.neg())
}

/// `|x|`.
pub fn z_abs(x: &GuestValue) -> (r: GuestValue)
    ensures
        encodes(r, abs(x.value())),
{
    let a = decode(x);
    encode(&a.abs())
}

/// `x + 1`.
pub fn z_succ(x: &GuestValue) -> (r: GuestValue)
    ensures
        encodes(r, x.value() + 1),
{
    let a = decode(x);
    encode(&a.succ())
}

/// `x - 1`.
pub fn z_pred(x: &GuestValue) -> (r: GuestValue)
    ensures
        encodes(r, x.value() - 1),
{
    let a = decode(x);
    encode(&a.pred())
}

/// The greatest common divisor of the magnitudes.
pub fn z_gcd(x: &GuestValue, y: &GuestValue) -> (r: GuestValue)
    ensures
        encodes(r, zgcd(x.value(), y.value())),
{
    let a = decode(x);
    let b = decode(y);
    encode(&a.gcd(&b))
}

/// The quotient rounded toward zero.
pub fn z_div(x: &GuestValue, y: &GuestValue) -> (r: Result<GuestValue, ZError>)
    ensures
        match r {
            Ok(v) => y.value() != 0 && encodes(v, tdiv(x.value(), y.value())),
            Err(e) => y.value() == 0 && e == ZError::DivisionByZero,
        },
{
    let a = decode(x);
    let b = decode(y);
    match a.div(&b) {
        Ok(q) => Ok(encode(&q)),
        Err(e) => Err(e),
    }
}

/// The remainder of the division rounded toward zero.
pub fn z_rem(x: &GuestValue, y: &GuestValue) -> (r: Result<GuestValue, ZError>)
    ensures
        match r {
            Ok(v) => y.value() != 0 && encodes(v, trem(x.value(), y.value())),
            Err(e) => y.value() == 0 && e == ZError::DivisionByZero,
        },
{
    let a = decode(x);
    let b = decode(y);
    match a.rem(&b) {
        Ok(q) => Ok(encode(&q)),
        Err(e) => Err(e),
    }
}

/// The quotient rounded toward negative infinity.
pub fn z_fdiv(x: &GuestValue, y: &GuestValue) -> (r: Result<GuestValue, ZError>)
    ensures
        match r {
            Ok(v) => y.value() != 0 && encodes(v, fdiv(x.value(), y.value())),
            Err(e) => y.value() == 0 && e == ZError::DivisionByZero,
        },
{
    let a = decode(x);
    let b = decode(y);
    match a.fdiv(&b) {
        Ok(q) => Ok(encode(&q)),
        Err(e) => Err(e),
    }
}

/// The quotient rounded toward positive infinity.
pub fn z_cdiv(x: &GuestValue, y: &GuestValue) -> (r: Result<GuestValue, ZError>)
    ensures
        match r {
            Ok(v) => y.value() != 0 && encodes(v, cdiv(x.value(), y.value())),
            Err(e) => y.value() == 0 && e == ZError::DivisionByZero,
        },
{
    let a = decode(x);
    let b = decode(y);
    match a.cdiv(&b) {
        Ok(q) => Ok(encode(&q)),
        Err(e) => Err(e),
    }
}

/// The quotient of a division that the caller guarantees to leave no remainder.
pub fn z_divexact(x: &GuestValue, y: &GuestValue) -> (r: Result<GuestValue, ZError>)
    requires
        y.value() != 0 ==> abs(x.value()) % abs(y.value()) == 0,
    ensures
        match r {
            Ok(v) => y.value() != 0 && v.is_canonical() && v.value() * y.value() == x.value(),
            Err(e) => y.value() == 0 && e == ZError::DivisionByZero,
        },
{
    let a = decode(x);
    let b = decode(y);
    match a.divexact(&b) {
        Ok(q) => Ok(encode(&q)),
        Err(e) => Err(e),
    }
}

/// -1, 0 or 1 as `x` is negative, zero or positive.
pub fn z_sign(x: &GuestValue) -> (r: GuestValue)
    ensures
        encodes(r, sgn(x.value())),
{
    let a = decode(x);
    GuestValue::Inline(a.sign())
}

/// 1 where `x` and `y` are the same integer, 0 otherwise.
pub fn z_equal(x: &GuestValue, y: &GuestValue) -> (r: GuestValue)
    ensures
        encodes(r, if x.value() == y.value() { 1 } else { 0 }),
{
    let a = decode(x);
    let b = decode(y);
    GuestValue::Inline(if a.equal(&b) { 1 } else { 0 })
}

/// -1, 0 or 1 as `x` is less than, equal to or greater than `y`.
pub fn z_compare(x: &GuestValue, y: &GuestValue) -> (r: GuestValue)
    ensures
        encodes(r, sgn(x.value() - y.value())),
{
    let a = decode(x);
    let b = decode(y);
    GuestValue::Inline(a.compare(&b))
}

/// `x * 2^n`, where the count `n` is a small non-negative integer.
pub fn z_shift_left(x: &GuestValue, n: &GuestValue) -> (r: Result<GuestValue, ZError>)
    ensures
        match r {
            Ok(v) => match n {
                GuestValue::Inline(k) => *k >= 0 && encodes(v, x.value() * pow(2, *k as nat)),
                _ => false,
            },
            Err(e) => e == ZError::Conversion && match n {
                GuestValue::Inline(k) => *k < 0,
                _ => true,
            },
        },
{
    match n {
        GuestValue::Inline(k) => {
            if *k < 0 {
                return Err(ZError::Conversion);
            }
            let a = decode(x);
            Ok(encode(&a.shift_left(*k as u32)))
        },
        _ => Err(ZError::Conversion),
    }
}

/// The native machine integer of `x`; fails where `x` leaves the 32-bit signed range.
pub fn z_to_int(x: &GuestValue) -> (r: Result<i32, ZError>)
    ensures
        match r {
            Ok(v) => fits_i32(x.value()) && v == x.value(),
            Err(e) => !fits_i32(x.value()) && e == ZError::Overflow,
        },
{
    let a = decode(x);
    a.to_int()
}

/// 1 where the native product of two small integers leaves the 32-bit signed range, 0
/// otherwise; both operands must be inline.
pub fn z_mul_overflows(x: &GuestValue, y: &GuestValue) -> (r: Result<GuestValue, ZError>)
    ensures
        match (x, y) {
            (GuestValue::Inline(a), GuestValue::Inline(b)) => r == Ok::<GuestValue, ZError>(
                GuestValue::Inline(if fits_i32((*a as int) * (*b as int)) { 0 } else { 1 }),
            ),
            _ => r == Err::<GuestValue, ZError>(ZError::Conversion),
        },
{
    match (x, y) {
        (GuestValue::Inline(a), GuestValue::Inline(b)) => {
            Ok(GuestValue::Inline(if mul_overflows(*a, *b) { 1 } else { 0 }))
        },
        _ => Err(ZError::Conversion),
    }
}

/// Whether the native 32-bit signed product of `x` and `y` overflows.
pub fn mul_overflows(x: i32, y: i32) -> (r: bool)
    ensures
        r == !fits_i32(x * y),
{
    proof {
        let (a, b) = (x as int, y as int);
        assert(-0x4000_0000_0000_0000 <= a * b <= 0x4000_0000_0000_0000) by (nonlinear_arith)
            requires
                -0x8000_0000 <= a <= 0x7fff_ffff,
                -0x8000_0000 <= b <= 0x7fff_ffff,
        ;
    }
    let p: i64 = (x as i64) * (y as i64);
    p < i32::MIN as i64 || p > i32::MAX as i64
}

/// ASCII bytes of the conversion specifiers and of the text.
pub const PERCENT: u8 = 37;
pub const MINUS: u8 = 45;
pub const SMALL_A: u8 = 97;
pub const SMALL_Z: u8 = 122;
pub const SMALL_B: u8 = 98;
pub const SMALL_D: u8 = 100;
pub const SMALL_I: u8 = 105;
pub const SMALL_O: u8 = 111;
pub const SMALL_X: u8 = 120;
pub const CAPITAL_X: u8 = 88;

/// The radix and the letter case of a conversion: `%d` and `%i` decimal, `%x` and `%X`
/// hexadecimal in lower and upper case, `%o` octal, `%b` binary. Nothing else is a
/// conversion.
pub open spec fn conversion(spec: Seq<u8>) -> Option<(nat, bool)> {
    if spec.len() == 2 && spec[0] == PERCENT {
        if spec[1] == SMALL_D || spec[1] == SMALL_I {
            Some((10nat, false))
        } else if spec[1] == SMALL_X {
            Some((16nat, false))
        } else if spec[1] == CAPITAL_X {
            Some((16nat, true))
        } else if spec[1] == SMALL_O {
            Some((8nat, false))
        } else if spec[1] == SMALL_B {
            Some((2nat, false))
        } else {
            None
        }
    } else {
        None
    }
}

/// A byte, with a lower-case ASCII letter raised to upper case where `upper` holds.
pub open spec fn case_of(c: u8, upper: bool) -> u8 {
    if upper && SMALL_A <= c <= SMALL_Z {
        (c - 32) as u8
    } else {
        c
    }
}

/// The text of `x` in a radix: a minus sign for a negative value, then the digits of the
/// magnitude, in upper case where `upper` holds.
pub open spec fn formatted(x: int, radix: nat, upper: bool) -> Seq<u8> {
    (if x < 0 {
        seq![MINUS]
    } else {
        Seq::<u8>::empty()
    }) + radix_bytes(abs(x) as nat, radix).map_values(|c: u8| case_of(c, upper))
}

/// The text of `x` under a conversion; fails with `Unimplemented` on any other
/// specifier (flags, widths and precisions included).
pub fn z_format(spec: &Vec<u8>, x: &GuestValue) -> (r: Result<Vec<u8>, ZError>)
    ensures
        match conversion(spec@) {
            Some((radix, upper)) => match r {
                Ok(s) => s@ == formatted(x.value(), radix, upper),
                Err(_) => false,
            },
            None => r == Err::<Vec<u8>, ZError>(ZError::Unimplemented),
        },
{
    if spec.len() != 2 || spec[0] != PERCENT {
        return Err(ZError::Unimplemented);
    }
    let c = spec[1];
    let (radix, upper): (u32, bool) = if c == SMALL_D || c == SMALL_I {
        (10, false)
    } else if c == SMALL_X {
        (16, false)
    } else if c == CAPITAL_X {
        (16, true)
    } else if c == SMALL_O {
        (8, false)
    } else if c == SMALL_B {
        (2, false)
    } else {
        return Err(ZError::Unimplemented);
    };
    let a = decode(x);
    proof {
        a.lemma_parts();
    }
    let digits = mag_to_radix(&a.digits, radix);
    let mut out: Vec<u8> = Vec::new();
    if a.negative {
        out.push(MINUS);
    }
    let ghost head = out@;
    let mut k: usize = 0;
    while k < digits.len()
        invariant
            k <= digits@.len(),
            out@ == head + digits@.subrange(0, k as int).map_values(|c: u8| case_of(c, upper)),
        decreases digits@.len() - k,
    {
        let d = digits[k];
        out.push(if upper && SMALL_A <= d && d <= SMALL_Z { d - 32 } else { d });
        k = k + 1;
        proof {
            assert(digits@.subrange(0, k as int) =~= digits@.subrange(0, k - 1).push(d));
            assert(out@ =~= head + digits@.subrange(0, k as int).map_values(
                |c: u8| case_of(c, upper),
            ));
        }
    }
    proof {
        assert(digits@.subrange(0, k as int) =~= digits@);
        assert(head =~= (if x.value() < 0 {
            seq![MINUS]
        } else {
            Seq::<u8>::empty()
        }));
    }
    Ok(out)
}

/// Startup of the operation set: there is nothing to set up, so calling it any number of
/// times changes nothing.
pub fn z_init() {
}

} // verus!
