//! The numeric conventions of the operations, over mathematical integers.
use vstd::arithmetic::div_mod::lemma_fundamental_div_mod_converse;
use vstd::prelude::*;

verus! {

/// Absolute value.
pub open spec fn abs(x: int) -> int {
    if x < 0 {
        -x
    } else {
        x
    }
}

/// Sign: -1, 0 or 1.
pub open spec fn sgn(x: int) -> int {
    if x < 0 {
        -1
    } else if x == 0 {
        0
    } else {
        1
    }
}

/// Quotient rounded toward zero: the magnitudes divide, the signs multiply.
pub open spec fn tdiv(x: int, y: int) -> int {
    if (x < 0) == (y < 0) {
        abs(x) / abs(y)
    } else {
        -(abs(x) / abs(y))
    }
}

/// Remainder of the division rounded toward zero: it takes the sign of the dividend.
pub open spec fn trem(x: int, y: int) -> int {
    if x < 0 {
        -(abs(x) % abs(y))
    } else {
        abs(x) % abs(y)
    }
}

/// Quotient rounded toward negative infinity.
pub open spec fn fdiv(x: int, y: int) -> int {
    if y > 0 {
        x / y
    } else {
        (-x) / (-y)
    }
}

/// Quotient rounded toward positive infinity.
pub open spec fn cdiv(x: int, y: int) -> int {
    -fdiv(-x, y)
}

/// Greatest common divisor of two naturals, by repeated subtraction; zero only for two
/// zeros.
pub open spec fn gcd(a: nat, b: nat) -> nat
    decreases a + b,
{
    if a == 0 {
        b
    } else if b == 0 {
        a
    } else if a >= b {
        gcd((a - b) as nat, b)
    } else {
        gcd(a, (b - a) as nat)
    }
}

/// Greatest common divisor of two integers, taken of their magnitudes.
pub open spec fn zgcd(x: int, y: int) -> int {
    gcd(abs(x) as nat, abs(y) as nat) as int
}

/// The 31-bit signed range of a value that needs no heap cell.
pub open spec fn fits_inline(x: int) -> bool {
    -0x4000_0000 <= x <= 0x3fff_ffff
}

/// The 32-bit signed range of a native machine integer.
pub open spec fn fits_i32(x: int) -> bool {
    i32::MIN <= x <= i32::MAX
}

/// The ASCII byte of a digit below 36: `0` to `9`, then lower-case letters.
pub open spec fn digit_byte(d: int) -> u8 {
    if d < 10 {
        (48 + d) as u8
    } else {
        (87 + d) as u8
    }
}

/// The digits of `n` in a radix of at least two, most significant first, with no leading
/// zero; zero is the single digit `0`.
pub open spec fn radix_bytes(n: nat, radix: nat) -> Seq<u8>
    decreases n,
    via radix_bytes_decreases
{
    if radix < 2 || n < radix {
        seq![digit_byte(n as int)]
    } else {
        radix_bytes(n / radix, radix).push(digit_byte((n % radix) as int))
    }
}

#[via_fn]
proof fn radix_bytes_decreases(n: nat, radix: nat) {
    if !(radix < 2 || n < radix) {
        vstd::arithmetic::div_mod::lemma_div_decreases(n as int, radix as int);
    }
}

/// From Euclid's division of the magnitudes, `abs(x) == q * abs(y) + m`, the quotients
/// and the remainder of each rounding follow.
pub proof fn lemma_roundings(x: int, y: int, q: int, m: int)
    requires
        y != 0,
        abs(x) == q * abs(y) + m,
        0 <= m < abs(y),
    ensures
        tdiv(x, y) == (if (x < 0) == (y < 0) {
            q
        } else {
            -q
        }),
        trem(x, y) == (if x < 0 {
            -m
        } else {
            m
        }),
        fdiv(x, y) == (if (x < 0) == (y < 0) {
            q
        } else if m == 0 {
            -q
        } else {
            -(q + 1)
        }),
        cdiv(x, y) == (if (x < 0) == (y < 0) {
            if m == 0 {
                q
            } else {
                q + 1
            }
        } else {
            -q
        }),
{
    let a = abs(x);
    let b = abs(y);
    lemma_fundamental_div_mod_converse(a, b, q, m);
    if m == 0 {
        assert(-a == (-q) * b + 0) by (nonlinear_arith)
            requires
                a == q * b + m,
                m == 0,
        ;
        lemma_fundamental_div_mod_converse(-a, b, -q, 0);
    } else {
        assert(-a == (-q - 1) * b + (b - m)) by (nonlinear_arith)
            requires
                a == q * b + m,
        ;
        lemma_fundamental_div_mod_converse(-a, b, -q - 1, b - m);
    }
}

} // verus!
