use zarith::guest::{boxed_cells, boxed_from_cells, decode, encode, GuestValue};
use zarith::integer::{canonicalize, ZError, Z};
use zarith::ops::{
    mul_overflows, z_abs, z_add, z_cdiv, z_compare, z_div, z_divexact, z_equal, z_fdiv, z_gcd,
    z_format, z_init, z_mul, z_mul_overflows, z_neg, z_pred, z_rem, z_shift_left, z_sign, z_sub, z_succ,
    z_to_int,
};

fn z(v: i128) -> Z {
    let m = v.unsigned_abs();
    Z::new(v < 0, vec![m as u64, (m >> 64) as u64])
}

fn val(x: &Z) -> i128 {
    assert!(x.digits.len() <= 2);
    let mut m: u128 = 0;
    for (k, d) in x.digits.iter().enumerate() {
        m |= (*d as u128) << (64 * k);
    }
    if x.negative {
        -(m as i128)
    } else {
        m as i128
    }
}

fn g(v: i128) -> GuestValue {
    encode(&z(v))
}

fn gv(v: &GuestValue) -> i128 {
    val(&decode(v))
}

#[test]
fn round_trip_across_the_boundary() {
    let cases: [i128; 14] = [
        0,
        1,
        -1,
        (1 << 30) - 1,
        -(1 << 30),
        1 << 30,
        -(1 << 30) - 1,
        3_000_000_000,
        -3_000_000_000,
        u64::MAX as i128,
        -(u64::MAX as i128),
        1 << 64,
        -(1 << 100),
        i128::MAX,
    ];
    for x in cases {
        assert_eq!(gv(&g(x)), x);
        assert_eq!(val(&decode(&encode(&z(x)))), x);
    }
}

#[test]
fn inline_boundary() {
    assert_eq!(g((1 << 30) - 1), GuestValue::Inline((1 << 30) - 1));
    assert_eq!(g(-(1 << 30)), GuestValue::Inline(-(1 << 30)));
    assert_eq!(
        g(1 << 30),
        GuestValue::Boxed { negative: false, digits: vec![1 << 30] }
    );
    assert_eq!(
        g(-(1 << 30) - 1),
        GuestValue::Boxed { negative: true, digits: vec![(1 << 30) + 1] }
    );
    assert_eq!(g(0), GuestValue::Inline(0));
}

#[test]
fn single_digit_boxed() {
    let v = g(3_000_000_000);
    assert_eq!(v, GuestValue::Boxed { negative: false, digits: vec![3000000000] });
    assert_eq!(gv(&v), 3_000_000_000);
}

#[test]
fn decode_drops_high_zero_digits() {
    let v = GuestValue::Boxed { negative: true, digits: vec![5, 0, 0] };
    let x = decode(&v);
    assert_eq!(x, Z { negative: true, digits: vec![5] });
    assert_eq!(encode(&x), GuestValue::Inline(-5));
    let zero = decode(&GuestValue::Boxed { negative: true, digits: vec![0, 0] });
    assert_eq!(zero, Z { negative: false, digits: vec![] });
    assert_eq!(canonicalize(vec![1, 2, 0]), vec![1, 2]);
    assert_eq!(canonicalize(vec![0, 0]), Vec::<u64>::new());
}

#[test]
fn two_digit_boxed() {
    let v = g((1 << 64) + 7);
    assert_eq!(v, GuestValue::Boxed { negative: false, digits: vec![7, 1] });
}

#[test]
fn algebraic_identities() {
    let xs: [i128; 6] = [0, 5, -7, 1 << 40, -(1 << 90), 123_456_789_012_345];
    for &x in &xs {
        assert_eq!(gv(&z_add(&g(x), &z_neg(&g(x)))), 0);
        assert_eq!(gv(&z_mul(&g(x), &g(1))), x);
        for &y in &xs {
            assert_eq!(gv(&z_sub(&g(x), &g(y))), gv(&z_add(&g(x), &z_neg(&g(y)))));
            if y != 0 {
                let q = z_div(&g(x), &g(y)).unwrap();
                let r = z_rem(&g(x), &g(y)).unwrap();
                assert_eq!(gv(&z_add(&z_mul(&q, &g(y)), &r)), x);
            }
        }
    }
}

#[test]
fn division_conventions() {
    assert_eq!(gv(&z_div(&g(-7), &g(2)).unwrap()), -3);
    assert_eq!(gv(&z_rem(&g(-7), &g(2)).unwrap()), -1);
    assert_eq!(gv(&z_fdiv(&g(-7), &g(2)).unwrap()), -4);
    assert_eq!(gv(&z_cdiv(&g(-7), &g(2)).unwrap()), -3);
}

#[test]
fn division_signs() {
    let cases: [(i128, i128, i128, i128, i128, i128); 6] = [
        (7, 2, 3, 1, 3, 4),
        (7, -2, -3, 1, -4, -3),
        (-7, -2, 3, -1, 3, 4),
        (6, -2, -3, 0, -3, -3),
        (-6, 2, -3, 0, -3, -3),
        (0, -5, 0, 0, 0, 0),
    ];
    for (x, y, t, r, f, c) in cases {
        assert_eq!(gv(&z_div(&g(x), &g(y)).unwrap()), t);
        assert_eq!(gv(&z_rem(&g(x), &g(y)).unwrap()), r);
        assert_eq!(gv(&z_fdiv(&g(x), &g(y)).unwrap()), f);
        assert_eq!(gv(&z_cdiv(&g(x), &g(y)).unwrap()), c);
    }
}

#[test]
fn large_division() {
    let x: i128 = -(1 << 100) - 3;
    let y: i128 = 1 << 40;
    assert_eq!(gv(&z_div(&g(x), &g(y)).unwrap()), x / y);
    assert_eq!(gv(&z_rem(&g(x), &g(y)).unwrap()), x % y);
    assert_eq!(gv(&z_fdiv(&g(x), &g(y)).unwrap()), x.div_euclid(y));
    assert_eq!(gv(&z_cdiv(&g(x), &g(y)).unwrap()), x / y);
}

#[test]
fn division_by_zero() {
    assert_eq!(z_div(&g(5), &g(0)), Err(ZError::DivisionByZero));
    assert_eq!(z_rem(&g(5), &g(0)), Err(ZError::DivisionByZero));
    assert_eq!(z_fdiv(&g(5), &g(0)), Err(ZError::DivisionByZero));
    assert_eq!(z_cdiv(&g(5), &g(0)), Err(ZError::DivisionByZero));
    assert_eq!(z_divexact(&g(0), &g(0)), Err(ZError::DivisionByZero));
    assert_eq!(z(1 << 70).div(&z(0)), Err(ZError::DivisionByZero));
}

#[test]
fn exact_division() {
    let x: i128 = 12345 * 54321 * (1 << 50);
    assert_eq!(gv(&z_divexact(&g(x), &g(-12345)).unwrap()), -54321 * (1 << 50));
    assert_eq!(gv(&z_divexact(&g(-x), &g(-12345)).unwrap()), 54321 * (1 << 50));
}

#[test]
fn gcd_symmetry() {
    let pairs: [(i128, i128, i128); 5] = [
        (12, 18, 6),
        (-12, 18, 6),
        (0, 0, 0),
        (0, -9, 9),
        ((1 << 70) * 3, (1 << 65) * 9, (1 << 65) * 3),
    ];
    for (x, y, d) in pairs {
        assert_eq!(gv(&z_gcd(&g(x), &g(y))), d);
        assert_eq!(gv(&z_gcd(&g(y), &g(x))), d);
        assert_eq!(gv(&z_gcd(&g(-x), &g(y))), d);
    }
}

#[test]
fn mul_overflows_native() {
    assert!(mul_overflows(i32::MAX, 2));
    assert!(!mul_overflows(i32::MAX, 1));
    assert!(!mul_overflows(i32::MAX, -1));
    assert!(mul_overflows(i32::MIN, -1));
    assert!(!mul_overflows(i32::MIN, 1));
    assert!(!mul_overflows(i32::MIN, 0));
    assert!(!mul_overflows(0, 0));
    assert!(!mul_overflows(-1, -1));
    assert!(mul_overflows(65536, 32768));
    assert!(!mul_overflows(65536, -32768));
}

#[test]
fn mul_overflows_guest() {
    assert_eq!(z_mul_overflows(&g(65536), &g(32768)), Ok(GuestValue::Inline(1)));
    assert_eq!(z_mul_overflows(&g(-65536), &g(32768)), Ok(GuestValue::Inline(0)));
    assert_eq!(z_mul_overflows(&g(1 << 40), &g(1)), Err(ZError::Conversion));
}

#[test]
fn to_int_boundary() {
    assert_eq!(z_to_int(&g(i32::MAX as i128)), Ok(i32::MAX));
    assert_eq!(z_to_int(&g(i32::MIN as i128)), Ok(i32::MIN));
    assert_eq!(z_to_int(&g(i32::MAX as i128 + 1)), Err(ZError::Overflow));
    assert_eq!(z_to_int(&g(i32::MIN as i128 - 1)), Err(ZError::Overflow));
    assert_eq!(z_to_int(&g(1 << 80)), Err(ZError::Overflow));
    assert_eq!(z_to_int(&g(-42)), Ok(-42));
}

#[test]
fn sign_equal_compare() {
    assert_eq!(z_sign(&g(-(1 << 80))), GuestValue::Inline(-1));
    assert_eq!(z_sign(&g(0)), GuestValue::Inline(0));
    assert_eq!(z_sign(&g(3)), GuestValue::Inline(1));
    assert_eq!(z_equal(&g(1 << 80), &g(1 << 80)), GuestValue::Inline(1));
    assert_eq!(z_equal(&g(1 << 80), &g(-(1 << 80))), GuestValue::Inline(0));
    assert_eq!(z_compare(&g(-(1 << 80)), &g(-5)), GuestValue::Inline(-1));
    assert_eq!(z_compare(&g(1 << 80), &g((1 << 80) + 1)), GuestValue::Inline(-1));
    assert_eq!(z_compare(&g(-(1 << 80)), &g(-(1 << 81))), GuestValue::Inline(1));
    assert_eq!(z_compare(&g(7), &g(7)), GuestValue::Inline(0));
}

#[test]
fn big_arithmetic() {
    let a: i128 = (1 << 100) + 12345;
    let b: i128 = -(1 << 70) - 99;
    assert_eq!(gv(&z_add(&g(a), &g(b))), a + b);
    assert_eq!(gv(&z_sub(&g(a), &g(b))), a - b);
    assert_eq!(gv(&z_sub(&g(b), &g(a))), b - a);
    assert_eq!(gv(&z_mul(&g(1 << 60), &g(-(1 << 60)))), -(1 << 120));
    assert_eq!(gv(&z_abs(&g(b))), -b);
    assert_eq!(gv(&z_neg(&g(a))), -a);
    assert_eq!(gv(&z_succ(&g(-1))), 0);
    assert_eq!(gv(&z_succ(&g(u64::MAX as i128))), 1 << 64);
    assert_eq!(gv(&z_pred(&g(1 << 64))), u64::MAX as i128);
    assert_eq!(gv(&z_pred(&g(0))), -1);
}

#[test]
fn shift_left() {
    assert_eq!(gv(&z_shift_left(&g(3), &g(70)).unwrap()), 3 << 70);
    assert_eq!(gv(&z_shift_left(&g(-5), &g(0)).unwrap()), -5);
    assert_eq!(gv(&z_shift_left(&g(-5), &g(100)).unwrap()), -5 << 100);
    assert_eq!(z_shift_left(&g(1), &g(-1)), Err(ZError::Conversion));
    assert_eq!(z_shift_left(&g(1), &g(1 << 40)), Err(ZError::Conversion));
}

#[test]
fn host_integer_methods() {
    assert_eq!(val(&Z::from_i32(i32::MIN)), i32::MIN as i128);
    assert_eq!(val(&z(-10).add(&z(4))), -6);
    assert_eq!(z(-10).compare(&z(4)), -1);
    assert!(z(1 << 90).equal(&z(1 << 90)));
    assert_eq!(z(0).sign(), 0);
    assert_eq!(val(&z(-8).gcd(&z(12))), 4);
    assert_eq!(z(i32::MIN as i128).to_int(), Ok(i32::MIN));
    assert_eq!(z(1 << 31).to_int(), Err(ZError::Overflow));
    z_init();
    z_init();
}

fn fmt(spec: &str, x: i128) -> Result<String, ZError> {
    z_format(&spec.as_bytes().to_vec(), &g(x)).map(|b| String::from_utf8(b).unwrap())
}

#[test]
fn format_conversions() {
    assert_eq!(fmt("%d", 0).unwrap(), "0");
    assert_eq!(fmt("%d", -42).unwrap(), "-42");
    assert_eq!(fmt("%i", 1 << 70).unwrap(), (1i128 << 70).to_string());
    assert_eq!(fmt("%x", 255).unwrap(), "ff");
    assert_eq!(fmt("%X", -255).unwrap(), "-FF");
    assert_eq!(fmt("%X", (1 << 64) + 0xabc).unwrap(), "10000000000000ABC");
    assert_eq!(fmt("%o", 8).unwrap(), "10");
    assert_eq!(fmt("%b", -5).unwrap(), "-101");
}

#[test]
fn format_unknown_specifier() {
    assert_eq!(fmt("%5d", 1), Err(ZError::Unimplemented));
    assert_eq!(fmt("%f", 1), Err(ZError::Unimplemented));
    assert_eq!(fmt("d", 1), Err(ZError::Unimplemented));
    assert_eq!(fmt("", 1), Err(ZError::Unimplemented));
}

#[test]
fn boxed_cell_layout() {
    assert_eq!(boxed_cells(true, &vec![u64::MAX, 3]), vec![1, -1, 3]);
    assert_eq!(boxed_cells(false, &vec![]), vec![0]);
    assert_eq!(
        boxed_from_cells(&vec![1, -1, 3]),
        Ok(GuestValue::Boxed { negative: true, digits: vec![u64::MAX, 3] })
    );
    assert_eq!(
        boxed_from_cells(&vec![0, 3000000000]),
        Ok(GuestValue::Boxed { negative: false, digits: vec![3000000000] })
    );
    assert_eq!(boxed_from_cells(&vec![]), Err(ZError::Conversion));
    assert_eq!(boxed_from_cells(&vec![2, 5]), Err(ZError::Conversion));
}
