//! The two shapes in which an integer crosses the guest boundary, and the codec between
//! them and `Z`.
use crate::arith::fits_inline;
use crate::digits::{
    digits_value, is_canonical, lemma_canonical_long, lemma_canonical_unique, lemma_short_values,
};
use crate::integer::{signed, ZError, Z};
use vstd::prelude::*;

verus! {

/// An integer as the guest sees it.
///
/// Large integers carry their sign beside the digit array: the array holds the magnitude
/// only, so a negative large integer is the array of its absolute value with the sign set.
#[derive(Clone, Debug, PartialEq, Eq)]
pub enum GuestValue {
    /// A small integer packed into a reference cell, in the 31-bit signed range.
    Inline(i32),
    /// A heap array of the base-2^64 digits of the magnitude, least significant first,
    /// with the sign beside it.
    Boxed { negative: bool, digits: Vec<u64> },
}

impl GuestValue {
    /// The integer that the value stands for.
    pub open spec fn value(&self) -> int {
        match self {
            GuestValue::Inline(i) => *i as int,
            GuestValue::Boxed { negative, digits } => signed(*negative, digits_value(digits@)),
        }
    }

    /// The one form of each integer: inline exactly when it fits, and a boxed array of
    /// minimal length otherwise.
    pub open spec fn is_canonical(&self) -> bool {
        match self {
            GuestValue::Inline(i) => fits_inline(*i as int),
            GuestValue::Boxed { negative, digits } => is_canonical(digits@) && !fits_inline(
                self.value(),
            ),
        }
    }
}

/// `v` is the canonical guest form of `x`.
pub open spec fn encodes(v: GuestValue, x: int) -> bool {
    v.is_canonical() && v.value() == x
}

/// Two guest values have the same shape and the same contents.
pub open spec fn same_form(v: GuestValue, w: GuestValue) -> bool {
    match (v, w) {
        (GuestValue::Inline(a), GuestValue::Inline(b)) => a == b,
        (
            GuestValue::Boxed { negative: n1, digits: d1 },
            GuestValue::Boxed { negative: n2, digits: d2 },
        ) => n1 == n2 && d1@ == d2@,
        _ => false,
    }
}

/// The host integer of a guest value.
pub fn decode(v: &GuestValue) -> (r: Z)
    ensures
        r.wf(),
        r@ == v.value(),
{
    match v {
        GuestValue::Inline(i) => Z::from_i32(*i),
        GuestValue::Boxed { negative, digits } => Z::new(*negative, digits.clone()),
    }
}

/// The canonical guest form of a host integer: inline where it fits, boxed otherwise.
pub fn encode(x: &Z) -> (r: GuestValue)
    requires
        x.wf(),
    ensures
        encodes(r, x@),
{
    if x.digits.len() == 0 {
        proof {
            lemma_short_values(x.digits@);
        }
        return GuestValue::Inline(0);
    }
    if x.digits.len() == 1 {
        proof {
            lemma_short_values(x.digits@);
        }
        let d = x.digits[0];
        if !x.negative && d <= 0x3fff_ffff {
            return GuestValue::Inline(d as i32);
        }
        if x.negative && d <= 0x4000_0000 {
            return GuestValue::Inline(-(d as i32));
        }
    } else {
        proof {
            lemma_canonical_long(x.digits@);
        }
    }
    let digits = x.digits.clone();
    proof {
        assert(digits@ =~= x.digits@);
    }
    GuestValue::Boxed { negative: x.negative, digits }
}

/// The cells of a boxed value's heap array: a sign cell, 1 for negative and 0 otherwise,
/// then the digits in order, each as the 64-bit cell of the same bits.
pub open spec fn cells_of(negative: bool, digits: Seq<u64>) -> Seq<i64> {
    seq![if negative { 1i64 } else { 0i64 }] + digits.map_values(|d: u64| d as i64)
}

/// The cells of the heap array that holds a boxed value.
pub fn boxed_cells(negative: bool, digits: &Vec<u64>) -> (r: Vec<i64>)
    ensures
        r@ == cells_of(negative, digits@),
{
    let mut r: Vec<i64> = Vec::new();
    r.push(if negative { 1i64 } else { 0i64 });
    let mut k: usize = 0;
    while k < digits.len()
        invariant
            k <= digits@.len(),
            r@ == cells_of(negative, digits@.subrange(0, k as int)),
        decreases digits@.len() - k,
    {
        r.push(#[verifier::truncate] (digits[k] as i64));
        k = k + 1;
        proof {
            assert(digits@.subrange(0, k as int) =~= digits@.subrange(0, k - 1).push(digits@[k - 1]));
            assert(r@ =~= cells_of(negative, digits@.subrange(0, k as int)));
        }
    }
    proof {
        assert(digits@.subrange(0, k as int) =~= digits@);
    }
    r
}

/// The boxed value that a heap array holds; fails where the sign cell is missing or is
/// neither 0 nor 1.
pub fn boxed_from_cells(cells: &Vec<i64>) -> (r: Result<GuestValue, ZError>)
    ensures
        match r {
            Ok(v) => match v {
                GuestValue::Boxed { negative, digits } => cells@ == cells_of(negative, digits@),
                _ => false,
            },
            Err(e) => e == ZError::Conversion && !(cells@.len() >= 1 && (cells@[0] == 0
                || cells@[0] == 1)),
        },
{
    if cells.len() == 0 || (cells[0] != 0 && cells[0] != 1) {
        return Err(ZError::Conversion);
    }
    let negative = cells[0] == 1;
    let mut digits: Vec<u64> = Vec::new();
    let mut k: usize = 1;
    while k < cells.len()
        invariant
            1 <= k <= cells@.len(),
            cells@.len() >= 1,
            cells@[0] == (if negative { 1i64 } else { 0i64 }),
            cells@.subrange(0, k as int) == cells_of(negative, digits@),
        decreases cells@.len() - k,
    {
        let c = cells[k];
        let d: u64 = #[verifier::truncate] (c as u64);
        proof {
            assert(d as i64 == c) by (bit_vector)
                requires
                    d == c as u64,
            ;
        }
        digits.push(d);
        k = k + 1;
        proof {
            assert(cells@.subrange(0, k as int) =~= cells@.subrange(0, k - 1).push(c));
            assert(cells@.subrange(0, k as int) =~= cells_of(negative, digits@));
        }
    }
    proof {
        assert(cells@.subrange(0, k as int) =~= cells@);
    }
    Ok(GuestValue::Boxed { negative, digits })
}

/// Decoding a canonical guest form gives back the integer it was made from, and each
/// integer has only one canonical guest form.
pub proof fn lemma_round_trip(x: int, v: GuestValue, w: GuestValue)
    requires
        encodes(v, x),
        encodes(w, x),
    ensures
        v.value() == x,
        same_form(v, w),
{
    match (v, w) {
        (
            GuestValue::Boxed { negative: n1, digits: d1 },
            GuestValue::Boxed { negative: n2, digits: d2 },
        ) => {
            crate::digits::lemma_value_bounds(d1@);
            crate::digits::lemma_value_bounds(d2@);
            lemma_canonical_unique(d1@, d2@);
        },
        _ => {},
    }
}

} // verus!
