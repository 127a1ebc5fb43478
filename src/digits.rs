//! Magnitudes as little-endian sequences of base-2^64 digits.
use vstd::arithmetic::power::*;
use vstd::prelude::*;

verus! {

/// The radix of one digit.
pub open spec fn radix() -> int {
    0x1_0000_0000_0000_0000
}

/// The number that a digit sequence stands for, least significant digit first.
pub open spec fn digits_value(d: Seq<u64>) -> int
    decreases d.len(),
{
    if d.len() == 0 {
        0
    } else {
        digits_value(d.drop_last()) + d.last() * pow(radix(), (d.len() - 1) as nat)
    }
}

/// A digit sequence of minimal length: no zero digit at the most significant end.
pub open spec fn is_canonical(d: Seq<u64>) -> bool {
    d.len() == 0 || d.last() != 0
}

/// A digit sequence stays below the radix raised to its length.
pub proof fn lemma_value_bounds(d: Seq<u64>)
    ensures
        0 <= digits_value(d) < pow(radix(), d.len()),
    decreases d.len(),
{
    if d.len() == 0 {
        lemma_pow0(radix());
    } else {
        let n = (d.len() - 1) as nat;
        lemma_value_bounds(d.drop_last());
        lemma_pow_positive(radix(), n);
        reveal(pow);
        assert(pow(radix(), d.len()) == radix() * pow(radix(), n));
        let v = digits_value(d.drop_last());
        let l = d.last() as int;
        let p = pow(radix(), n);
        assert(0 <= v + l * p < radix() * p) by (nonlinear_arith)
            requires
                0 <= v < p,
                0 <= l < radix(),
        ;
    }
}

/// A canonical sequence that is not empty stands for at least the radix raised to its
/// length less one.
pub proof fn lemma_canonical_lower(d: Seq<u64>)
    requires
        is_canonical(d),
        d.len() > 0,
    ensures
        digits_value(d) >= pow(radix(), (d.len() - 1) as nat),
        digits_value(d) > 0,
{
    let n = (d.len() - 1) as nat;
    lemma_value_bounds(d.drop_last());
    lemma_pow_positive(radix(), n);
    let l = d.last() as int;
    let p = pow(radix(), n);
    assert(l * p >= p) by (nonlinear_arith)
        requires
            l >= 1,
            p > 0,
    ;
}

/// A canonical sequence of two digits or more does not fit in one digit.
pub proof fn lemma_canonical_long(d: Seq<u64>)
    requires
        is_canonical(d),
        d.len() >= 2,
    ensures
        digits_value(d) >= radix(),
{
    lemma_canonical_lower(d);
    lemma_pow1(radix());
    lemma_pow_increases(radix() as nat, 1, (d.len() - 1) as nat);
}

/// The empty sequence stands for zero, and one digit for itself.
pub proof fn lemma_short_values(d: Seq<u64>)
    requires
        d.len() <= 1,
    ensures
        d.len() == 0 ==> digits_value(d) == 0,
        d.len() == 1 ==> digits_value(d) == d[0],
{
    if d.len() == 1 {
        lemma_pow0(radix());
        assert(d.drop_last().len() == 0);
        assert(digits_value(d.drop_last()) == 0);
        assert(d.last() == d[0]);
    }
}

/// Two canonical sequences that stand for the same number are the same sequence.
pub proof fn lemma_canonical_unique(a: Seq<u64>, b: Seq<u64>)
    requires
        is_canonical(a),
        is_canonical(b),
        digits_value(a) == digits_value(b),
    ensures
        a == b,
{
    if a.len() != b.len() {
        let (s, l) = if a.len() < b.len() { (a, b) } else { (b, a) };
        lemma_value_bounds(s);
        lemma_canonical_lower(l);
        lemma_pow_increases(radix() as nat, s.len(), (l.len() - 1) as nat);
    } else {
        lemma_same_length_unique(a, b);
    }
}

/// Two sequences of one length that stand for the same number are the same sequence.
pub proof fn lemma_same_length_unique(a: Seq<u64>, b: Seq<u64>)
    requires
        a.len() == b.len(),
        digits_value(a) == digits_value(b),
    ensures
        a == b,
    decreases a.len(),
{
    if a.len() > 0 {
        let n = (a.len() - 1) as nat;
        let p = pow(radix(), n);
        lemma_pow_positive(radix(), n);
        lemma_value_bounds(a.drop_last());
        lemma_value_bounds(b.drop_last());
        let v = digits_value(a);
        vstd::arithmetic::div_mod::lemma_fundamental_div_mod_converse(
            v,
            p,
            a.last() as int,
            digits_value(a.drop_last()),
        );
        vstd::arithmetic::div_mod::lemma_fundamental_div_mod_converse(
            v,
            p,
            b.last() as int,
            digits_value(b.drop_last()),
        );
        lemma_same_length_unique(a.drop_last(), b.drop_last());
        assert(a =~= a.drop_last().push(a.last()));
        assert(b =~= b.drop_last().push(b.last()));
    } else {
        assert(a =~= b);
    }
}

} // verus!
