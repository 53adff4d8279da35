//! Values of numbers, and arithmetic that does not round.
//!
//! The contracts of the library say which operations are applied to which numbers.  What that comes to
//! is said for an arithmetic that gives exact results or none: sums are sums, products are products.

use vstd::prelude::*;
use vstd::arithmetic::power2::pow2;
use crate::number::{Real, ONE, SIGN};
use crate::spatial::SpatialMath;

verus! {

// ── Values ──

/// Number of significands for each exponent.
pub const SIGNIFICANDS: u64 = 0x10_0000_0000_0000;

/// The value of a number without its sign, in units of the least positive number.
pub open spec fn units(magnitude: int) -> int {
    let exponent = magnitude / (SIGNIFICANDS as int);
    let fraction = magnitude % (SIGNIFICANDS as int);
    if exponent == 0 {
        fraction
    } else {
        (SIGNIFICANDS + fraction) * pow2((exponent - 1) as nat)
    }
}

/// The value of a number.
#[verifier::opaque]
pub open spec fn val(x: Real) -> real {
    let u = units(x.magnitude_spec()) as real / pow2(1074) as real;
    if x.bits >= SIGN {
        -u
    } else {
        u
    }
}

/// A value without its sign.
pub open spec fn size(x: real) -> real {
    if x < 0real {
        -x
    } else {
        x
    }
}

proof fn units_increase(a: int, b: int)
    requires
        0 <= a < b,
    ensures
        0 <= units(a) < units(b),
{
    let n = SIGNIFICANDS as int;
    let (ea, fa) = (a / n, a % n);
    let (eb, fb) = (b / n, b % n);
    assert(ea <= eb) by (nonlinear_arith)
        requires
            ea == a / n,
            eb == b / n,
            a < b,
            n == 0x10_0000_0000_0000,
    ;
    if ea == eb {
        assert(fa < fb);
        if ea > 0 {
            let p = pow2((ea - 1) as nat) as int;
            vstd::arithmetic::power2::lemma_pow2_pos((ea - 1) as nat);
            assert(0 <= (n + fa) * p < (n + fb) * p) by (nonlinear_arith)
                requires
                    0 <= fa < fb,
                    p > 0,
                    n > 0,
            ;
        }
    } else {
        let q = pow2((eb - 1) as nat) as int;
        vstd::arithmetic::power2::lemma_pow2_pos((eb - 1) as nat);
        assert((n + fb) * q >= n * q) by (nonlinear_arith)
            requires
                fb >= 0,
                q > 0,
        ;
        if ea == 0 {
            assert(n * q >= n) by (nonlinear_arith)
                requires
                    q >= 1,
                    n > 0,
            ;
        } else {
            let p = pow2((ea - 1) as nat) as int;
            vstd::arithmetic::power2::lemma_pow2_pos((ea - 1) as nat);
            vstd::arithmetic::power2::lemma_pow2_unfold(ea as nat);
            assert(pow2(ea as nat) == 2 * p);
            if ea < eb - 1 {
                vstd::arithmetic::power2::lemma_pow2_strictly_increases(ea as nat, (eb - 1) as nat);
            }
            assert(q >= 2 * p);
            assert(0 <= (n + fa) * p < n * q) by (nonlinear_arith)
                requires
                    0 <= fa < n,
                    q >= 2 * p,
                    p > 0,
                    n > 0,
            ;
        }
    }
}

proof fn scaling_keeps_order(a: int, b: int)
    ensures
        a < b <==> (a as real / pow2(1074) as real) < (b as real / pow2(1074) as real),
        a == 0 ==> a as real / pow2(1074) as real == 0real,
        a > 0 ==> a as real / pow2(1074) as real > 0real,
{
    vstd::arithmetic::power2::lemma_pow2_pos(1074);
    let d = pow2(1074) as real;
    assert(d > 0real);
    let (x, y) = (a as real, b as real);
    assert(x < y <==> x / d < y / d) by (nonlinear_arith)
        requires
            d > 0real,
    ;
    assert(x > 0real ==> x / d > 0real) by (nonlinear_arith)
        requires
            d > 0real,
    ;
    assert(x == 0real ==> x / d == 0real) by (nonlinear_arith)
        requires
            d > 0real,
    ;
}

/// Zero, signs and one have the values that they stand for.
pub proof fn signs_are_of_values(x: Real)
    ensures
        val(Real::zero()) == 0real,
        val(x.negated()) == -val(x),
        val(x.unsigned()) == size(val(x)),
        val(Real { bits: ONE }) == 1real,
{
    reveal(val);
    scaling_keeps_order(units(x.magnitude_spec()), 0);
    scaling_keeps_order(0, 0);
    assert(units(0) == 0);
    if x.magnitude_spec() > 0 {
        units_increase(0, x.magnitude_spec());
    }
    let one = Real { bits: ONE };
    assert(units(one.magnitude_spec()) == SIGNIFICANDS * pow2(1022)) by {
        assert(one.magnitude_spec() / (SIGNIFICANDS as int) == 1023);
        assert(one.magnitude_spec() % (SIGNIFICANDS as int) == 0);
    }
    vstd::arithmetic::power2::lemma_pow2_adds(52, 1022);
    vstd::arithmetic::power2::lemma2_to64();
    vstd::arithmetic::power2::lemma2_to64_rest();
    vstd::arithmetic::power2::lemma_pow2_pos(1074);
    assert(units(one.magnitude_spec()) == pow2(1074));
    let d = pow2(1074) as real;
    assert(d / d == 1real) by (nonlinear_arith)
        requires
            d > 0real,
    ;
}

/// Numbers are ordered as their values are.
pub proof fn order_is_of_values(a: Real, b: Real)
    requires
        !a.nan(),
        !b.nan(),
    ensures
        a.below(b) <==> val(a) < val(b),
        a.at_most(b) <==> val(a) <= val(b),
{
    reveal(val);
    let (x, y) = (a.magnitude_spec(), b.magnitude_spec());
    if x < y {
        units_increase(x, y);
    } else if y < x {
        units_increase(y, x);
    }
    if x > 0 {
        units_increase(0, x);
    }
    if y > 0 {
        units_increase(0, y);
    }
    assert(units(0) == 0);
    scaling_keeps_order(units(x), units(y));
    scaling_keeps_order(units(y), units(x));
    scaling_keeps_order(0, 0);
}

// ── Numbers ──

/// Whether what is computed of finite numbers is finite and exact.
pub open spec fn exact_numbers<K: SpatialMath>(k: &K) -> bool {
    &&& forall|a: Real, b: Real, r: Real|
        a.finite() && b.finite() && #[trigger] call_ensures(K::sum, (k, a, b), r) ==> r.finite() && val(r) == val(
            a,
        ) + val(b)
    &&& forall|a: Real, b: Real, r: Real|
        a.finite() && b.finite() && #[trigger] call_ensures(K::difference, (k, a, b), r) ==> r.finite() && val(r)
            == val(a) - val(b)
    &&& forall|a: Real, b: Real, r: Real|
        a.finite() && b.finite() && #[trigger] call_ensures(K::product, (k, a, b), r) ==> r.finite() && val(r)
            == val(a) * val(b)
    &&& forall|a: Real, b: Real, r: Real|
        a.finite() && b.finite() && #[trigger] call_ensures(K::quotient, (k, a, b), r) ==> r.finite() && val(r)
            * val(b) == val(a)
}

} // verus!
