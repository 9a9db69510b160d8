//! Single-precision sums and shares: each is the nearest number that there is.

use crate::single::{
    doubled_below, nearest, nearest_steps, plus, rounded, step, times_sixteenths, Number,
};
use vstd::arithmetic::power2::pow2;
use vstd::prelude::*;

verus! {

/// `u` is the distance of neighbouring numbers at `v`: numbers have twenty-four
/// binary digits, and none is closer to its neighbour than `2048` units.
pub open spec fn is_spacing(v: int, u: int) -> bool {
    &&& u >= 2048
    &&& -0x100_0000 * u < v < 0x100_0000 * u
    &&& u == 2048 || v >= 0x80_0000 * u || v <= -0x80_0000 * u
}

/// `z` stands on the numbers of spacing `u`, as near to `v` as one of them can
/// be, and is the even one of two that are equally near.
pub open spec fn is_nearest(z: int, v: int, u: int) -> bool {
    &&& z % u == 0
    &&& -u <= 2 * (z - v) <= u
    &&& (2 * (z - v) == u || 2 * (v - z) == u) ==> (z / u) % 2 == 0
}

proof fn lemma_spacing(n: nat)
    ensures
        is_spacing(n as int, step(n) as int),
    decreases n,
{
    if n >= 0x8_0000_0000 {
        lemma_spacing(n / 2);
        let u = step(n / 2) as int;
        assert(step(n) == 2 * u);
        assert(0x100_0000 * (2 * u) == 2 * (0x100_0000 * u)) by (nonlinear_arith);
        assert(0x80_0000 * (2 * u) == 2 * (0x80_0000 * u)) by (nonlinear_arith);
        if u == 2048 {
            assert(n as int >= 0x80_0000 * 4096);
        }
    } else {
        assert(step(n) == 2048);
    }
}

proof fn lemma_rounded(n: nat)
    ensures
        is_nearest(rounded(n) as int, n as int, step(n) as int),
        step(n) > 0,
{
    lemma_spacing(n);
    let u = step(n) as int;
    let q = n as int / u;
    let rest = n as int % u;
    let s = nearest_steps(n, u as nat) as int;
    let z = s * u;
    assert(n as int == q * u + rest && 0 <= rest < u) by (nonlinear_arith)
        requires
            u > 0,
            q == n as int / u,
            rest == n as int % u,
    ;
    assert(z % u == 0 && z / u == s) by (nonlinear_arith)
        requires
            u > 0,
            z == s * u,
    ;
    assert((q + 1) * u == q * u + u) by (nonlinear_arith);
}

/// What is rounded is the nearest number of twenty-four binary digits, as far as
/// it is finite.
proof fn lemma_nearest(v: int, z: int)
    requires
        nearest(v) == Number::Finite(z),
    ensures
        exists|u: int| #[trigger] is_spacing(v, u) && is_nearest(z, v, u),
{
    let n = if v < 0 {
        (-v) as nat
    } else {
        v as nat
    };
    lemma_rounded(n);
    lemma_spacing(n);
    let u = step(n) as int;
    let m = rounded(n) as int;
    assert(is_spacing(v, u));
    if v < 0 {
        assert(z == -m);
        let c = m / u;
        assert(m == c * u) by (nonlinear_arith)
            requires
                u > 0,
                m % u == 0,
                c == m / u,
        ;
        assert(z == (-c) * u) by (nonlinear_arith)
            requires
                m == c * u,
                z == -m,
        ;
        assert(z % u == 0 && z / u == -c) by (nonlinear_arith)
            requires
                u > 0,
                z == (-c) * u,
        ;
    }
}

/// A sum is the nearest number to the exact sum.
pub proof fn sums_are_the_nearest_number(a: int, b: int, z: int)
    requires
        plus(Number::Finite(a), Number::Finite(b)) == Number::Finite(z),
    ensures
        exists|u: int| #[trigger] is_spacing(a + b, u) && is_nearest(z, a + b, u),
{
    lemma_nearest(a + b, z);
}

/// `k` sixteenths of a number are the nearest number to the exact share.
pub proof fn shares_are_the_nearest_number(a: int, k: int, z: int)
    requires
        a % 16 == 0,
        times_sixteenths(Number::Finite(a), k) == Number::Finite(z),
    ensures
        exists|v: int, u: int|
            16 * v == a * k && #[trigger] is_spacing(v, u) && is_nearest(z, v, u),
{
    let v = a * k / 16;
    let c = a / 16;
    assert(a * k == 16 * (c * k)) by (nonlinear_arith)
        requires
            a == 16 * c,
    ;
    lemma_nearest(v, z);
    let u = choose|u: int| #[trigger] is_spacing(v, u) && is_nearest(z, v, u);
    assert(is_spacing(v, u) && is_nearest(z, v, u));
}

/// A number is below half of `n` where twice of it is below `n`.
pub proof fn halves_are_compared_exactly(a: int, n: int)
    ensures
        doubled_below(Number::Finite(a), n) <==> a + a < n * pow2(160),
        doubled_below(Number::Infinite(true), n),
        !doubled_below(Number::Infinite(false), n),
        !doubled_below(Number::Undefined, n),
{
}

} // verus!
