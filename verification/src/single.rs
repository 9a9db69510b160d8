//! Single-precision arithmetic on whole numbers.
//!
//! Every finite single-precision number is a whole multiple of `2^-149`. Here
//! magnitudes are counted in the finer unit `2^-160`, so that a sixteenth of
//! such a number is still whole, and each operation is the exact result rounded
//! once: to the nearest number of 24 significant bits, and to the even one of
//! two that are equally near.

use vstd::arithmetic::power2::{
    lemma2_to64, lemma2_to64_rest, lemma_pow2_adds, lemma_pow2_pos, lemma_pow2_strictly_increases,
    lemma_pow2_unfold, pow2,
};
use vstd::prelude::*;

verus! {

/// The power of two that the unit is counted down from: one is `2^160` units.
pub const UNIT: u32 = 160;

/// The least step between two numbers is `2^11` units.
pub const LEAST_STEP: u32 = 11;

/// Numbers stay below `2^288` units; past that they are infinite.
pub const TOP: u32 = 288;

/// A single-precision number, in units of `2^-160`.
pub enum Number {
    Finite(int),
    Infinite(bool),
    Undefined,
}

/// `n` in whole steps of `u`, to the nearest, and to the even one of two that
/// are equally near.
pub open spec fn nearest_steps(n: nat, u: nat) -> nat {
    let q = n / u;
    let rest = n % u;
    if 2 * rest > u || (2 * rest == u && q % 2 == 1) {
        q + 1
    } else {
        q
    }
}

/// The step between neighbouring numbers of magnitude `n`.
pub open spec fn step(n: nat) -> nat
    decreases n,
{
    if n < 0x8_0000_0000 {
        2048
    } else {
        2 * step(n / 2)
    }
}

/// The magnitude `n`, rounded.
pub open spec fn rounded(n: nat) -> nat {
    nearest_steps(n, step(n)) * step(n)
}

/// The magnitude of `v`.
pub open spec fn magnitude(v: int) -> nat {
    if v < 0 {
        (-v) as nat
    } else {
        v as nat
    }
}

/// The number nearest to `v` units.
pub open spec fn nearest(v: int) -> Number {
    let m = rounded(magnitude(v));
    if m >= pow2(TOP as nat) {
        Number::Infinite(v < 0)
    } else if v < 0 {
        Number::Finite(-m)
    } else {
        Number::Finite(m as int)
    }
}

/// The whole number `n`.
pub open spec fn whole(n: int) -> Number {
    Number::Finite(n * pow2(UNIT as nat))
}

/// `a + b`.
pub open spec fn plus(a: Number, b: Number) -> Number {
    match (a, b) {
        (Number::Finite(x), Number::Finite(y)) => nearest(x + y),
        (Number::Infinite(p), Number::Infinite(q)) => if p == q {
            a
        } else {
            Number::Undefined
        },
        (Number::Infinite(_), Number::Finite(_)) => a,
        (Number::Finite(_), Number::Infinite(_)) => b,
        _ => Number::Undefined,
    }
}

/// `a` times `k` sixteenths, for `k > 0`.
pub open spec fn times_sixteenths(a: Number, k: int) -> Number {
    match a {
        Number::Finite(x) => nearest(x * k / 16),
        _ => a,
    }
}

/// `2 a < n`.
pub open spec fn doubled_below(a: Number, n: int) -> bool {
    match a {
        Number::Finite(x) => 2 * x < n * pow2(UNIT as nat),
        Number::Infinite(negative) => negative,
        Number::Undefined => false,
    }
}

// ---------------------------------------------------------------------------
// Steps and rounding
// ---------------------------------------------------------------------------

/// `k` is the step's power of two at magnitude `n`.
pub open spec fn is_step_power(n: nat, k: nat) -> bool {
    &&& 11 <= k
    &&& n < pow2(24 + k)
    &&& k == 11 || pow2((23 + k) as nat) <= n
}

proof fn lemma_step_is(n: nat, k: nat)
    requires
        is_step_power(n, k),
    ensures
        step(n) == pow2(k),
    decreases k,
{
    lemma2_to64();
    lemma2_to64_rest();
    if k > 11 {
        lemma_pow2_unfold(k);
        lemma_pow2_unfold(24 + k);
        lemma_pow2_unfold((23 + k) as nat);
        if k > 12 {
            lemma_pow2_strictly_increases(35, (23 + k) as nat);
        }
        lemma_step_is(n / 2, (k - 1) as nat);
    }
}

proof fn lemma_step_power(n: nat) -> (k: nat)
    ensures
        is_step_power(n, k),
        step(n) == pow2(k),
    decreases n,
{
    lemma2_to64();
    lemma2_to64_rest();
    if n < 0x8_0000_0000 {
        11
    } else {
        let k = lemma_step_power(n / 2);
        lemma_pow2_unfold(k + 1);
        lemma_pow2_unfold(25 + k);
        lemma_pow2_unfold(24 + k);
        k + 1
    }
}

/// What lies within less than half a step of `c` steps is nearest to them.
proof fn lemma_near(n: nat, u: nat, c: nat, r: int)
    requires
        u > 0,
        n == c * u + r,
        -(u as int) < 2 * r < u,
    ensures
        nearest_steps(n, u) == c,
{
    if r >= 0 {
        vstd::arithmetic::div_mod::lemma_fundamental_div_mod_converse(
            n as int,
            u as int,
            c as int,
            r,
        );
    } else {
        assert(c > 0) by (nonlinear_arith)
            requires
                n == c * u + r,
                n >= 0,
                r < 0,
                u > 0,
                c >= 0,
        ;
        assert(n == (c - 1) * u + (u + r)) by (nonlinear_arith)
            requires
                n == c * u + r,
        ;
        vstd::arithmetic::div_mod::lemma_fundamental_div_mod_converse(
            n as int,
            u as int,
            c - 1,
            u + r,
        );
    }
}

/// Scaling a magnitude and its step alike leaves the count of steps.
proof fn lemma_scaled_steps(n: nat, u: nat, c: nat)
    requires
        u > 0,
        c > 0,
    ensures
        nearest_steps(n * c, u * c) == nearest_steps(n, u),
{
    let q = n / u;
    let r = n % u;
    vstd::arithmetic::div_mod::lemma_fundamental_div_mod(n as int, u as int);
    assert(n * c == q * (u * c) + r * c && 0 <= r * c < u * c && u * c > 0) by (nonlinear_arith)
        requires
            n == u * q + r,
            0 <= r < u,
            c > 0,
    ;
    vstd::arithmetic::div_mod::lemma_fundamental_div_mod_converse(
        (n * c) as int,
        (u * c) as int,
        q as int,
        (r * c) as int,
    );
    assert(2 * (r * c) > u * c <==> 2 * r > u) by (nonlinear_arith)
        requires
            c > 0,
    ;
    assert(2 * (r * c) == u * c <==> 2 * r == u) by (nonlinear_arith)
        requires
            c > 0,
    ;
}

/// A power of two above another is a multiple of it.
proof fn lemma_power_splits(a: nat, b: nat)
    requires
        a <= b,
    ensures
        pow2(b) == pow2((b - a) as nat) * pow2(a),
        pow2(a) > 0,
        pow2(b) > 0,
        pow2((b - a) as nat) > 0,
{
    lemma_pow2_adds((b - a) as nat, a);
    lemma_pow2_pos(a);
    lemma_pow2_pos(b);
    lemma_pow2_pos((b - a) as nat);
}

proof fn lemma_power_le(a: nat, b: nat)
    requires
        a <= b,
    ensures
        0 < pow2(a) <= pow2(b),
{
    lemma_pow2_pos(a);
    if a < b {
        lemma_pow2_strictly_increases(a, b);
    }
}

/// The multiples of the step near `m * 2^e`: where the step at a magnitude that
/// is within the next power of two of it is `2^j`, it divides `m * 2^e`.
proof fn lemma_divides(m: nat, e: nat, v: nat, j: nat, slack: nat) -> (c: nat)
    requires
        m <= 0x100_0000,
        11 <= e,
        is_step_power(v, j),
        v <= m * pow2(e) + slack,
        slack < pow2(e),
    ensures
        m * pow2(e) == c * pow2(j),
{
    lemma2_to64();
    if j <= e {
        lemma_power_splits(j, e);
        let c = m * pow2((e - j) as nat);
        assert(m * pow2(e) == c * pow2(j)) by (nonlinear_arith)
            requires
                pow2(e) == pow2((e - j) as nat) * pow2(j),
                c == m * pow2((e - j) as nat),
        ;
        c
    } else {
        // v is at least 2^(24 + e), so that m is 2^24 and the step 2^(e + 1)
        lemma_power_le((24 + e) as nat, (23 + j) as nat);
        lemma_pow2_adds(24, e);
        assert(m == 0x100_0000) by (nonlinear_arith)
            requires
                m <= 0x100_0000,
                pow2(24) == 0x100_0000,
                pow2(24 + e) == pow2(24) * pow2(e),
                pow2(24 + e) <= v,
                v <= m * pow2(e) + slack,
                slack < pow2(e),
                pow2(e) > 0,
        ;
        if j > e + 1 {
            lemma_power_le((25 + e) as nat, (23 + j) as nat);
            lemma_pow2_adds(25, e);
            assert(false) by (nonlinear_arith)
                requires
                    pow2(25) == 0x200_0000,
                    pow2(25 + e) == pow2(25) * pow2(e),
                    pow2(25 + e) <= v,
                    v <= m * pow2(e) + slack,
                    m == 0x100_0000,
                    slack < pow2(e),
                    pow2(e) > 0,
            ;
        }
        lemma_pow2_unfold(j);
        assert(m * pow2(e) == 0x80_0000 * pow2(j)) by (nonlinear_arith)
            requires
                m == 0x100_0000,
                pow2(j) == 2 * pow2(e),
        ;
        0x80_0000
    }
}

/// A magnitude of 24 significant bits is its own nearest.
proof fn lemma_exact(m: nat, e: nat)
    requires
        m <= 0x100_0000,
        11 <= e,
    ensures
        rounded(m * pow2(e)) == m * pow2(e),
{
    let v = m * pow2(e);
    lemma_pow2_pos(e);
    let j = lemma_step_power(v);
    let c = lemma_divides(m, e, v, j, 0);
    lemma_pow2_pos(j);
    lemma_near(v, pow2(j), c, 0);
}

/// What is far smaller than the last bit of a number does not move it.
proof fn lemma_absorbed(m: nat, e: nat, b: int, f: nat, v: nat)
    requires
        1 <= m <= 0x100_0000,
        11 <= f,
        f + 100 < e,
        -0x100_0000 <= b <= 0x100_0000,
        v == m * pow2(e) + b * pow2(f),
    ensures
        rounded(v) == m * pow2(e),
{
    lemma2_to64();
    let small = b * pow2(f);
    let limit = pow2((e - 77) as nat);
    lemma_pow2_adds(24, f);
    lemma_power_le((24 + f) as nat, (e - 77) as nat);
    lemma_pow2_pos(f);
    assert(-(limit as int) <= small <= limit) by (nonlinear_arith)
        requires
            small == b * pow2(f),
            -0x100_0000 <= b <= 0x100_0000,
            pow2(24) == 0x100_0000,
            pow2(24 + f) == pow2(24) * pow2(f),
            pow2(24 + f) <= limit,
            pow2(f) > 0,
    ;
    lemma_power_le((e - 77) as nat, (e - 2) as nat);
    lemma_pow2_unfold(e);
    lemma_pow2_unfold((e - 1) as nat);
    lemma_pow2_pos((e - 2) as nat);
    assert(m * pow2(e) >= pow2(e)) by (nonlinear_arith)
        requires
            m >= 1,
            pow2(e) > 0,
    ;
    let j = lemma_step_power(v);
    let c = lemma_divides(m, e, v, j, limit);
    // v is at least 2^(e - 1), so that the step is at least 2^(e - 24)
    if j + 24 <= e - 1 {
        lemma_power_le((24 + j) as nat, (e - 1) as nat);
    }
    assert(j >= e - 24);
    lemma_power_le((e - 24) as nat, j);
    lemma_power_le((e - 77) as nat, (e - 26) as nat);
    lemma_pow2_unfold((e - 24) as nat);
    lemma_pow2_unfold((e - 25) as nat);
    lemma_near(v, pow2(j), c, small);
}

// ---------------------------------------------------------------------------
// Numbers that can be computed with
// ---------------------------------------------------------------------------

/// A single-precision number: `mant * 2^exp` units where it is finite.
#[derive(Debug, Clone, Copy, PartialEq, Eq)]
pub enum Single {
    Finite { mant: i32, exp: u32 },
    Infinite { negative: bool },
    Undefined,
}

impl Single {
    /// The significand has 24 bits and the exponent is in range.
    pub open spec fn wf(self) -> bool {
        match self {
            Single::Finite { mant, exp } => {
                &&& -0x100_0000 <= mant <= 0x100_0000
                &&& LEAST_STEP <= exp <= TOP - 24
                &&& exp == TOP - 24 ==> -0x100_0000 < mant < 0x100_0000
            },
            _ => true,
        }
    }

    /// The number that is meant.
    pub open spec fn number(self) -> Number {
        match self {
            Single::Finite { mant, exp } => Number::Finite(mant * pow2(exp as nat)),
            Single::Infinite { negative } => Number::Infinite(negative),
            Single::Undefined => Number::Undefined,
        }
    }

    /// Zero.
    pub fn zero() -> (r: Single)
        ensures
            r.wf(),
            r.number() == whole(0),
    {
        Single::Finite { mant: 0, exp: LEAST_STEP }
    }

    /// The whole number `n`.
    pub fn whole(n: i16) -> (r: Single)
        ensures
            r.wf(),
            r.number() == whole(n as int),
    {
        Single::Finite { mant: n as i32, exp: UNIT }
    }

    /// `self + other`.
    pub fn plus(self, other: Single) -> (r: Single)
        requires
            self.wf(),
            other.wf(),
        ensures
            r.wf(),
            r.number() == plus(self.number(), other.number()),
    {
        match (self, other) {
            (Single::Finite { mant: m, exp: e }, Single::Finite { mant: b, exp: f }) => {
                if e >= f {
                    sum(m, e, b, f)
                } else {
                    sum(b, f, m, e)
                }
            },
            (Single::Infinite { negative: p }, Single::Infinite { negative: q }) => {
                if p == q {
                    self
                } else {
                    Single::Undefined
                }
            },
            (Single::Infinite { negative: _ }, Single::Finite { mant: _, exp: _ }) => self,
            (Single::Finite { mant: _, exp: _ }, Single::Infinite { negative: _ }) => other,
            _ => Single::Undefined,
        }
    }

    /// `self * k / 16`.
    pub fn times_sixteenths(self, k: u8) -> (r: Single)
        requires
            self.wf(),
            k > 0,
        ensures
            r.wf(),
            r.number() == times_sixteenths(self.number(), k as int),
    {
        match self {
            Single::Finite { mant, exp } => {
                proof {
                    lemma_pow2_adds(4, (exp - 4) as nat);
                    lemma2_to64();
                    let p = pow2((exp - 4) as nat);
                    let product = mant * k;
                    assert((mant * pow2(exp as nat)) * k == 16 * (product * p)) by (nonlinear_arith)
                        requires
                            pow2(exp as nat) == 16 * p,
                            product == mant * k,
                    ;
                    assert(-0x1_0000_0000 <= product <= 0x1_0000_0000) by (nonlinear_arith)
                        requires
                            -0x100_0000 <= mant <= 0x100_0000,
                            0 < k <= 255,
                            product == mant * k,
                    ;
                }
                round_at(mant as i128 * k as i128, exp - 4)
            },
            _ => self,
        }
    }

    /// Whether `2 * self < n`.
    pub fn doubled_below(self, n: i32) -> (r: bool)
        requires
            self.wf(),
            0 < n <= 0x1_0000,
        ensures
            r == doubled_below(self.number(), n as int),
    {
        match self {
            Single::Finite { mant, exp } => below(mant, exp, n),
            Single::Infinite { negative } => negative,
            Single::Undefined => false,
        }
    }
}

/// `2^d`.
fn power(d: u32) -> (r: i128)
    requires
        d <= 120,
    ensures
        r == pow2(d as nat),
        1 <= r <= 0x100_0000_0000_0000_0000_0000_0000_0000,
{
    let mut p: i128 = 1;
    let mut i: u32 = 0;
    proof {
        lemma2_to64();
    }
    while i < d
        invariant
            i <= d <= 120,
            p == pow2(i as nat),
            i <= 60 ==> p <= 0x1000_0000_0000_0000,
            i > 60 ==> p == 0x1000_0000_0000_0000 * pow2((i - 60) as nat) && i - 60 <= 60,
            i > 60 ==> pow2((i - 60) as nat) <= 0x1000_0000_0000_0000,
            1 <= p <= 0x100_0000_0000_0000_0000_0000_0000_0000,
        decreases d - i,
    {
        proof {
            lemma2_to64();
            lemma2_to64_rest();
            lemma_pow2_unfold((i + 1) as nat);
            if i + 1 > 60 {
                lemma_pow2_adds(60, (i + 1 - 60) as nat);
                lemma_power_le((i + 1 - 60) as nat, 60);
                let h = pow2((i + 1 - 60) as nat);
                assert(2 * p == 0x1000_0000_0000_0000 * h);
                assert(0x1000_0000_0000_0000 * h <= 0x100_0000_0000_0000_0000_0000_0000_0000)
                    by (nonlinear_arith)
                    requires
                        h <= 0x1000_0000_0000_0000,
                ;
            } else {
                lemma_power_le((i + 1) as nat, 60);
            }
        }
        p = p * 2;
        i += 1;
    }
    p
}

/// What rounding `n * 2^e` at `2^k` gives, where `k` is the least that leaves 24
/// bits and a step of at least `2^11`.
proof fn lemma_rounded_at(n: nat, e: nat, k: nat)
    requires
        n / pow2(k) < 0x100_0000,
        11 <= e + k,
        k == 0 || e + k == 11 || pow2((23 + k) as nat) <= n,
    ensures
        nearest_steps(n, pow2(k)) <= 0x100_0000,
        rounded(n * pow2(e)) == nearest_steps(n, pow2(k)) * pow2(e + k),
{
    lemma2_to64();
    lemma_pow2_pos(k);
    lemma_pow2_pos(e);
    let p = pow2(k);
    let q = n / p;
    vstd::arithmetic::div_mod::lemma_fundamental_div_mod(n as int, p as int);
    if k == 0 {
        assert(n / 1 == n && n % 1 == 0);
        lemma_exact(n, e);
    } else {
        lemma_pow2_adds(24, e + k);
        lemma_pow2_adds(e, k);
        lemma_pow2_adds(e, (23 + k) as nat);
        assert((e + (23 + k)) as nat == (23 + (e + k)) as nat);
        let v = n * pow2(e);
        assert(v < pow2(24 + (e + k))) by (nonlinear_arith)
            requires
                v == n * pow2(e),
                n == p * q + n % p,
                0 <= n % p < p,
                q < 0x100_0000,
                pow2(24 + (e + k)) == 0x100_0000 * pow2(e + k),
                pow2(e + k) == pow2(e) * p,
                pow2(e) > 0,
                p > 0,
        ;
        if e + k != 11 {
            assert(pow2((23 + (e + k)) as nat) <= v) by (nonlinear_arith)
                requires
                    v == n * pow2(e),
                    pow2((23 + k) as nat) <= n,
                    pow2((23 + (e + k)) as nat) == pow2(e) * pow2((23 + k) as nat),
                    pow2(e) > 0,
            ;
        }
        lemma_step_is(v, e + k);
        lemma_scaled_steps(n, p, pow2(e));
        assert(pow2(e + k) == p * pow2(e)) by (nonlinear_arith)
            requires
                pow2(e + k) == pow2(e) * p,
        ;
    }
}

/// When `steps * 2^exp` is past all finite numbers.
proof fn lemma_overflow(steps: nat, exp: nat)
    requires
        steps <= 0x100_0000,
        exp > 264 ==> steps >= 0x80_0000,
    ensures
        steps * pow2(exp) >= pow2(288) <==> exp > 264 || (exp == 264 && steps == 0x100_0000),
{
    lemma2_to64();
    lemma_pow2_pos(exp);
    if exp > 264 {
        lemma_pow2_adds(23, exp);
        lemma_power_le(288, (23 + exp) as nat);
        assert(steps * pow2(exp) >= pow2((23 + exp) as nat)) by (nonlinear_arith)
            requires
                steps >= 0x80_0000,
                pow2(23) == 0x80_0000,
                pow2((23 + exp) as nat) == pow2(23) * pow2(exp),
                pow2(exp) > 0,
        ;
    } else {
        lemma_pow2_adds(24, exp);
        if exp == 264 {
            assert(steps < 0x100_0000 ==> steps * pow2(exp) < pow2(288)) by (nonlinear_arith)
                requires
                    pow2(288) == pow2(24) * pow2(exp),
                    pow2(24) == 0x100_0000,
                    pow2(exp) > 0,
            ;
        } else {
            lemma_pow2_strictly_increases(24 + exp, 288);
            assert(steps * pow2(exp) <= pow2(24 + exp)) by (nonlinear_arith)
                requires
                    steps <= 0x100_0000,
                    pow2(24 + exp) == pow2(24) * pow2(exp),
                    pow2(24) == 0x100_0000,
                    pow2(exp) > 0,
            ;
        }
    }
}

/// The number nearest to `s * 2^e` units.
fn round_at(s: i128, e: u32) -> (r: Single)
    requires
        -0x2000_0000_0000_0000_0000_0000_0000_0000 < s
            < 0x2000_0000_0000_0000_0000_0000_0000_0000,
        7 <= e <= TOP - 24,
    ensures
        r.wf(),
        r.number() == nearest(s * pow2(e as nat)),
{
    let negative: bool = s < 0;
    let n: i128 = if negative {
        -s
    } else {
        s
    };
    let ghost size = n as nat;
    let mut q: i128 = n;
    let mut p: i128 = 1;
    let mut k: u32 = 0;
    proof {
        lemma2_to64();
        assert(n / 1 == n);
    }
    while q >= 0x100_0000 || e + k < LEAST_STEP
        invariant
            7 <= e <= TOP - 24,
            size == n,
            0 <= n < 0x2000_0000_0000_0000_0000_0000_0000_0000,
            k <= 110,
            p == pow2(k as nat),
            1 <= p,
            q == n as int / p as int,
            p * q <= n,
            k == 0 || e + k <= LEAST_STEP || pow2((23 + k) as nat) <= size,
            k <= 4 ==> p <= 16,
            p <= 16 || p * 0x80_0000 <= n,
        decreases 200 - k,
    {
        proof {
            lemma2_to64();
            lemma_pow2_unfold((k + 1) as nat);
            lemma_pow2_adds(24, k as nat);
            vstd::arithmetic::div_mod::lemma_fundamental_div_mod(n as int, p as int);
            assert(n as int / p as int / 2 == n as int / (p * 2)) by (nonlinear_arith)
                requires
                    p >= 1,
            ;
            vstd::arithmetic::div_mod::lemma_fundamental_div_mod(n as int, p * 2);
            if q >= 0x100_0000 {
                assert(pow2(24 + k as nat) <= n && p * 0x100_0000 <= n) by (nonlinear_arith)
                    requires
                        p * q <= n,
                        q >= 0x100_0000,
                        pow2(24) == 0x100_0000,
                        pow2(24 + k as nat) == pow2(24) * p,
                        p >= 1,
                ;
                assert((23 + (k + 1)) as nat == 24 + k as nat);
                if k >= 110 {
                    lemma2_to64_rest();
                    lemma_power_le(125, (24 + k) as nat);
                    lemma_pow2_adds(61, 64);
                    assert(false);
                }
            } else {
                assert(k < 4);
            }
        }
        q = q / 2;
        p = p * 2;
        k += 1;
    }
    let rest: i128 = n - p * q;
    proof {
        vstd::arithmetic::div_mod::lemma_fundamental_div_mod(n as int, p as int);
        assert(rest == n as int % p as int);
        lemma_rounded_at(size, e as nat, k as nat);
    }
    let steps: i32 = if 2 * rest > p || (2 * rest == p && q % 2 == 1) {
        q as i32 + 1
    } else {
        q as i32
    };
    let exp: u32 = e + k;
    proof {
        assert(steps == nearest_steps(size, p as nat));
        if exp > 264 {
            lemma_pow2_adds(23, k as nat);
            lemma2_to64();
            assert(q >= 0x80_0000) by (nonlinear_arith)
                requires
                    pow2((23 + k) as nat) <= n,
                    pow2((23 + k) as nat) == pow2(23) * p,
                    pow2(23) == 0x80_0000,
                    n == p * q + rest,
                    rest < p,
                    p >= 1,
            ;
        }
        lemma_overflow(steps as nat, exp as nat);
        lemma_pow2_pos(e as nat);
        lemma_pow2_pos(exp as nat);
        let v = s * pow2(e as nat);
        assert(magnitude(v) == size * pow2(e as nat) && (v < 0 <==> negative)) by (nonlinear_arith)
            requires
                v == s * pow2(e as nat),
                size == if negative { -s } else { s as int },
                negative == (s < 0),
                pow2(e as nat) > 0,
        ;
        assert((-steps) * pow2(exp as nat) == -(steps * pow2(exp as nat))) by (nonlinear_arith);
    }
    if exp > TOP - 24 || (exp == TOP - 24 && steps == 0x100_0000) {
        Single::Infinite { negative }
    } else if negative {
        Single::Finite { mant: -steps, exp }
    } else {
        Single::Finite { mant: steps, exp }
    }
}

/// `m * 2^e + b * 2^f`, rounded, for `e >= f`.
fn sum(m: i32, e: u32, b: i32, f: u32) -> (r: Single)
    requires
        (Single::Finite { mant: m, exp: e }).wf(),
        (Single::Finite { mant: b, exp: f }).wf(),
        e >= f,
    ensures
        r.wf(),
        r.number() == nearest(m * pow2(e as nat) + b * pow2(f as nat)),
{
    let ghost big = m * pow2(e as nat);
    let ghost small = b * pow2(f as nat);
    if e - f <= 100 {
        let p: i128 = power(e - f);
        proof {
            lemma_power_splits(f as nat, e as nat);
            lemma2_to64();
            lemma2_to64_rest();
            lemma_power_le((e - f) as nat, 100);
            lemma_pow2_adds(60, 40);
            assert(-0x1000_0000_0000_0000_0000_0000_0000_0000 <= m * p
                <= 0x1000_0000_0000_0000_0000_0000_0000_0000) by (nonlinear_arith)
                requires
                    -0x100_0000 <= m <= 0x100_0000,
                    1 <= p <= 0x10_0000_0000_0000_0000_0000_0000,
            ;
            assert((m * p + b) * pow2(f as nat) == big + small) by (nonlinear_arith)
                requires
                    big == m * pow2(e as nat),
                    small == b * pow2(f as nat),
                    pow2(e as nat) == p * pow2(f as nat),
            ;
        }
        round_at(m as i128 * p + b as i128, f)
    } else if m == 0 {
        proof {
            lemma_alone(b, f);
            assert(big == 0) by (nonlinear_arith)
                requires
                    big == 0 * pow2(e as nat),
            ;
        }
        Single::Finite { mant: b, exp: f }
    } else {
        proof {
            lemma_pow2_pos(e as nat);
            lemma_pow2_pos(f as nat);
            let size: nat = if m < 0 { (-m) as nat } else { m as nat };
            let other: int = if m < 0 { -b as int } else { b as int };
            let v = (size * pow2(e as nat) + other * pow2(f as nat)) as nat;
            lemma_dominates(size, e as nat, other, f as nat);
            lemma_absorbed(size, e as nat, other, f as nat, v);
            assert(big == if m < 0 { -(size * pow2(e as nat)) } else { (size * pow2(e as nat)) as int })
                by (nonlinear_arith)
                requires
                    big == m * pow2(e as nat),
                    size == if m < 0 { -m } else { m as int },
            ;
            assert(small == if m < 0 { -(other * pow2(f as nat)) } else { other * pow2(f as nat) })
                by (nonlinear_arith)
                requires
                    small == b * pow2(f as nat),
                    other == if m < 0 { -b } else { b as int },
            ;
            lemma_overflow(size, e as nat);
        }
        Single::Finite { mant: m, exp: e }
    }
}

/// A number by itself is its own nearest.
pub proof fn lemma_alone(b: i32, f: u32)
    requires
        (Single::Finite { mant: b, exp: f }).wf(),
    ensures
        nearest(b * pow2(f as nat)) == Number::Finite(b * pow2(f as nat)),
{
    let size: nat = if b < 0 { (-b) as nat } else { b as nat };
    let v = b * pow2(f as nat);
    lemma_pow2_pos(f as nat);
    assert(magnitude(v) == size * pow2(f as nat)) by (nonlinear_arith)
        requires
            v == b * pow2(f as nat),
            size == if b < 0 { -b } else { b as int },
            pow2(f as nat) > 0,
    ;
    lemma_exact(size, f as nat);
    lemma_overflow(size, f as nat);
}

/// Whole numbers of up to 24 bits are exact.
pub proof fn lemma_whole(n: int)
    requires
        -0x100_0000 <= n <= 0x100_0000,
    ensures
        nearest(n * pow2(UNIT as nat)) == whole(n),
{
    lemma_alone(n as i32, UNIT);
}

/// The larger of two numbers far apart decides the sign.
proof fn lemma_dominates(m: nat, e: nat, b: int, f: nat)
    requires
        m >= 1,
        -0x100_0000 <= b <= 0x100_0000,
        f + 100 < e,
    ensures
        m * pow2(e) + b * pow2(f) > 0,
{
    lemma2_to64();
    lemma_pow2_adds(24, f);
    lemma_pow2_strictly_increases(24 + f, e);
    lemma_pow2_pos(f);
    assert(m * pow2(e) + b * pow2(f) > 0) by (nonlinear_arith)
        requires
            m >= 1,
            -0x100_0000 <= b,
            pow2(24) == 0x100_0000,
            pow2(24 + f) == pow2(24) * pow2(f),
            pow2(24 + f) < pow2(e),
            pow2(f) > 0,
    ;
}

/// Whether `2 * mant * 2^exp` units are less than `n`.
fn below(mant: i32, exp: u32, n: i32) -> (r: bool)
    requires
        (Single::Finite { mant, exp }).wf(),
        0 < n <= 0x1_0000,
    ensures
        r == (2 * (mant * pow2(exp as nat)) < n * pow2(UNIT as nat)),
{
    let ghost value = mant * pow2(exp as nat);
    proof {
        lemma2_to64();
        lemma_pow2_pos(exp as nat);
        lemma_pow2_pos(UNIT as nat);
        lemma_power_splits(60, 160);
        lemma_power_splits(40, 160);
    }
    if mant <= 0 {
        proof {
            assert(value <= 0 && n * pow2(UNIT as nat) > 0) by (nonlinear_arith)
                requires
                    value == mant * pow2(exp as nat),
                    mant <= 0,
                    n > 0,
                    pow2(exp as nat) > 0,
                    pow2(UNIT as nat) > 0,
            ;
        }
        return true;
    }
    if exp >= UNIT {
        let d: u32 = exp - UNIT;
        proof {
            lemma_power_splits(UNIT as nat, exp as nat);
        }
        if d > 20 {
            proof {
                lemma_power_le(20, d as nat);
                assert(2 * value >= n * pow2(UNIT as nat)) by (nonlinear_arith)
                    requires
                        value == mant * pow2(exp as nat),
                        pow2(exp as nat) == pow2(d as nat) * pow2(UNIT as nat),
                        mant >= 1,
                        pow2(20) <= pow2(d as nat),
                        pow2(20) == 0x10_0000,
                        n <= 0x1_0000,
                        pow2(UNIT as nat) > 0,
                ;
            }
            return false;
        }
        let p: i128 = power(d);
        proof {
            lemma_power_le(d as nat, 20);
            assert(2 * value == (2 * mant * p) * pow2(UNIT as nat)) by (nonlinear_arith)
                requires
                    value == mant * pow2(exp as nat),
                    pow2(exp as nat) == p * pow2(UNIT as nat),
            ;
            assert((2 * mant * p) * pow2(UNIT as nat) < n * pow2(UNIT as nat) <==> 2 * mant * p
                < n) by (nonlinear_arith)
                requires
                    pow2(UNIT as nat) > 0,
            ;
            assert(0 <= mant * p <= 0x1000_0000_0000_0000 && 2 * mant * p == 2 * (mant * p))
                by (nonlinear_arith)
                requires
                    1 <= mant <= 0x100_0000,
                    1 <= p <= 0x10_0000,
            ;
        }
        2 * (mant as i128 * p) < n as i128
    } else {
        let d: u32 = UNIT - exp;
        proof {
            lemma_power_splits(exp as nat, UNIT as nat);
        }
        if d > 40 {
            proof {
                lemma_power_le(40, d as nat);
                lemma2_to64_rest();
                assert(2 * value < n * pow2(UNIT as nat)) by (nonlinear_arith)
                    requires
                        value == mant * pow2(exp as nat),
                        pow2(UNIT as nat) == pow2(d as nat) * pow2(exp as nat),
                        mant <= 0x100_0000,
                        n >= 1,
                        pow2(40) <= pow2(d as nat),
                        pow2(40) == 0x100_0000_0000,
                        pow2(exp as nat) > 0,
                ;
            }
            return true;
        }
        let p: i128 = power(d);
        proof {
            lemma_power_le(d as nat, 40);
            lemma2_to64_rest();
            assert(n * pow2(UNIT as nat) == (n * p) * pow2(exp as nat)) by (nonlinear_arith)
                requires
                    pow2(UNIT as nat) == p * pow2(exp as nat),
            ;
            assert(2 * value == (2 * mant) * pow2(exp as nat)) by (nonlinear_arith)
                requires
                    value == mant * pow2(exp as nat),
            ;
            assert((2 * mant) * pow2(exp as nat) < (n * p) * pow2(exp as nat) <==> 2 * mant < n * p)
                by (nonlinear_arith)
                requires
                    pow2(exp as nat) > 0,
            ;
            assert(0 <= n * p <= 0x1000_0000_0000_0000) by (nonlinear_arith)
                requires
                    0 < n <= 0x1_0000,
                    1 <= p <= 0x100_0000_0000,
            ;
        }
        2 * (mant as i128) < n as i128 * p
    }
}

} // verus!
