//! Fixed-point numeric helpers for the scoring heuristics.
//!
//! The engine keeps all scores as integers: micro-units (1_000_000 = 1.0)
//! for scores in [0, 1] and milli-units (1_000 = 1.0) for unbounded
//! preference scores.  The logarithms used by the heuristics are
//! piecewise-linear approximations that are exact at powers of the base and
//! interpolate linearly in between; only relative ordering of scores
//! matters, and these approximations are strictly order-preserving where
//! the true logarithm is.

use vstd::prelude::*;

verus! {

/// 2 to the power k.
pub open spec fn pow2(k: nat) -> nat
    decreases k,
{
    if k == 0 {
        1
    } else {
        2 * pow2((k - 1) as nat)
    }
}

/// 10 to the power k.
pub open spec fn pow10(k: nat) -> nat
    decreases k,
{
    if k == 0 {
        1
    } else {
        10 * pow10((k - 1) as nat)
    }
}

pub proof fn lemma_pow2_pos(k: nat)
    ensures
        pow2(k) >= 1,
    decreases k,
{
    if k > 0 {
        lemma_pow2_pos((k - 1) as nat);
    }
}

pub proof fn lemma_pow10_pos(k: nat)
    ensures
        pow10(k) >= 1,
    decreases k,
{
    if k > 0 {
        lemma_pow10_pos((k - 1) as nat);
    }
}

/// pow2 is monotone: a larger exponent gives at least as large a power.
pub proof fn lemma_pow2_increases(a: nat, b: nat)
    requires
        a <= b,
    ensures
        pow2(a) <= pow2(b),
    decreases b,
{
    if a < b {
        lemma_pow2_increases(a, (b - 1) as nat);
        lemma_pow2_pos((b - 1) as nat);
    }
}

pub proof fn lemma_pow10_increases(a: nat, b: nat)
    requires
        a <= b,
    ensures
        pow10(a) <= pow10(b),
    decreases b,
{
    if a < b {
        lemma_pow10_increases(a, (b - 1) as nat);
        lemma_pow10_pos((b - 1) as nat);
    }
}

/// floor(log2(n)) for n >= 1 (and 0 for n == 0).
pub open spec fn log2_floor(n: nat) -> nat
    decreases n,
{
    if n < 2 {
        0
    } else {
        log2_floor(n / 2) + 1
    }
}

/// floor(log10(n)) for n >= 1 (and 0 for n == 0).
pub open spec fn log10_floor(n: nat) -> nat
    decreases n,
{
    if n < 10 {
        0
    } else {
        log10_floor(n / 10) + 1
    }
}

/// The floor logarithm is the unique k with pow2(k) <= n < 2 * pow2(k).
pub proof fn lemma_log2_floor_unique(n: nat, k: nat)
    requires
        pow2(k) <= n,
        n < 2 * pow2(k),
    ensures
        log2_floor(n) == k,
    decreases n,
{
    if k == 0 {
        assert(n < 2);
    } else {
        lemma_pow2_pos((k - 1) as nat);
        assert(pow2(k) == 2 * pow2((k - 1) as nat));
        assert(pow2((k - 1) as nat) <= n / 2);
        assert(n / 2 < 2 * pow2((k - 1) as nat));
        lemma_log2_floor_unique(n / 2, (k - 1) as nat);
        assert(n >= 2);
    }
}

/// The floor logarithm base 10 is the unique k with pow10(k) <= n < 10 * pow10(k).
pub proof fn lemma_log10_floor_unique(n: nat, k: nat)
    requires
        pow10(k) <= n,
        n < 10 * pow10(k),
    ensures
        log10_floor(n) == k,
    decreases n,
{
    if k == 0 {
        assert(n < 10);
    } else {
        lemma_pow10_pos((k - 1) as nat);
        assert(pow10(k) == 10 * pow10((k - 1) as nat));
        assert(pow10((k - 1) as nat) <= n / 10);
        assert(n / 10 < 10 * pow10((k - 1) as nat));
        lemma_log10_floor_unique(n / 10, (k - 1) as nat);
        assert(n >= 10);
    }
}

/// For n >= 1 the value n lies in the decade of its floor logarithm.
pub proof fn lemma_log2_floor_bounds(n: nat)
    requires
        n >= 1,
    ensures
        pow2(log2_floor(n)) <= n,
        n < 2 * pow2(log2_floor(n)),
    decreases n,
{
    if n < 2 {
    } else {
        lemma_log2_floor_bounds(n / 2);
        assert(pow2(log2_floor(n)) == 2 * pow2(log2_floor(n / 2)));
    }
}

pub proof fn lemma_log10_floor_bounds(n: nat)
    requires
        n >= 1,
    ensures
        pow10(log10_floor(n)) <= n,
        n < 10 * pow10(log10_floor(n)),
    decreases n,
{
    if n < 10 {
    } else {
        lemma_log10_floor_bounds(n / 10);
        assert(pow10(log10_floor(n)) == 10 * pow10(log10_floor(n / 10)));
    }
}

/// Piecewise-linear base-2 logarithm in micro-units: exact at powers of
/// two, linear interpolation within each octave, 0 at 0.
pub open spec fn log2_micro(n: nat) -> int {
    if n == 0 {
        0
    } else {
        let k = log2_floor(n);
        k * 1_000_000 + (n - pow2(k)) * 1_000_000 / (pow2(k) as int)
    }
}

/// Piecewise-linear base-10 logarithm in milli-units: exact at powers of
/// ten, linear interpolation within each decade, 0 at 0.
pub open spec fn log10_milli(n: nat) -> int {
    if n == 0 {
        0
    } else {
        let k = log10_floor(n);
        k * 1000 + (n - pow10(k)) * 1000 / (9 * pow10(k) as int)
    }
}

/// log2_micro lies in [0, 64_000_000] for any u64 argument.
pub proof fn lemma_log2_micro_range(n: nat)
    requires
        n < 0x1_0000_0000_0000_0000,
    ensures
        0 <= log2_micro(n),
        log2_micro(n) < 64_000_000,
{
    if n >= 1 {
        lemma_log2_floor_bounds(n);
        let k = log2_floor(n);
        lemma_pow2_pos(k);
        if k >= 64 {
            lemma_pow2_increases(64, k);
            assert(pow2(64) == 0x1_0000_0000_0000_0000) by {
                reveal_with_fuel(pow2, 65);
            }
        }
        assert(k < 64);
        assert((n - pow2(k)) * 1_000_000 / (pow2(k) as int) < 1_000_000) by {
            let p = pow2(k) as int;
            let d = n - pow2(k);
            assert(d < p);
            assert(d * 1_000_000 <= (p - 1) * 1_000_000) by (nonlinear_arith)
                requires
                    d <= p - 1,
            ;
            assert((p - 1) * 1_000_000 == p * 1_000_000 - 1_000_000);
            assert(p * 1_000_000 - 1_000_000 < p * 1_000_000);
            assert(d * 1_000_000 / p < 1_000_000) by (nonlinear_arith)
                requires
                    d * 1_000_000 < p * 1_000_000,
                    p >= 1,
                    d >= 0,
            ;
        }
        assert((n - pow2(k)) * 1_000_000 / (pow2(k) as int) >= 0) by {
            let p = pow2(k) as int;
            let d = n - pow2(k);
            assert(d * 1_000_000 / p >= 0) by (nonlinear_arith)
                requires
                    d >= 0,
                    p >= 1,
            ;
        }
    }
}

/// log10_milli lies in [0, 20_000) for any u64 argument.
pub proof fn lemma_log10_milli_range(n: nat)
    requires
        n < 0x1_0000_0000_0000_0000,
    ensures
        0 <= log10_milli(n),
        log10_milli(n) < 20_000,
{
    if n >= 1 {
        lemma_log10_floor_bounds(n);
        let k = log10_floor(n);
        lemma_pow10_pos(k);
        if k >= 20 {
            lemma_pow10_increases(20, k);
            assert(pow10(20) == 100000000000000000000) by {
                reveal_with_fuel(pow10, 21);
            }
        }
        assert(k < 20);
        assert((n - pow10(k)) * 1000 / (9 * pow10(k) as int) < 1000) by {
            let p = pow10(k) as int;
            let d = n - pow10(k);
            assert(d < 9 * p);
            assert(d * 1000 < 9 * p * 1000) by (nonlinear_arith)
                requires
                    d < 9 * p,
            ;
            assert(d * 1000 / (9 * p) < 1000) by (nonlinear_arith)
                requires
                    d * 1000 < 9 * p * 1000,
                    p >= 1,
                    d >= 0,
            ;
        }
        assert((n - pow10(k)) * 1000 / (9 * pow10(k) as int) >= 0) by {
            let p = pow10(k) as int;
            let d = n - pow10(k);
            assert(d * 1000 / (9 * p) >= 0) by (nonlinear_arith)
                requires
                    d >= 0,
                    p >= 1,
            ;
        }
    }
}

/// log2_micro preserves order: where the true logarithm grows, the
/// interpolation does not shrink.
pub proof fn lemma_log2_micro_monotone(a: nat, b: nat)
    requires
        a <= b,
    ensures
        log2_micro(a) <= log2_micro(b),
{
    if a >= 1 {
        lemma_log2_floor_bounds(a);
        lemma_log2_floor_bounds(b);
        let ka = log2_floor(a);
        let kb = log2_floor(b);
        lemma_pow2_pos(ka);
        lemma_pow2_pos(kb);
        let pa = pow2(ka) as int;
        let pb = pow2(kb) as int;
        assert(ka <= kb) by {
            if ka > kb {
                lemma_pow2_increases(kb + 1, ka);
                assert(pow2(kb + 1) == 2 * pow2(kb));
            }
        }
        let fa = (a - pow2(ka)) * 1_000_000 / pa;
        let fb = (b - pow2(kb)) * 1_000_000 / pb;
        assert(0 <= fa < 1_000_000) by (nonlinear_arith)
            requires
                fa == (a - pow2(ka)) * 1_000_000 / pa,
                0 <= a - pow2(ka) < pa,
                pa >= 1,
        ;
        assert(fb >= 0) by (nonlinear_arith)
            requires
                fb == (b - pow2(kb)) * 1_000_000 / pb,
                0 <= b - pow2(kb),
                pb >= 1,
        ;
        if ka == kb {
            assert(fa <= fb) by (nonlinear_arith)
                requires
                    fa == (a - pow2(ka)) * 1_000_000 / pa,
                    fb == (b - pow2(kb)) * 1_000_000 / pb,
                    pa == pb,
                    pa >= 1,
                    0 <= a - pow2(ka),
                    a <= b,
                    ka == kb,
            ;
        } else {
            assert(ka * 1_000_000 + fa < (ka + 1) * 1_000_000);
            assert((ka + 1) * 1_000_000 <= kb * 1_000_000);
        }
    } else {
        if b >= 1 {
            lemma_log2_floor_bounds(b);
            let kb = log2_floor(b);
            lemma_pow2_pos(kb);
            let pb = pow2(kb) as int;
            assert((b - pow2(kb)) * 1_000_000 / pb >= 0) by (nonlinear_arith)
                requires
                    0 <= b - pow2(kb),
                    pb >= 1,
            ;
        }
    }
}

/// Fixed-point base-2 logarithm of a 64-bit value, in micro-units.
pub fn log2_micro_u64(n: u64) -> (r: u64)
    ensures
        r as int == log2_micro(n as nat),
        r < 64_000_000,
{
    proof {
        lemma_log2_micro_range(n as nat);
    }
    if n == 0 {
        return 0;
    }
    let mut k: u64 = 0;
    let mut p: u64 = 1;
    while p <= n / 2
        invariant
            1 <= p <= n,
            n >= 1,
            p as nat == pow2(k as nat),
            k <= 63,
        decreases n - p,
    {
        proof {
            if k >= 63 {
                lemma_pow2_increases(63, k as nat);
                assert(pow2(63) == 0x8000_0000_0000_0000) by {
                    reveal_with_fuel(pow2, 64);
                }
            }
        }
        p = p * 2;
        k = k + 1;
    }
    proof {
        assert(n < 2 * p);
        lemma_log2_floor_unique(n as nat, k as nat);
    }
    let frac: u64 = (((n - p) as u128 * 1_000_000u128) / (p as u128)) as u64;
    proof {
        let pi = p as int;
        let d = n - p;
        assert(d * 1_000_000 / pi < 1_000_000) by (nonlinear_arith)
            requires
                d < pi,
                pi >= 1,
                d >= 0,
        ;
        assert(d * 1_000_000 / pi >= 0) by (nonlinear_arith)
            requires
                d >= 0,
                pi >= 1,
        ;
    }
    k * 1_000_000 + frac
}

/// Fixed-point base-10 logarithm of a 64-bit value, in milli-units.
pub fn log10_milli_u64(n: u64) -> (r: u64)
    ensures
        r as int == log10_milli(n as nat),
        r < 20_000,
{
    proof {
        lemma_log10_milli_range(n as nat);
    }
    if n == 0 {
        return 0;
    }
    let mut k: u64 = 0;
    let mut p: u64 = 1;
    while p <= n / 10
        invariant
            1 <= p <= n,
            n >= 1,
            p as nat == pow10(k as nat),
            k <= 19,
        decreases n - p,
    {
        proof {
            if k >= 19 {
                lemma_pow10_increases(19, k as nat);
                assert(pow10(19) == 10000000000000000000) by {
                    reveal_with_fuel(pow10, 20);
                }
            }
        }
        p = p * 10;
        k = k + 1;
    }
    proof {
        assert(n < 10 * p);
        lemma_log10_floor_unique(n as nat, k as nat);
    }
    let frac: u64 = (((n - p) as u128 * 1000u128) / (9u128 * p as u128)) as u64;
    proof {
        let pi = p as int;
        let d = n - p;
        assert(d * 1000 / (9 * pi) < 1000) by (nonlinear_arith)
            requires
                d < 9 * pi,
                pi >= 1,
                d >= 0,
        ;
        assert(d * 1000 / (9 * pi) >= 0) by (nonlinear_arith)
            requires
                d >= 0,
                pi >= 1,
        ;
    }
    k * 1000 + frac
}

/// Integer square root, defined by halving the argument two bits at a time.
pub open spec fn isqrt_spec(n: nat) -> nat
    decreases n,
{
    if n == 0 {
        0
    } else {
        let r = 2 * isqrt_spec(n / 4);
        if (r + 1) * (r + 1) <= n {
            r + 1
        } else {
            r
        }
    }
}

/// isqrt_spec really is the integer square root.
pub proof fn lemma_isqrt_spec(n: nat)
    ensures
        isqrt_spec(n) * isqrt_spec(n) <= n,
        n < (isqrt_spec(n) + 1) * (isqrt_spec(n) + 1),
    decreases n,
{
    if n > 0 {
        lemma_isqrt_spec(n / 4);
        let r0 = isqrt_spec(n / 4);
        let r = 2 * r0;
        assert(r * r <= n) by (nonlinear_arith)
            requires
                r == 2 * r0,
                r0 * r0 <= n / 4,
                4 * (n / 4) <= n,
        ;
        assert(n < (r + 2) * (r + 2)) by (nonlinear_arith)
            requires
                r == 2 * r0,
                n / 4 < (r0 + 1) * (r0 + 1),
                n <= 4 * (n / 4) + 3,
        ;
        let s = isqrt_spec(n);
        if (r + 1) * (r + 1) <= n {
            assert(s == r + 1);
            assert(s * s <= n) by (nonlinear_arith)
                requires
                    s == r + 1,
                    (r + 1) * (r + 1) <= n,
            ;
            assert(n < (s + 1) * (s + 1)) by (nonlinear_arith)
                requires
                    s == r + 1,
                    n < (r + 2) * (r + 2),
            ;
        } else {
            assert(s == r);
            assert(s * s <= n);
            assert(n < (s + 1) * (s + 1)) by (nonlinear_arith)
                requires
                    s == r,
                    n < (r + 1) * (r + 1),
            ;
        }
        assert(isqrt_spec(n) * isqrt_spec(n) <= n);
        assert(n < (isqrt_spec(n) + 1) * (isqrt_spec(n) + 1));
    } else {
        assert(n == 0);
        assert(isqrt_spec(n) == 0);
        assert(isqrt_spec(n) * isqrt_spec(n) <= n);
        assert(n < (isqrt_spec(n) + 1) * (isqrt_spec(n) + 1)) by (nonlinear_arith)
            requires
                n == 0,
                isqrt_spec(n) == 0,
        ;
    }
}

/// Integer square root of a 128-bit value.
pub fn isqrt_u128(n: u128) -> (r: u128)
    ensures
        r as nat == isqrt_spec(n as nat),
        r * r <= n,
    decreases n,
{
    proof {
        lemma_isqrt_spec(n as nat);
    }
    if n == 0 {
        return 0;
    }
    let half = isqrt_u128(n / 4);
    proof {
        lemma_isqrt_spec((n / 4) as nat);
        assert(n / 4 < 0x4000_0000_0000_0000_0000_0000_0000_0000u128);
        assert(half < 0x8000_0000_0000_0000u128) by (nonlinear_arith)
            requires
                half * half <= n / 4,
                n / 4 < 0x4000_0000_0000_0000_0000_0000_0000_0000u128,
        ;
    }
    let r = 2 * half;
    let s = r + 1;
    proof {
        assert((s <= n / s) == (s * s <= n)) by (nonlinear_arith)
            requires
                s >= 1,
                n >= 1,
        ;
    }
    if s <= n / s {
        s
    } else {
        r
    }
}

} // verus!
