//! Scaling whole numbers in double precision.
//!
//! A ratio of two whole numbers held in double precision has 53 significant bits, and so
//! has its product with a third: each is the nearest such value, the even one of two that
//! are equally near. What is defined here is that product rounded to a whole number,
//! halves upwards, in integer arithmetic.

use vstd::arithmetic::power2::pow2;
use vstd::prelude::*;

verus! {

/// The whole number nearest to `n / d`, the even one of two that are equally near.
pub open spec fn nearest_even(n: nat, d: nat) -> nat {
    let q = n / d;
    let r = n % d;
    if 2 * r < d {
        q
    } else if 2 * r > d {
        q + 1
    } else {
        q + q % 2
    }
}

/// The least power of two, from `e` on, by which `a / b` fills 53 bits.
pub open spec fn lift(a: nat, b: nat, e: nat) -> nat
    decreases 128 - e,
{
    if e >= 128 || a * pow2(e) >= b * pow2(52) {
        e
    } else {
        lift(a, b, e + 1)
    }
}

/// The 53 bits of `a / b`, in units of the power of two that [`lift`] gives.
pub open spec fn mantissa(a: nat, b: nat) -> nat {
    nearest_even(a * pow2(lift(a, b, 0)), b)
}

/// The least power of two, from `k` on, in units of which `p` fits 53 bits.
pub open spec fn unit(p: nat, k: nat) -> nat
    decreases 128 - k,
{
    if k >= 128 || p < pow2(53) * pow2(k) {
        k
    } else {
        unit(p, k + 1)
    }
}

/// `p` with 53 significant bits.
pub open spec fn in_53_bits(p: nat) -> nat {
    nearest_even(p, pow2(unit(p, 0))) * pow2(unit(p, 0))
}

/// `x` times the ratio of `a` to `b`, rounded to a whole number, halves upwards.
pub open spec fn times_ratio(x: nat, a: nat, b: nat) -> nat {
    let e = lift(a, b, 0);
    (2 * in_53_bits(x * mantissa(a, b)) + pow2(e)) / pow2(e + 1)
}

proof fn lemma_nearest_even(n: nat, d: nat)
    requires
        d > 0,
    ensures
        2 * (nearest_even(n, d) * d) <= 2 * n + d,
        2 * n <= 2 * (nearest_even(n, d) * d) + d,
{
    let q = n / d;
    let r = n % d;
    vstd::arithmetic::div_mod::lemma_fundamental_div_mod(n as int, d as int);
    assert(n == q * d + r) by (nonlinear_arith)
        requires
            n == d * q + r,
    ;
    assert((q + 1) * d == q * d + d) by (nonlinear_arith);
}

fn nearest(n: u128, d: u128) -> (r: u128)
    requires
        0 < d < 0x8000_0000_0000_0000_0000_0000_0000_0000,
        n < 0x8000_0000_0000_0000_0000_0000_0000_0000,
    ensures
        r == nearest_even(n as nat, d as nat),
        r <= n + 1,
{
    let q: u128 = n / d;
    let rest: u128 = n % d;
    proof {
        assert(q <= n) by (nonlinear_arith)
            requires
                q == n / d,
                d > 0,
        ;
    }
    if 2 * rest < d {
        q
    } else if 2 * rest > d {
        q + 1
    } else {
        q + q % 2
    }
}

proof fn lemma_pow2_52_53()
    ensures
        pow2(52) == 0x10_0000_0000_0000,
        pow2(53) == 0x20_0000_0000_0000,
        pow2(0) == 1,
{
    vstd::arithmetic::power2::lemma2_to64();
    vstd::arithmetic::power2::lemma2_to64_rest();
}

proof fn lemma_exponent_bound(e: nat)
    requires
        pow2(e) < 0x400_0000_0000_0000_0000_0000,
    ensures
        e < 90,
{
    vstd::arithmetic::power2::lemma2_to64();
    vstd::arithmetic::power2::lemma2_to64_rest();
    vstd::arithmetic::power2::lemma_pow2_adds(64, 26);
    assert(pow2(90) == 0x1_0000_0000_0000_0000 * 0x400_0000);
    if e > 90 {
        vstd::arithmetic::power2::lemma_pow2_strictly_increases(90, e);
    }
}

/// Scales `x` by the ratio of `a` to `b` in double precision.
pub fn scale(x: u32, a: u32, b: u32) -> (r: u128)
    requires
        a > 0,
        b > 0,
    ensures
        r == times_ratio(x as nat, a as nat, b as nat),
{
    let bound: u128 = b as u128 * 0x10_0000_0000_0000;
    let mut num: u128 = a as u128;
    let mut p2: u128 = 1;
    let ghost mut e: nat = 0;
    proof {
        lemma_pow2_52_53();
        assert(a as nat * pow2(0) == a) by (nonlinear_arith)
            requires
                pow2(0) == 1,
        ;
    }
    while num < bound
        invariant
            a > 0,
            b > 0,
            bound == b * pow2(52),
            pow2(52) == 0x10_0000_0000_0000,
            bound <= 0xffff_ffff * 0x10_0000_0000_0000,
            num == a as nat * pow2(e),
            p2 == pow2(e),
            0 < p2 <= num <= 2 * bound,
            e < 90,
            lift(a as nat, b as nat, 0) == lift(a as nat, b as nat, e),
        decreases 2 * bound - num,
    {
        proof {
            vstd::arithmetic::power2::lemma_pow2_unfold(e + 1);
            assert(a as nat * pow2(e + 1) == 2 * (a as nat * pow2(e))) by (nonlinear_arith)
                requires
                    pow2(e + 1) == 2 * pow2(e),
            ;
            lemma_exponent_bound(e + 1);
        }
        num = num * 2;
        p2 = p2 * 2;
        proof {
            e = e + 1;
        }
    }
    let m: u128 = nearest(num, b as u128);
    proof {
        assert(m == mantissa(a as nat, b as nat));
        lemma_nearest_even(num as nat, b as nat);
        assert(m <= 0x40_0000_0000_0000) by (nonlinear_arith)
            requires
                2 * (m as nat * b as nat) <= 4 * (b * 0x10_0000_0000_0000) + b,
                b >= 1,
        ;
        assert(x as nat * m as nat <= 0xffff_ffff * 0x40_0000_0000_0000) by (nonlinear_arith)
            requires
                x <= 0xffff_ffff,
                m <= 0x40_0000_0000_0000,
        ;
    }
    let p: u128 = x as u128 * m;
    let mut u: u128 = 1;
    let ghost mut k: nat = 0;
    while p >= 0x20_0000_0000_0000 * u
        invariant
            pow2(53) == 0x20_0000_0000_0000,
            p <= 0xffff_ffff * 0x40_0000_0000_0000,
            u == pow2(k),
            0 < u <= 0x4_0000_0000,
            k < 90,
            unit(p as nat, 0) == unit(p as nat, k),
        decreases 2 * p - 0x20_0000_0000_0000 * u,
    {
        proof {
            vstd::arithmetic::power2::lemma_pow2_unfold(k + 1);
            lemma_exponent_bound(k + 1);
        }
        u = u * 2;
        proof {
            k = k + 1;
        }
    }
    let near: u128 = nearest(p, u);
    proof {
        lemma_nearest_even(p as nat, u as nat);
        vstd::arithmetic::power2::lemma_pow2_unfold(e + 1);
        assert(near as nat * u as nat == in_53_bits(p as nat));
    }
    let q: u128 = near * u;
    (2 * q + p2) / (2 * p2)
}

/// A side that is scaled to a box stays within it: where `x` by the exact ratio is at
/// most `limit`, so is `x` by the ratio in double precision.
pub proof fn scaling_stays_within(x: nat, a: nat, b: nat, limit: nat)
    requires
        0 < a < b < 0x1_0000_0000,
        x < 0x1_0000_0000,
        limit < 0x1_0000_0000,
        x * a <= limit * b,
    ensures
        times_ratio(x, a, b) <= limit,
{
    lemma_pow2_52_53();
    let e = lift(a, b, 0);
    let big = pow2(e);
    lemma_lift(a, b, 0);
    assert(big > 0x10_0000_0000_0000) by (nonlinear_arith)
        requires
            a * big >= b * 0x10_0000_0000_0000,
            0 < a < b,
    ;
    let m = mantissa(a, b);
    lemma_nearest_even(a * big, b);
    let p = x * m;
    assert(2 * p <= 2 * (limit * big) + x) by (nonlinear_arith)
        requires
            2 * (m * b) <= 2 * (a * big) + b,
            x * a <= limit * b,
            p == x * m,
            b > 0,
    {
        assert(x * (2 * (m * b)) <= x * (2 * (a * big) + b));
        assert(x * (2 * (m * b)) == 2 * p * b);
        assert(x * (2 * (a * big) + b) == 2 * ((x * a) * big) + x * b);
        assert((x * a) * big <= (limit * b) * big);
        assert(2 * p * b <= 2 * ((limit * b) * big) + x * b);
        assert(2 * ((limit * b) * big) + x * b == (2 * (limit * big) + x) * b);
    }
    let k = unit(p, 0);
    let u = pow2(k);
    lemma_unit(p, 0);
    vstd::arithmetic::power2::lemma_pow2_pos(k);
    lemma_nearest_even(p, u);
    let q = in_53_bits(p);
    assert(limit * big <= 0xffff_ffff * big) by (nonlinear_arith)
        requires
            limit <= 0xffff_ffff,
    ;
    assert(x + u < big);
    assert(2 * q < 2 * (limit * big) + big);
    vstd::arithmetic::power2::lemma_pow2_unfold(e + 1);
    let top = 2 * q + big;
    let den = pow2(e + 1);
    assert(top / den < limit + 1) by (nonlinear_arith)
        requires
            top < 2 * (limit * big) + 2 * big,
            den == 2 * big,
            big > 0,
    {
        assert(top < (limit + 1) * den);
        vstd::arithmetic::div_mod::lemma_fundamental_div_mod(top as int, den as int);
    }
}

/// A side that is scaled to a box reaches it: where `x` by the exact ratio is at least
/// `limit`, so is `x` by the ratio in double precision.
pub proof fn scaling_reaches(x: nat, a: nat, b: nat, limit: nat)
    requires
        0 < a < b < 0x1_0000_0000,
        x < 0x1_0000_0000,
        limit < 0x1_0000_0000,
        x * a >= limit * b,
    ensures
        times_ratio(x, a, b) >= limit,
{
    lemma_pow2_52_53();
    let e = lift(a, b, 0);
    let big = pow2(e);
    lemma_lift(a, b, 0);
    assert(big > 0x10_0000_0000_0000) by (nonlinear_arith)
        requires
            a * big >= b * 0x10_0000_0000_0000,
            0 < a < b,
    ;
    let m = mantissa(a, b);
    lemma_nearest_even(a * big, b);
    let p = x * m;
    assert(2 * (limit * big) <= 2 * p + x) by (nonlinear_arith)
        requires
            2 * (a * big) <= 2 * (m * b) + b,
            x * a >= limit * b,
            p == x * m,
            b > 0,
    {
        assert(x * (2 * (a * big)) <= x * (2 * (m * b) + b));
        assert(x * (2 * (m * b) + b) == 2 * p * b + x * b);
        assert(x * (2 * (a * big)) == 2 * ((x * a) * big));
        assert((limit * b) * big <= (x * a) * big);
        assert(2 * ((limit * b) * big) <= 2 * p * b + x * b);
        assert(2 * ((limit * b) * big) == 2 * (limit * big) * b);
        assert(2 * p * b + x * b == (2 * p + x) * b);
    }
    assert(m <= big) by (nonlinear_arith)
        requires
            2 * (m * b) <= 2 * (a * big) + b,
            0 < a < b,
            b <= 2 * big,
    {
        assert(a * big <= (b - 1) * big);
        assert((b - 1) * big == b * big - big);
    }
    assert(p <= 0xffff_ffff * big) by (nonlinear_arith)
        requires
            p == x * m,
            m <= big,
            x <= 0xffff_ffff,
    ;
    let k = unit(p, 0);
    let u = pow2(k);
    lemma_unit(p, 0);
    vstd::arithmetic::power2::lemma_pow2_pos(k);
    lemma_nearest_even(p, u);
    let q = in_53_bits(p);
    assert(x + u < big);
    assert(2 * (limit * big) < 2 * q + big);
    vstd::arithmetic::power2::lemma_pow2_unfold(e + 1);
    let top = 2 * q + big;
    let den = pow2(e + 1);
    assert(top / den >= limit) by (nonlinear_arith)
        requires
            top > 2 * (limit * big),
            den == 2 * big,
            big > 0,
    {
        assert(top > limit * den);
        vstd::arithmetic::div_mod::lemma_fundamental_div_mod(top as int, den as int);
    }
}

proof fn lemma_lift(a: nat, b: nat, e: nat)
    requires
        0 < a,
        b < 0x1_0000_0000,
        e <= 100,
    ensures
        a * pow2(lift(a, b, e)) >= b * pow2(52),
    decreases 128 - e,
{
    if !(e >= 128 || a * pow2(e) >= b * pow2(52)) {
        if e == 100 {
            vstd::arithmetic::power2::lemma_pow2_adds(48, 52);
            vstd::arithmetic::power2::lemma2_to64_rest();
            let p = pow2(52);
            assert(a * pow2(100) >= b * p) by (nonlinear_arith)
                requires
                    pow2(100) == 0x1_0000_0000_0000 * p,
                    a >= 1,
                    b < 0x1_0000_0000,
            ;
        } else {
            lemma_lift(a, b, e + 1);
        }
    }
}

proof fn lemma_unit(p: nat, k: nat)
    requires
        k > 0 ==> p >= pow2(53) * pow2((k - 1) as nat),
    ensures
        pow2(unit(p, k)) == 1 || p >= pow2(52) * pow2(unit(p, k)),
    decreases 128 - k,
{
    lemma_pow2_52_53();
    if k >= 128 || p < pow2(53) * pow2(k) {
        if k > 0 {
            vstd::arithmetic::power2::lemma_pow2_unfold(k);
            let h = pow2((k - 1) as nat);
            assert(0x20_0000_0000_0000 * h == 0x10_0000_0000_0000 * (2 * h));
        }
    } else {
        lemma_unit(p, k + 1);
    }
}

} // verus!
