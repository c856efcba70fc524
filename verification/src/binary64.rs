//! Double-precision arithmetic on numbers that are not negative, by integers.
//!
//! A number is written as an integer number of some small unit, a power of two. What a
//! double-precision operation gives is the exact result rounded to 53 significant bits.

use vstd::arithmetic::power2::pow2;
use vstd::prelude::*;

verus! {

/// Two to the power of 53: a double-precision number has 53 significant bits.
pub const PRECISION: u128 = 0x20_0000_0000_0000;

/// The value of the last of the 53 significant bits of `n`.
pub open spec fn last_bit(n: nat) -> nat
    decreases n,
{
    if n < PRECISION {
        1
    } else {
        2 * last_bit(n / 2)
    }
}

/// The multiple of `u` that is nearest to `n`; of two equally near ones, the even multiple.
pub open spec fn nearest_multiple(n: nat, u: nat) -> nat {
    let q = n / u;
    let r = n % u;
    if 2 * r > u || (2 * r == u && q % 2 == 1) {
        (q + 1) * u
    } else {
        q * u
    }
}

/// `n` rounded to 53 significant bits, ties to even.
pub open spec fn rounded(n: nat) -> nat {
    nearest_multiple(n, last_bit(n))
}

proof fn lemma_last_bit(n: nat)
    ensures
        1 <= last_bit(n),
        last_bit(n) <= n + 1,
        n >= PRECISION ==> last_bit(n) <= n,
        n >= PRECISION ==> last_bit(n) * 0x10_0000_0000_0000 <= n,
    decreases n,
{
    if n >= PRECISION {
        lemma_last_bit(n / 2);
        if n / 2 < PRECISION {
            assert(last_bit(n / 2) == 1);
        }
    }
}

/// Rounding adds at most half of the last bit.
pub proof fn lemma_rounded_bounds(n: nat)
    ensures
        rounded(n) <= 2 * n,
        n <= 2 * rounded(n),
{
    lemma_last_bit(n);
    let u = last_bit(n);
    let q = n / u;
    let r = n % u;
    assert(n == q * u + r && r < u) by (nonlinear_arith)
        requires
            u >= 1,
            q == n / u,
            r == n % u,
    ;
    if n < PRECISION {
        assert(u == 1);
        assert(q * 1 == q);
        assert((q + 1) * 1 == q + 1);
    } else {
        assert(q >= 1) by (nonlinear_arith)
            requires
                u <= n,
                u >= 1,
                q == n / u,
        ;
        assert((q + 1) * u == q * u + u) by (nonlinear_arith);
        assert(q * u >= u) by (nonlinear_arith)
            requires
                q >= 1,
                u >= 1,
        ;
    }
}

/// The last significant bit of a number divides a short number times a power of two that is not
/// smaller.
proof fn lemma_last_bit_divides(n: nat, h: nat, e: nat) -> (k: nat)
    requires
        h < PRECISION,
        n <= h * pow2(e),
    ensures
        h * pow2(e) == k * last_bit(n),
    decreases e,
{
    if n < PRECISION {
        assert((h * pow2(e)) * 1 == h * pow2(e));
        h * pow2(e)
    } else if e == 0 {
        vstd::arithmetic::power2::lemma2_to64();
        assert(h * 1 == h);
        0
    } else {
        vstd::arithmetic::power2::lemma_pow2_unfold(e);
        let half = pow2((e - 1) as nat);
        assert(h * (2 * half) == 2 * (h * half)) by (nonlinear_arith);
        let k = lemma_last_bit_divides(n / 2, h, (e - 1) as nat);
        assert(k * (2 * last_bit(n / 2)) == 2 * (k * last_bit(n / 2))) by (nonlinear_arith);
        k
    }
}

/// Rounding does not go above a short number times a power of two.
pub proof fn lemma_rounded_capped(n: nat, h: nat, e: nat)
    requires
        h < PRECISION,
        n <= h * pow2(e),
    ensures
        rounded(n) <= h * pow2(e),
{
    lemma_last_bit(n);
    let u = last_bit(n);
    let k = lemma_last_bit_divides(n, h, e);
    let q = n / u;
    let r = n % u;
    assert(n == q * u + r && r < u) by (nonlinear_arith)
        requires
            u >= 1,
            q == n / u,
            r == n % u,
    ;
    assert((q + 1) * u == q * u + u) by (nonlinear_arith);
    assert(q * u <= k * u);
    if r > 0 {
        assert((q + 1) * u <= k * u) by (nonlinear_arith)
            requires
                q * u < k * u,
                u >= 1,
        ;
    }
}

/// The value of the last of the 53 significant bits of `n`.
fn unit_of(n: u128) -> (u: u128)
    requires
        n < 0x8000_0000_0000_0000_0000_0000_0000_0000,
    ensures
        u == last_bit(n as nat),
        1 <= u,
        u <= n + 1,
{
    let mut u: u128 = 1;
    let mut rest: u128 = n;
    while rest >= PRECISION
        invariant
            1 <= u,
            u * rest <= n,
            n < 0x8000_0000_0000_0000_0000_0000_0000_0000,
            u * last_bit(rest as nat) == last_bit(n as nat),
        decreases rest,
    {
        assert(u <= n && 2 * u <= n && (2 * u) * (rest / 2) <= n) by (nonlinear_arith)
            requires
                u * rest <= n,
                rest >= 2,
                u >= 1,
        ;
        assert((2 * u) * last_bit((rest / 2) as nat) == u * (2 * last_bit((rest / 2) as nat)))
            by (nonlinear_arith);
        u = 2 * u;
        rest = rest / 2;
    }
    proof {
        lemma_last_bit(n as nat);
        assert(last_bit(rest as nat) == 1);
        assert(u * 1 == u);
    }
    u
}

/// `n` rounded to 53 significant bits, ties to even.
pub fn round(n: u128) -> (r: u128)
    requires
        n < 0x4000_0000_0000_0000_0000_0000_0000_0000,
    ensures
        r == rounded(n as nat),
        r <= 2 * n,
{
    let u: u128 = unit_of(n);
    let q: u128 = n / u;
    let rest: u128 = n % u;
    proof {
        lemma_rounded_bounds(n as nat);
        assert(n == q * u + rest && rest < u) by (nonlinear_arith)
            requires
                u >= 1,
                q == n / u,
                rest == n % u,
        ;
        assert((q + 1) * u == q * u + u) by (nonlinear_arith);
    }
    if 2 * rest > u || (2 * rest == u && q % 2 == 1) {
        (q + 1) * u
    } else {
        q * u
    }
}

/// A number below two to the power of 65 is rounded by less than two to the power of 13.
pub proof fn law_rounded_is_near(n: nat)
    requires
        n < 0x2_0000_0000_0000_0000,
    ensures
        rounded(n) <= n + 0x2000,
        n <= rounded(n) + 0x2000,
{
    lemma_last_bit(n);
    let u = last_bit(n);
    let q = n / u;
    let r = n % u;
    assert(n == q * u + r && r < u) by (nonlinear_arith)
        requires
            u >= 1,
            q == n / u,
            r == n % u,
    ;
    assert((q + 1) * u == q * u + u) by (nonlinear_arith);
    assert(u <= 0x2000);
}

/// A number of at most 53 bits is kept; of any number the rounded one is no farther than half of
/// the last of its 53 bits.
pub proof fn law_rounded(n: nat)
    ensures
        n < 0x20_0000_0000_0000 ==> rounded(n) == n,
        rounded(n) % last_bit(n) == 0,
        2 * rounded(n) <= 2 * n + last_bit(n),
        2 * n <= 2 * rounded(n) + last_bit(n),
        n >= 0x20_0000_0000_0000 ==> 0x10_0000_0000_0000 * last_bit(n) <= n
            < 0x20_0000_0000_0000 * last_bit(n),
{
    lemma_last_bit(n);
    lemma_last_bit_high(n);
    let u = last_bit(n);
    let q = n / u;
    let r = n % u;
    assert(n == q * u + r && r < u) by (nonlinear_arith)
        requires
            u >= 1,
            q == n / u,
            r == n % u,
    ;
    assert((q + 1) * u == q * u + u) by (nonlinear_arith);
    vstd::arithmetic::div_mod::lemma_mod_multiples_basic(q as int, u as int);
    vstd::arithmetic::div_mod::lemma_mod_multiples_basic(q as int + 1, u as int);
    if n < PRECISION {
        assert(q * 1 == q);
    }
}

proof fn lemma_last_bit_high(n: nat)
    ensures
        n < PRECISION * last_bit(n),
    decreases n,
{
    if n >= PRECISION {
        lemma_last_bit_high(n / 2);
    }
}

} // verus!
