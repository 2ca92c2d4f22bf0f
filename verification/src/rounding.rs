//! Rounding of whole numbers: to multiples of a step, and to 53 significant bits.
use vstd::arithmetic::div_mod::{lemma_fundamental_div_mod, lemma_fundamental_div_mod_converse};
use vstd::arithmetic::power2::{
    lemma2_to64, lemma2_to64_rest, lemma_pow2_adds, lemma_pow2_pos, lemma_pow2_strictly_increases,
    lemma_pow2_unfold, pow2,
};
use vstd::prelude::*;

verus! {

/// 2 to the 52nd: the least number of 53 bits.
pub const BITS_52: u64 = 0x10_0000_0000_0000;

/// 2 to the 53rd: the least number of 54 bits.
pub const BITS_53: u64 = 0x20_0000_0000_0000;

/// `x / d` rounded to the nearest whole number, a tie to the even one.
pub open spec fn round_div(x: nat, d: nat) -> nat {
    let q = x / d;
    let r = x % d;
    if 2 * r < d || (2 * r == d && q % 2 == 0) {
        q
    } else {
        q + 1
    }
}

/// How many bits of `x` lie beyond the leading 53.
pub open spec fn excess(x: nat) -> nat
    decreases x,
{
    if x < BITS_53 {
        0
    } else {
        1 + excess(x / 2)
    }
}

/// `x` rounded to 53 significant bits, a tie to the even significand.
pub open spec fn nearest(x: nat) -> nat {
    round_div(x, pow2(excess(x))) * pow2(excess(x))
}

/// The bounds that `excess` puts on a number determine it.
pub proof fn lemma_excess_is(x: nat, k: nat)
    requires
        x < BITS_53 * pow2(k),
        k > 0 ==> BITS_52 * pow2(k) <= x,
    ensures
        excess(x) == k,
    decreases k,
{
    lemma2_to64();
    if k > 0 {
        lemma_pow2_unfold(k);
        lemma_pow2_pos((k - 1) as nat);
        lemma_excess_is(x / 2, (k - 1) as nat);
    }
}

pub proof fn lemma_excess_bounds(x: nat)
    ensures
        x < BITS_53 * pow2(excess(x)),
        excess(x) > 0 ==> BITS_52 * pow2(excess(x)) <= x,
    decreases x,
{
    lemma2_to64();
    if x >= BITS_53 {
        lemma_excess_bounds(x / 2);
        lemma_pow2_unfold(excess(x));
    }
}

/// A number of at most 53 bits, times a power of two, has no more excess than that power.
pub proof fn lemma_excess_at_most(x: nat, s: nat)
    requires
        x < BITS_53 * pow2(s),
    ensures
        excess(x) <= s,
{
    lemma_excess_bounds(x);
    if excess(x) > s {
        lemma_pow2_unfold(excess(x));
        if excess(x) - 1 > s {
            lemma_pow2_strictly_increases(s, (excess(x) - 1) as nat);
        }
    }
}

pub proof fn lemma_round_div_exact(q: nat, d: nat)
    requires
        d > 0,
    ensures
        round_div(q * d, d) == q,
{
    lemma_fundamental_div_mod_converse((q * d) as int, d as int, q as int, 0);
}

/// Quotient and remainder determine the rounded quotient.
pub proof fn lemma_round_div_is(x: nat, d: nat, q: nat, r: nat)
    requires
        x == q * d + r,
        r < d,
    ensures
        2 * r < d ==> round_div(x, d) == q,
        2 * r > d ==> round_div(x, d) == q + 1,
        2 * r == d ==> round_div(x, d) == if q % 2 == 0 {
            q
        } else {
            q + 1
        },
{
    lemma_fundamental_div_mod_converse(x as int, d as int, q as int, r as int);
}

pub proof fn lemma_round_div_scales(x: nat, d: nat, c: nat)
    requires
        d > 0,
        c > 0,
    ensures
        round_div(x * c, d * c) == round_div(x, d),
{
    let q = x / d;
    let r = x % d;
    lemma_fundamental_div_mod(x as int, d as int);
    assert(x * c == q * (d * c) + r * c && r * c < d * c && d * c > 0) by (nonlinear_arith)
        requires
            x == d * q + r,
            r < d,
            c > 0,
    ;
    assert((2 * r < d <==> 2 * (r * c) < d * c) && (2 * r == d <==> 2 * (r * c) == d * c))
        by (nonlinear_arith)
        requires
            c > 0,
    ;
    lemma_fundamental_div_mod_converse((x * c) as int, (d * c) as int, q as int, (r * c) as int);
}

/// A number of at most 53 bits, times a power of two, needs no rounding.
pub proof fn lemma_nearest_exact(x: nat, s: nat)
    requires
        x < BITS_53,
    ensures
        nearest(x * pow2(s)) == x * pow2(s),
{
    let y = x * pow2(s);
    lemma_pow2_pos(s);
    assert(y < BITS_53 * pow2(s)) by (nonlinear_arith)
        requires
            y == x * pow2(s),
            x < BITS_53,
            pow2(s) > 0,
    ;
    lemma_excess_at_most(y, s);
    let e = excess(y);
    let rest = (s - e) as nat;
    lemma_pow2_adds(e, rest);
    lemma_pow2_pos(e);
    assert(y == (x * pow2(rest)) * pow2(e)) by (nonlinear_arith)
        requires
            y == x * pow2(s),
            pow2(e) * pow2(rest) == pow2(s),
    ;
    lemma_round_div_exact(x * pow2(rest), pow2(e));
}

/// Rounding to 53 bits commutes with multiplication by a power of two.
pub proof fn lemma_nearest_scales(x: nat, s: nat)
    ensures
        nearest(x * pow2(s)) == nearest(x) * pow2(s),
{
    let k = excess(x);
    lemma_pow2_pos(s);
    lemma_pow2_pos(k);
    lemma2_to64();
    if k == 0 {
        lemma_nearest_exact(x, s);
        lemma_round_div_exact(x, 1);
        assert(x * 1 == x);
    } else {
        lemma_excess_bounds(x);
        lemma_pow2_adds(k, s);
        let step = pow2(k);
        let c = pow2(s);
        assert(x * c < BITS_53 * (step * c) && BITS_52 * (step * c) <= x * c) by (nonlinear_arith)
            requires
                x < BITS_53 * step,
                BITS_52 * step <= x,
                c > 0,
        ;
        lemma_excess_is(x * c, k + s);
        lemma_round_div_scales(x, step, c);
        assert(round_div(x, step) * (step * c) == (round_div(x, step) * step) * c)
            by (nonlinear_arith);
    }
}

/// What lies more than 54 bits below the leading bit of a number does not move it.
pub proof fn lemma_nearest_absorbs(s: nat, d: nat, l: nat)
    requires
        BITS_52 <= s < BITS_53,
        d >= 55,
        l < BITS_53,
    ensures
        nearest(s * pow2(d) + l) == s * pow2(d),
        l <= s * pow2(d),
        nearest((s * pow2(d) - l) as nat) == s * pow2(d),
{
    let step = pow2(d);
    lemma2_to64_rest();
    if d > 55 {
        lemma_pow2_strictly_increases(55, d);
    }
    lemma_pow2_unfold(d);
    let half = pow2((d - 1) as nat);
    let a = s * step;
    assert(a >= BITS_52 * step && a <= BITS_53 * step - step) by (nonlinear_arith)
        requires
            a == s * step,
            BITS_52 <= s,
            s + 1 <= BITS_53,
    ;
    lemma_excess_is(a + l, d);
    lemma_round_div_is(a + l, step, s, l);
    if l == 0 {
    } else if s == BITS_52 {
        let y = (a - l) as nat;
        assert(a == BITS_53 * half);
        lemma_excess_is(y, (d - 1) as nat);
        lemma_round_div_is(y, half, (BITS_53 - 1) as nat, (half - l) as nat);
    } else {
        let y = (a - l) as nat;
        assert(a - step >= BITS_52 * step && a - step == (s - 1) * step) by (nonlinear_arith)
            requires
                a == s * step,
                BITS_52 + 1 <= s,
        ;
        lemma_excess_is(y, d);
        lemma_round_div_is(y, step, (s - 1) as nat, (step - l) as nat);
    }
}

/// Computes `pow2(d)`.
pub fn power_of_two(d: u16) -> (p: u128)
    requires
        d < 128,
    ensures
        p == pow2(d as nat),
{
    let mut p: u128 = 1;
    let mut i: u16 = 0;
    proof {
        lemma2_to64();
    }
    while i < d
        invariant
            i <= d < 128,
            p == pow2(i as nat),
        decreases d - i,
    {
        proof {
            lemma_pow2_unfold((i + 1) as nat);
            lemma_pow2_strictly_increases((i + 1) as nat, 128);
            lemma_pow2_adds(64, 64);
            lemma2_to64();
        }
        p = p * 2;
        i = i + 1;
    }
    p
}

/// Rounds `x` to 53 significant bits: the result is the significand and the power of two that
/// it is multiplied by.
pub fn round_to_53_bits(x: u128) -> (r: (u64, u16))
    ensures
        r.1 == excess(x as nat),
        r.1 <= 75,
        r.0 <= BITS_53,
        r.0 * pow2(r.1 as nat) == nearest(x as nat),
{
    let mut y: u128 = x;
    let mut step: u128 = 1;
    let mut k: u16 = 0;
    proof {
        lemma2_to64();
    }
    while y >= BITS_53 as u128
        invariant
            k + excess(y as nat) == excess(x as nat),
            step == pow2(k as nat),
            y * step <= x,
            k <= 75,
        decreases y,
    {
        proof {
            lemma_pow2_unfold((k + 1) as nat);
            lemma_pow2_pos(k as nat);
            lemma2_to64();
            assert((y / 2) * (step * 2) <= y * step && step <= y * step && BITS_53 * step <= y
                * step) by (nonlinear_arith)
                requires
                    y >= BITS_53,
                    step > 0,
            ;
            if k == 75 {
                lemma2_to64_rest();
                lemma_pow2_adds(53, 75);
                lemma_pow2_adds(64, 64);
                assert(false);
            }
        }
        y = y / 2;
        step = step * 2;
        k = k + 1;
    }
    proof {
        lemma_pow2_pos(k as nat);
    }
    let q: u128 = x / step;
    let r: u128 = x % step;
    proof {
        lemma_excess_bounds(x as nat);
        lemma_fundamental_div_mod(x as int, step as int);
        assert(q < BITS_53) by (nonlinear_arith)
            requires
                x == step * q + r,
                r >= 0,
                x < BITS_53 * step,
        ;
    }
    let rest: u128 = step - r;
    let significand: u64 = if r < rest || (r == rest && q % 2 == 0) {
        q as u64
    } else {
        q as u64 + 1
    };
    (significand, k)
}

/// The rounded quotient is off by half a step at most.
pub proof fn lemma_round_div_error(x: nat, d: nat)
    requires
        d > 0,
    ensures
        2 * (round_div(x, d) * d) <= 2 * x + d,
        2 * x <= 2 * (round_div(x, d) * d) + d,
{
    let q = x / d;
    let r = x % d;
    lemma_fundamental_div_mod(x as int, d as int);
    assert(d * q == q * d && (q + 1) * d == q * d + d) by (nonlinear_arith);
}

/// A number within half a step of a multiple rounds to that multiple.
pub proof fn lemma_round_div_near(x: nat, d: nat, q: nat)
    requires
        2 * (q * d) < 2 * x + d,
        2 * x < 2 * (q * d) + d,
    ensures
        round_div(x, d) == q,
{
    if x >= q * d {
        lemma_round_div_is(x, d, q, (x - q * d) as nat);
    } else {
        assert(q > 0) by (nonlinear_arith)
            requires
                x < q * d,
                x >= 0,
                d >= 0,
        ;
        assert((q - 1) * d == q * d - d) by (nonlinear_arith);
        lemma_round_div_is(x, d, (q - 1) as nat, (x - (q - 1) * d) as nat);
    }
}

/// Rounding to 53 bits moves a number by at most half the weight of the last bit kept.
pub proof fn lemma_nearest_error(x: nat)
    ensures
        2 * nearest(x) <= 2 * x + pow2(excess(x)),
        2 * x <= 2 * nearest(x) + pow2(excess(x)),
        excess(x) == 0 ==> nearest(x) == x,
{
    lemma_pow2_pos(excess(x));
    lemma_round_div_error(x, pow2(excess(x)));
    if excess(x) == 0 {
        lemma2_to64();
        lemma_round_div_exact(x, 1);
        assert(x * 1 == x);
    }
}

/// A rounded number exceeds one with an odd significand exactly where the exact number lies at
/// least half a last bit above it.
pub proof fn lemma_nearest_exceeds(x: nat, m: nat, s: nat)
    requires
        BITS_52 < m < BITS_53 - 1,
        m % 2 == 1,
    ensures
        nearest(x) > m * pow2(s) <==> 2 * x >= 2 * (m * pow2(s)) + pow2(s),
{
    let p = pow2(s);
    let k = excess(x);
    lemma_pow2_pos(s);
    lemma_pow2_pos(k);
    lemma_excess_bounds(x);
    lemma_nearest_error(x);
    assert(m * p >= BITS_52 * p + p && m * p + 2 * p <= BITS_53 * p) by (nonlinear_arith)
        requires
            m >= BITS_52 + 1,
            m + 2 <= BITS_53,
            p > 0,
    ;
    if k == s {
        let q = x / p;
        let r = x % p;
        let t = round_div(x, p);
        lemma_fundamental_div_mod(x as int, p as int);
        assert(p * q == q * p) by (nonlinear_arith);
        assert((t > m ==> t * p >= m * p + p) && (t <= m ==> t * p <= m * p)) by (nonlinear_arith)
            requires
                p > 0,
        ;
        assert((q > m ==> q * p >= m * p + p) && (q < m ==> q * p <= m * p - p) && (q == m ==> q * p
            == m * p)) by (nonlinear_arith)
            requires
                p > 0,
        ;
    } else if k > s {
        lemma_pow2_unfold(k);
        if k - 1 > s {
            lemma_pow2_strictly_increases(s, (k - 1) as nat);
        }
    } else {
        lemma_pow2_unfold(s);
        if s - 1 > k {
            lemma_pow2_strictly_increases(k, (s - 1) as nat);
        }
    }
}

/// A quotient is rounded to the nearest whole number, and to the even one where two are equally
/// near.
pub proof fn law_quotient_is_rounded_to_nearest_even(x: nat, d: nat, other: nat)
    requires
        d > 0,
    ensures
        ({
            let q = round_div(x, d);
            let off = if q * d >= x {
                q * d - x
            } else {
                x - q * d
            };
            let other_off = if other * d >= x {
                other * d - x
            } else {
                x - other * d
            };
            &&& off <= other_off
            &&& off == other_off && other != q ==> q % 2 == 0
        }),
{
    let q = x / d;
    let r = x % d;
    let t = round_div(x, d);
    lemma_fundamental_div_mod(x as int, d as int);
    assert(d * q == q * d && (q + 1) * d == q * d + d) by (nonlinear_arith);
    assert((other > t ==> other * d >= t * d + d) && (other < t ==> other * d <= t * d - d))
        by (nonlinear_arith)
        requires
            d > 0,
    ;
    assert((other > q ==> other * d >= q * d + d) && (other < q ==> other * d <= q * d - d))
        by (nonlinear_arith)
        requires
            d > 0,
    ;
}

/// No number of 53 bits times a power of two is closer to a number than the one it is rounded to;
/// and that is one of them.
#[verifier::rlimit(40)]
pub proof fn law_nothing_is_nearer(x: nat, m: nat, s: nat)
    requires
        m < 0x20_0000_0000_0000,
    ensures
        ({
            let y = nearest(x);
            let off = if y >= x {
                y - x
            } else {
                x - y
            };
            let other_off = if m * pow2(s) >= x {
                m * pow2(s) - x
            } else {
                x - m * pow2(s)
            };
            off <= other_off
        }),
        exists|n: nat, k: nat|
            n < 0x20_0000_0000_0000 && nearest(x) == #[trigger] (n * pow2(k)),
{
    let k = excess(x);
    let p = pow2(k);
    lemma_pow2_pos(k);
    lemma_pow2_pos(s);
    lemma_excess_bounds(x);
    lemma_nearest_representable(x);
    if s >= k {
        let rest = (s - k) as nat;
        lemma_pow2_adds(rest, k);
        let t = m * pow2(rest);
        let c = pow2(rest);
        assert(m * (c * p) == (m * c) * p) by (nonlinear_arith);
        law_quotient_is_rounded_to_nearest_even(x, p, t);
    } else {
        law_quotient_is_rounded_to_nearest_even(x, p, BITS_52 as nat);
        lemma_pow2_unfold(k);
        if k - 1 > s {
            lemma_pow2_strictly_increases(s, (k - 1) as nat);
        }
        let w = pow2(s);
        assert(m * w < BITS_53 * w) by (nonlinear_arith)
            requires
                m < BITS_53,
                w > 0,
        ;
    }
}

proof fn lemma_nearest_representable(x: nat)
    ensures
        exists|n: nat, k: nat|
            n < 0x20_0000_0000_0000 && nearest(x) == #[trigger] (n * pow2(k)),
{
    let k = excess(x);
    let p = pow2(k);
    let t = round_div(x, p);
    lemma_pow2_pos(k);
    lemma_excess_bounds(x);
    lemma_fundamental_div_mod(x as int, p as int);
    let q = x / p;
    assert(q < BITS_53) by (nonlinear_arith)
        requires
            x == p * q + x % p,
            x % p >= 0,
            x < BITS_53 * p,
            p > 0,
    ;
    if t < BITS_53 {
        assert(nearest(x) == t * pow2(k));
    } else {
        lemma_pow2_unfold(k + 1);
        assert(t == BITS_53);
        let half = BITS_52 as nat;
        assert(half * (2 * p) == t * p) by (nonlinear_arith)
            requires
                t == 2 * half,
        ;
        assert(nearest(x) == half * pow2(k + 1));
    }
}

/// Between two neighbouring powers of two, a number is rounded to a multiple of the weight of the
/// 53rd bit, and to an even one where two are equally near; a smaller number is left as it is.
pub proof fn law_ties_go_to_the_even_significand(x: nat, k: nat)
    ensures
        x < 0x20_0000_0000_0000 ==> nearest(x) == x,
        0x10_0000_0000_0000 * pow2(k) <= x < 0x20_0000_0000_0000 * pow2(k) ==> nearest(x)
            == round_div(x, pow2(k)) * pow2(k),
{
    if x < BITS_53 {
        lemma2_to64();
        lemma_excess_is(x, 0);
        lemma_nearest_error(x);
    }
    if 0x10_0000_0000_0000 * pow2(k) <= x < 0x20_0000_0000_0000 * pow2(k) {
        lemma_excess_is(x, k);
    }
}

} // verus!
