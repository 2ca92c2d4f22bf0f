//! Prices as finite IEEE 754 binary64 numbers, known by their bits.
//!
//! A price is measured in baht. Every binary64 number is a whole multiple of 2 to the power
//! -1074, so the specifications count in that unit and need no fractions.
use crate::numeral::push_scaled_decimal;
use crate::rounding::{
    law_nothing_is_nearer, law_quotient_is_rounded_to_nearest_even, lemma_excess_bounds,
    lemma_nearest_absorbs, lemma_nearest_error, lemma_nearest_scales, lemma_round_div_error,
    lemma_round_div_exact, lemma_round_div_is, lemma_round_div_near, lemma_round_div_scales,
    nearest, power_of_two, round_div, round_to_53_bits, BITS_52, BITS_53,
};
use crate::text::{
    decimal, digit, digit_text, digits_value, is_digit, law_digit_codes,
    law_digits_are_read_in_base_ten, lemma_decimal_digits, push_decimal,
};
use vstd::arithmetic::power2::{
    lemma2_to64, lemma2_to64_rest, lemma_pow2_adds, lemma_pow2_pos, lemma_pow2_strictly_increases,
    lemma_pow2_unfold, pow2,
};
use vstd::prelude::*;

verus! {

/// The weight of the sign bit.
pub const SIGN: u64 = 0x8000_0000_0000_0000;

/// The sign bit is set.
pub open spec fn is_negative(bits: u64) -> bool {
    bits >= SIGN
}

/// The 11 exponent bits.
pub open spec fn exponent_field(bits: u64) -> nat {
    (bits as nat / BITS_52 as nat) % 2048
}

/// The bits encode a number, not an infinity or a NaN.
pub open spec fn is_finite(bits: u64) -> bool {
    exponent_field(bits) < 2047
}

/// The significand as a whole number of at most 53 bits.
pub open spec fn significand(bits: u64) -> nat {
    if exponent_field(bits) == 0 {
        bits as nat % BITS_52 as nat
    } else {
        BITS_52 as nat + bits as nat % BITS_52 as nat
    }
}

/// The power of two that multiplies the significand, counted from the smallest one.
pub open spec fn scale(bits: u64) -> nat {
    if exponent_field(bits) == 0 {
        0
    } else {
        (exponent_field(bits) - 1) as nat
    }
}

/// The absolute value, in units of 2 to the power -1074.
pub open spec fn magnitude(bits: u64) -> nat {
    significand(bits) * pow2(scale(bits))
}

/// The value, in units of 2 to the power -1074.
pub open spec fn value(bits: u64) -> int {
    if is_negative(bits) {
        -(magnitude(bits) as int)
    } else {
        magnitude(bits) as int
    }
}

/// One baht, in units of 2 to the power -1074.
pub open spec fn baht() -> nat {
    pow2(1074)
}

/// The least magnitude that binary64 cannot hold.
pub open spec fn out_of_range() -> nat {
    pow2(2098)
}

pub open spec fn abs(x: int) -> nat {
    if x < 0 {
        (-x) as nat
    } else {
        x as nat
    }
}

/// The magnitude of the binary64 difference of two prices: the exact difference, rounded.
pub open spec fn rounded_gap(a: u64, b: u64) -> nat {
    nearest(abs(value(a) - value(b)))
}

/// A magnitude in hundredths of a baht, rounded to the nearest one, a tie to the even one.
pub open spec fn hundredths(magnitude: nat) -> nat {
    round_div(magnitude * 100, baht())
}

/// A magnitude in baht, written with two decimals.
pub open spec fn amount_text(magnitude: nat) -> Seq<char> {
    let h = hundredths(magnitude);
    decimal(h / 100) + seq!['.', digit((h / 10) % 10), digit(h % 10)]
}

/// A price in baht, written with two decimals.
pub open spec fn price_text(bits: u64) -> Seq<char> {
    (if is_negative(bits) {
        seq!['-']
    } else {
        seq![]
    }) + amount_text(magnitude(bits))
}

proof fn lemma_fields(bits: u64)
    ensures
        significand(bits) < BITS_53,
        scale(bits) > 0 ==> significand(bits) >= BITS_52,
        is_finite(bits) ==> scale(bits) <= 2045,
        bits % SIGN == exponent_field(bits) * BITS_52 + bits as nat % BITS_52 as nat,
{
}

/// The lower 63 bits order numbers by magnitude.
pub proof fn lemma_magnitude_order(a: u64, b: u64)
    ensures
        magnitude(a) < magnitude(b) <==> a % SIGN < b % SIGN,
{
    lemma_fields(a);
    lemma_fields(b);
    lemma_pow2_pos(scale(a));
    lemma_pow2_pos(scale(b));
    if scale(a) == scale(b) {
        let p = pow2(scale(a));
        let m = significand(a);
        let n = significand(b);
        assert(m * p < n * p <==> m < n) by (nonlinear_arith)
            requires
                p > 0,
        ;
    } else if scale(a) < scale(b) {
        lemma_scale_dominates(a, b);
    } else {
        lemma_scale_dominates(b, a);
    }
}

proof fn lemma_scale_dominates(a: u64, b: u64)
    requires
        scale(a) < scale(b),
    ensures
        magnitude(a) < magnitude(b),
{
    lemma_fields(a);
    lemma_fields(b);
    let p = pow2(scale(a));
    lemma_pow2_pos(scale(a));
    lemma_pow2_unfold(scale(a) + 1);
    if scale(a) + 1 < scale(b) {
        lemma_pow2_strictly_increases(scale(a) + 1, scale(b));
    }
    let q = pow2(scale(b));
    let m = significand(a);
    let n = significand(b);
    assert(m * p < n * q) by (nonlinear_arith)
        requires
            m < BITS_53,
            n >= BITS_52,
            q >= 2 * p,
            p > 0,
    ;
}

/// A finite binary64 number.
#[derive(Clone, Copy, Debug)]
pub struct Price {
    bits: u64,
}

impl View for Price {
    type V = u64;

    closed spec fn view(&self) -> u64 {
        self.bits
    }
}

impl Price {
    #[verifier::type_invariant]
    spec fn well_formed(self) -> bool {
        is_finite(self.bits)
    }

    /// The number with the given bits, unless they encode an infinity or a NaN.
    pub fn from_bits(bits: u64) -> (r: Option<Price>)
        ensures
            r is Some <==> is_finite(bits),
            r is Some <==> (bits / 0x10_0000_0000_0000) % 2048 != 2047,
            r matches Some(p) ==> p@ == bits,
    {
        if (bits / BITS_52) % 2048 < 2047 {
            Some(Price { bits })
        } else {
            None
        }
    }

    /// The bits of this number.
    pub fn to_bits(&self) -> (bits: u64)
        ensures
            bits == self@,
            is_finite(bits),
    {
        proof {
            use_type_invariant(&*self);
        }
        self.bits
    }

    /// Significand and scale.
    fn parts(&self) -> (r: (u64, u16))
        ensures
            r.0 == significand(self@),
            r.1 == scale(self@),
            r.0 < BITS_53,
            r.1 <= 2045,
            r.1 > 0 ==> r.0 >= BITS_52,
    {
        proof {
            use_type_invariant(&*self);
            lemma_fields(self.bits);
        }
        let exponent: u64 = (self.bits / BITS_52) % 2048;
        let fraction: u64 = self.bits % BITS_52;
        if exponent == 0 {
            (fraction, 0)
        } else {
            (BITS_52 + fraction, (exponent - 1) as u16)
        }
    }

    fn negative(&self) -> (r: bool)
        ensures
            r == is_negative(self@),
    {
        self.bits >= SIGN
    }

    /// Tells whether this price is greater than `other`.
    pub fn exceeds(&self, other: &Price) -> (r: bool)
        ensures
            r == (value(self@) > value(other@)),
    {
        let here: u64 = self.bits % SIGN;
        let there: u64 = other.bits % SIGN;
        proof {
            lemma_magnitude_order(self.bits, other.bits);
            lemma_magnitude_order(other.bits, self.bits);
            lemma_zero_magnitude(self.bits);
            lemma_zero_magnitude(other.bits);
        }
        match (self.negative(), other.negative()) {
            (false, false) => here > there,
            (true, true) => here < there,
            (false, true) => here > 0 || there > 0,
            (true, false) => false,
        }
    }
}

pub proof fn lemma_zero_magnitude(bits: u64)
    ensures
        magnitude(bits) == 0 <==> bits % SIGN == 0,
{
    lemma_magnitude_order(0, bits);
    assert(significand(0) == 0);
    assert(magnitude(0) == 0) by (nonlinear_arith)
        requires
            magnitude(0) == significand(0) * pow2(scale(0)),
            significand(0) == 0,
    ;
}

/// The number `significand` times 2 to the power `scale`, if binary64 holds it.
fn assemble(significand: u64, scale: u16) -> (r: Option<Price>)
    requires
        significand <= BITS_53,
        scale <= 4000,
    ensures
        match r {
            Some(p) => !is_negative(p@) && magnitude(p@) == significand * pow2(scale as nat),
            None => significand * pow2(scale as nat) >= out_of_range(),
        },
{
    let ghost total: nat = significand as nat * pow2(scale as nat);
    let mut m: u64 = significand;
    let mut s: u16 = scale;
    if m == BITS_53 {
        proof {
            lemma_pow2_unfold((s + 1) as nat);
            assert(total == BITS_53 * pow2(s as nat));
        }
        m = BITS_52;
        s = s + 1;
    }
    while m < BITS_52 && s > 0
        invariant
            m < BITS_53,
            s <= 4001,
            m * pow2(s as nat) == total,
        decreases s,
    {
        proof {
            lemma_pow2_unfold(s as nat);
            let p = pow2((s - 1) as nat);
            assert((m * 2) * p == m * (2 * p)) by (nonlinear_arith);
        }
        m = m * 2;
        s = s - 1;
    }
    if s > 2045 {
        proof {
            lemma2_to64_rest();
            lemma_pow2_adds(52, 2046);
            if s > 2046 {
                lemma_pow2_strictly_increases(2046, s as nat);
            }
            let low = pow2(2046);
            let high = pow2(s as nat);
            assert(m * high >= BITS_52 * low) by (nonlinear_arith)
                requires
                    m >= BITS_52,
                    high >= low,
            ;
        }
        return None;
    }
    let bits: u64 = if m < BITS_52 {
        m
    } else {
        (s as u64 + 1) * BITS_52 + (m - BITS_52)
    };
    proof {
        if m < BITS_52 {
            assert(exponent_field(bits) == 0);
        } else {
            assert(exponent_field(bits) == s + 1);
            assert(bits as nat % BITS_52 as nat == m - BITS_52);
        }
    }
    Some(Price { bits })
}

/// A finite number is in range.
pub proof fn lemma_in_range(bits: u64)
    requires
        is_finite(bits),
    ensures
        magnitude(bits) < out_of_range(),
{
    lemma_fields(bits);
    lemma2_to64_rest();
    lemma_pow2_adds(53, scale(bits));
    lemma_pow2_pos(scale(bits));
    if scale(bits) < 2045 {
        lemma_pow2_strictly_increases(53 + scale(bits), 2098);
    }
    let (m, p) = (significand(bits), pow2(scale(bits)));
    assert(m * p < BITS_53 * p) by (nonlinear_arith)
        requires
            m < BITS_53,
            p > 0,
    ;
}

/// The magnitudes of two numbers give the distance between them.
proof fn lemma_gap(a: u64, b: u64)
    ensures
        is_negative(a) == is_negative(b) ==> abs(value(a) - value(b)) == abs(
            magnitude(a) - magnitude(b),
        ),
        is_negative(a) != is_negative(b) ==> abs(value(a) - value(b)) == magnitude(a) + magnitude(
            b,
        ),
{
}

/// Factors the smaller scale out of the distance between two numbers.
proof fn lemma_factor(m: nat, d: nat, n: nat, e: nat)
    ensures
        m * pow2(d + e) == (m * pow2(d)) * pow2(e),
        m * pow2(d + e) + n * pow2(e) == (m * pow2(d) + n) * pow2(e),
        abs(m * pow2(d + e) - n * pow2(e)) == abs(m * pow2(d) - n) * pow2(e),
{
    lemma_pow2_adds(d, e);
    let p = pow2(d);
    let q = pow2(e);
    let x = m * p;
    assert(m * (p * q) == x * q) by (nonlinear_arith)
        requires
            x == m * p,
    ;
    assert(x * q + n * q == (x + n) * q) by (nonlinear_arith);
    assert(x * q - n * q == (x - n) * q) by (nonlinear_arith);
    assert((x < n ==> (x - n) * q <= 0 && -((x - n) * q) == (n - x) * q) && (x >= n ==> (x - n) * q
        >= 0)) by (nonlinear_arith)
        requires
            q >= 0,
    ;
}

/// The distance between two numbers of which `high` has the greater scale.
fn scaled_distance(high: &Price, low: &Price) -> (r: Option<Price>)
    requires
        scale(high@) >= scale(low@),
    ensures
        match r {
            Some(p) => !is_negative(p@) && magnitude(p@) == rounded_gap(high@, low@),
            None => rounded_gap(high@, low@) >= out_of_range(),
        },
{
    let (m, s) = high.parts();
    let (n, e) = low.parts();
    let d: u16 = s - e;
    proof {
        lemma_gap(high@, low@);
        lemma_factor(m as nat, d as nat, n as nat, e as nat);
    }
    if d > 64 {
        proof {
            lemma_nearest_absorbs(m as nat, d as nat, n as nat);
            let x = m as nat * pow2(d as nat);
            lemma_nearest_scales(x + n as nat, e as nat);
            lemma_nearest_scales((x - n as nat) as nat, e as nat);
            use_type_invariant(high);
            lemma_same_fields(high@);
        }
        Some(Price { bits: high.bits % SIGN })
    } else {
        let factor: u128 = power_of_two(d);
        proof {
            lemma2_to64();
            if d < 64 {
                lemma_pow2_strictly_increases(d as nat, 64);
            }
            assert(m * factor <= 0x20_0000_0000_0000 * 0x1_0000_0000_0000_0000) by (nonlinear_arith)
                requires
                    m <= 0x20_0000_0000_0000,
                    factor <= 0x1_0000_0000_0000_0000,
            ;
        }
        let x: u128 = m as u128 * factor;
        let y: u128 = n as u128;
        let gap: u128 = if high.negative() != low.negative() {
            x + y
        } else if x < y {
            y - x
        } else {
            x - y
        };
        let (q, k) = round_to_53_bits(gap);
        proof {
            lemma_nearest_scales(gap as nat, e as nat);
            lemma_pow2_adds(k as nat, e as nat);
            let (p, t) = (pow2(k as nat), pow2(e as nat));
            assert((q * p) * t == q * (p * t)) by (nonlinear_arith);
        }
        assemble(q, e + k)
    }
}

/// The sign bit touches no other field.
proof fn lemma_same_fields(bits: u64)
    ensures
        !is_negative(bits % SIGN),
        exponent_field(bits % SIGN) == exponent_field(bits),
        magnitude(bits % SIGN) == magnitude(bits),
{
    assert((bits % SIGN) as nat % BITS_52 as nat == bits as nat % BITS_52 as nat);
}

impl Price {
    /// The distance between two prices, rounded to binary64; nothing where it is out of range.
    pub fn distance(&self, other: &Price) -> (r: Option<Price>)
        ensures
            match r {
                Some(p) => {
                    &&& !is_negative(p@)
                    &&& magnitude(p@) == rounded_gap(self@, other@)
                    &&& magnitude(p@) < out_of_range()
                },
                None => rounded_gap(self@, other@) >= out_of_range(),
            },
            r is Some <==> rounded_gap(self@, other@) < pow2(2098),
    {
        let (_, s) = self.parts();
        let (_, e) = other.parts();
        let r: Option<Price> = if s >= e {
            scaled_distance(self, other)
        } else {
            assert(abs(value(self@) - value(other@)) == abs(value(other@) - value(self@)));
            scaled_distance(other, self)
        };
        proof {
            if let Some(p) = r {
                use_type_invariant(&p);
                lemma_in_range(p@);
            }
        }
        r
    }
}

/// A number of at least one baht's scale is a whole number of baht.
proof fn lemma_hundredths_whole(bits: u64)
    requires
        scale(bits) >= 1074,
    ensures
        hundredths(magnitude(bits)) == 100 * (significand(bits) * pow2((scale(bits) - 1074) as nat)),
{
    let whole = significand(bits) * pow2((scale(bits) - 1074) as nat);
    let (m, p, q) = (significand(bits), pow2((scale(bits) - 1074) as nat), pow2(1074));
    lemma_pow2_adds((scale(bits) - 1074) as nat, 1074);
    lemma_pow2_pos(1074);
    assert((m * (p * q)) * 100 == (100 * (m * p)) * q) by (nonlinear_arith);
    lemma_round_div_exact(100 * whole, q);
}

/// A number of smaller scale is rounded at the bits below one baht.
proof fn lemma_hundredths_part(bits: u64)
    requires
        scale(bits) < 1074,
    ensures
        hundredths(magnitude(bits)) == round_div(
            significand(bits) * 100,
            pow2((1074 - scale(bits)) as nat),
        ),
{
    let (m, p, q) = (
        significand(bits),
        pow2(scale(bits)),
        pow2((1074 - scale(bits)) as nat),
    );
    lemma_pow2_adds((1074 - scale(bits)) as nat, scale(bits));
    lemma_pow2_pos(scale(bits));
    lemma_pow2_pos((1074 - scale(bits)) as nat);
    assert((m * p) * 100 == (m * 100) * p) by (nonlinear_arith);
    lemma_round_div_scales(m * 100, q, p);
}

/// Less than half a step rounds to nothing.
proof fn lemma_round_div_small(x: nat, t: nat)
    requires
        x < pow2(61),
        t >= 62,
    ensures
        round_div(x, pow2(t)) == 0,
{
    lemma_pow2_unfold(t);
    if t - 1 > 61 {
        lemma_pow2_strictly_increases(61, (t - 1) as nat);
    }
    lemma_round_div_is(x, pow2(t), 0, x);
}

impl Price {
    /// A price below the scale at which it would be whole, in hundredths of a baht.
    fn part_hundredths(&self) -> (h: u64)
        requires
            scale(self@) < 1074,
        ensures
            h == hundredths(magnitude(self@)),
            h <= 0x2000_0000_0000_0000,
    {
        let (m, s) = self.parts();
        let t: u16 = 1074 - s;
        let x: u64 = m * 100;
        proof {
            lemma_hundredths_part(self@);
            lemma2_to64_rest();
        }
        if t >= 62 {
            proof {
                lemma_round_div_small(x as nat, t as nat);
            }
            0
        } else {
            proof {
                lemma_pow2_pos(t as nat);
                lemma_pow2_strictly_increases(t as nat, 62);
            }
            let step: u64 = power_of_two(t) as u64;
            let q: u64 = x / step;
            let r: u64 = x % step;
            let rest: u64 = step - r;
            if r < rest || (r == rest && q % 2 == 0) {
                q
            } else {
                q + 1
            }
        }
    }

    /// Appends this price, written with two decimals.
    pub fn push_text(&self, out: &mut String)
        ensures
            final(out)@ == old(out)@ + price_text(self@),
    {
        let ghost before = out@;
        proof {
            reveal_strlit("-");
            reveal_strlit(".");
            reveal_strlit(".00");
        }
        if self.negative() {
            out.append("-");
        }
        let (m, s) = self.parts();
        if s >= 1074 {
            proof {
                lemma_hundredths_whole(self@);
            }
            push_scaled_decimal(out, m, s - 1074);
            out.append(".00");
        } else {
            let h: u64 = self.part_hundredths();
            push_decimal(out, h / 100);
            out.append(".");
            out.append(digit_text(((h / 10) % 10) as u8));
            out.append(digit_text((h % 10) as u8));
        }
        assert(out@ =~= before + price_text(self@));
    }
}

/// A price stands for a whole number of satang, hundredths of a baht: it lies within an eighth of
/// a satang of it.
pub open spec fn is_quote(bits: u64, satang: int) -> bool {
    8 * abs(100 * value(bits) - satang * baht()) <= baht()
}

/// An amount is shown as the whole number of satang that it is closest to.
pub proof fn law_amount_is_shown_to_the_satang(magnitude: nat, satang: nat)
    requires
        2 * abs(100 * magnitude - satang * baht()) < baht(),
    ensures
        hundredths(magnitude) == satang,
{
    lemma_round_div_near(magnitude * 100, baht(), satang);
}

/// What is shown is never off by more than half a satang.
pub proof fn law_shown_amount_is_close(magnitude: nat)
    ensures
        2 * abs(100 * magnitude - hundredths(magnitude) * baht()) <= baht(),
{
    lemma_pow2_pos(1074);
    lemma_round_div_error(magnitude * 100, baht());
}

/// The distance between two prices that stand for whole satang is shown as the distance between
/// these, up to ten thousand million baht.
pub proof fn law_distance_of_quotes_is_shown_in_full(a: u64, p: int, b: u64, q: int)
    requires
        is_quote(a, p),
        is_quote(b, q),
        abs(p) <= 1_000_000_000_000,
        abs(q) <= 1_000_000_000_000,
    ensures
        hundredths(rounded_gap(a, b)) == abs(p - q),
{
    let x = abs(value(a) - value(b));
    let one = baht() as int;
    lemma_pow2_pos(1074);
    assert((p - q) * one == p * one - q * one) by (nonlinear_arith);
    let d = abs(p - q) as int;
    assert((p >= q ==> d * one == (p - q) * one) && (p < q ==> d * one == -((p - q) * one)))
        by (nonlinear_arith)
        requires
            p >= q ==> d == p - q,
            p < q ==> d == -(p - q),
    ;
    assert(d * one <= 2_000_000_000_000 * one && d * one >= 0 && (d == 0 || d * one >= one))
        by (nonlinear_arith)
        requires
            0 <= d <= 2_000_000_000_000,
            one > 0,
    ;
    // The exact distance is within a quarter of a satang of the right one.
    assert(4 * abs(100 * x - d * one) <= one);
    lemma_nearest_error(x);
    lemma_excess_bounds(x);
    law_amount_is_shown_to_the_satang(nearest(x), d as nat);
}

/// Bits encode what IEEE 754 says they do: a sign bit, eleven bits of exponent and fifty-two of
/// fraction, with a leading one unless the exponent is zero.
pub proof fn law_bits_encode_a_number(negative: bool, exponent: nat, fraction: nat, bits: u64)
    requires
        exponent < 2048,
        fraction < 0x10_0000_0000_0000,
        bits == (if negative {
            0x8000_0000_0000_0000int
        } else {
            0
        }) + exponent * 0x10_0000_0000_0000 + fraction,
    ensures
        is_finite(bits) <==> exponent != 2047,
        ({
            let units = if exponent == 0 {
                fraction
            } else {
                (0x10_0000_0000_0000 + fraction) * pow2((exponent - 1) as nat)
            };
            &&& magnitude(bits) == units
            &&& negative ==> value(bits) == -(units as int)
            &&& !negative ==> value(bits) == units
            &&& is_negative(bits) == negative
        }),
{
    assert(exponent_field(bits) == exponent);
    assert(bits as nat % BITS_52 as nat == fraction);
    lemma2_to64();
    if exponent == 0 {
        assert(magnitude(bits) == fraction * 1);
    } else {
        assert(significand(bits) == 0x10_0000_0000_0000 + fraction);
    }
}

/// The sign bit turns a number into its opposite.
pub proof fn law_sign_bit_negates(bits: u64)
    requires
        bits < 0x8000_0000_0000_0000,
    ensures
        value((bits + 0x8000_0000_0000_0000) as u64) == -value(bits),
        value(bits) >= 0,
{
    let flipped = (bits + 0x8000_0000_0000_0000) as u64;
    assert(flipped as nat % BITS_52 as nat == bits as nat % BITS_52 as nat);
    assert(exponent_field(flipped) == exponent_field(bits));
}

/// The distance between two prices is the same either way. It is the exact one, rounded, and no
/// binary64 number is closer to that.
pub proof fn law_distance_is_the_closest_number(a: u64, b: u64, c: u64)
    ensures
        rounded_gap(a, b) == rounded_gap(b, a),
        ({
            let exact = if value(a) >= value(b) {
                value(a) - value(b)
            } else {
                value(b) - value(a)
            };
            let off = if rounded_gap(a, b) >= exact {
                rounded_gap(a, b) - exact
            } else {
                exact - rounded_gap(a, b)
            };
            let other_off = if magnitude(c) >= exact {
                magnitude(c) - exact
            } else {
                exact - magnitude(c)
            };
            &&& off <= other_off
            &&& rounded_gap(a, b) == nearest(exact as nat)
        }),
        value(a) == value(b) ==> rounded_gap(a, b) == 0,
{
    assert(abs(value(a) - value(b)) == abs(value(b) - value(a)));
    lemma_fields(c);
    law_nothing_is_nearer(abs(value(a) - value(b)), significand(c), scale(c));
    law_nothing_is_nearer(abs(value(a) - value(b)), 0, 0);
    lemma_pow2_pos(0);
}

/// An amount is written as a numeral, a point and two digits. Read without the point they make
/// the number of satang closest to it, the even one of two that are equally close.
#[verifier::rlimit(40)]
pub proof fn law_amount_is_read_back(magnitude: nat)
    ensures
        ({
            let text = amount_text(magnitude);
            let n = text.len();
            let whole = text.take(n - 3);
            let satang = digits_value(whole + text.skip(n - 2));
            let off = 100 * magnitude - satang * pow2(1074);
            &&& n >= 4
            &&& text[n - 3] == '.'
            &&& forall|i: int| 0 <= i < n && i != n - 3 ==> '0' <= #[trigger] text[i] <= '9'
            &&& whole == decimal(digits_value(whole))
            &&& -pow2(1074) <= 2 * off <= pow2(1074)
            &&& 2 * off == pow2(1074) || 2 * off == -pow2(1074) ==> satang % 2 == 0
        }),
{
    let h = hundredths(magnitude);
    let text = amount_text(magnitude);
    let n = text.len();
    let whole = decimal(h / 100);
    let (x, y) = (digit((h / 10) % 10), digit(h % 10));
    lemma_decimal_digits(h / 100);
    law_digit_codes((h / 10) % 10);
    law_digit_codes(h % 10);
    assert(text.take(n - 3) =~= whole);
    assert(whole + text.skip(n - 2) =~= whole.push(x).push(y));
    law_digits_are_read_in_base_ten(whole, x);
    law_digits_are_read_in_base_ten(whole.push(x), y);
    assert forall|i: int| 0 <= i < n && i != n - 3 implies '0' <= #[trigger] text[i] <= '9' by {
        if i < n - 3 {
            assert(text[i] == whole[i]);
            assert(is_digit(whole[i]));
        }
    }
    assert(digits_value(whole + text.skip(n - 2)) == h);
    lemma_pow2_pos(1074);
    let one = pow2(1074);
    lemma_round_div_error(magnitude * 100, one);
    law_quotient_is_rounded_to_nearest_even(magnitude * 100, one, h + 1);
    assert((h + 1) * one == h * one + one) by (nonlinear_arith);
    if h > 0 {
        law_quotient_is_rounded_to_nearest_even(magnitude * 100, one, (h - 1) as nat);
        assert((h - 1) * one == h * one - one) by (nonlinear_arith);
    } else {
        assert(h * one == 0) by (nonlinear_arith)
            requires
                h == 0,
        ;
    }
}

/// A price is written as its amount, after a minus sign exactly where the sign bit is set.
pub proof fn law_price_is_written_with_its_sign(bits: u64)
    ensures
        bits < 0x8000_0000_0000_0000 ==> price_text(bits) == amount_text(magnitude(bits)),
        bits >= 0x8000_0000_0000_0000 ==> price_text(bits) == seq!['-'] + amount_text(
            magnitude(bits),
        ),
{
    assert(Seq::<char>::empty() + amount_text(magnitude(bits)) =~= amount_text(magnitude(bits)));
}

} // verus!
