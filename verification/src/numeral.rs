//! Decimal numerals of numbers that no machine word can hold.
use crate::text::{decimal, digit, digit_text};
use vstd::arithmetic::power::{lemma_pow0, pow};
use vstd::arithmetic::power2::{lemma2_to64, lemma_pow2_unfold, pow2};
use vstd::prelude::*;

verus! {

/// The number whose base-ten digits are `d`, the units first.
pub open spec fn place_value(d: Seq<u8>) -> nat
    decreases d.len(),
{
    if d.len() == 0 {
        0
    } else {
        d[0] as nat + 10 * place_value(d.drop_first())
    }
}

/// `d` holds digits, at least one, and no superfluous zero at the top.
pub open spec fn is_numeral(d: Seq<u8>) -> bool {
    &&& d.len() > 0
    &&& forall|i: int| 0 <= i < d.len() ==> #[trigger] d[i] < 10
    &&& d.len() > 1 ==> d.last() != 0
}

proof fn lemma_place_value_positive(d: Seq<u8>)
    requires
        d.len() > 0,
        d.last() != 0,
    ensures
        place_value(d) > 0,
    decreases d.len(),
{
    if d.len() > 1 {
        assert(d.drop_first().last() == d.last());
        lemma_place_value_positive(d.drop_first());
    }
}

proof fn lemma_place_value_push(d: Seq<u8>, top: u8)
    ensures
        place_value(d.push(top)) == place_value(d) + pow(10, d.len()) * top,
    decreases d.len(),
{
    reveal(pow);
    if d.len() == 0 {
        lemma_pow0(10);
        assert(d.push(top).drop_first() =~= Seq::<u8>::empty());
        assert(place_value(d.push(top).drop_first()) == 0);
    } else {
        lemma_place_value_push(d.drop_first(), top);
        assert(d.push(top).drop_first() =~= d.drop_first().push(top));
        let p = pow(10, (d.len() - 1) as nat);
        assert(pow(10, d.len()) == 10 * p);
        assert(10 * (p * top) == (10 * p) * top) by (nonlinear_arith);
    }
}

/// Digits written from the top down are the decimal numeral of the number they make.
proof fn lemma_decimal_of_digits(d: Seq<u8>)
    requires
        is_numeral(d),
    ensures
        decimal(place_value(d)) == Seq::new(d.len(), |i: int| digit(d[d.len() - 1 - i] as nat)),
    decreases d.len(),
{
    let rest = d.drop_first();
    let n = place_value(d);
    let shown = Seq::new(d.len(), |i: int| digit(d[d.len() - 1 - i] as nat));
    assert(d[0] < 10);
    if d.len() == 1 {
        assert(rest =~= Seq::<u8>::empty());
        assert(place_value(rest) == 0);
        assert(decimal(n) =~= shown);
    } else {
        assert(rest.last() == d.last());
        lemma_place_value_positive(rest);
        lemma_decimal_of_digits(rest);
        assert(n / 10 == place_value(rest) && n % 10 == d[0]);
        assert(decimal(n) =~= shown);
    }
}

/// The digits of `n`, the units first.
fn digits_of(n: u64) -> (d: Vec<u8>)
    ensures
        is_numeral(d@),
        place_value(d@) == n,
{
    let mut d: Vec<u8> = Vec::new();
    let mut rest: u64 = n;
    proof {
        lemma_pow0(10);
    }
    while rest >= 10
        invariant
            forall|i: int| 0 <= i < d@.len() ==> #[trigger] d@[i] < 10,
            rest == 0 ==> d@.len() == 0,
            n == place_value(d@) + pow(10, d@.len()) * rest,
        decreases rest,
    {
        let low: u8 = (rest % 10) as u8;
        proof {
            lemma_place_value_push(d@, low);
            reveal(pow);
            let p = pow(10, d@.len());
            let high = rest / 10;
            assert(p * rest == (10 * p) * high + p * low) by (nonlinear_arith)
                requires
                    rest == 10 * high + low,
            ;
        }
        d.push(low);
        rest = rest / 10;
    }
    proof {
        lemma_place_value_push(d@, rest as u8);
    }
    d.push(rest as u8);
    d
}

/// The digits of twice the number that `d` writes.
fn doubled(d: &Vec<u8>) -> (r: Vec<u8>)
    requires
        is_numeral(d@),
    ensures
        is_numeral(r@),
        place_value(r@) == 2 * place_value(d@),
{
    let mut r: Vec<u8> = Vec::new();
    let mut carry: u8 = 0;
    let mut i: usize = 0;
    proof {
        lemma_pow0(10);
        assert(d@.skip(0) =~= d@);
    }
    while i < d.len()
        invariant
            is_numeral(d@),
            i <= d@.len(),
            r@.len() == i,
            carry <= 1,
            forall|j: int| 0 <= j < r@.len() ==> #[trigger] r@[j] < 10,
            2 * place_value(d@) == place_value(r@) + pow(10, i as nat) * (carry + 2 * place_value(
                d@.skip(i as int),
            )),
            i == d@.len() && d@.len() > 1 ==> carry == 1 || r@.last() != 0,
        decreases d@.len() - i,
    {
        let twice: u8 = d[i] * 2 + carry;
        let low: u8 = twice % 10;
        proof {
            let tail = d@.skip(i as int);
            assert(tail.drop_first() =~= d@.skip(i + 1));
            lemma_place_value_push(r@, low);
            reveal(pow);
            let p = pow(10, i as nat);
            let up = twice / 10;
            let v = place_value(d@.skip(i + 1));
            assert(p * (carry + 2 * (d@[i as int] + 10 * v)) == p * low + (10 * p) * (up + 2 * v))
                by (nonlinear_arith)
                requires
                    carry + 2 * d@[i as int] == 10 * up + low,
            ;
        }
        r.push(low);
        carry = twice / 10;
        i = i + 1;
    }
    proof {
        assert(d@.skip(i as int) =~= Seq::<u8>::empty());
        lemma_place_value_push(r@, carry);
        let p = pow(10, i as nat);
        assert(p * (carry + 2 * 0) == p * carry) by (nonlinear_arith);
    }
    if carry > 0 {
        r.push(carry);
    }
    r
}

/// Appends the decimal numeral of `n` times 2 to the power `e`.
pub fn push_scaled_decimal(out: &mut String, n: u64, e: u16)
    ensures
        final(out)@ == old(out)@ + decimal(n as nat * pow2(e as nat)),
{
    let mut d: Vec<u8> = digits_of(n);
    let mut i: u16 = 0;
    proof {
        lemma2_to64();
    }
    while i < e
        invariant
            i <= e,
            is_numeral(d@),
            place_value(d@) == n as nat * pow2(i as nat),
        decreases e - i,
    {
        proof {
            lemma_pow2_unfold((i + 1) as nat);
            let p = pow2(i as nat);
            assert(n as nat * (2 * p) == 2 * (n as nat * p)) by (nonlinear_arith);
        }
        d = doubled(&d);
        i = i + 1;
    }
    let ghost before = out@;
    let ghost shown = Seq::new(d@.len(), |k: int| digit(d@[d@.len() - 1 - k] as nat));
    proof {
        lemma_decimal_of_digits(d@);
    }
    let mut left: usize = d.len();
    while left > 0
        invariant
            left <= d@.len(),
            is_numeral(d@),
            shown == Seq::new(d@.len(), |k: int| digit(d@[d@.len() - 1 - k] as nat)),
            out@ == before + shown.take(d@.len() - left),
        decreases left,
    {
        let ghost k: int = d@.len() - left;
        left = left - 1;
        out.append(digit_text(d[left]));
        assert(shown.take(k + 1) =~= shown.take(k).push(shown[k]));
        assert(out@ =~= before + shown.take(k + 1));
    }
    assert(shown.take(d@.len() as int) =~= shown);
}

} // verus!
