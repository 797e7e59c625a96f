//! Rates, and what they make of counts and nanoseconds.
use vstd::prelude::*;

verus! {

/// Nanoseconds in a second.
pub const NS_PER_SECOND: u128 = 1_000_000_000;

/// Grains or samples per second, as a fraction.
#[derive(Debug, Clone, Copy, PartialEq, Eq, Structural)]
pub struct Rational {
    pub numerator: i64,
    pub denominator: i64,
}

/// One part of a fraction as it enters a product: a negative number counts from the top of the
/// range.
pub open spec fn part(value: i64) -> nat {
    if value >= 0 {
        value as nat
    } else {
        (u128::MAX + 1 + value) as nat
    }
}

/// The low 64 bits of `value`.
pub open spec fn low64(value: nat) -> nat {
    value % 0x1_0000_0000_0000_0000
}

/// How long `grains` take, in whole nanoseconds.
pub open spec fn whole_ns(grains: nat, rate: Rational) -> nat {
    grains * NS_PER_SECOND as nat * part(rate.denominator) / part(rate.numerator)
}

/// How long `grains` take, in whole nanoseconds, as far as 64 bits hold them.
pub open spec fn duration(grains: nat, rate: Rational) -> nat {
    low64(whole_ns(grains, rate))
}

/// `duration` can be computed: the rate is not zero, and the product stays in range.
pub open spec fn duration_in_range(grains: nat, rate: Rational) -> bool {
    &&& rate.numerator != 0
    &&& grains * NS_PER_SECOND as nat * part(rate.denominator) <= u128::MAX
}

/// How many whole grains `ns` nanoseconds take.
pub open spec fn whole_grains(ns: nat, rate: Rational) -> nat {
    ns * part(rate.numerator) / (part(rate.denominator) * NS_PER_SECOND as nat)
}

/// How many whole grains `ns` nanoseconds take, as far as 64 bits hold them.
pub open spec fn grain_count(ns: nat, rate: Rational) -> nat {
    low64(whole_grains(ns, rate))
}

/// `grain_count` can be computed: the period is not zero, and the products stay in range.
pub open spec fn grain_count_in_range(ns: nat, rate: Rational) -> bool {
    &&& rate.denominator != 0
    &&& ns * part(rate.numerator) <= u128::MAX
    &&& part(rate.denominator) * NS_PER_SECOND <= u128::MAX
}

/// One part of a fraction as it enters a product.
fn widen(value: i64) -> (wide: u128)
    ensures
        wide == part(value),
{
    let wide = value as u128;
    if value < 0 {
        assert(value < 0 ==> (value as u128) == 0x1_0000_0000_0000_0000_0000_0000_0000_0000
            + value) by (bit_vector);
    }
    wide
}

/// The low 64 bits of `value`.
fn truncate(value: u128) -> (low: u64)
    ensures
        low == low64(value as nat),
{
    let low = #[verifier::truncate] (value as u64);
    assert(value as u64 == value % 0x1_0000_0000_0000_0000) by (bit_vector);
    low
}

/// Whether [`grains_to_ns`] can be computed.
pub fn grains_to_ns_in_range(grains: u64, rate: &Rational) -> (fits: bool)
    ensures
        fits == duration_in_range(grains as nat, *rate),
{
    let seconds: u128 = grains as u128 * NS_PER_SECOND;
    rate.numerator != 0 && seconds.checked_mul(widen(rate.denominator)).is_some()
}

/// Whether [`ns_to_grains`] can be computed.
pub fn ns_to_grains_in_range(ns: u64, rate: &Rational) -> (fits: bool)
    ensures
        fits == grain_count_in_range(ns as nat, *rate),
{
    rate.denominator != 0 && (ns as u128).checked_mul(widen(rate.numerator)).is_some() && widen(
        rate.denominator,
    ).checked_mul(NS_PER_SECOND).is_some()
}

/// How long `grains` take, in nanoseconds.
pub fn grains_to_ns(grains: u64, rate: &Rational) -> (ns: u64)
    requires
        duration_in_range(grains as nat, *rate),
    ensures
        ns == duration(grains as nat, *rate),
{
    let seconds: u128 = grains as u128 * NS_PER_SECOND;
    truncate(seconds * widen(rate.denominator) / widen(rate.numerator))
}

/// How many whole grains `ns` nanoseconds take.
pub fn ns_to_grains(ns: u64, rate: &Rational) -> (grains: u64)
    requires
        grain_count_in_range(ns as nat, *rate),
    ensures
        grains == grain_count(ns as nat, *rate),
{
    truncate((ns as u128 * widen(rate.numerator)) / (widen(rate.denominator) * NS_PER_SECOND))
}

/// Times add up, but for the nanosecond that rounding may lose; that is not lost where the second
/// one is a whole number of nanoseconds.
pub proof fn durations_add_up(first: nat, second: nat, rate: Rational)
    requires
        rate.numerator > 0,
    ensures
        whole_ns(first, rate) + whole_ns(second, rate) <= whole_ns(first + second, rate)
            <= whole_ns(first, rate) + whole_ns(second, rate) + 1,
        (second * NS_PER_SECOND as nat * part(rate.denominator)) % part(rate.numerator) == 0
            ==> whole_ns(first + second, rate) == whole_ns(first, rate) + whole_ns(second, rate),
{
    let n = part(rate.numerator) as int;
    let a = first * NS_PER_SECOND as nat * part(rate.denominator);
    let b = second * NS_PER_SECOND as nat * part(rate.denominator);
    let sum = (first + second) * NS_PER_SECOND as nat * part(rate.denominator);
    assert(a + b == sum) by (nonlinear_arith)
        requires
            a == first * NS_PER_SECOND as nat * part(rate.denominator),
            b == second * NS_PER_SECOND as nat * part(rate.denominator),
            sum == (first + second) * NS_PER_SECOND as nat * part(rate.denominator),
    ;
    vstd::arithmetic::div_mod::lemma_fundamental_div_mod(a as int, n);
    vstd::arithmetic::div_mod::lemma_fundamental_div_mod(b as int, n);
    let q = a as int / n + b as int / n;
    let r = a as int % n + b as int % n;
    assert(n * (a as int / n) + n * (b as int / n) == q * n) by (nonlinear_arith)
        requires
            q == a as int / n + b as int / n,
    ;
    if r < n {
        vstd::arithmetic::div_mod::lemma_fundamental_div_mod_converse(sum as int, n, q, r);
    } else {
        assert((q + 1) * n == q * n + n) by (nonlinear_arith);
        vstd::arithmetic::div_mod::lemma_fundamental_div_mod_converse(sum as int, n, q + 1, r - n);
    }
}

/// The whole grains in a time are no longer than the time, and one more would be as long.
pub proof fn grains_measure_time(ns: nat, rate: Rational)
    requires
        rate.numerator > 0,
        rate.denominator > 0,
    ensures
        whole_ns(whole_grains(ns, rate), rate) <= ns,
        ns <= whole_ns(whole_grains(ns, rate) + 1, rate),
{
    let n = part(rate.numerator) as int;
    let den = part(rate.denominator) as int;
    let period = den * NS_PER_SECOND;
    let total = ns * n;
    let g = total / period;
    vstd::arithmetic::div_mod::lemma_fundamental_div_mod(total, period);
    assert(g * NS_PER_SECOND * den == period * g) by (nonlinear_arith)
        requires
            period == den * NS_PER_SECOND,
    ;
    assert((g + 1) * NS_PER_SECOND * den == period * g + period) by (nonlinear_arith)
        requires
            period == den * NS_PER_SECOND,
    ;
    assert(total >= 0) by (nonlinear_arith)
        requires
            total == ns * n,
            n > 0,
    ;
    assert(g >= 0) by (nonlinear_arith)
        requires
            g == total / period,
            total >= 0,
            period > 0,
    ;
    let low = period * g;
    let high = period * g + period;
    assert(low / n <= ns) by (nonlinear_arith)
        requires
            low <= ns * n,
            n > 0,
    ;
    assert(ns <= high / n) by (nonlinear_arith)
        requires
            ns * n < high,
            n > 0,
    ;
}

/// A time in whole nanoseconds is the largest number of them that is no longer than the grains take
/// at `numerator` / `denominator` a second; and a number of whole grains the largest number of them
/// that takes no longer than the time.
pub proof fn whole_is_rounded_down(grains: nat, ns: nat, rate: Rational)
    requires
        rate.numerator > 0,
        rate.denominator > 0,
    ensures
        whole_ns(grains, rate) * rate.numerator <= grains * rate.denominator * 1_000_000_000,
        grains * rate.denominator * 1_000_000_000 < (whole_ns(grains, rate) + 1) * rate.numerator,
        whole_grains(ns, rate) * rate.denominator * 1_000_000_000 <= ns * rate.numerator,
        ns * rate.numerator < (whole_grains(ns, rate) + 1) * rate.denominator * 1_000_000_000,
{
    let n = rate.numerator as int;
    let d = rate.denominator as int;
    let product = grains * NS_PER_SECOND as nat * part(rate.denominator);
    let t = whole_ns(grains, rate) as int;
    assert(product == grains * d * 1_000_000_000) by (nonlinear_arith)
        requires
            product == grains * 1_000_000_000nat * d,
    ;
    vstd::arithmetic::div_mod::lemma_fundamental_div_mod(product as int, n);
    assert(n * t == t * n) by (nonlinear_arith);
    assert((t + 1) * n == t * n + n) by (nonlinear_arith);
    let period = d * 1_000_000_000;
    let total = ns * n;
    let g = whole_grains(ns, rate) as int;
    assert(total >= 0 && period > 0) by (nonlinear_arith)
        requires
            total == ns * n,
            n > 0,
            d > 0,
            period == d * 1_000_000_000,
    ;
    vstd::arithmetic::div_mod::lemma_fundamental_div_mod(total, period);
    assert(g * d * 1_000_000_000 == period * g) by (nonlinear_arith)
        requires
            period == d * 1_000_000_000,
    ;
    assert((g + 1) * d * 1_000_000_000 == period * g + period) by (nonlinear_arith)
        requires
            period == d * 1_000_000_000,
    ;
}

/// What is computed is the whole number as far as 64 bits hold it, of a fraction whose negative parts
/// count from the top of 128 bits. It can be computed if nothing is divided by zero and no product
/// leaves 128 bits.
pub proof fn computed_in_64_bits(grains: nat, ns: nat, rate: Rational)
    ensures
        duration(grains, rate) == whole_ns(grains, rate) % 0x1_0000_0000_0000_0000,
        grain_count(ns, rate) == whole_grains(ns, rate) % 0x1_0000_0000_0000_0000,
        rate.numerator >= 0 ==> part(rate.numerator) == rate.numerator,
        rate.denominator >= 0 ==> part(rate.denominator) == rate.denominator,
        rate.numerator < 0 ==> part(rate.numerator) == rate.numerator
            + 0x1_0000_0000_0000_0000_0000_0000_0000_0000int,
        rate.denominator < 0 ==> part(rate.denominator) == rate.denominator
            + 0x1_0000_0000_0000_0000_0000_0000_0000_0000int,
        duration_in_range(grains, rate) <==> rate.numerator != 0 && grains * 1_000_000_000nat * part(
            rate.denominator,
        ) < 0x1_0000_0000_0000_0000_0000_0000_0000_0000int,
        grain_count_in_range(ns, rate) <==> rate.denominator != 0 && ns * part(rate.numerator)
            < 0x1_0000_0000_0000_0000_0000_0000_0000_0000int && part(rate.denominator)
            * 1_000_000_000 < 0x1_0000_0000_0000_0000_0000_0000_0000_0000int,
        whole_ns(grains, rate) == grains * 1_000_000_000nat * part(rate.denominator) / part(
            rate.numerator,
        ),
        whole_grains(ns, rate) == ns * part(rate.numerator) / (part(rate.denominator)
            * 1_000_000_000nat),
{
}

} // verus!
