//! Order statistics and fuzzed timers.
use vstd::prelude::*;

verus! {

/// Whether `samples` never decrease.
pub open spec fn spec_sorted(samples: Seq<u64>) -> bool {
    forall|i: int, j: int| 0 <= i <= j < samples.len() ==> samples[i] <= samples[j]
}

/// The `numerator / denominator` quantile of sorted `samples`: the order
/// statistic at position `(n - 1) * numerator / denominator`, interpolated
/// linearly between its two neighbours where the position is no whole number,
/// and rounded down.
pub open spec fn spec_quantile(samples: Seq<u64>, numerator: int, denominator: int) -> int {
    let position = (samples.len() - 1) * numerator;
    let below = position / denominator;
    let weight = position % denominator;
    if weight == 0 {
        samples[below] as int
    } else {
        (samples[below] * (denominator - weight) + samples[below + 1] * weight) / denominator
    }
}

/// The position of a quantile splits into an index within the samples and a
/// weight below the denominator.
pub proof fn lemma_quantile_position(len: int, numerator: int, denominator: int)
    requires
        0 < len,
        0 <= numerator <= denominator,
        0 < denominator,
    ensures
        ({
            let position = (len - 1) * numerator;
            let below = position / denominator;
            let weight = position % denominator;
            &&& 0 <= position
            &&& position == below * denominator + weight
            &&& 0 <= below <= len - 1
            &&& 0 <= weight < denominator
            &&& weight > 0 ==> below + 1 <= len - 1
        }),
{
    let position = (len - 1) * numerator;
    let below = position / denominator;
    let weight = position % denominator;
    assert(0 <= position <= (len - 1) * denominator) by (nonlinear_arith)
        requires
            position == (len - 1) * numerator,
            0 <= numerator <= denominator,
            0 < len,
    ;
    assert(position == denominator * below + weight && 0 <= weight < denominator)
        by (nonlinear_arith)
        requires
            0 < denominator,
            below == position / denominator,
            weight == position % denominator,
    ;
    assert(below * denominator == denominator * below) by (nonlinear_arith);
    assert(0 <= below && below <= len - 1 && (weight > 0 ==> below + 1 <= len - 1))
        by (nonlinear_arith)
        requires
            position == denominator * below + weight,
            0 <= weight < denominator,
            0 <= position <= (len - 1) * denominator,
            0 < denominator,
    ;
}

/// An interpolated value lies between the two order statistics it is taken
/// from.
pub proof fn lemma_interpolation_bounds(low: int, high: int, weight: int, denominator: int)
    requires
        0 <= low <= high,
        0 <= weight <= denominator,
        0 < denominator,
    ensures
        low <= (low * (denominator - weight) + high * weight) / denominator <= high,
        0 <= low * (denominator - weight) + high * weight <= high * denominator,
{
    let mixed = low * (denominator - weight) + high * weight;
    assert(low * denominator <= mixed <= high * denominator) by (nonlinear_arith)
        requires
            mixed == low * (denominator - weight) + high * weight,
            0 <= low <= high,
            0 <= weight <= denominator,
    ;
    assert(0 <= low * denominator) by (nonlinear_arith)
        requires
            0 <= low,
            0 < denominator,
    ;
    vstd::arithmetic::div_mod::lemma_div_is_ordered(low * denominator, mixed, denominator);
    vstd::arithmetic::div_mod::lemma_div_is_ordered(mixed, high * denominator, denominator);
    vstd::arithmetic::div_mod::lemma_div_multiples_vanish(low, denominator);
    vstd::arithmetic::div_mod::lemma_div_multiples_vanish(high, denominator);
    assert(low * denominator == denominator * low) by (nonlinear_arith);
    assert(high * denominator == denominator * high) by (nonlinear_arith);
}

/// A quantile of sorted samples lies between the order statistics around its
/// position.
pub proof fn lemma_quantile_bounds(samples: Seq<u64>, numerator: int, denominator: int)
    requires
        spec_sorted(samples),
        0 < samples.len(),
        0 <= numerator <= denominator,
        0 < denominator,
    ensures
        ({
            let position = (samples.len() - 1) * numerator;
            let below = position / denominator;
            let weight = position % denominator;
            &&& samples[below] <= spec_quantile(samples, numerator, denominator)
            &&& weight > 0 ==> spec_quantile(samples, numerator, denominator) <= samples[below
                + 1]
            &&& spec_quantile(samples, numerator, denominator) <= samples[samples.len() - 1]
            &&& samples[0] <= spec_quantile(samples, numerator, denominator)
        }),
{
    let position = (samples.len() - 1) * numerator;
    let below = position / denominator;
    let weight = position % denominator;
    lemma_quantile_position(samples.len() as int, numerator, denominator);
    if weight > 0 {
        lemma_interpolation_bounds(
            samples[below] as int,
            samples[below + 1] as int,
            weight,
            denominator,
        );
    }
}

/// Quantiles of sorted samples never decrease as the fraction grows.
pub proof fn lemma_quantile_monotone(
    samples: Seq<u64>,
    smaller: int,
    larger: int,
    denominator: int,
)
    requires
        spec_sorted(samples),
        0 < samples.len(),
        0 <= smaller <= larger <= denominator,
        0 < denominator,
    ensures
        spec_quantile(samples, smaller, denominator) <= spec_quantile(
            samples,
            larger,
            denominator,
        ),
{
    let len = samples.len() as int;
    let near = (len - 1) * smaller;
    let far = (len - 1) * larger;
    let near_below = near / denominator;
    let far_below = far / denominator;
    let near_weight = near % denominator;
    let far_weight = far % denominator;
    lemma_quantile_position(len, smaller, denominator);
    lemma_quantile_position(len, larger, denominator);
    lemma_quantile_bounds(samples, smaller, denominator);
    lemma_quantile_bounds(samples, larger, denominator);
    assert(near <= far) by (nonlinear_arith)
        requires
            near == (len - 1) * smaller,
            far == (len - 1) * larger,
            smaller <= larger,
            0 < len,
    ;
    vstd::arithmetic::div_mod::lemma_div_is_ordered(near, far, denominator);
    if near_below < far_below {
        if near_weight > 0 {
            assert(samples[near_below + 1] <= samples[far_below]);
        } else {
            assert(samples[near_below] <= samples[far_below]);
        }
    } else {
        assert(near_below == far_below);
        assert(near_weight <= far_weight);
        if near_weight > 0 {
            let low = samples[near_below] as int;
            let high = samples[near_below + 1] as int;
            let near_mixed = low * (denominator - near_weight) + high * near_weight;
            let far_mixed = low * (denominator - far_weight) + high * far_weight;
            assert(near_mixed <= far_mixed) by (nonlinear_arith)
                requires
                    near_mixed == low * (denominator - near_weight) + high * near_weight,
                    far_mixed == low * (denominator - far_weight) + high * far_weight,
                    low <= high,
                    near_weight <= far_weight,
            ;
            vstd::arithmetic::div_mod::lemma_div_is_ordered(near_mixed, far_mixed, denominator);
        }
    }
}

/// The `numerator / denominator` quantile of `v`, which is an order
/// statistic where `v` is sorted: see [`spec_quantile`].
pub fn quantile(v: &Vec<u64>, numerator: u64, denominator: u64) -> (value: u64)
    requires
        0 < v.len(),
        0 < denominator,
        numerator <= denominator,
    ensures
        value == spec_quantile(v@, numerator as int, denominator as int),
{
    let len: u128 = v.len() as u128;
    proof {
        lemma_quantile_position(v.len() as int, numerator as int, denominator as int);
        assert((len - 1) * numerator <= 0xffff_ffff_ffff_ffff * 0xffff_ffff_ffff_ffff)
            by (nonlinear_arith)
            requires
                0 < len <= 0xffff_ffff_ffff_ffff,
                numerator <= 0xffff_ffff_ffff_ffff,
        ;
    }
    let position: u128 = (len - 1) * (numerator as u128);
    let below: usize = (position / (denominator as u128)) as usize;
    let weight: u128 = position % (denominator as u128);
    if weight == 0 {
        return v[below];
    }
    let low: u128 = v[below] as u128;
    let high: u128 = v[below + 1] as u128;
    let rest: u128 = denominator as u128 - weight;
    proof {
        if low <= high {
            lemma_interpolation_bounds(
                low as int,
                high as int,
                weight as int,
                denominator as int,
            );
        } else {
            lemma_interpolation_bounds(high as int, low as int, rest as int, denominator as int);
        }
        assert(high * denominator <= 0xffff_ffff_ffff_ffff * 0xffff_ffff_ffff_ffff)
            by (nonlinear_arith)
            requires
                0 <= high <= 0xffff_ffff_ffff_ffff,
                0 <= denominator <= 0xffff_ffff_ffff_ffff,
        ;
        assert(low * denominator <= 0xffff_ffff_ffff_ffff * 0xffff_ffff_ffff_ffff)
            by (nonlinear_arith)
            requires
                0 <= low <= 0xffff_ffff_ffff_ffff,
                0 <= denominator <= 0xffff_ffff_ffff_ffff,
        ;
        assert(0 <= low * rest <= low * rest + high * weight) by (nonlinear_arith)
            requires
                0 <= low,
                0 <= rest,
                0 <= high,
                0 <= weight,
        ;
        assert(0 <= high * weight <= low * rest + high * weight) by (nonlinear_arith)
            requires
                0 <= low,
                0 <= rest,
                0 <= high,
                0 <= weight,
        ;
    }
    ((low * rest + high * weight) / (denominator as u128)) as u64
}

/// Draws from `low..high` with `rand`'s thread-local generator.
///
/// Trusted: `Rng::gen_range` returns a value of the half-open range it is
/// given, and panics only on an empty one, which `requires` leaves out.
#[verifier::external_body]
fn random_in_range(low: u64, high: u64) -> (drawn: u64)
    requires
        low < high,
    ensures
        low <= drawn < high,
{
    rand::Rng::gen_range(&mut rand::thread_rng(), low..high)
}

/// A retransmit timer around `timeout_base`: a value drawn from the upper
/// half of `timeout_base / 2` up to, but not including, three halves of
/// `timeout_base`. A base under two leaves no choice and is returned as it is;
/// the upper end stops at the largest value a timer can hold.
pub fn fuzz_timeout(timeout_base: u64) -> (timeout: u64)
    ensures
        timeout_base / 2 <= timeout_base - timeout_base / 2 <= timeout,
        timeout <= timeout_base + timeout_base / 2,
        2 <= timeout_base ==> timeout < timeout_base + timeout_base / 2,
        timeout_base < 2 ==> timeout == timeout_base,
{
    let half = timeout_base / 2;
    let low = timeout_base - half;
    let high = if timeout_base <= u64::MAX - half {
        timeout_base + half
    } else {
        u64::MAX
    };
    if low < high {
        random_in_range(low, high)
    } else {
        low
    }
}

} // verus!
