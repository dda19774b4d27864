//! Sliding-window health monitor for batch entropy quality.
//!
//! Scores are binary Shannon entropy estimates held in fixed point, as parts
//! per million of one full bit of entropy: a perfectly balanced batch scores
//! [`ENTROPY_SCALE`], a constant batch scores zero.  The logarithm is
//! computed with a 16-fractional-bit iterated-squaring method and rounded
//! down, so scores are deterministic integer approximations of the real
//! entropy value.  Status buckets compare the window sum against
//! `threshold * window length`, which is exact for the rational average.

use vstd::prelude::*;

use std::collections::VecDeque;
use vstd::arithmetic::div_mod::lemma_div_is_ordered;
use vstd::arithmetic::div_mod::lemma_div_multiples_vanish;
use vstd::arithmetic::div_mod::lemma_multiply_divide_lt;
use vstd::arithmetic::power2::pow2;

verus! {

/// Score of one full bit of entropy per bit, in parts per million.
pub const ENTROPY_SCALE: u32 = 1000000;

/// Lower bound of the `Excellent` bucket.
pub const EXCELLENT_THRESHOLD: u32 = 950000;

/// Lower bound of the `Good` bucket, and the admission gate.
pub const HEALTHY_THRESHOLD: u32 = 850000;

/// Lower bound of the `Degraded` bucket.
pub const DEGRADED_THRESHOLD: u32 = 700000;

/// Number of recent batch scores kept in the sliding window.
pub const WINDOW_SIZE: usize = 100;

/// Below this many samples the monitor always reports healthy.
pub const GRACE_SAMPLES: usize = 10;

/// Fixed-point one for the internal logarithm mantissa (2^16).
pub const MANTISSA_ONE: u64 = 65536;

/// Discrete pool health classification, derived from the window average.
#[derive(Clone, Copy, Debug, PartialEq, Eq, Structural)]
pub enum HealthStatus {
    Initializing,
    Excellent,
    Good,
    Degraded,
    Failed,
}

/// Number of bits equal to one in a batch.
pub open spec fn count_ones(bits: Seq<u8>) -> nat
    decreases bits.len(),
{
    if bits.len() == 0 {
        0
    } else {
        count_ones(bits.drop_last()) + if bits.last() == 1 {
            1nat
        } else {
            0nat
        }
    }
}

/// Floor of the base-two logarithm of `num / den`: the largest `e` with
/// `den * 2^e <= num`.
pub open spec fn spec_log2_floor(num: nat, den: nat) -> nat
    recommends
        1 <= den <= num,
    decreases num - den,
{
    if den == 0 || num < 2 * den {
        0
    } else {
        1 + spec_log2_floor(num, 2 * den)
    }
}

/// The logarithm mantissa: `num / den` scaled down into `[1, 2)` and held
/// with sixteen fractional bits.
pub open spec fn spec_mantissa(num: nat, den: nat) -> nat {
    num * (MANTISSA_ONE as nat) / (den * pow2(spec_log2_floor(num, den)))
}

/// The mantissa after `i` squaring steps of the fractional-bit iteration.
pub open spec fn frac_m(m: nat, i: nat) -> nat
    decreases i,
{
    if i == 0 {
        m
    } else {
        let s = frac_m(m, (i - 1) as nat) * frac_m(m, (i - 1) as nat) / (MANTISSA_ONE as nat);
        if s >= 2 * (MANTISSA_ONE as nat) {
            s / 2
        } else {
            s
        }
    }
}

/// The fractional bits of the base-two logarithm gathered by `i` squaring
/// steps, most significant bit first.
pub open spec fn frac_bits(m: nat, i: nat) -> nat
    decreases i,
{
    if i == 0 {
        0
    } else {
        let s = frac_m(m, (i - 1) as nat) * frac_m(m, (i - 1) as nat) / (MANTISSA_ONE as nat);
        2 * frac_bits(m, (i - 1) as nat) + if s >= 2 * (MANTISSA_ONE as nat) {
            1nat
        } else {
            0nat
        }
    }
}

/// Base-two logarithm of `num / den` in parts per million, rounded down:
/// the integer part plus sixteen fractional bits converted to ppm.
pub open spec fn spec_log2_ppm(num: nat, den: nat) -> nat {
    spec_log2_floor(num, den) * (ENTROPY_SCALE as nat) + frac_bits(spec_mantissa(num, den), 16) * (
    ENTROPY_SCALE as nat) / (MANTISSA_ONE as nat)
}

/// Fixed-point binary Shannon entropy of a batch with `k` one bits out of
/// `n`: `(k/n) * log2(n/k) + ((n-k)/n) * log2(n/(n-k))` in parts per
/// million, clamped to [`ENTROPY_SCALE`]; degenerate batches score zero.
pub open spec fn spec_entropy_score(k: nat, n: nat) -> u32 {
    if n == 0 || k == 0 || k == n {
        0u32
    } else {
        let h = (k * spec_log2_ppm(n, k) + ((n - k) as nat) * spec_log2_ppm(n, (n - k) as nat)) / n;
        if h >= ENTROPY_SCALE as nat {
            ENTROPY_SCALE
        } else {
            h as u32
        }
    }
}

/// The score assigned to one raw batch.
pub open spec fn spec_batch_score(bits: Seq<u8>) -> u32 {
    spec_entropy_score(count_ones(bits), bits.len())
}

/// The entropy score never exceeds one full bit per bit.
pub proof fn lemma_score_range(k: nat, n: nat)
    ensures
        spec_entropy_score(k, n) <= ENTROPY_SCALE,
{
}

/// A constant batch — all ones or all zeros — scores zero.
pub proof fn lemma_score_degenerate(k: nat, n: nat)
    requires
        k == 0 || k == n,
    ensures
        spec_entropy_score(k, n) == 0,
{
}

/// The score is symmetric in the two bit values: swapping the roles of the
/// one count and the zero count leaves it unchanged.
pub proof fn lemma_score_symmetric(k: nat, n: nat)
    requires
        k <= n,
    ensures
        spec_entropy_score(k, n) == spec_entropy_score((n - k) as nat, n),
{
}

proof fn lemma_frac_m_one(i: nat)
    ensures
        frac_m(MANTISSA_ONE as nat, i) == MANTISSA_ONE as nat,
        frac_bits(MANTISSA_ONE as nat, i) == 0,
    decreases i,
{
    if i > 0 {
        lemma_frac_m_one((i - 1) as nat);
        assert((MANTISSA_ONE as nat) * (MANTISSA_ONE as nat) / (MANTISSA_ONE as nat)
            == MANTISSA_ONE as nat) by {
            lemma_div_multiples_vanish(MANTISSA_ONE as int, MANTISSA_ONE as int);
            vstd::arithmetic::mul::lemma_mul_is_commutative(
                MANTISSA_ONE as int,
                MANTISSA_ONE as int,
            );
        };
    }
}

/// A perfectly balanced batch scores exactly one full bit per bit.
pub proof fn lemma_score_balanced(k: nat)
    requires
        k >= 1,
    ensures
        spec_entropy_score(k, 2 * k) == ENTROPY_SCALE,
{
    let n = 2 * k;
    assert(spec_log2_floor(n, k) == 1) by {
        assert(spec_log2_floor(2 * k, 2 * k) == 0);
    };
    assert(k * pow2(1) == 2 * k) by {
        vstd::arithmetic::power2::lemma2_to64();
    };
    assert(spec_mantissa(n, k) == n * (MANTISSA_ONE as nat) / n);
    assert(n * (MANTISSA_ONE as nat) / n == MANTISSA_ONE as nat) by {
        lemma_div_multiples_vanish(MANTISSA_ONE as int, n as int);
        vstd::arithmetic::mul::lemma_mul_is_commutative(n as int, MANTISSA_ONE as int);
    };
    lemma_frac_m_one(16);
    assert(spec_log2_ppm(n, k) == ENTROPY_SCALE as nat);
    let h = (k * spec_log2_ppm(n, k) + ((n - k) as nat) * spec_log2_ppm(n, (n - k) as nat)) / n;
    assert(k * (ENTROPY_SCALE as nat) + (n - k) * (ENTROPY_SCALE as nat) == n * (
    ENTROPY_SCALE as nat)) by (nonlinear_arith)
        requires
            n == 2 * k,
    ;
    assert(n * (ENTROPY_SCALE as nat) / n == ENTROPY_SCALE as nat) by {
        lemma_div_multiples_vanish(ENTROPY_SCALE as int, n as int);
        vstd::arithmetic::mul::lemma_mul_is_commutative(n as int, ENTROPY_SCALE as int);
    };
    assert(h == ENTROPY_SCALE as nat);
}

proof fn lemma_log2_floor_unique(num: nat, den: nat, e: nat)
    requires
        den >= 1,
        den * pow2(e) <= num,
        num < den * pow2(e + 1),
    ensures
        spec_log2_floor(num, den) == e,
    decreases e,
{
    vstd::arithmetic::power2::lemma_pow2_unfold(e + 1);
    if e == 0 {
        assert(pow2(0) == 1) by {
            vstd::arithmetic::power2::lemma2_to64();
        }
        assert(num < 2 * den) by (nonlinear_arith)
            requires
                num < den * pow2(1),
                pow2(1) == 2 * pow2(0),
                pow2(0) == 1,
        ;
    } else {
        assert(pow2(0) == 1 && pow2(1) == 2) by {
            vstd::arithmetic::power2::lemma2_to64();
        }
        vstd::arithmetic::power2::lemma_pow2_unfold(e);
        assert(pow2(e) >= 2) by {
            if e >= 2 {
                vstd::arithmetic::power2::lemma_pow2_strictly_increases(1, e);
            }
        };
        assert(num >= 2 * den) by (nonlinear_arith)
            requires
                den * pow2(e) <= num,
                pow2(e) >= 2,
                den >= 1,
        ;
        assert((2 * den) * pow2((e - 1) as nat) == den * pow2(e)) by (nonlinear_arith)
            requires
                pow2(e) == 2 * pow2((e - 1) as nat),
        ;
        assert((2 * den) * pow2(e) == den * pow2(e + 1)) by (nonlinear_arith)
            requires
                pow2(e + 1) == 2 * pow2(e),
        ;
        lemma_log2_floor_unique(num, 2 * den, (e - 1) as nat);
        assert(((e - 1) as nat) + 1 == e);
    }
}

/// Integer part and mantissa of the base-two logarithm of `num / den`.
fn log2_parts(num: u64, den: u64) -> (r: (u64, u64))
    requires
        1 <= den <= num,
    ensures
        r.0 == spec_log2_floor(num as nat, den as nat),
        r.1 == spec_mantissa(num as nat, den as nat),
        MANTISSA_ONE <= r.1 < 2 * MANTISSA_ONE,
        r.0 <= 63,
{
    let mut e: u64 = 0;
    let mut d: u64 = den;
    proof {
        assert(pow2(0) == 1) by {
            vstd::arithmetic::power2::lemma2_to64();
        }
    }
    while d <= num / 2
        invariant
            1 <= den <= num,
            d == den * pow2(e as nat),
            den <= d <= num,
            pow2(e as nat) <= d,
            e <= 63,
        decreases num - d,
    {
        proof {
            vstd::arithmetic::power2::lemma_pow2_unfold(e as nat + 1);
            assert(den * pow2(e as nat + 1) == 2 * (den * pow2(e as nat))) by (nonlinear_arith)
                requires
                    pow2(e as nat + 1) == 2 * pow2(e as nat),
            ;
            assert(2 * d <= num);
            assert(pow2(e as nat + 1) <= 2 * d);
            if e as nat + 1 > 63 {
                assert(pow2(64) > u64::MAX) by {
                    vstd::arithmetic::power2::lemma2_to64_rest();
                }
                assert(pow2(e as nat + 1) >= pow2(64)) by {
                    if e as nat + 1 > 64 {
                        vstd::arithmetic::power2::lemma_pow2_strictly_increases(
                            64,
                            e as nat + 1,
                        );
                    }
                };
                assert(false);
            }
        }
        d = d * 2;
        e = e + 1;
    }
    proof {
        assert(num < 2 * d) by {
            vstd::arithmetic::div_mod::lemma_fundamental_div_mod(num as int, 2);
        };
        vstd::arithmetic::power2::lemma_pow2_unfold(e as nat + 1);
        assert(den * pow2(e as nat + 1) == 2 * (den * pow2(e as nat))) by (nonlinear_arith)
            requires
                pow2(e as nat + 1) == 2 * pow2(e as nat),
        ;
        lemma_log2_floor_unique(num as nat, den as nat, e as nat);
    }
    let m_wide: u128 = (num as u128) * (MANTISSA_ONE as u128) / (d as u128);
    proof {
        assert((num as nat) * (MANTISSA_ONE as nat) / (d as nat) >= MANTISSA_ONE as nat) by {
            vstd::arithmetic::mul::lemma_mul_inequality(
                d as int,
                num as int,
                MANTISSA_ONE as int,
            );
            lemma_div_is_ordered(
                (d as int) * (MANTISSA_ONE as int),
                (num as int) * (MANTISSA_ONE as int),
                d as int,
            );
            lemma_div_multiples_vanish(MANTISSA_ONE as int, d as int);
            vstd::arithmetic::mul::lemma_mul_is_commutative(d as int, MANTISSA_ONE as int);
        };
        assert((num as nat) * (MANTISSA_ONE as nat) / (d as nat) < 2 * (MANTISSA_ONE as nat)) by {
            assert((num as int) * (MANTISSA_ONE as int) < (2 * (MANTISSA_ONE as int)) * (
            d as int)) by (nonlinear_arith)
                requires
                    num < 2 * d,
                    d >= 1,
            ;
            lemma_multiply_divide_lt(
                (num as int) * (MANTISSA_ONE as int),
                d as int,
                2 * (MANTISSA_ONE as int),
            );
        };
    }
    let m: u64 = m_wide as u64;
    (e, m)
}

/// Base-two logarithm of `num / den` in parts per million, rounded down.
fn log2_ppm(num: u64, den: u64) -> (r: u64)
    requires
        1 <= den <= num,
    ensures
        r == spec_log2_ppm(num as nat, den as nat),
        r <= 64 * ENTROPY_SCALE,
{
    let (e, m0) = log2_parts(num, den);
    let mut m: u64 = m0;
    let mut f: u64 = 0;
    let mut i: u64 = 0;
    proof {
        vstd::arithmetic::power2::lemma2_to64();
    }
    while i < 16
        invariant
            i <= 16,
            MANTISSA_ONE <= m0 < 2 * MANTISSA_ONE,
            m == frac_m(m0 as nat, i as nat),
            f == frac_bits(m0 as nat, i as nat),
            MANTISSA_ONE <= m < 2 * MANTISSA_ONE,
            f < pow2(i as nat),
        decreases 16 - i,
    {
        proof {
            vstd::arithmetic::power2::lemma2_to64();
            vstd::arithmetic::power2::lemma_pow2_unfold(i as nat + 1);
            assert(m * m <= u64::MAX) by (nonlinear_arith)
                requires
                    m < 2 * MANTISSA_ONE,
                    MANTISSA_ONE == 65536,
            ;
            assert(f <= 32767) by {
                if i < 15 {
                    vstd::arithmetic::power2::lemma_pow2_strictly_increases(i as nat, 15);
                }
            };
        }
        let s = m * m / MANTISSA_ONE;
        proof {
            assert(s >= MANTISSA_ONE) by {
                vstd::arithmetic::mul::lemma_mul_inequality(
                    MANTISSA_ONE as int,
                    m as int,
                    m as int,
                );
                vstd::arithmetic::mul::lemma_mul_inequality(
                    MANTISSA_ONE as int,
                    m as int,
                    MANTISSA_ONE as int,
                );
                assert((MANTISSA_ONE as int) * (MANTISSA_ONE as int) <= (m as int) * (m as int));
                lemma_div_is_ordered(
                    (MANTISSA_ONE as int) * (MANTISSA_ONE as int),
                    (m as int) * (m as int),
                    MANTISSA_ONE as int,
                );
                assert((MANTISSA_ONE as int) * (MANTISSA_ONE as int) / (MANTISSA_ONE as int)
                    == MANTISSA_ONE as int) by {
                    lemma_div_multiples_vanish(MANTISSA_ONE as int, MANTISSA_ONE as int);
                    vstd::arithmetic::mul::lemma_mul_is_commutative(
                        MANTISSA_ONE as int,
                        MANTISSA_ONE as int,
                    );
                };
            };
            assert(s < 4 * MANTISSA_ONE) by {
                assert((m as int) * (m as int) < (4 * (MANTISSA_ONE as int)) * (
                MANTISSA_ONE as int)) by (nonlinear_arith)
                    requires
                        m < 2 * MANTISSA_ONE,
                ;
                lemma_multiply_divide_lt(
                    (m as int) * (m as int),
                    MANTISSA_ONE as int,
                    4 * (MANTISSA_ONE as int),
                );
            };
        }
        if s >= 2 * MANTISSA_ONE {
            m = s / 2;
            f = 2 * f + 1;
        } else {
            m = s;
            f = 2 * f;
        }
        i = i + 1;
    }
    proof {
        assert(pow2(16) == 65536) by {
            vstd::arithmetic::power2::lemma2_to64();
        }
        assert(f * (ENTROPY_SCALE as u64) <= u64::MAX) by (nonlinear_arith)
            requires
                f < 65536,
                ENTROPY_SCALE == 1000000,
        ;
        assert((f as nat) * (ENTROPY_SCALE as nat) / (MANTISSA_ONE as nat) < ENTROPY_SCALE
            as nat) by {
            assert((f as int) * (ENTROPY_SCALE as int) < (ENTROPY_SCALE as int) * (
            MANTISSA_ONE as int)) by (nonlinear_arith)
                requires
                    f < MANTISSA_ONE,
                    MANTISSA_ONE == 65536,
                    ENTROPY_SCALE == 1000000,
            ;
            lemma_multiply_divide_lt(
                (f as int) * (ENTROPY_SCALE as int),
                MANTISSA_ONE as int,
                ENTROPY_SCALE as int,
            );
        };
        assert(e * (ENTROPY_SCALE as u64) <= 63 * (ENTROPY_SCALE as u64)) by (nonlinear_arith)
            requires
                e <= 63,
                ENTROPY_SCALE == 1000000,
        ;
    }
    e * ENTROPY_SCALE as u64 + f * (ENTROPY_SCALE as u64) / MANTISSA_ONE
}

/// Fixed-point binary Shannon entropy of a batch with `ones` one bits out
/// of `n` bits, in parts per million.
pub fn entropy_score(ones: u64, n: u64) -> (r: u32)
    requires
        ones <= n,
    ensures
        r == spec_entropy_score(ones as nat, n as nat),
{
    if n == 0 || ones == 0 || ones == n {
        return 0;
    }
    let l1 = log2_ppm(n, ones);
    let l0 = log2_ppm(n, n - ones);
    proof {
        assert((ones as int) * (l1 as int) <= u128::MAX && ((n - ones) as int) * (l0 as int)
            <= u128::MAX && (ones as int) * (l1 as int) + ((n - ones) as int) * (l0 as int)
            <= u128::MAX) by (nonlinear_arith)
            requires
                l1 <= 64 * 1000000,
                l0 <= 64 * 1000000,
                0 < ones <= n,
                n <= u64::MAX,
        ;
    }
    let h_wide: u128 = ((ones as u128) * (l1 as u128) + ((n - ones) as u128) * (l0 as u128)) / (
    n as u128);
    if h_wide >= ENTROPY_SCALE as u128 {
        ENTROPY_SCALE
    } else {
        h_wide as u32
    }
}

/// Score one batch: the fixed-point binary Shannon entropy of its bits,
/// in parts per million of one full bit of entropy per bit.
pub fn estimate_entropy(bits: &[u8]) -> (r: u32)
    ensures
        r == spec_batch_score(bits@),
{
    let mut ones: u64 = 0;
    let mut i: usize = 0;
    while i < bits.len()
        invariant
            i <= bits@.len(),
            ones == count_ones(bits@.take(i as int)),
            ones <= i,
        decreases bits.len() - i,
    {
        proof {
            assert(bits@.take(i + 1).drop_last() =~= bits@.take(i as int));
            assert(bits@.take(i + 1).last() == bits@[i as int]);
        }
        if bits[i] == 1 {
            ones += 1;
        }
        i += 1;
    }
    assert(bits@.take(bits@.len() as int) =~= bits@);
    entropy_score(ones, bits.len() as u64)
}

/// Sum of the scores in a window.
pub open spec fn sum_scores(w: Seq<u32>) -> int
    decreases w.len(),
{
    if w.len() == 0 {
        0
    } else {
        sum_scores(w.drop_last()) + w.last()
    }
}

/// A window after one more score: the score is appended and, past the
/// window capacity, the oldest score is evicted.
pub open spec fn spec_window_push(w: Seq<u32>, s: u32) -> Seq<u32> {
    if w.push(s).len() > WINDOW_SIZE {
        w.push(s).skip(1)
    } else {
        w.push(s)
    }
}

/// Healthy means: still in the startup grace period, or the window average
/// is at least the healthy threshold (compared exactly, as a rational).
pub open spec fn spec_is_healthy(w: Seq<u32>) -> bool {
    w.len() < GRACE_SAMPLES || sum_scores(w) >= (HEALTHY_THRESHOLD as int) * w.len()
}

/// The floor of the window average, zero for an empty window.
pub open spec fn spec_average(w: Seq<u32>) -> u32 {
    if w.len() == 0 {
        0u32
    } else {
        (sum_scores(w) / w.len() as int) as u32
    }
}

/// The status bucket of a window: `Initializing` with no samples, then
/// bucketed by the window average with inclusive lower boundaries.
pub open spec fn spec_status(w: Seq<u32>) -> HealthStatus {
    if w.len() == 0 {
        HealthStatus::Initializing
    } else if sum_scores(w) >= (EXCELLENT_THRESHOLD as int) * w.len() {
        HealthStatus::Excellent
    } else if sum_scores(w) >= (HEALTHY_THRESHOLD as int) * w.len() {
        HealthStatus::Good
    } else if sum_scores(w) >= (DEGRADED_THRESHOLD as int) * w.len() {
        HealthStatus::Degraded
    } else {
        HealthStatus::Failed
    }
}

/// The status is a pure function of the window and is bucketed by the
/// window average crossing the three thresholds, lower bounds inclusive:
/// with samples present, average >= 0.95 is `Excellent`, >= 0.85 `Good`,
/// >= 0.70 `Degraded`, and anything below `Failed` (averages compared
/// exactly as rationals, thresholds in parts per million).
pub proof fn lemma_status_buckets(w: Seq<u32>)
    ensures
        w.len() == 0 <==> spec_status(w) == HealthStatus::Initializing,
        w.len() > 0 ==> (spec_status(w) == HealthStatus::Excellent <==> sum_scores(w) >= (
        EXCELLENT_THRESHOLD as int) * w.len()),
        w.len() > 0 ==> (spec_status(w) == HealthStatus::Good <==> (HEALTHY_THRESHOLD as int)
            * w.len() <= sum_scores(w) < (EXCELLENT_THRESHOLD as int) * w.len()),
        w.len() > 0 ==> (spec_status(w) == HealthStatus::Degraded <==> (DEGRADED_THRESHOLD as int)
            * w.len() <= sum_scores(w) < (HEALTHY_THRESHOLD as int) * w.len()),
        w.len() > 0 ==> (spec_status(w) == HealthStatus::Failed <==> sum_scores(w) < (
        DEGRADED_THRESHOLD as int) * w.len()),
{
    vstd::arithmetic::mul::lemma_mul_inequality(
        DEGRADED_THRESHOLD as int,
        HEALTHY_THRESHOLD as int,
        w.len() as int,
    );
    vstd::arithmetic::mul::lemma_mul_inequality(
        HEALTHY_THRESHOLD as int,
        EXCELLENT_THRESHOLD as int,
        w.len() as int,
    );
    vstd::arithmetic::mul::lemma_mul_is_commutative(DEGRADED_THRESHOLD as int, w.len() as int);
    vstd::arithmetic::mul::lemma_mul_is_commutative(HEALTHY_THRESHOLD as int, w.len() as int);
    vstd::arithmetic::mul::lemma_mul_is_commutative(EXCELLENT_THRESHOLD as int, w.len() as int);
}

/// Sliding-window estimator of recent batch quality: keeps the last
/// [`WINDOW_SIZE`] batch scores and classifies the pool health from their
/// average.
pub struct HealthMonitor {
    recent_samples: VecDeque<u32>,
    window_size: usize,
    entropy_threshold: u32,
}

impl HealthMonitor {
    /// The recent score window, oldest first.
    pub closed spec fn window(&self) -> Seq<u32> {
        self.recent_samples@
    }

    /// The window never exceeds its capacity, every score is in range, and
    /// the configured parameters hold their documented values.
    pub open spec fn wf(&self) -> bool {
        &&& self.window().len() <= WINDOW_SIZE
        &&& forall|i: int|
            0 <= i < self.window().len() ==> #[trigger] self.window()[i] <= ENTROPY_SCALE
        &&& self.spec_window_size() == WINDOW_SIZE
        &&& self.spec_threshold() == HEALTHY_THRESHOLD
    }

    /// The configured window capacity.
    pub closed spec fn spec_window_size(&self) -> usize {
        self.window_size
    }

    /// The configured healthy threshold.
    pub closed spec fn spec_threshold(&self) -> u32 {
        self.entropy_threshold
    }

    /// A monitor with an empty window and the documented defaults.
    pub fn new() -> (r: Self)
        ensures
            r.wf(),
            r.window() == Seq::<u32>::empty(),
    {
        let r = HealthMonitor {
            recent_samples: VecDeque::with_capacity(WINDOW_SIZE),
            window_size: WINDOW_SIZE,
            entropy_threshold: HEALTHY_THRESHOLD,
        };
        assert(r.window() =~= Seq::<u32>::empty());
        r
    }

    /// Score one raw batch and push the score onto the window, evicting the
    /// oldest score once the window is full.
    pub fn update_statistics(&mut self, bits: &[u8])
        requires
            old(self).wf(),
        ensures
            final(self).wf(),
            final(self).window() == spec_window_push(old(self).window(), spec_batch_score(bits@)),
    {
        let score = estimate_entropy(bits);
        proof {
            lemma_score_range(count_ones(bits@), bits@.len());
        }
        self.recent_samples.push_back(score);
        if self.recent_samples.len() > self.window_size {
            self.recent_samples.pop_front();
        }
        proof {
            if old(self).window().push(score).len() > WINDOW_SIZE {
                assert(self.window() =~= spec_window_push(old(self).window(), score));
            } else {
                assert(self.window() =~= spec_window_push(old(self).window(), score));
            }
        }
    }

    /// Sum of the scores currently in the window.
    fn window_sum(&self) -> (r: u64)
        requires
            self.wf(),
        ensures
            r == sum_scores(self.window()),
    {
        let mut sum: u64 = 0;
        let mut i: usize = 0;
        while i < self.recent_samples.len()
            invariant
                self.wf(),
                i <= self.window().len(),
                sum == sum_scores(self.window().take(i as int)),
                sum <= i * (ENTROPY_SCALE as u64),
                i <= WINDOW_SIZE,
            decreases self.recent_samples.len() - i,
        {
            proof {
                assert(self.window().take(i + 1).drop_last() =~= self.window().take(i as int));
                assert(self.window().take(i + 1).last() == self.window()[i as int]);
                assert((i + 1) * (ENTROPY_SCALE as int) == i * (ENTROPY_SCALE as int)
                    + ENTROPY_SCALE as int) by (nonlinear_arith);
            }
            sum = sum + self.recent_samples[i] as u64;
            i += 1;
        }
        assert(self.window().take(self.window().len() as int) =~= self.window());
        sum
    }

    /// True while fewer than [`GRACE_SAMPLES`] samples exist, and thereafter
    /// exactly when the window average reaches the healthy threshold.
    pub fn is_healthy(&self) -> (r: bool)
        requires
            self.wf(),
        ensures
            r == spec_is_healthy(self.window()),
    {
        if self.recent_samples.len() < GRACE_SAMPLES {
            return true;
        }
        let sum = self.window_sum();
        let len = self.recent_samples.len() as u64;
        proof {
            assert((HEALTHY_THRESHOLD as int) * (len as int) <= u64::MAX) by (nonlinear_arith)
                requires
                    len <= 100,
                    HEALTHY_THRESHOLD == 850000,
            ;
        }
        sum >= (HEALTHY_THRESHOLD as u64) * len
    }

    /// The floor of the window average in parts per million, zero while the
    /// window is empty.
    pub fn average_entropy(&self) -> (r: u32)
        requires
            self.wf(),
        ensures
            r == spec_average(self.window()),
    {
        if self.recent_samples.len() == 0 {
            return 0;
        }
        let sum = self.window_sum();
        let len = self.recent_samples.len() as u64;
        let avg = sum / len;
        proof {
            assert(sum <= (WINDOW_SIZE as u64) * (ENTROPY_SCALE as u64)) by {
                lemma_sum_bound(self.window());
            };
            assert(avg <= sum);
        }
        avg as u32
    }

    /// The current status bucket of the window.
    pub fn current_status(&self) -> (r: HealthStatus)
        requires
            self.wf(),
        ensures
            r == spec_status(self.window()),
    {
        if self.recent_samples.len() == 0 {
            return HealthStatus::Initializing;
        }
        let sum = self.window_sum();
        let len = self.recent_samples.len() as u64;
        proof {
            assert((EXCELLENT_THRESHOLD as int) * (len as int) <= u64::MAX) by (nonlinear_arith)
                requires
                    len <= 100,
                    EXCELLENT_THRESHOLD == 950000,
            ;
        }
        if sum >= (EXCELLENT_THRESHOLD as u64) * len {
            HealthStatus::Excellent
        } else if sum >= (HEALTHY_THRESHOLD as u64) * len {
            HealthStatus::Good
        } else if sum >= (DEGRADED_THRESHOLD as u64) * len {
            HealthStatus::Degraded
        } else {
            HealthStatus::Failed
        }
    }
}

/// The window sum is bounded by the window capacity times the score scale.
proof fn lemma_sum_bound(w: Seq<u32>)
    requires
        forall|i: int| 0 <= i < w.len() ==> #[trigger] w[i] <= ENTROPY_SCALE,
    ensures
        sum_scores(w) <= w.len() * (ENTROPY_SCALE as int),
        sum_scores(w) >= 0,
    decreases w.len(),
{
    if w.len() > 0 {
        lemma_sum_bound(w.drop_last());
        assert((w.len() as int) * (ENTROPY_SCALE as int) == (w.len() - 1) * (ENTROPY_SCALE as int)
            + ENTROPY_SCALE as int) by (nonlinear_arith);
    }
}

} // verus!
