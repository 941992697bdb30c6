//! Live quality metrics of a stress test, accumulated over integer
//! units: latencies in microseconds, loss in hundredths of a percent,
//! throughput in kilobits per second.

use vstd::prelude::*;
use vstd::arithmetic::div_mod::lemma_multiply_divide_le;

verus! {

/// Snapshot of the metrics a running test publishes.
#[derive(Clone, Copy, Debug, PartialEq, Eq, Structural)]
pub struct TestMetrics {
    /// Arithmetic mean of the observed round-trip latencies, microseconds.
    pub latency_micros: u64,
    /// `(sent - received) / sent`, in hundredths of a percent.
    pub packet_loss_centi_percent: u32,
    /// Placeholder throughput estimate: one kilobit per second per
    /// received packet.
    pub throughput_kbps: u32,
    /// Population standard deviation of the latencies, rounded down,
    /// microseconds.
    pub jitter_micros: u64,
    pub packets_sent: u32,
    pub packets_received: u32,
    /// Unix time of the snapshot, milliseconds.
    pub timestamp: u64,
}

/// No more packets come back than went out.
pub open spec fn metrics_wf(m: TestMetrics) -> bool {
    m.packets_received <= m.packets_sent
}

impl TestMetrics {
    /// The zeroed snapshot at the given unix time.
    pub open spec fn fresh_spec(now_unix_ms: u64) -> TestMetrics {
        TestMetrics {
            latency_micros: 0,
            packet_loss_centi_percent: 0,
            throughput_kbps: 0,
            jitter_micros: 0,
            packets_sent: 0,
            packets_received: 0,
            timestamp: now_unix_ms,
        }
    }

    /// A zeroed snapshot taken at the given unix time.
    pub fn fresh(now_unix_ms: u64) -> (r: TestMetrics)
        ensures
            r == TestMetrics::fresh_spec(now_unix_ms),
            metrics_wf(r),
    {
        TestMetrics {
            latency_micros: 0,
            packet_loss_centi_percent: 0,
            throughput_kbps: 0,
            jitter_micros: 0,
            packets_sent: 0,
            packets_received: 0,
            timestamp: now_unix_ms,
        }
    }
}

/// Sum of a sequence of latencies.
pub open spec fn sum_lat(s: Seq<u32>) -> int
    decreases s.len(),
{
    if s.len() == 0 {
        0
    } else {
        sum_lat(s.drop_last()) + s.last()
    }
}

/// Sum of squared deviations from `m`.
pub open spec fn sum_sq_dev(s: Seq<u32>, m: int) -> int
    decreases s.len(),
{
    if s.len() == 0 {
        0
    } else {
        sum_sq_dev(s.drop_last(), m) + (s.last() - m) * (s.last() - m)
    }
}

/// Arithmetic mean, rounded down; meaningful only for non-empty `s`.
pub open spec fn mean_of(s: Seq<u32>) -> int {
    sum_lat(s) / s.len() as int
}

/// Population variance about the rounded mean, rounded down.
pub open spec fn variance_of(s: Seq<u32>) -> int {
    sum_sq_dev(s, mean_of(s)) / s.len() as int
}

/// `r` is the integer square root of `n`.
pub open spec fn is_isqrt(r: int, n: int) -> bool {
    r >= 0 && r * r <= n < (r + 1) * (r + 1)
}

proof fn lemma_sum_lat_bound(s: Seq<u32>)
    ensures
        0 <= sum_lat(s) <= s.len() * 0xFFFF_FFFF,
    decreases s.len(),
{
    if s.len() > 0 {
        lemma_sum_lat_bound(s.drop_last());
        assert((s.len() - 1) * 0xFFFF_FFFF + 0xFFFF_FFFF == s.len() * 0xFFFF_FFFF)
            by (nonlinear_arith);
    }
}

proof fn lemma_sum_sq_dev_bound(s: Seq<u32>, m: int)
    requires
        0 <= m <= 0xFFFF_FFFF,
    ensures
        0 <= sum_sq_dev(s, m) <= s.len() * (0xFFFF_FFFF * 0xFFFF_FFFF),
    decreases s.len(),
{
    if s.len() > 0 {
        lemma_sum_sq_dev_bound(s.drop_last(), m);
        let d = s.last() - m;
        assert(0 <= d * d <= 0xFFFF_FFFF * 0xFFFF_FFFF) by (nonlinear_arith)
            requires -0xFFFF_FFFF <= d <= 0xFFFF_FFFF;
        assert((s.len() - 1) * (0xFFFF_FFFF * 0xFFFF_FFFF) + 0xFFFF_FFFF * 0xFFFF_FFFF == s.len()
            * (0xFFFF_FFFF * 0xFFFF_FFFF)) by (nonlinear_arith);
    }
}

/// The rounded mean of latencies never exceeds the largest latency value.
pub proof fn lemma_mean_bound(s: Seq<u32>)
    requires
        s.len() > 0,
    ensures
        0 <= mean_of(s) <= 0xFFFF_FFFF,
{
    lemma_sum_lat_bound(s);
    lemma_multiply_divide_le(sum_lat(s), s.len() as int, 0xFFFF_FFFF);
    vstd::arithmetic::div_mod::lemma_div_pos_is_pos(sum_lat(s), s.len() as int);
}

/// The variance about the rounded mean fits in 64 bits.
pub proof fn lemma_variance_bound(s: Seq<u32>)
    requires
        s.len() > 0,
    ensures
        0 <= variance_of(s) <= 0xFFFF_FFFF * 0xFFFF_FFFF,
{
    lemma_mean_bound(s);
    lemma_sum_sq_dev_bound(s, mean_of(s));
    lemma_multiply_divide_le(sum_sq_dev(s, mean_of(s)), s.len() as int,
        0xFFFF_FFFFint * 0xFFFF_FFFFint);
    vstd::arithmetic::div_mod::lemma_div_pos_is_pos(sum_sq_dev(s, mean_of(s)), s.len() as int);
}

/// Integer square root by binary search.
pub fn isqrt(n: u64) -> (r: u64)
    ensures
        is_isqrt(r as int, n as int),
{
    let mut lo: u64 = 0;
    let mut hi: u64 = 0xFFFF_FFFF;
    proof {
        assert((0xFFFF_FFFFu64 as int + 1) * (0xFFFF_FFFFu64 as int + 1) > n as int);
    }
    while lo < hi
        invariant
            lo <= hi <= 0xFFFF_FFFF,
            lo * lo <= n as int,
            (hi + 1) * (hi + 1) > n as int,
        decreases hi - lo,
    {
        let mid = lo + (hi - lo + 1) / 2;
        proof {
            assert(0 <= (mid as int) * (mid as int) <= 0x1_0000_0000 * 0x1_0000_0000)
                by (nonlinear_arith)
                requires 0 <= mid <= 0x1_0000_0000;
        }
        if (mid as u128) * (mid as u128) <= n as u128 {
            lo = mid;
        } else {
            hi = mid - 1;
        }
    }
    lo
}

/// Recomputes a metrics snapshot from the cumulative counters and the
/// observed latencies, as the stress loop publishes it:
/// loss is `(sent - received) / sent` in hundredths of a percent, zero
/// while nothing was sent; latency the rounded mean and jitter the
/// rounded-down square root of the population variance, both zero
/// while no latency was observed; throughput one kilobit per second
/// per received packet.
pub fn update_metrics(
    metrics: &mut TestMetrics,
    sent: u32,
    received: u32,
    latencies: &Vec<u32>,
    now_unix_ms: u64,
)
    requires
        received <= sent,
        latencies@.len() <= 0xFFFF_FFFF,
    ensures
        final(metrics).packets_sent == sent,
        final(metrics).packets_received == received,
        final(metrics).throughput_kbps == received,
        final(metrics).timestamp == now_unix_ms,
        final(metrics).packet_loss_centi_percent as int == if sent > 0 {
            ((sent - received) * 10000) / (sent as int)
        } else {
            0
        },
        final(metrics).packet_loss_centi_percent <= 10000,
        latencies@.len() > 0 ==> {
            &&& final(metrics).latency_micros as int == mean_of(latencies@)
            &&& is_isqrt(final(metrics).jitter_micros as int, variance_of(latencies@))
        },
        latencies@.len() == 0 ==> {
            &&& final(metrics).latency_micros == 0
            &&& final(metrics).jitter_micros == 0
        },
        metrics_wf(*final(metrics)),
{
    metrics.packets_sent = sent;
    metrics.packets_received = received;

    if sent > 0 {
        let lost = sent - received;
        let loss = ((lost as u64) * 10000) / (sent as u64);
        proof {
            lemma_multiply_divide_le((lost as int) * 10000, sent as int, 10000);
            assert((lost as int) * 10000 <= (sent as int) * 10000) by (nonlinear_arith)
                requires lost <= sent;
        }
        metrics.packet_loss_centi_percent = loss as u32;
    } else {
        metrics.packet_loss_centi_percent = 0;
    }

    let n = latencies.len();
    if n > 0 {
        let mut total: u64 = 0;
        let mut i: usize = 0;
        while i < n
            invariant
                0 <= i <= n,
                n == latencies@.len() <= 0xFFFF_FFFF,
                total as int == sum_lat(latencies@.subrange(0, i as int)),
                total as int <= i * 0xFFFF_FFFF,
            decreases n - i,
        {
            proof {
                assert(latencies@.subrange(0, i + 1).drop_last() =~= latencies@.subrange(
                    0, i as int));
                assert((i + 1) * 0xFFFF_FFFF == i * 0xFFFF_FFFF + 0xFFFF_FFFF)
                    by (nonlinear_arith);
                assert(i * 0xFFFF_FFFF <= 0xFFFF_FFFF * 0xFFFF_FFFF) by (nonlinear_arith)
                    requires 0 <= i <= 0xFFFF_FFFF;
            }
            total = total + (latencies[i] as u64);
            i = i + 1;
        }
        proof {
            assert(latencies@.subrange(0, n as int) =~= latencies@);
        }
        let mean = total / (n as u64);
        proof {
            lemma_mean_bound(latencies@);
            assert(mean as int == mean_of(latencies@));
        }
        metrics.latency_micros = mean;

        let mut ssd: u128 = 0;
        let mut i: usize = 0;
        while i < n
            invariant
                0 <= i <= n,
                n == latencies@.len() <= 0xFFFF_FFFF,
                mean <= 0xFFFF_FFFF,
                ssd as int == sum_sq_dev(latencies@.subrange(0, i as int), mean as int),
                ssd as int <= i * (0xFFFF_FFFF * 0xFFFF_FFFF),
            decreases n - i,
        {
            let x = latencies[i] as u64;
            let d: u64 = if x >= mean {
                x - mean
            } else {
                mean - x
            };
            proof {
                assert(0 <= (d as int) * (d as int) <= 0xFFFF_FFFF * 0xFFFF_FFFF)
                    by (nonlinear_arith)
                    requires 0 <= d <= 0xFFFF_FFFF;
            }
            let dd: u128 = (d as u128) * (d as u128);
            proof {
                assert(latencies@.subrange(0, i + 1).drop_last() =~= latencies@.subrange(
                    0, i as int));
                let e = latencies@[i as int] as int - mean as int;
                assert(dd as int == e * e) by (nonlinear_arith)
                    requires
                        dd as int == (d as int) * (d as int),
                        d as int == if e >= 0 { e } else { -e };
                assert((i + 1) * (0xFFFF_FFFF * 0xFFFF_FFFF) == i * (0xFFFF_FFFF * 0xFFFF_FFFF)
                    + 0xFFFF_FFFF * 0xFFFF_FFFF) by (nonlinear_arith);
                assert(i * (0xFFFF_FFFF * 0xFFFF_FFFF) + 0xFFFF_FFFF * 0xFFFF_FFFF
                    <= 0x1_0000_0000 * (0xFFFF_FFFF * 0xFFFF_FFFF)) by (nonlinear_arith)
                    requires 0 <= i <= 0xFFFF_FFFE;
            }
            ssd = ssd + dd;
            i = i + 1;
        }
        proof {
            assert(latencies@.subrange(0, n as int) =~= latencies@);
        }
        let variance = ssd / (n as u128);
        proof {
            lemma_variance_bound(latencies@);
            lemma_sum_sq_dev_bound(latencies@, mean as int);
            assert(variance as int == variance_of(latencies@));
        }
        metrics.jitter_micros = isqrt(variance as u64);
    } else {
        metrics.latency_micros = 0;
        metrics.jitter_micros = 0;
    }

    metrics.throughput_kbps = received;
    metrics.timestamp = now_unix_ms;
}

} // verus!
