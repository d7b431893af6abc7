//! What a run reports.
//!
//! Every figure is exact: a rate, a share or a time in milliseconds is a fraction of two integers,
//! and nothing is rounded before it is shown.
use vstd::prelude::*;

use crate::config::Transport;

verus! {

/// A fraction that is not negative.
#[derive(Debug, Clone, Copy, PartialEq, Eq, Structural)]
pub struct Ratio {
    pub num: u128,
    pub den: u128,
}

impl Ratio {
    /// That the denominator is not zero.
    pub open spec fn wf(self) -> bool {
        self.den > 0
    }

    /// That one fraction is at most another.
    pub open spec fn at_most(self, other: Ratio) -> bool {
        self.num * other.den <= other.num * self.den
    }

    /// The fraction that is zero.
    pub open spec fn nothing() -> Ratio {
        Ratio { num: 0, den: 1 }
    }

    /// The fraction that is zero.
    pub fn zero() -> (r: Ratio)
        ensures
            r == Ratio::nothing(),
    {
        Ratio { num: 0, den: 1 }
    }
}

impl Default for Ratio {
    fn default() -> (r: Ratio)
        ensures
            r == Ratio::nothing(),
    {
        Ratio::zero()
    }
}

/// Which run a report is of.
#[derive(Debug, Clone)]
pub struct RunMeta {
    pub session_id: u64,
    pub version: u16,
    pub host: String,
    pub transport: Transport,
    pub started_unix_ms: i128,
    pub finished_unix_ms: i128,
}

/// What a run was asked to do.
#[derive(Debug, Clone, Copy)]
pub struct RunConfigSnapshot {
    pub streams: u16,
    pub duration_ms: u64,
    pub warmup_ms: u64,
    pub payload_bytes: usize,
    pub rate_bps: Option<u64>,
    pub interval_ms: u64,
}

/// The figures of one interval of a run.
#[derive(Debug, Clone, Copy, PartialEq, Eq, Structural)]
pub struct IntervalStats {
    pub index: u64,
    pub start_ms: u64,
    pub end_ms: u64,
    pub bytes: u64,
    pub packets_sent: u64,
    pub packets_acked: u64,
    pub packets_lost: u64,
    pub throughput_bps: Ratio,
    pub packet_rate_pps: Ratio,
    pub loss_pct: Ratio,
    pub jitter_ms: Ratio,
    pub p50_ms: Ratio,
    pub p95_ms: Ratio,
    pub p99_ms: Ratio,
}

impl IntervalStats {
    /// The figures of an interval in which nothing happened.
    pub open spec fn nothing() -> IntervalStats {
        IntervalStats {
            index: 0,
            start_ms: 0,
            end_ms: 0,
            bytes: 0,
            packets_sent: 0,
            packets_acked: 0,
            packets_lost: 0,
            throughput_bps: Ratio::nothing(),
            packet_rate_pps: Ratio::nothing(),
            loss_pct: Ratio::nothing(),
            jitter_ms: Ratio::nothing(),
            p50_ms: Ratio::nothing(),
            p95_ms: Ratio::nothing(),
            p99_ms: Ratio::nothing(),
        }
    }
}

impl Default for IntervalStats {
    fn default() -> (r: IntervalStats)
        ensures
            r == IntervalStats::nothing(),
    {
        IntervalStats {
            index: 0,
            start_ms: 0,
            end_ms: 0,
            bytes: 0,
            packets_sent: 0,
            packets_acked: 0,
            packets_lost: 0,
            throughput_bps: Ratio::zero(),
            packet_rate_pps: Ratio::zero(),
            loss_pct: Ratio::zero(),
            jitter_ms: Ratio::zero(),
            p50_ms: Ratio::zero(),
            p95_ms: Ratio::zero(),
            p99_ms: Ratio::zero(),
        }
    }
}

/// The figures of one stream of a run.
#[derive(Debug, Clone, Copy, PartialEq, Eq, Structural)]
pub struct StreamStats {
    pub stream_id: u32,
    pub packets_sent: u64,
    pub packets_acked: u64,
    pub packets_lost: u64,
    pub packets_reordered: u64,
    pub bytes: u64,
    pub throughput_bps: Ratio,
    pub jitter_ms: Ratio,
    pub p50_ms: Ratio,
    pub p95_ms: Ratio,
    pub p99_ms: Ratio,
}

impl StreamStats {
    /// The figures of a stream that sent nothing.
    pub open spec fn nothing() -> StreamStats {
        StreamStats {
            stream_id: 0,
            packets_sent: 0,
            packets_acked: 0,
            packets_lost: 0,
            packets_reordered: 0,
            bytes: 0,
            throughput_bps: Ratio::nothing(),
            jitter_ms: Ratio::nothing(),
            p50_ms: Ratio::nothing(),
            p95_ms: Ratio::nothing(),
            p99_ms: Ratio::nothing(),
        }
    }
}

impl Default for StreamStats {
    fn default() -> (r: StreamStats)
        ensures
            r == StreamStats::nothing(),
    {
        StreamStats {
            stream_id: 0,
            packets_sent: 0,
            packets_acked: 0,
            packets_lost: 0,
            packets_reordered: 0,
            bytes: 0,
            throughput_bps: Ratio::zero(),
            jitter_ms: Ratio::zero(),
            p50_ms: Ratio::zero(),
            p95_ms: Ratio::zero(),
            p99_ms: Ratio::zero(),
        }
    }
}

/// The figures of a whole run.
#[derive(Debug, Clone, Copy, PartialEq, Eq, Structural)]
pub struct AggregateStats {
    pub packets_sent: u64,
    pub packets_acked: u64,
    pub packets_lost: u64,
    pub packets_reordered: u64,
    pub bytes: u64,
    pub throughput_bps: Ratio,
    pub packet_rate_pps: Ratio,
    pub loss_pct: Ratio,
    pub jitter_ms: Ratio,
    pub p50_ms: Ratio,
    pub p95_ms: Ratio,
    pub p99_ms: Ratio,
}

impl AggregateStats {
    /// The figures of a run that sent nothing.
    pub open spec fn nothing() -> AggregateStats {
        AggregateStats {
            packets_sent: 0,
            packets_acked: 0,
            packets_lost: 0,
            packets_reordered: 0,
            bytes: 0,
            throughput_bps: Ratio::nothing(),
            packet_rate_pps: Ratio::nothing(),
            loss_pct: Ratio::nothing(),
            jitter_ms: Ratio::nothing(),
            p50_ms: Ratio::nothing(),
            p95_ms: Ratio::nothing(),
            p99_ms: Ratio::nothing(),
        }
    }
}

impl Default for AggregateStats {
    fn default() -> (r: AggregateStats)
        ensures
            r == AggregateStats::nothing(),
    {
        AggregateStats {
            packets_sent: 0,
            packets_acked: 0,
            packets_lost: 0,
            packets_reordered: 0,
            bytes: 0,
            throughput_bps: Ratio::zero(),
            packet_rate_pps: Ratio::zero(),
            loss_pct: Ratio::zero(),
            jitter_ms: Ratio::zero(),
            p50_ms: Ratio::zero(),
            p95_ms: Ratio::zero(),
            p99_ms: Ratio::zero(),
        }
    }
}

/// How many answers came within a time.
#[derive(Debug, Clone, Copy, PartialEq, Eq, Structural)]
pub struct LatencyBucket {
    pub le_ms: u64,
    pub count: u64,
}

/// How many answers came within each of a row of times.
#[derive(Debug, Clone)]
pub struct LatencyHistogram {
    pub buckets: Vec<LatencyBucket>,
}

impl Default for LatencyHistogram {
    fn default() -> (r: LatencyHistogram)
        ensures
            r.buckets@ == Seq::<LatencyBucket>::empty(),
    {
        LatencyHistogram { buckets: Vec::new() }
    }
}

/// A piece of advice, with what speaks for it.
#[derive(Debug, Clone)]
pub struct Recommendation {
    pub label: String,
    pub score: Ratio,
    pub reason: String,
}

/// What a piece of advice says.
pub struct RecommendationView {
    pub label: Seq<char>,
    pub score: Ratio,
    pub reason: Seq<char>,
}

impl View for Recommendation {
    type V = RecommendationView;

    open spec fn view(&self) -> RecommendationView {
        RecommendationView { label: self.label@, score: self.score, reason: self.reason@ }
    }
}

/// What pieces of advice say.
pub open spec fn advice(s: Seq<Recommendation>) -> Seq<RecommendationView> {
    s.map_values(|r: Recommendation| r@)
}

/// The report of a run.
#[derive(Debug, Clone)]
pub struct RunReport {
    pub run_meta: RunMeta,
    pub config: RunConfigSnapshot,
    pub intervals: Vec<IntervalStats>,
    pub streams: Vec<StreamStats>,
    pub aggregate: AggregateStats,
    pub latency_histogram: LatencyHistogram,
    pub recommendations: Vec<Recommendation>,
}

} // verus!
