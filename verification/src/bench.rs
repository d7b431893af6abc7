//! One benchmark run, from its configuration to its report.
//!
//! A [`Benchmark`] is told what comes of each packet and when a tick of the clock comes, and gives
//! the report once the streams are done. Times are in nanoseconds, on a clock that does not go
//! back.
use vstd::prelude::*;

use crate::config::{RateMode, RunConfig, Transport};
use crate::figures::{millis, span_of, whole_ms};
use crate::history::{
    came_of, law_intervals_show_their_packets, law_report_shows_the_packets, packets_told, reports,
    shows_intervals, shows_run, shows_streams, times,
};
use crate::latency::{buckets_of, counts_in_time, law_histogram_counts_in_time};
use crate::meaning::is_whole_ms;
use crate::net::{PacketEvent, StreamRunSpec};
use crate::protocol::PROTOCOL_VERSION;
use crate::recorder::{
    acked, aggregate_of, carried, id_count, ids_of, interval_of, law_answers_are_bounded,
    law_ids_rise, lemma_part_of_sum, lemma_sum_by_ids, lost, over, reordered, sent,
    stream_stats_of, sum_by, totals_of, Recorder, RecorderView, StreamView, Totals,
};
use crate::report::{
    advice, AggregateStats, IntervalStats, Ratio, Recommendation, RecommendationView,
    RunConfigSnapshot, RunMeta, RunReport, StreamStats,
};
use crate::text::{decimal, push_decimal};

verus! {

/// The rate, in bits per second, that a run aims at where the choice is left to the program.
pub open spec fn auto_rate(transport: Transport) -> u64 {
    match transport {
        Transport::Tcp => 80_000_000_000,
        Transport::Udp => 2_000_000_000,
        Transport::Quic => 1_000_000_000,
    }
}

/// What is said of that choice.
pub open spec fn auto_reason(transport: Transport) -> Seq<char> {
    match transport {
        Transport::Tcp => "auto tuner selected high-throughput paced tcp mode"@,
        _ => "auto tuner selected "@ + decimal(auto_rate(transport) as nat)
            + " bps baseline for "@ + transport.name(),
    }
}

/// The rate that a run aims at, and what is said of it.
pub open spec fn resolved(rate: RateMode, transport: Transport) -> (
    Option<u64>,
    Seq<RecommendationView>,
) {
    match rate {
        RateMode::Bps(v) => (Some(v), Seq::empty()),
        RateMode::Auto => (
            Some(auto_rate(transport)),
            seq![
                RecommendationView {
                    label: "auto-rate-selected"@,
                    score: Ratio { num: auto_rate(transport) as u128, den: 1_000_000_000 },
                    reason: auto_reason(transport),
                },
            ],
        ),
    }
}

/// The rate that a run aims at, and what is said of it.
pub fn resolve_rate(rate: RateMode, transport: Transport) -> (r: (
    Option<u64>,
    Vec<Recommendation>,
))
    ensures
        r.0 == resolved(rate, transport).0,
        advice(r.1@) == resolved(rate, transport).1,
{
    let mut recommendations: Vec<Recommendation> = Vec::new();
    match rate {
        RateMode::Bps(v) => {
            assert(advice(recommendations@) =~= Seq::empty());
            (Some(v), recommendations)
        },
        RateMode::Auto => {
            let selected: u64 = match transport {
                Transport::Tcp => 80_000_000_000,
                Transport::Udp => 2_000_000_000,
                Transport::Quic => 1_000_000_000,
            };
            let reason: String = match transport {
                Transport::Tcp => "auto tuner selected high-throughput paced tcp mode".to_string(),
                _ => {
                    let mut text: String = "auto tuner selected ".to_string();
                    push_decimal(&mut text, selected);
                    text.append(" bps baseline for ");
                    text.append(transport.to_string().as_str());
                    text
                },
            };
            recommendations.push(
                Recommendation {
                    label: "auto-rate-selected".to_string(),
                    score: Ratio { num: selected as u128, den: 1_000_000_000 },
                    reason,
                },
            );
            assert(advice(recommendations@) =~= resolved(rate, transport).1);
            (Some(selected), recommendations)
        },
    }
}

/// The number of a session that is opened so many nanoseconds after 1970.
pub open spec fn session_of(unix_ns: u128) -> u64 {
    ((unix_ns % 0x1_0000_0000_0000_0000) as u64) ^ 0xA5A5_5A5A_4242_1919
}

/// The number of a session that is opened so many nanoseconds after 1970.
pub fn session_id_at(unix_ns: u128) -> (r: u64)
    ensures
        r == session_of(unix_ns),
{
    ((unix_ns % 0x1_0000_0000_0000_0000) as u64) ^ 0xA5A5_5A5A_4242_1919
}

/// The share of a rate that one of so many streams has: at least one bit per second.
pub open spec fn share_of(rate_bps: u64, streams: u16) -> u64 {
    let share = rate_bps as int / streams as int;
    if share < 1 {
        1
    } else {
        share as u64
    }
}

/// Together the streams aim at no more than the rate of the run, unless that is less than a bit
/// per second for each.
pub proof fn law_streams_share_the_rate(rate_bps: u64, streams: u16)
    requires
        streams > 0,
    ensures
        streams <= rate_bps ==> share_of(rate_bps, streams) * streams <= rate_bps,
        streams > rate_bps ==> share_of(rate_bps, streams) == 1,
        rate_bps < (share_of(rate_bps, streams) + 1) * streams,
{
    let r = rate_bps as int;
    let s = streams as int;
    assert((r / s) * s <= r) by (nonlinear_arith)
        requires
            r >= 0,
            s > 0,
    ;
    assert(r < s ==> r / s == 0) by (nonlinear_arith)
        requires
            r >= 0,
            s > 0,
    ;
    assert(r >= s ==> r / s >= 1) by (nonlinear_arith)
        requires
            r >= 0,
            s > 0,
    ;
    assert(r < (r / s + 1) * s && r / s <= r) by (nonlinear_arith)
        requires
            r >= 0,
            s > 0,
    ;
}

/// Each stream of a run is told what the run is to do, with its own number and its share of the
/// rate: all that the streams can have of it with the same for each, and at least a bit per second.
/// It waits three quarters of a second for an answer.
pub proof fn law_streams_are_told_of_the_run(bench: BenchmarkView, id: u32)
    requires
        bench.wf(),
    ensures
        ({
            let told = stream_spec_of(bench, id);
            &&& told.session_id == bench.session_id
            &&& told.stream_id == id
            &&& told.host == bench.cfg.host
            &&& told.transport == bench.cfg.transport
            &&& told.duration_ns == bench.cfg.duration_ns
            &&& told.warmup_ns == bench.cfg.warmup_ns
            &&& told.payload_bytes == bench.cfg.payload_bytes
            &&& told.token == bench.cfg.token
            &&& told.timeout_ns == 750 * 1_000_000
            &&& told.rate_bps is None <==> bench.rate_bps is None
            &&& told.rate_bps matches Some(share) ==> bench.rate_bps matches Some(all) ==> {
                &&& share >= 1
                &&& share == 1 || share * bench.cfg.streams <= all
                &&& all < (share + 1) * bench.cfg.streams
            }
        }),
{
    if let Some(all) = bench.rate_bps {
        law_streams_share_the_rate(all, bench.cfg.streams);
    }
}

/// The number of a session tells the time it was opened at, as far as 64 bits hold it: another time
/// has another number.
pub proof fn law_session_tells_its_time(unix_ns: u128, other_ns: u128)
    ensures
        session_of(unix_ns) ^ 0xA5A5_5A5A_4242_1919 == unix_ns % 0x1_0000_0000_0000_0000,
        session_of(unix_ns) == session_of(other_ns) <==> unix_ns % 0x1_0000_0000_0000_0000
            == other_ns % 0x1_0000_0000_0000_0000,
{
    let a = (unix_ns % 0x1_0000_0000_0000_0000) as u64;
    let b = (other_ns % 0x1_0000_0000_0000_0000) as u64;
    let key: u64 = 0xA5A5_5A5A_4242_1919;
    assert((a ^ key) ^ key == a) by (bit_vector);
    assert((b ^ key) ^ key == b) by (bit_vector);
}

/// A report says what the run was asked to do, with times in full milliseconds.
pub proof fn law_report_says_what_was_asked(cfg: RunConfig, rate_bps: Option<u64>)
    ensures
        ({
            let shown = snapshot_of(cfg, rate_bps);
            &&& shown.streams == cfg.streams
            &&& shown.payload_bytes == cfg.payload_bytes
            &&& shown.rate_bps == rate_bps
            &&& is_whole_ms(shown.duration_ms, cfg.duration_ns as int)
            &&& is_whole_ms(shown.warmup_ms, cfg.warmup_ns as int)
            &&& is_whole_ms(shown.interval_ms, cfg.interval_ns as int)
        }),
{
}

/// A run that was given a rate aims at that rate, whatever its transport is, and nothing is said of
/// it.
pub proof fn law_given_rate_is_kept(
    cfg: RunConfig,
    session_id: u64,
    host: Seq<char>,
    unix_ms: i128,
    now_ns: u128,
    bps: u64,
)
    requires
        cfg.rate == RateMode::Bps(bps),
    ensures
        resolved(cfg.rate, cfg.transport).0 == Some(bps),
        resolved(cfg.rate, cfg.transport).1.len() == 0,
        BenchmarkView::started(cfg, session_id, host, unix_ms, now_ns).rate_bps == Some(bps),
        BenchmarkView::started(cfg, session_id, host, unix_ms, now_ns).advice.len() == 0,
{
}

/// A run that was given no rate aims at eighty gigabits per second over TCP, two over UDP and one
/// over QUIC, and is told so: how many gigabits it is, and why.
pub proof fn law_chosen_rate_is_told(transport: Transport, tcp: Seq<char>, other: Seq<char>)
    requires
        tcp == "auto tuner selected high-throughput paced tcp mode"@,
        other == " bps baseline for "@ + transport.name(),
    ensures
        ({
            let (rate, told) = resolved(RateMode::Auto, transport);
            &&& rate matches Some(bps)
            &&& transport == Transport::Tcp ==> bps == 80_000_000_000
            &&& transport == Transport::Udp ==> bps == 2_000_000_000
            &&& transport == Transport::Quic ==> bps == 1_000_000_000
            &&& told.len() == 1
            &&& told[0].label == "auto-rate-selected"@
            &&& told[0].score.den > 0
            &&& told[0].score.num * 1_000_000_000 == bps * told[0].score.den
            &&& told[0].reason == if transport == Transport::Tcp {
                tcp
            } else {
                "auto tuner selected "@ + decimal(bps as nat) + other
            }
        }),
{
    assert("auto tuner selected "@ + decimal(auto_rate(transport) as nat) + other
        =~= "auto tuner selected "@ + decimal(auto_rate(transport) as nat) + " bps baseline for "@
        + transport.name());
}

/// That a piece of advice answers the loss of a run: above one per cent it is to go slower, with
/// what is left of a hundred per cent, and else to use more streams, with the gigabits per second.
pub open spec fn answers_loss(
    given: RecommendationView,
    loss_pct: Ratio,
    throughput_bps: Ratio,
) -> bool {
    if loss_pct.num > loss_pct.den {
        &&& given.label == "reduce target rate"@
        &&& given.reason == "packet loss above 1% indicates saturation"@
        &&& given.score.den > 0
        &&& given.score.num * loss_pct.den == (100 * loss_pct.den - loss_pct.num)
            * given.score.den
    } else {
        &&& given.label == "increase stream count"@
        &&& given.reason == "loss remains low; additional streams may raise throughput"@
        &&& given.score.den > 0
        &&& given.score.num * 1_000_000_000 * throughput_bps.den == throughput_bps.num
            * given.score.den
    }
}

/// The last advice of a report answers the loss that the report shows.
pub proof fn law_advice_answers_the_loss(run: RecorderView, span_ns: u128)
    requires
        run.wf(),
        run.packets_sent <= u64::MAX,
        run.bytes <= u64::MAX,
    ensures
        ({
            let all = aggregate_of(run, span_ns);
            answers_loss(closing_advice(run, span_ns), all.loss_pct, all.throughput_bps)
        }),
{
    let all = aggregate_of(run, span_ns);
    let given = closing_advice(run, span_ns);
    let sent = run.packets_sent as int;
    let lost = run.packets_lost as int;
    if sent > 0 && lost * 100 > sent {
        assert((100 * (sent - lost)) * sent == (100 * sent - lost * 100) * sent);
    } else {
        let bits = (run.bytes * 8) as int;
        let den = all.throughput_bps.den as int;
        assert(bits * 1_000_000_000 * den == (bits * 1_000_000_000) * den);
    }
}

/// What to do about the loss of a run, or about the lack of it.
pub open spec fn closing_advice(run: RecorderView, span_ns: u128) -> RecommendationView {
    if run.packets_lost * 100 > run.packets_sent {
        RecommendationView {
            label: "reduce target rate"@,
            score: Ratio {
                num: (100 * over(run.packets_sent as int, run.packets_lost as int)) as u128,
                den: run.packets_sent as u128,
            },
            reason: "packet loss above 1% indicates saturation"@,
        }
    } else {
        RecommendationView {
            label: "increase stream count"@,
            score: Ratio { num: (run.bytes * 8) as u128, den: span_of(span_ns) },
            reason: "loss remains low; additional streams may raise throughput"@,
        }
    }
}

/// A run under way.
pub struct Benchmark {
    cfg: RunConfig,
    session_id: u64,
    host: String,
    started_unix_ms: i128,
    rate_bps: Option<u64>,
    recommendations: Vec<Recommendation>,
    measurement_start_ns: u128,
    recorder: Recorder,
    before: Totals,
    intervals: Vec<IntervalStats>,
    last_tick_ns: Option<u128>,
}

/// What is known of a run under way.
#[verifier::ext_equal]
pub struct BenchmarkView {
    pub cfg: RunConfig,
    pub session_id: u64,
    pub host: Seq<char>,
    pub started_unix_ms: i128,
    pub rate_bps: Option<u64>,
    pub advice: Seq<RecommendationView>,
    /// When the warm-up ends.
    pub measurement_start_ns: u128,
    pub run: RecorderView,
    /// What had been counted when the last interval ended.
    pub before: Totals,
    pub intervals: Seq<IntervalStats>,
    pub last_tick_ns: Option<u128>,
}

impl View for Benchmark {
    type V = BenchmarkView;

    closed spec fn view(&self) -> BenchmarkView {
        BenchmarkView {
            cfg: self.cfg,
            session_id: self.session_id,
            host: self.host@,
            started_unix_ms: self.started_unix_ms,
            rate_bps: self.rate_bps,
            advice: advice(self.recommendations@),
            measurement_start_ns: self.measurement_start_ns,
            run: self.recorder@,
            before: self.before,
            intervals: self.intervals@,
            last_tick_ns: self.last_tick_ns,
        }
    }
}

/// The sum of a figure over some intervals.
pub open spec fn sum_of_intervals(
    intervals: Seq<IntervalStats>,
    figure: spec_fn(IntervalStats) -> nat,
) -> nat
    decreases intervals.len(),
{
    if intervals.len() == 0 {
        0
    } else {
        sum_of_intervals(intervals.drop_last(), figure) + figure(intervals.last())
    }
}

pub open spec fn interval_sent() -> spec_fn(IntervalStats) -> nat {
    |i: IntervalStats| i.packets_sent as nat
}

pub open spec fn interval_acked() -> spec_fn(IntervalStats) -> nat {
    |i: IntervalStats| i.packets_acked as nat
}

pub open spec fn interval_lost() -> spec_fn(IntervalStats) -> nat {
    |i: IntervalStats| i.packets_lost as nat
}

pub open spec fn interval_bytes() -> spec_fn(IntervalStats) -> nat {
    |i: IntervalStats| i.bytes as nat
}

impl BenchmarkView {
    /// What is known of a run when it starts.
    pub open spec fn started(
        cfg: RunConfig,
        session_id: u64,
        host: Seq<char>,
        unix_ms: i128,
        now_ns: u128,
    ) -> BenchmarkView {
        BenchmarkView {
            cfg,
            session_id,
            host,
            started_unix_ms: unix_ms,
            rate_bps: resolved(cfg.rate, cfg.transport).0,
            advice: resolved(cfg.rate, cfg.transport).1,
            measurement_start_ns: (now_ns + cfg.warmup_ns) as u128,
            run: RecorderView::fresh(),
            before: Totals::nothing(),
            intervals: Seq::empty(),
            last_tick_ns: None,
        }
    }

    /// What is known of a run after one more packet: packets of the warm-up do not count.
    pub open spec fn after_event(self, event: PacketEvent) -> BenchmarkView {
        if event.measured {
            BenchmarkView { run: self.run.after(event), ..self }
        } else {
            self
        }
    }

    /// How long the interval is that ends now: since the last one ended, or else since the
    /// measurement began, and as long as asked for where no time has passed.
    pub open spec fn interval_span(self, now_ns: u128) -> u128 {
        let since = match self.last_tick_ns {
            Some(tick) => tick,
            None => self.measurement_start_ns,
        };
        if now_ns <= since {
            self.cfg.interval_ns
        } else {
            (now_ns - since) as u128
        }
    }

    /// The figures of the interval that ends now.
    pub open spec fn interval_at(self, now_ns: u128) -> IntervalStats {
        interval_of(
            self.intervals.len() as u64,
            self.run,
            self.before,
            self.interval_span(now_ns),
            over(now_ns as int, self.measurement_start_ns as int) as u128,
        )
    }

    /// What is known of a run after a tick of the clock. Until the warm-up ends, no interval does.
    pub open spec fn after_tick(self, now_ns: u128) -> BenchmarkView {
        if now_ns < self.measurement_start_ns {
            self
        } else {
            BenchmarkView {
                run: self.run.interval_ended(),
                before: totals_of(self.run),
                intervals: self.intervals.push(self.interval_at(now_ns)),
                last_tick_ns: Some(now_ns),
                ..self
            }
        }
    }

    /// What holds of every run: it has streams and its intervals last, its packets add up, its
    /// intervals add up to what had been counted when the last one ended, and that is no more than
    /// what is counted now.
    pub open spec fn wf(self) -> bool {
        &&& self.cfg.streams > 0
        &&& self.cfg.interval_ns > 0
        &&& self.run.wf()
        &&& self.run.packets_sent <= u64::MAX
        &&& self.run.bytes <= u64::MAX
        &&& self.before.packets_sent <= self.run.packets_sent
        &&& self.before.packets_acked <= self.run.packets_acked
        &&& self.before.packets_lost <= self.run.packets_lost
        &&& self.before.bytes <= self.run.bytes
        &&& self.before.packets_sent == sum_of_intervals(self.intervals, interval_sent())
        &&& self.before.packets_acked == sum_of_intervals(self.intervals, interval_acked())
        &&& self.before.packets_lost == sum_of_intervals(self.intervals, interval_lost())
        &&& self.before.bytes == sum_of_intervals(self.intervals, interval_bytes())
        &&& forall|i: int| 0 <= i < self.intervals.len() ==> #[trigger] self.intervals[i].index == i
    }
}

/// When an interval ends, the intervals so far add up to all that has been counted.
pub proof fn law_intervals_add_up(bench: BenchmarkView, now_ns: u128)
    requires
        bench.wf(),
        bench.intervals.len() <= u64::MAX,
        now_ns >= bench.measurement_start_ns,
    ensures
        bench.after_tick(now_ns).wf(),
        sum_of_intervals(bench.after_tick(now_ns).intervals, interval_sent())
            == bench.run.packets_sent,
        sum_of_intervals(bench.after_tick(now_ns).intervals, interval_acked())
            == bench.run.packets_acked,
        sum_of_intervals(bench.after_tick(now_ns).intervals, interval_lost())
            == bench.run.packets_lost,
        sum_of_intervals(bench.after_tick(now_ns).intervals, interval_bytes()) == bench.run.bytes,
{
    let after = bench.after_tick(now_ns);
    assert(after.intervals.drop_last() =~= bench.intervals);
}

/// What a report says of the streams of a run, one row for each.
pub open spec fn rows_of(run: RecorderView, span_ns: u128) -> Seq<StreamStats> {
    ids_of(run.streams).map_values(|id: u32| stream_stats_of(id, run.streams[id], span_ns))
}

/// The numbers of the streams in some rows.
pub open spec fn row_ids(rows: Seq<StreamStats>) -> Seq<u32> {
    rows.map_values(|row: StreamStats| row.stream_id)
}

/// The sum of a figure over some rows.
pub open spec fn sum_of_rows(rows: Seq<StreamStats>, figure: spec_fn(StreamStats) -> nat) -> nat
    decreases rows.len(),
{
    if rows.len() == 0 {
        0
    } else {
        sum_of_rows(rows.drop_last(), figure) + figure(rows.last())
    }
}

pub open spec fn row_sent() -> spec_fn(StreamStats) -> nat {
    |row: StreamStats| row.packets_sent as nat
}

pub open spec fn row_acked() -> spec_fn(StreamStats) -> nat {
    |row: StreamStats| row.packets_acked as nat
}

pub open spec fn row_lost() -> spec_fn(StreamStats) -> nat {
    |row: StreamStats| row.packets_lost as nat
}

pub open spec fn row_reordered() -> spec_fn(StreamStats) -> nat {
    |row: StreamStats| row.packets_reordered as nat
}

pub open spec fn row_bytes() -> spec_fn(StreamStats) -> nat {
    |row: StreamStats| row.bytes as nat
}

/// That a figure of rows adds up as the figure of streams that it is taken from.
proof fn lemma_sum_of_rows(
    run: RecorderView,
    span_ns: u128,
    ids: Seq<u32>,
    row: spec_fn(StreamStats) -> nat,
    figure: spec_fn(StreamView) -> nat,
)
    requires
        forall|i: int|
            0 <= i < ids.len() ==> row(
                stream_stats_of(#[trigger] ids[i], run.streams[ids[i]], span_ns),
            ) == figure(run.streams[ids[i]]),
    ensures
        sum_of_rows(
            ids.map_values(|id: u32| stream_stats_of(id, run.streams[id], span_ns)),
            row,
        ) == sum_by(run.streams, ids, figure),
    decreases ids.len(),
{
    let rows = ids.map_values(|id: u32| stream_stats_of(id, run.streams[id], span_ns));
    if ids.len() > 0 {
        let before = ids.drop_last();
        assert forall|i: int| 0 <= i < before.len() implies row(
            stream_stats_of(#[trigger] before[i], run.streams[before[i]], span_ns),
        ) == figure(run.streams[before[i]]) by {
            assert(before[i] == ids[i]);
        }
        lemma_sum_of_rows(run, span_ns, before, row, figure);
        assert(rows.drop_last() =~= before.map_values(
            |id: u32| stream_stats_of(id, run.streams[id], span_ns),
        ));
        assert(ids[ids.len() - 1] == ids.last());
    }
}

/// The rows of a report add up to its aggregate. The numbers of their streams rise, and they are
/// those of the streams that the run has counted packets of.
pub proof fn law_rows_add_up(run: RecorderView, span_ns: u128)
    requires
        run.wf(),
        run.packets_sent <= u64::MAX,
        run.bytes <= u64::MAX,
    ensures
        ({
            let rows = rows_of(run, span_ns);
            let all = aggregate_of(run, span_ns);
            &&& sum_of_rows(rows, row_sent()) == all.packets_sent
            &&& sum_of_rows(rows, row_acked()) == all.packets_acked
            &&& sum_of_rows(rows, row_lost()) == all.packets_lost
            &&& sum_of_rows(rows, row_reordered()) == all.packets_reordered
            &&& sum_of_rows(rows, row_bytes()) == all.bytes
        }),
        forall|i: int, j: int|
            0 <= i < j < rows_of(run, span_ns).len() ==> #[trigger] rows_of(
                run,
                span_ns,
            )[i].stream_id < #[trigger] rows_of(run, span_ns)[j].stream_id,
        forall|id: u32| #[trigger]
            row_ids(rows_of(run, span_ns)).contains(id) <==> run.streams.contains_key(id),
{
    let ids = ids_of(run.streams);
    law_ids_rise(run.streams);
    assert(row_ids(rows_of(run, span_ns)) =~= ids);
    law_answers_are_bounded(run);
    assert forall|i: int| 0 <= i < ids.len() implies {
        let s = run.streams[#[trigger] ids[i]];
        s.packets_sent <= u64::MAX && s.packets_acked <= u64::MAX && s.packets_lost <= u64::MAX
            && s.packets_reordered <= u64::MAX && s.bytes <= u64::MAX
    } by {
        let id = ids[i];
        assert(ids.contains(id));
        assert(run.streams[id].wf());
        lemma_part_of_sum(run.streams, sent(), id, id_count());
        lemma_part_of_sum(run.streams, carried(), id, id_count());
    }
    lemma_sum_of_rows(run, span_ns, ids, row_sent(), sent());
    lemma_sum_of_rows(run, span_ns, ids, row_acked(), acked());
    lemma_sum_of_rows(run, span_ns, ids, row_lost(), lost());
    lemma_sum_of_rows(run, span_ns, ids, row_reordered(), reordered());
    lemma_sum_of_rows(run, span_ns, ids, row_bytes(), carried());
    lemma_sum_by_ids(run.streams, sent(), id_count());
    lemma_sum_by_ids(run.streams, acked(), id_count());
    lemma_sum_by_ids(run.streams, lost(), id_count());
    lemma_sum_by_ids(run.streams, reordered(), id_count());
    lemma_sum_by_ids(run.streams, carried(), id_count());
}

/// What a run is told of.
pub enum Happening {
    Packet(PacketEvent),
    Tick(u128),
}

impl BenchmarkView {
    /// What is known of a run after all that it is told of.
    pub open spec fn after_all(self, told: Seq<Happening>) -> BenchmarkView
        decreases told.len(),
    {
        if told.len() == 0 {
            self
        } else {
            let before = self.after_all(told.drop_last());
            match told.last() {
                Happening::Packet(event) => before.after_event(event),
                Happening::Tick(now_ns) => before.after_tick(now_ns),
            }
        }
    }
}

/// That no tick of the clock is before an earlier one.
pub open spec fn ticks_in_order(told: Seq<Happening>) -> bool {
    forall|i: int, j: int|
        0 <= i < j < told.len() && (#[trigger] told[i]) is Tick && (#[trigger] told[j]) is Tick
            ==> told[i]->Tick_0 <= told[j]->Tick_0
}

/// That the milliseconds up to each tick of the clock fit in 64 bits.
pub open spec fn ticks_fit(told: Seq<Happening>, start_ns: u128) -> bool {
    forall|i: int|
        0 <= i < told.len() && (#[trigger] told[i]) is Tick ==> (told[i]->Tick_0 - start_ns)
            / 1_000_000 <= u64::MAX
}

/// On a clock that does not go back, no interval ends before the one before it.
pub proof fn law_intervals_end_in_order(
    cfg: RunConfig,
    session_id: u64,
    host: Seq<char>,
    unix_ms: i128,
    now_ns: u128,
    told: Seq<Happening>,
)
    requires
        ticks_in_order(told),
        ticks_fit(told, (now_ns + cfg.warmup_ns) as u128),
    ensures
        ({
            let run = BenchmarkView::started(cfg, session_id, host, unix_ms, now_ns);
            let intervals = run.after_all(told).intervals;
            forall|i: int, j: int|
                0 <= i < j < intervals.len() ==> (#[trigger] intervals[i]).end_ms <= (
                #[trigger] intervals[j]).end_ms
        }),
{
    lemma_ends(BenchmarkView::started(cfg, session_id, host, unix_ms, now_ns), told);
}

/// That the intervals of a run end in order, and the last one with the last tick that ended one.
proof fn lemma_ends(run: BenchmarkView, told: Seq<Happening>)
    requires
        run.intervals.len() == 0,
        run.last_tick_ns is None,
        ticks_in_order(told),
        ticks_fit(told, run.measurement_start_ns),
    ensures
        ({
            let now = run.after_all(told);
            &&& now.measurement_start_ns == run.measurement_start_ns
            &&& forall|i: int, j: int|
                0 <= i < j < now.intervals.len() ==> (#[trigger] now.intervals[i]).end_ms <= (
                #[trigger] now.intervals[j]).end_ms
            &&& now.intervals.len() > 0 ==> {
                &&& now.last_tick_ns matches Some(tick)
                &&& now.measurement_start_ns <= tick
                &&& told.contains(Happening::Tick(tick))
                &&& now.intervals.last().end_ms == (tick - now.measurement_start_ns) / 1_000_000
            }
        }),
    decreases told.len(),
{
    if told.len() > 0 {
        let earlier = told.drop_last();
        assert forall|i: int, j: int|
            0 <= i < j < earlier.len() && (#[trigger] earlier[i]) is Tick && (
            #[trigger] earlier[j]) is Tick implies earlier[i]->Tick_0 <= earlier[j]->Tick_0 by {
            assert(earlier[i] == told[i] && earlier[j] == told[j]);
        }
        assert forall|i: int| 0 <= i < earlier.len() && (#[trigger] earlier[i]) is Tick implies (
        earlier[i]->Tick_0 - run.measurement_start_ns) / 1_000_000 <= u64::MAX by {
            assert(earlier[i] == told[i]);
        }
        lemma_ends(run, earlier);
        let before = run.after_all(earlier);
        let now = run.after_all(told);
        if before.intervals.len() > 0 {
            let tick = before.last_tick_ns->0;
            let k = choose|k: int| 0 <= k < earlier.len() && earlier[k] == Happening::Tick(tick);
            assert(told[k] == Happening::Tick(tick));
        }
        assert(told[told.len() - 1] == told.last());
        if now.intervals.len() > before.intervals.len() {
            let at = told.last()->Tick_0 - now.measurement_start_ns;
            assert(now.intervals.last().end_ms == at / 1_000_000);
            assert forall|i: int, j: int| 0 <= i < j < now.intervals.len() implies (
            #[trigger] now.intervals[i]).end_ms <= (#[trigger] now.intervals[j]).end_ms by {
                assert(now.intervals[i] == before.intervals[i]);
                if j < before.intervals.len() {
                    assert(now.intervals[j] == before.intervals[j]);
                } else if i < before.intervals.len() - 1 {
                    assert(before.intervals[i].end_ms <= before.intervals.last().end_ms);
                }
            }
        }
    }
}

/// The figures of a report agree with each other: what was sent was answered or lost, no more
/// packets were reordered than answered, and a higher quantile is no lower.
pub proof fn law_report_agrees(run: RecorderView, span_ns: u128)
    requires
        run.wf(),
        run.packets_sent <= u64::MAX,
    ensures
        ({
            let a = aggregate_of(run, span_ns);
            &&& a.packets_sent == a.packets_acked + a.packets_lost
            &&& a.packets_reordered <= a.packets_acked <= a.packets_sent
            &&& a.p50_ms.at_most(a.p95_ms)
            &&& a.p95_ms.at_most(a.p99_ms)
        }),
{
    law_answers_are_bounded(run);
    let all = crate::recorder::all_latencies(run.streams);
    crate::stats::law_quantiles_grow(all, 50, 95);
    crate::stats::law_quantiles_grow(all, 95, 99);
}

impl Benchmark {
    /// That the histogram holds what it should.
    pub closed spec fn histogram_agrees(self) -> bool {
        self.recorder.wf()
    }

    /// That the histogram holds what it should, and the counters add up.
    pub open spec fn wf(self) -> bool {
        self.histogram_agrees() && self@.wf()
    }

    /// Starts a run. `host` is how the address of the server is written.
    pub fn new(
        cfg: RunConfig,
        session_id: u64,
        host: String,
        unix_ms: i128,
        now_ns: u128,
    ) -> (r: Benchmark)
        requires
            cfg.streams > 0,
            cfg.interval_ns > 0,
            now_ns + cfg.warmup_ns <= u128::MAX,
        ensures
            r.wf(),
            r@ == BenchmarkView::started(cfg, session_id, host@, unix_ms, now_ns),
    {
        let (rate_bps, recommendations) = resolve_rate(cfg.rate, cfg.transport);
        let measurement_start_ns: u128 = now_ns + cfg.warmup_ns;
        let r = Benchmark {
            cfg,
            session_id,
            host,
            started_unix_ms: unix_ms,
            rate_bps,
            recommendations,
            measurement_start_ns,
            recorder: Recorder::new(),
            before: Totals::default(),
            intervals: Vec::new(),
            last_tick_ns: None,
        };
        proof {
            crate::recorder::law_fresh_run_adds_up();
            assert(r@ =~= BenchmarkView::started(cfg, session_id, host@, unix_ms, now_ns));
        }
        r
    }

    /// What each stream of the run is to do.
    pub fn stream_specs(&self) -> (r: Vec<StreamRunSpec>)
        requires
            self.wf(),
        ensures
            r@ == Seq::new(
                self@.cfg.streams as nat,
                |id: int| stream_spec_of(self@, id as u32),
            ),
            r@ == stream_specs_of(self@),
    {
        let mut r: Vec<StreamRunSpec> = Vec::new();
        let rate_bps: Option<u64> = match self.rate_bps {
            Some(v) => {
                let share: u64 = v / self.cfg.streams as u64;
                Some(
                    if share < 1 {
                        1
                    } else {
                        share
                    },
                )
            },
            None => None,
        };
        let mut id: u16 = 0;
        while id < self.cfg.streams
            invariant
                id <= self.cfg.streams,
                self.cfg.streams > 0,
                rate_bps == match self.rate_bps {
                    Some(v) => Some(share_of(v, self.cfg.streams)),
                    None => None,
                },
                r@ == Seq::new(id as nat, |id: int| stream_spec_of(self@, id as u32)),
            decreases self.cfg.streams - id,
        {
            let token: Option<String> = match &self.cfg.token {
                Some(t) => Some(t.clone()),
                None => None,
            };
            r.push(
                StreamRunSpec {
                    session_id: self.session_id,
                    stream_id: id as u32,
                    host: self.cfg.host,
                    transport: self.cfg.transport,
                    duration_ns: self.cfg.duration_ns,
                    warmup_ns: self.cfg.warmup_ns,
                    payload_bytes: self.cfg.payload_bytes,
                    rate_bps,
                    token,
                    timeout_ns: 750_000_000,
                },
            );
            id = id + 1;
        }
        r
    }

    /// Whether the counters have room for one more packet.
    pub fn has_room(&self, event: &PacketEvent) -> (r: bool)
        ensures
            r <==> self@.run.packets_sent < u64::MAX && self@.run.bytes + event.bytes
                <= u64::MAX,
    {
        self.recorder.has_room(event)
    }

    /// Counts one more packet, unless it is of the warm-up.
    pub fn on_event(&mut self, event: PacketEvent)
        requires
            old(self).wf(),
            event.measured ==> old(self)@.run.packets_sent < u64::MAX && old(self)@.run.bytes
                + event.bytes <= u64::MAX,
        ensures
            final(self).wf(),
            final(self)@ == old(self)@.after_event(event),
    {
        if !event.measured {
            return;
        }
        self.recorder.apply_event(event);
        assert(self@ =~= old(self)@.after_event(event));
    }

    /// Ends an interval, unless the run is still warming up, and gives its figures.
    pub fn on_tick(&mut self, now_ns: u128) -> (r: Option<IntervalStats>)
        requires
            old(self).wf(),
        ensures
            final(self).wf(),
            final(self)@ == old(self)@.after_tick(now_ns),
            r == if now_ns < old(self)@.measurement_start_ns {
                None
            } else {
                Some(old(self)@.interval_at(now_ns))
            },
            final(self)@.intervals == match r {
                Some(interval) => old(self)@.intervals.push(interval),
                None => old(self)@.intervals,
            },
    {
        if now_ns < self.measurement_start_ns {
            return None;
        }
        let since: u128 = match self.last_tick_ns {
            Some(tick) => tick,
            None => self.measurement_start_ns,
        };
        let span: u128 = if now_ns <= since {
            self.cfg.interval_ns
        } else {
            now_ns - since
        };
        let index: u64 = self.intervals.len() as u64;
        let interval: IntervalStats = self.recorder.build_interval(
            index,
            &self.before,
            span,
            now_ns - self.measurement_start_ns,
        );
        proof {
            law_intervals_add_up(self@, now_ns);
        }
        self.before = self.recorder.totals();
        self.recorder.end_interval();
        self.last_tick_ns = Some(now_ns);
        self.intervals.push(interval);
        assert(self@ =~= old(self)@.after_tick(now_ns));
        Some(interval)
    }

    /// Ends the run and gives its report.
    pub fn finish(self, unix_ms: i128) -> (r: RunReport)
        requires
            self.wf(),
        ensures
            r.run_meta.session_id == self@.session_id,
            r.run_meta.version == PROTOCOL_VERSION,
            r.run_meta.host@ == self@.host,
            r.run_meta.transport == self@.cfg.transport,
            r.run_meta.started_unix_ms == self@.started_unix_ms,
            r.run_meta.finished_unix_ms == unix_ms,
            r.config == snapshot_of(self@.cfg, self@.rate_bps),
            r.intervals@ == self@.intervals,
            r.streams@ == rows_of(self@.run, self@.cfg.duration_ns),
            r.aggregate == aggregate_of(self@.run, self@.cfg.duration_ns),
            r.latency_histogram.buckets@ == buckets_of(self@.run.latencies),
            advice(r.recommendations@) == self@.advice.push(
                closing_advice(self@.run, self@.cfg.duration_ns),
            ),
            forall|now_ns: u128, told: Seq<Happening>| #[trigger]
                came_of(self@, now_ns, told) ==> reports(self@, now_ns, told, r),
    {
        let span: u128 = self.cfg.duration_ns;
        let streams = self.recorder.stream_stats(span);
        let aggregate: AggregateStats = self.recorder.build_aggregate(span);
        let latency_histogram = self.recorder.build_histogram();
        let closing: Recommendation = if aggregate.packets_lost as u128 * 100
            > aggregate.packets_sent as u128 {
            Recommendation {
                label: "reduce target rate".to_string(),
                score: Ratio {
                    num: 100 * (aggregate.packets_sent - aggregate.packets_lost) as u128,
                    den: aggregate.packets_sent as u128,
                },
                reason: "packet loss above 1% indicates saturation".to_string(),
            }
        } else {
            Recommendation {
                label: "increase stream count".to_string(),
                score: Ratio {
                    num: aggregate.bytes as u128 * 8,
                    den: if span < 1000 {
                        1000
                    } else {
                        span
                    },
                },
                reason: "loss remains low; additional streams may raise throughput".to_string(),
            }
        };
        proof {
            assert forall|now_ns: u128, told: Seq<Happening>| #[trigger]
                came_of(self@, now_ns, told) implies shows_intervals(
                self@.intervals,
                told,
                (now_ns + self@.cfg.warmup_ns) as u128,
                self@.cfg.interval_ns,
            ) && shows_streams(
                streams@,
                packets_told(told),
                self@.cfg.duration_ns as int,
            ) && shows_run(aggregate, packets_told(told), self@.cfg.duration_ns as int)
                && (self@.rate_bps, self@.advice) == resolved(
                self@.cfg.rate,
                self@.cfg.transport,
            ) by {
                law_intervals_show_their_packets(self@, now_ns, told);
                law_report_shows_the_packets(self@, now_ns, told);
            }
            assert forall|now_ns: u128, told: Seq<Happening>| #[trigger]
                came_of(self@, now_ns, told) && (forall|i: int|
                    0 <= i < times(packets_told(told)).len() ==> #[trigger] times(
                        packets_told(told),
                    )[i] < 0x8_0000_0000_0000) implies counts_in_time(
                buckets_of(self@.run.latencies),
                times(packets_told(told)),
            ) by {
                law_report_shows_the_packets(self@, now_ns, told);
                law_histogram_counts_in_time(times(packets_told(told)));
            }
            law_advice_answers_the_loss(self@.run, self@.cfg.duration_ns);
            law_report_says_what_was_asked(self@.cfg, self@.rate_bps);
        }
        let ghost given = self.recommendations@;
        let mut recommendations: Vec<Recommendation> = self.recommendations;
        recommendations.push(closing);
        assert(advice(recommendations@) =~= advice(given).push(closing@));
        assert(given.len() > 0 ==> advice(given)[0] == recommendations@[0]@);
        RunReport {
            run_meta: RunMeta {
                session_id: self.session_id,
                version: PROTOCOL_VERSION,
                host: self.host,
                transport: self.cfg.transport,
                started_unix_ms: self.started_unix_ms,
                finished_unix_ms: unix_ms,
            },
            config: RunConfigSnapshot {
                streams: self.cfg.streams,
                duration_ms: millis(self.cfg.duration_ns),
                warmup_ms: millis(self.cfg.warmup_ns),
                payload_bytes: self.cfg.payload_bytes,
                rate_bps: self.rate_bps,
                interval_ms: millis(self.cfg.interval_ns),
            },
            intervals: self.intervals,
            streams,
            aggregate,
            latency_histogram,
            recommendations,
        }
    }
}

/// What one stream of a run is to do.
pub open spec fn stream_spec_of(bench: BenchmarkView, id: u32) -> StreamRunSpec {
    StreamRunSpec {
        session_id: bench.session_id,
        stream_id: id,
        host: bench.cfg.host,
        transport: bench.cfg.transport,
        duration_ns: bench.cfg.duration_ns,
        warmup_ns: bench.cfg.warmup_ns,
        payload_bytes: bench.cfg.payload_bytes,
        rate_bps: match bench.rate_bps {
            Some(v) => Some(share_of(v, bench.cfg.streams)),
            None => None,
        },
        token: bench.cfg.token,
        timeout_ns: 750_000_000,
    }
}

/// What the streams of a run are to do.
pub open spec fn stream_specs_of(bench: BenchmarkView) -> Seq<StreamRunSpec> {
    Seq::new(bench.cfg.streams as nat, |id: int| stream_spec_of(bench, id as u32))
}

/// A run has as many streams as it was asked for, numbered from zero on, and they aim together at
/// no more than its rate, unless that is less than a bit per second for each.
pub proof fn law_run_has_its_streams(bench: BenchmarkView, i: int)
    requires
        bench.wf(),
    ensures
        stream_specs_of(bench).len() == bench.cfg.streams,
        0 <= i < bench.cfg.streams ==> stream_specs_of(bench)[i].stream_id == i,
        0 <= i < bench.cfg.streams ==> stream_specs_of(bench)[i].rate_bps
            == stream_specs_of(bench)[0].rate_bps,
{
}

/// What a run was asked to do, as its report says it.
pub open spec fn snapshot_of(cfg: RunConfig, rate_bps: Option<u64>) -> RunConfigSnapshot {
    RunConfigSnapshot {
        streams: cfg.streams,
        duration_ms: whole_ms(cfg.duration_ns),
        warmup_ms: whole_ms(cfg.warmup_ns),
        payload_bytes: cfg.payload_bytes,
        rate_bps,
        interval_ms: whole_ms(cfg.interval_ns),
    }
}

} // verus!
