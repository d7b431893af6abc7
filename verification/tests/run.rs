use ipfusch::bench::{resolve_rate, session_id_at, Benchmark};
use ipfusch::binary::Binary;
use ipfusch::config::{Address, RateMode, RunConfig, Transport};
use ipfusch::figures::{loss, millis, packet_rate, throughput};
use ipfusch::latency::{micros, Latencies};
use ipfusch::net::{pacing_delay, PacketEvent};
use ipfusch::recorder::{Recorder, Totals};
use ipfusch::report::{AggregateStats, IntervalStats, LatencyHistogram, Ratio, StreamStats};
use ipfusch::stats::{mean, ms, quantile};

fn value(r: Ratio) -> f64 {
    r.num as f64 / r.den as f64
}

fn config(rate: RateMode, streams: u16) -> RunConfig {
    RunConfig {
        host: Address::V4 { ip: 0x7f00_0001, port: 5201 },
        transport: Transport::Udp,
        streams,
        duration_ns: 2_000_000_000,
        warmup_ns: 1_000_000_000,
        payload_bytes: 1000,
        rate,
        token: Some("t".to_string()),
        interval_ns: 100_000_000,
    }
}

fn answered(stream_id: u32, seq: u64, send_ns: u64, recv_ns: u64) -> PacketEvent {
    PacketEvent {
        stream_id,
        seq,
        bytes: 1000,
        send_mono_ns: send_ns,
        recv_mono_ns: Some(recv_ns),
        measured: true,
    }
}

fn lost(stream_id: u32, seq: u64) -> PacketEvent {
    PacketEvent {
        stream_id,
        seq,
        bytes: 1000,
        send_mono_ns: 0,
        recv_mono_ns: None,
        measured: true,
    }
}

#[test]
fn quantiles_are_stable() {
    let values = vec![1, 2, 3, 4, 5];
    assert_eq!(quantile(&values, 50), 3);
    assert_eq!(quantile(&values, 95), 5);
    assert_eq!(quantile(&values, 99), 5);
}

#[test]
fn auto_rate_differs_by_transport() {
    let (tcp, _) = resolve_rate(RateMode::Auto, Transport::Tcp);
    let (udp, _) = resolve_rate(RateMode::Auto, Transport::Udp);
    let (quic, _) = resolve_rate(RateMode::Auto, Transport::Quic);
    assert!(tcp > udp);
    assert!(udp > quic);
}

#[test]
fn quantiles_round_as_fractions_do() {
    let mut values: Vec<u64> = Vec::new();
    for n in 1..400u64 {
        values.insert((n as usize * 7) % (values.len() + 1), n - 1);
        for (percent, q) in [(0u8, 0.0f64), (50, 0.50), (95, 0.95), (99, 0.99), (100, 1.0)] {
            let place = ((values.len() - 1) as f64 * q).round() as u64;
            assert_eq!(quantile(&values, percent), place);
        }
    }
    assert_eq!(quantile(&[], 50), 0);
    assert_eq!(quantile(&[9, 1, 9], 50), 9);
    assert_eq!(quantile(&[3], 99), 3);
    assert_eq!(quantile(&values, 101), 398);
    assert_eq!(quantile(&values, 255), 398);
    let mut turned = values.clone();
    turned.reverse();
    for percent in 0..=255u8 {
        assert_eq!(quantile(&values, percent), quantile(&turned, percent));
    }
}

#[test]
fn means_are_exact() {
    assert_eq!(mean(&[]), Ratio { num: 0, den: 1 });
    assert_eq!(mean(&[1_000_000, 2_000_000]), Ratio { num: 3_000_000, den: 2_000_000 });
    assert_eq!(
        mean(&[u64::MAX, u64::MAX]),
        Ratio { num: 2 * u64::MAX as u128, den: 2_000_000 }
    );
    assert_eq!(ms(1_500_000), Ratio { num: 1_500_000, den: 1_000_000 });
}

#[test]
fn rates_are_fractions() {
    assert_eq!(
        throughput(1000, 1_000_000_000),
        Ratio { num: 8_000_000_000_000, den: 1_000_000_000 }
    );
    assert_eq!(packet_rate(7, 0), Ratio { num: 7_000_000_000, den: 1000 });
    assert_eq!(loss(1, 4), Ratio { num: 100, den: 4 });
    assert_eq!(loss(0, 0), Ratio { num: 0, den: 1 });
    assert_eq!(millis(1_999_999), 1);
    assert_eq!(millis((1u128 << 64) * 1_000_000 + 5_000_000), 5);
}

#[test]
fn numbers_round_as_doubles_do() {
    fn double(b: Binary) -> f64 {
        b.digits as f64 * 2f64.powi(b.exponent)
    }
    assert_eq!(Binary::of(0), Binary { digits: 0, exponent: 0 });
    assert_eq!(Binary::of(3), Binary { digits: 3 << 51, exponent: -51 });
    assert_eq!(Binary::of(u64::MAX), Binary { digits: 1 << 52, exponent: 12 });
    assert_eq!(Binary::of(u64::MAX).whole(), u64::MAX);
    // Halfway between two numbers, the even one is taken.
    assert_eq!(Binary::of((1 << 53) + 1).whole(), 1 << 53);
    assert_eq!(Binary::of((1 << 53) + 3).whole(), (1 << 53) + 4);
    // Whole products are exact, and quotients keep their whole parts.
    assert_eq!(Binary::of(94_906_265).times(Binary::of(94_906_265)).whole(), 9_007_199_136_250_225);
    assert_eq!(Binary::of(9_007_199_254_740_991).over(Binary::of(10)).whole(), 900_719_925_474_099);
    let values = [1u64, 3, 10, 1000, 1_001_000, 123_456_789_012_345, (1 << 53) + 3, u64::MAX];
    for a in values {
        for b in values {
            let (x, y) = (Binary::of(a), Binary::of(b));
            assert_eq!(double(x.times(y)), a as f64 * b as f64);
            assert_eq!(double(x.over(y)), a as f64 / b as f64);
            assert_eq!(x.over(y).whole(), (a as f64 / b as f64) as u64);
        }
    }
}

#[test]
fn pacing_follows_the_rate() {
    assert_eq!(pacing_delay(1200, None), None);
    assert_eq!(pacing_delay(1200, Some(0)), None);
    assert_eq!(pacing_delay(0, Some(1)), Some(1));
    assert_eq!(pacing_delay(1200, Some(1_000_000)), Some(9_600_000));
    assert_eq!(pacing_delay(usize::MAX, Some(1)), Some(u64::MAX));
    let long = [9_007_199, 123_456_789_012, 0xffff_ffff_ffff, usize::MAX / 3, usize::MAX];
    for payload in [1usize, 40, 999, 1200, 65_507, 262_144].into_iter().chain(long) {
        for bps in [1u64, 3, 1000, 999_983, 10_000_000, 80_000_000_000, (1 << 53) + 1, u64::MAX] {
            let bits = (payload as f64) * 8.0;
            let nanos = (bits * 1_000_000_000f64 / bps as f64).max(1.0) as u64;
            assert_eq!(pacing_delay(payload, Some(bps)), Some(nanos));
        }
    }
}

#[test]
fn latencies_are_counted() {
    assert_eq!(micros(0), 1);
    assert_eq!(micros(1_999), 1);
    assert_eq!(micros(2_000), 2);
    assert_eq!(micros(1_001_000), 1000);
    let mut ns: u64 = 1;
    for n in 0..40_000u64 {
        for at in [n, n * 1000, n * 1000 + 999, ns, !ns] {
            let ms = at as f64 / 1_000_000.0;
            assert_eq!(micros(at), (ms * 1000.0).max(1.0) as u64);
        }
        ns = ns.wrapping_mul(6_364_136_223_846_793_005).wrapping_add(1_442_695_040_888_963_407);
    }
    let mut latencies = Latencies::new();
    assert!(latencies.build_histogram().buckets.is_empty());
    // 0.2 ms, 1 ms, 2.001 ms, 5.003 ms, 5.004 ms, 900 ms, and one beyond the range.
    for us in [200u64, 1000, 2001, 5003, 5004, 900_000, 200_000_000] {
        latencies.note(us * 1000);
    }
    let buckets = latencies.build_histogram().buckets;
    let counts: Vec<(u64, u64)> = buckets.iter().map(|b| (b.le_ms, b.count)).collect();
    assert_eq!(
        counts,
        vec![
            (1, 2),
            (2, 2),
            (5, 4),
            (10, 5),
            (20, 5),
            (50, 5),
            (100, 5),
            (200, 5),
            (500, 5),
            (1000, 6),
            (2000, 6),
            (5000, 6)
        ]
    );
}

#[test]
fn packets_are_counted() {
    let mut r = Recorder::new();
    r.apply_event(answered(1, 2, 100, 1_000_100));
    r.apply_event(answered(1, 1, 0, 3_000_000));
    r.apply_event(lost(1, 3));
    r.apply_event(answered(0, 1, 500, 400));
    assert_eq!(
        r.totals(),
        Totals { packets_sent: 4, packets_acked: 3, packets_lost: 1, bytes: 4000 }
    );
    let streams = r.stream_stats(1_000_000_000);
    assert_eq!(streams.len(), 2);
    assert_eq!(
        streams[0],
        StreamStats {
            stream_id: 0,
            packets_sent: 1,
            packets_acked: 1,
            packets_lost: 0,
            packets_reordered: 0,
            bytes: 1000,
            throughput_bps: Ratio { num: 8_000_000_000_000, den: 1_000_000_000 },
            jitter_ms: Ratio { num: 0, den: 1 },
            p50_ms: Ratio { num: 0, den: 1_000_000 },
            p95_ms: Ratio { num: 0, den: 1_000_000 },
            p99_ms: Ratio { num: 0, den: 1_000_000 },
        }
    );
    assert_eq!(streams[1].stream_id, 1);
    assert_eq!(streams[1].packets_sent, 3);
    assert_eq!(streams[1].packets_acked, 2);
    assert_eq!(streams[1].packets_lost, 1);
    assert_eq!(streams[1].packets_reordered, 1);
    assert_eq!(streams[1].jitter_ms, Ratio { num: 2_000_000, den: 1_000_000 });
    assert_eq!(streams[1].p50_ms, Ratio { num: 3_000_000, den: 1_000_000 });
    let all = r.build_aggregate(1_000_000_000);
    assert_eq!(
        all,
        AggregateStats {
            packets_sent: 4,
            packets_acked: 3,
            packets_lost: 1,
            packets_reordered: 1,
            bytes: 4000,
            throughput_bps: Ratio { num: 32_000_000_000_000, den: 1_000_000_000 },
            packet_rate_pps: Ratio { num: 4_000_000_000, den: 1_000_000_000 },
            loss_pct: Ratio { num: 100, den: 4 },
            jitter_ms: Ratio { num: 2_000_000, den: 1_000_000 },
            p50_ms: Ratio { num: 1_000_000, den: 1_000_000 },
            p95_ms: Ratio { num: 3_000_000, den: 1_000_000 },
            p99_ms: Ratio { num: 3_000_000, den: 1_000_000 },
        }
    );
    let interval = r.build_interval(
        7,
        &Totals { packets_sent: 2, packets_acked: 2, packets_lost: 0, bytes: 2000 },
        500_000_000,
        2_000_000_000,
    );
    assert_eq!((interval.index, interval.start_ms, interval.end_ms), (7, 1500, 2000));
    assert_eq!(
        (interval.packets_sent, interval.packets_acked, interval.packets_lost, interval.bytes),
        (2, 1, 1, 2000)
    );
    assert_eq!(interval.loss_pct, Ratio { num: 100, den: 2 });
    assert_eq!(interval.throughput_bps, Ratio { num: 16_000_000_000_000, den: 500_000_000 });
    r.end_interval();
    let next = r.build_interval(8, &r.totals(), 1, 0);
    assert_eq!(next.p99_ms, Ratio { num: 0, den: 1_000_000 });
    assert_eq!(next.jitter_ms, Ratio { num: 0, den: 1 });
    assert_eq!((next.start_ms, next.end_ms), (0, 0));
    assert_eq!(r.build_histogram().buckets.len(), 12);
}

#[test]
fn counters_say_when_they_are_full() {
    let mut r = Recorder::new();
    let mut event = lost(0, 1);
    event.bytes = u64::MAX;
    assert!(r.has_room(&event));
    r.apply_event(event);
    assert!(!r.has_room(&lost(0, 2)));
    event.bytes = 0;
    assert!(r.has_room(&event));
}

#[test]
fn rates_are_resolved() {
    let (rate, advice) = resolve_rate(RateMode::Bps(5), Transport::Tcp);
    assert_eq!(rate, Some(5));
    assert!(advice.is_empty());
    let (rate, advice) = resolve_rate(RateMode::Auto, Transport::Tcp);
    assert_eq!(rate, Some(80_000_000_000));
    assert_eq!(advice[0].label, "auto-rate-selected");
    assert_eq!(value(advice[0].score), 80.0);
    assert_eq!(advice[0].reason, "auto tuner selected high-throughput paced tcp mode");
    let (rate, advice) = resolve_rate(RateMode::Auto, Transport::Quic);
    assert_eq!(rate, Some(1_000_000_000));
    assert_eq!(advice[0].reason, "auto tuner selected 1000000000 bps baseline for quic");
    let (_, advice) = resolve_rate(RateMode::Auto, Transport::Udp);
    assert_eq!(advice[0].reason, "auto tuner selected 2000000000 bps baseline for udp");
}

#[test]
fn sessions_are_numbered() {
    assert_eq!(session_id_at(0), 0xA5A5_5A5A_4242_1919);
    assert_eq!(session_id_at(0xA5A5_5A5A_4242_1919), 0);
    assert_eq!(session_id_at((1 << 64) + 1), 0xA5A5_5A5A_4242_1918);
}

#[test]
fn streams_share_the_rate() {
    let bench = Benchmark::new(config(RateMode::Bps(10), 3), 1, "h".to_string(), 0, 0);
    let specs = bench.stream_specs();
    assert_eq!(specs.len(), 3);
    for (i, spec) in specs.iter().enumerate() {
        assert_eq!(spec.stream_id, i as u32);
        assert_eq!(spec.session_id, 1);
        assert_eq!(spec.rate_bps, Some(3));
        assert_eq!(spec.timeout_ns, 750_000_000);
        assert_eq!(spec.token.as_deref(), Some("t"));
        assert_eq!(spec.payload_bytes, 1000);
    }
    let bench = Benchmark::new(config(RateMode::Bps(2), 3), 1, "h".to_string(), 0, 0);
    assert_eq!(bench.stream_specs()[2].rate_bps, Some(1));
}

#[test]
fn runs_are_reported() {
    let mut bench =
        Benchmark::new(config(RateMode::Bps(10), 2), 42, "127.0.0.1:5201".to_string(), 5, 1_000);
    assert!(bench.on_tick(1_000_000_999).is_none());
    let mut warm = answered(0, 1, 0, 1);
    warm.measured = false;
    bench.on_event(warm);
    bench.on_event(answered(0, 2, 0, 1_000_000));
    let first = bench.on_tick(1_500_001_000).unwrap();
    assert_eq!((first.index, first.start_ms, first.end_ms), (0, 0, 500));
    assert_eq!((first.packets_sent, first.packets_acked, first.bytes), (1, 1, 1000));
    assert_eq!(value(first.throughput_bps), 16_000.0);
    assert!(bench.has_room(&lost(1, 1)));
    bench.on_event(lost(1, 1));
    let second = bench.on_tick(1_500_001_000).unwrap();
    assert_eq!((second.index, second.start_ms, second.end_ms), (1, 400, 500));
    assert_eq!((second.packets_sent, second.packets_lost), (1, 1));
    assert_eq!(value(second.loss_pct), 100.0);
    let report = bench.finish(9);
    assert_eq!(report.run_meta.session_id, 42);
    assert_eq!(report.run_meta.version, 1);
    assert_eq!(report.run_meta.host, "127.0.0.1:5201");
    assert_eq!(report.run_meta.transport, Transport::Udp);
    assert_eq!((report.run_meta.started_unix_ms, report.run_meta.finished_unix_ms), (5, 9));
    assert_eq!(report.config.streams, 2);
    assert_eq!(report.config.duration_ms, 2000);
    assert_eq!(report.config.warmup_ms, 1000);
    assert_eq!(report.config.interval_ms, 100);
    assert_eq!(report.config.rate_bps, Some(10));
    assert_eq!(report.intervals, vec![first, second]);
    assert_eq!(report.config.streams as usize, report.streams.len());
    assert!(report.aggregate.packets_sent >= report.aggregate.packets_acked);
    assert_eq!(report.aggregate.packets_sent, 2);
    assert_eq!(value(report.aggregate.throughput_bps), 8_000.0);
    assert_eq!(report.latency_histogram.buckets[0].count, 1);
    assert_eq!(report.recommendations.len(), 1);
    assert_eq!(report.recommendations[0].label, "reduce target rate");
    assert_eq!(value(report.recommendations[0].score), 50.0);
    assert_eq!(
        report.recommendations[0].reason,
        "packet loss above 1% indicates saturation"
    );
}

#[test]
fn rows_add_up_and_intervals_end_in_order() {
    let mut bench = Benchmark::new(config(RateMode::Bps(10), 3), 1, "h".to_string(), 0, 0);
    // Of the numbers that are answered, 2, 6 and the 7 behind the 8 come after a greater one.
    for (stream, seqs) in [(9u32, vec![5u64, 2, 7, 6]), (4, vec![1, 2, 3]), (7, vec![8, 7, 9])] {
        for seq in seqs {
            bench.on_event(answered(stream, seq, 0, 1_000 * seq));
        }
        bench.on_event(lost(stream, 1));
    }
    let mut ends = Vec::new();
    for now in [1_000_000_000u128, 1_000_999_999, 1_001_000_000, 1_001_000_000, 3_000_000_000] {
        ends.push(bench.on_tick(now).unwrap().end_ms);
    }
    assert_eq!(ends, vec![0, 0, 1, 1, 2000]);
    let report = bench.finish(0);
    let ids: Vec<u32> = report.streams.iter().map(|s| s.stream_id).collect();
    assert_eq!(ids, vec![4, 7, 9]);
    let reordered: Vec<u64> = report.streams.iter().map(|s| s.packets_reordered).collect();
    assert_eq!(reordered, vec![0, 1, 2]);
    let all = &report.aggregate;
    assert_eq!(report.streams.iter().map(|s| s.packets_sent).sum::<u64>(), all.packets_sent);
    assert_eq!(report.streams.iter().map(|s| s.packets_acked).sum::<u64>(), all.packets_acked);
    assert_eq!(report.streams.iter().map(|s| s.packets_lost).sum::<u64>(), all.packets_lost);
    assert_eq!(report.streams.iter().map(|s| s.bytes).sum::<u64>(), all.bytes);
    assert_eq!((all.packets_sent, all.packets_lost, all.packets_reordered), (13, 3, 3));
}

#[test]
fn runs_without_loss_ask_for_more() {
    let mut bench = Benchmark::new(config(RateMode::Auto, 1), 1, "h".to_string(), 0, 0);
    for seq in 1..100u64 {
        bench.on_event(answered(0, seq, 0, seq));
    }
    bench.on_event(lost(0, 100));
    let report = bench.finish(0);
    assert_eq!(report.recommendations.len(), 2);
    assert_eq!(report.recommendations[0].label, "auto-rate-selected");
    assert_eq!(report.recommendations[1].label, "increase stream count");
    assert_eq!(value(report.recommendations[1].score), 0.0004);
    assert_eq!(
        report.recommendations[1].reason,
        "loss remains low; additional streams may raise throughput"
    );
}

#[test]
fn nothing_is_the_default() {
    assert_eq!(IntervalStats::default().packets_sent, 0);
    assert_eq!(StreamStats::default().p99_ms, Ratio::zero());
    assert_eq!(AggregateStats::default().loss_pct, Ratio::default());
    assert_eq!(Totals::default().bytes, 0);
    assert!(LatencyHistogram::default().buckets.is_empty());
}
