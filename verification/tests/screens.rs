use ipfusch::config::{Address, RateMode, RunConfig, SweepConfig, SweepObjective, Transport};
use ipfusch::dashboard::{snapshot_path, Dashboard, KeyAction};
use ipfusch::progress::{opening_line, Progress};
use ipfusch::report::{IntervalStats, RunConfigSnapshot};
use ipfusch::sweep::{plan, rank_runs, run_label, score_key, score_reason, top_runs};
use std::collections::VecDeque;

fn interval(index: u64) -> IntervalStats {
    IntervalStats { index, ..IntervalStats::default() }
}

fn config(warmup_ns: u128, duration_ns: u128) -> RunConfig {
    RunConfig {
        host: Address::V4 { ip: 0, port: 0 },
        transport: Transport::Tcp,
        streams: 4,
        duration_ns,
        warmup_ns,
        payload_bytes: 1,
        rate: RateMode::Auto,
        token: None,
        interval_ns: 1,
    }
}

#[test]
fn table_history_keeps_order() {
    let mut queue = VecDeque::new();
    queue.push_back(IntervalStats { index: 1, ..IntervalStats::default() });
    queue.push_back(IntervalStats { index: 2, ..IntervalStats::default() });
    assert_eq!(queue.front().map(|v| v.index), Some(1));
    assert_eq!(queue.back().map(|v| v.index), Some(2));

    let mut dashboard = Dashboard::new();
    for update in queue {
        dashboard.on_update(update);
    }
    let recent = dashboard.recent();
    assert_eq!(recent.last().map(|v| v.index), Some(1));
    assert_eq!(recent.first().map(|v| v.index), Some(2));
}

#[test]
fn dashboard_remembers_the_last_intervals() {
    let mut dashboard = Dashboard::new();
    assert!(dashboard.recent().is_empty());
    for i in 0..300 {
        dashboard.on_update(interval(i));
        assert_eq!(dashboard.latest().index, i);
    }
    let listed: Vec<u64> = dashboard.recent().iter().map(|v| v.index).collect();
    let want: Vec<u64> = (280..300).rev().collect();
    assert_eq!(listed, want);
}

#[test]
fn keys_steer_the_dashboard() {
    let mut dashboard = Dashboard::new();
    assert_eq!(dashboard.title(), "ipfusch live dashboard");
    assert_eq!(
        dashboard.footer(),
        "keys: q quit | p pause | e export snapshot    status: running"
    );
    assert_eq!(dashboard.on_key('p'), KeyAction::Redraw);
    assert!(!dashboard.takes_updates());
    assert_eq!(dashboard.title(), "ipfusch live dashboard [paused]");
    assert!(dashboard.footer().ends_with("status: paused"));
    dashboard.on_update(interval(5));
    assert_eq!(dashboard.latest().index, 0);
    assert_eq!(dashboard.on_key('p'), KeyAction::Redraw);
    assert!(dashboard.takes_updates());
    assert!(dashboard.footer().ends_with("status: running"));
    assert_eq!(dashboard.on_key('x'), KeyAction::Redraw);
    assert_eq!(dashboard.on_key('Q'), KeyAction::Redraw);
    assert_eq!(dashboard.on_key('e'), KeyAction::Export);
    let path = snapshot_path(1_700_000_000);
    assert_eq!(path, "ipfusch-snapshot-1700000000.json");
    dashboard.on_export(&path, true);
    assert!(dashboard
        .footer()
        .ends_with("status: snapshot exported: ipfusch-snapshot-1700000000.json"));
    dashboard.on_export(&path, false);
    assert!(dashboard.footer().ends_with("status: snapshot export failed"));
    assert_eq!(dashboard.on_key('q'), KeyAction::Quit);
}

#[test]
fn the_bar_moves_to_its_end() {
    let p = Progress::new(&config(2_000_000_000, 10_000_000_000));
    assert_eq!((p.warmup_ms, p.measured_ms, p.total_ms), (2000, 10_000, 12_000));
    assert_eq!(p.position_at(1), 1);
    assert_eq!(p.position_at(99_999), 12_000);
    assert_eq!(p.warmup_message(500), Some("warming up... 1500ms".to_string()));
    assert_eq!(p.warmup_message(2000), None);
    assert_eq!(p.position_after(100), 2100);
    assert_eq!(p.position_after(10_500), 12_000);
    let none = Progress::new(&config(0, 999_999));
    assert_eq!(none.total_ms, 1);
    assert_eq!(none.position_after(7), 0);
    let long = Progress { warmup_ms: u64::MAX, measured_ms: 5, total_ms: u64::MAX };
    assert_eq!(long.position_after(5), u64::MAX);
}

#[test]
fn runs_are_announced() {
    assert_eq!(
        opening_line(&config(2_000_000_000, 90_000_000_000)),
        "running 4 stream(s) over tcp for 1m 30s (+ 2s warmup)"
    );
}

#[test]
fn sweeps_make_every_pair() {
    let cfg = SweepConfig {
        host: Address::V4 { ip: 1, port: 2 },
        transport: Transport::Quic,
        streams: vec![1, 4],
        rates: vec![RateMode::Auto, RateMode::Bps(5), RateMode::Bps(6)],
        duration_ns: 3,
        warmup_ns: 4,
        payload_bytes: 5,
        token: Some("t".to_string()),
        interval_ns: 6,
        objective: SweepObjective::Balanced,
        top: 2,
    };
    let runs = plan(&cfg);
    let pairs: Vec<(u16, RateMode)> = runs.iter().map(|r| (r.streams, r.rate)).collect();
    assert_eq!(
        pairs,
        vec![
            (1, RateMode::Auto),
            (1, RateMode::Bps(5)),
            (1, RateMode::Bps(6)),
            (4, RateMode::Auto),
            (4, RateMode::Bps(5)),
            (4, RateMode::Bps(6)),
        ]
    );
    assert_eq!(runs[3].host, cfg.host);
    assert_eq!(runs[3].transport, Transport::Quic);
    assert_eq!((runs[3].duration_ns, runs[3].warmup_ns, runs[3].interval_ns), (3, 4, 6));
    assert_eq!(runs[3].token.as_deref(), Some("t"));
    assert_eq!(runs[3].payload_bytes, 5);
    assert_eq!(run_label(4, RateMode::Bps(5)), "streams=4, rate=5");
    assert_eq!(run_label(1, RateMode::Auto), "streams=1, rate=auto");
    assert_eq!(score_reason(SweepObjective::Throughput), "score for Throughput objective");
    assert_eq!(score_reason(SweepObjective::MaxEfficiency), "score for MaxEfficiency objective");
    assert_eq!(score_reason(SweepObjective::Balanced), "score for Balanced objective");
}

#[test]
fn scores_are_ordered_by_their_keys() {
    let scores = [
        f64::NEG_INFINITY, -1.0e300, -2.5, -1.0, -0.0, 0.0, 1.0e-300, 0.5, 1.0, 80.0,
        f64::INFINITY, f64::NAN,
    ];
    for a in scores {
        for b in scores {
            assert_eq!(
                score_key(a.to_bits()).cmp(&score_key(b.to_bits())),
                a.total_cmp(&b)
            );
        }
    }
}

#[test]
fn runs_are_ranked() {
    assert!(rank_runs(&[]).is_empty());
    assert_eq!(rank_runs(&[3, 9, -4, 9, 0]), vec![1, 3, 0, 4, 2]);
    let keys: Vec<i64> = (0..200i64).map(|i| (i * 37) % 23 - 11).collect();
    let mut want: Vec<usize> = (0..keys.len()).collect();
    want.sort_by(|a, b| keys[*b].cmp(&keys[*a]));
    assert_eq!(rank_runs(&keys), want);
}

#[test]
fn the_best_runs_are_named() {
    let snapshot = |streams: u16, rate_bps: Option<u64>| RunConfigSnapshot {
        streams,
        duration_ms: 0,
        warmup_ms: 0,
        payload_bytes: 0,
        rate_bps,
        interval_ms: 0,
    };
    let configs = [snapshot(1, Some(7)), snapshot(2, None), snapshot(3, Some(9))];
    let top = top_runs(&[2, 1, 0], &configs, 2);
    assert_eq!(top.len(), 2);
    assert_eq!((top[0].run, top[0].label.as_str()), (2, "streams=3,rate=9bps"));
    assert_eq!((top[1].run, top[1].label.as_str()), (1, "streams=2,rate=0bps"));
    assert_eq!(top[0].reason, "top-ranked sweep result");
    assert_eq!(top_runs(&[2, 1, 0], &configs, 9).len(), 3);
}
