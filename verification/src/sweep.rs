//! A sweep: which runs it makes, and how it ranks them.
use vstd::arithmetic::div_mod::lemma_fundamental_div_mod_converse;
use vstd::prelude::*;

use crate::config::{rate_label, rate_text, RateMode, RunConfig, SweepConfig, SweepObjective};
use crate::report::RunConfigSnapshot;
use crate::text::{decimal, push_decimal};

verus! {

/// The run of a sweep with a stream count and a rate.
pub open spec fn run_of(cfg: SweepConfig, streams: u16, rate: RateMode) -> RunConfig {
    RunConfig {
        host: cfg.host,
        transport: cfg.transport,
        streams,
        duration_ns: cfg.duration_ns,
        warmup_ns: cfg.warmup_ns,
        payload_bytes: cfg.payload_bytes,
        rate,
        token: cfg.token,
        interval_ns: cfg.interval_ns,
    }
}

/// The runs of a sweep: each stream count with each rate, the rates going round first.
pub open spec fn plan_of(cfg: SweepConfig) -> Seq<RunConfig> {
    let rates = cfg.rates@.len() as int;
    Seq::new(
        cfg.streams@.len() * cfg.rates@.len(),
        |k: int| run_of(cfg, cfg.streams@[k / rates], cfg.rates@[k % rates]),
    )
}

/// The run of a sweep with a stream count and a rate.
fn run_with(cfg: &SweepConfig, streams: u16, rate: RateMode) -> (r: RunConfig)
    ensures
        r == run_of(*cfg, streams, rate),
{
    let token: Option<String> = match &cfg.token {
        Some(t) => Some(t.clone()),
        None => None,
    };
    RunConfig {
        host: cfg.host,
        transport: cfg.transport,
        streams,
        duration_ns: cfg.duration_ns,
        warmup_ns: cfg.warmup_ns,
        payload_bytes: cfg.payload_bytes,
        rate,
        token,
        interval_ns: cfg.interval_ns,
    }
}

/// The runs of a sweep, in the order in which they are made.
pub fn plan(cfg: &SweepConfig) -> (r: Vec<RunConfig>)
    ensures
        r@ == plan_of(*cfg),
{
    let mut r: Vec<RunConfig> = Vec::new();
    let rates: usize = cfg.rates.len();
    let mut i: usize = 0;
    assert(0 * rates == 0) by (nonlinear_arith);
    while i < cfg.streams.len()
        invariant
            i <= cfg.streams@.len(),
            rates == cfg.rates@.len(),
            r@.len() == i * rates,
            forall|k: int|
                0 <= k < r@.len() ==> #[trigger] r@[k] == run_of(
                    *cfg,
                    cfg.streams@[k / rates as int],
                    cfg.rates@[k % rates as int],
                ),
        decreases cfg.streams@.len() - i,
    {
        let mut j: usize = 0;
        while j < rates
            invariant
                i < cfg.streams@.len(),
                j <= rates,
                rates == cfg.rates@.len(),
                r@.len() == i * rates + j,
                forall|k: int|
                    0 <= k < r@.len() ==> #[trigger] r@[k] == run_of(
                        *cfg,
                        cfg.streams@[k / rates as int],
                        cfg.rates@[k % rates as int],
                    ),
            decreases rates - j,
        {
            proof {
                lemma_fundamental_div_mod_converse(
                    r@.len() as int,
                    rates as int,
                    i as int,
                    j as int,
                );
            }
            r.push(run_with(cfg, cfg.streams[i], cfg.rates[j]));
            j = j + 1;
        }
        assert((i + 1) * rates == i * rates + rates) by (nonlinear_arith);
        i = i + 1;
    }
    assert(r@ =~= plan_of(*cfg));
    r
}

/// A sweep makes each of its runs at its place: a stream count and a rate that it was given meet
/// in the run whose place is counted out by both.
pub proof fn law_plan_makes_every_pair(cfg: SweepConfig, i: int, j: int)
    requires
        0 <= i < cfg.streams@.len(),
        0 <= j < cfg.rates@.len(),
    ensures
        0 <= i * cfg.rates@.len() + j < plan_of(cfg).len(),
        plan_of(cfg)[i * cfg.rates@.len() + j] == run_of(cfg, cfg.streams@[i], cfg.rates@[j]),
{
    let n = cfg.rates@.len() as int;
    let m = cfg.streams@.len() as int;
    assert(0 <= i * n + j < m * n) by (nonlinear_arith)
        requires
            0 <= i < m,
            0 <= j < n,
    ;
    lemma_fundamental_div_mod_converse(i * n + j, n, i, j);
}

/// A run of a sweep is asked for what the sweep is, with a stream count and a rate of its own, and
/// there are as many runs as there are pairs of these.
pub proof fn law_runs_are_as_the_sweep_says(cfg: SweepConfig, i: int, j: int)
    requires
        0 <= i < cfg.streams@.len(),
        0 <= j < cfg.rates@.len(),
    ensures
        plan_of(cfg).len() == cfg.streams@.len() * cfg.rates@.len(),
        ({
            let run = plan_of(cfg)[i * cfg.rates@.len() + j];
            &&& run.streams == cfg.streams@[i]
            &&& run.rate == cfg.rates@[j]
            &&& run.host == cfg.host
            &&& run.transport == cfg.transport
            &&& run.duration_ns == cfg.duration_ns
            &&& run.warmup_ns == cfg.warmup_ns
            &&& run.payload_bytes == cfg.payload_bytes
            &&& run.token == cfg.token
            &&& run.interval_ns == cfg.interval_ns
        }),
{
    law_plan_makes_every_pair(cfg, i, j);
}

/// What a sweep calls one of its runs.
pub open spec fn run_label_of(streams: u16, rate: RateMode) -> Seq<char> {
    "streams="@ + decimal(streams as nat) + ", rate="@ + rate_text(rate)
}

/// What a sweep calls one of its runs.
pub fn run_label(streams: u16, rate: RateMode) -> (r: String)
    ensures
        r@ == run_label_of(streams, rate),
{
    let mut text: String = "streams=".to_string();
    push_decimal(&mut text, streams as u64);
    text.append(", rate=");
    text.append(rate_label(rate).as_str());
    text
}

/// What a sweep calls a run tells its stream count and its rate: in bits per second, or that it is
/// left to the program.
pub proof fn law_label_tells_streams_and_rate(streams: u16, bps: u64)
    ensures
        run_label_of(streams, RateMode::Bps(bps)) == "streams="@ + decimal(streams as nat)
            + ", rate="@ + decimal(bps as nat),
        run_label_of(streams, RateMode::Auto) == "streams="@ + decimal(streams as nat)
            + ", rate="@ + "auto"@,
{
}

/// The name of what a sweep ranks by.
pub open spec fn objective_name(objective: SweepObjective) -> Seq<char> {
    match objective {
        SweepObjective::Throughput => "Throughput"@,
        SweepObjective::MaxEfficiency => "MaxEfficiency"@,
        SweepObjective::Balanced => "Balanced"@,
    }
}

/// Where the score of a run comes from.
pub fn score_reason(objective: SweepObjective) -> (r: String)
    ensures
        r@ == "score for "@ + objective_name(objective) + " objective"@,
{
    let mut text: String = "score for ".to_string();
    match objective {
        SweepObjective::Throughput => text.append("Throughput"),
        SweepObjective::MaxEfficiency => text.append("MaxEfficiency"),
        SweepObjective::Balanced => text.append("Balanced"),
    }
    text.append(" objective");
    text
}

/// A whole number that orders scores. A score comes as the bits of a binary fraction: a sign and
/// a size, where a larger size is further from zero.
pub open spec fn key_of(bits: u64) -> int {
    if bits < 0x8000_0000_0000_0000 {
        bits as int
    } else {
        0x8000_0000_0000_0000 - bits - 1
    }
}

/// A whole number that orders scores, from the bits of a score.
pub fn score_key(bits: u64) -> (r: i64)
    ensures
        r == key_of(bits),
{
    if bits < 0x8000_0000_0000_0000 {
        bits as i64
    } else {
        -((bits - 0x8000_0000_0000_0000) as i64) - 1
    }
}

/// A score with a sign is below one without, the larger of two scores without a sign is above,
/// and the larger of two with one is below.
pub proof fn law_keys_order_scores(a: u64, b: u64)
    ensures
        a < 0x8000_0000_0000_0000 <= b ==> key_of(b) < key_of(a),
        a < b < 0x8000_0000_0000_0000 ==> key_of(a) < key_of(b),
        0x8000_0000_0000_0000 <= a < b ==> key_of(b) < key_of(a),
        key_of(a) == key_of(b) ==> a == b,
{
}

/// That run `a` is ranked before run `b`: its key is higher, or as high and it was made earlier.
pub open spec fn ranks_before(keys: Seq<i64>, a: usize, b: usize) -> bool {
    keys[a as int] > keys[b as int] || (keys[a as int] == keys[b as int] && a < b)
}

/// That an order ranks the first `n` runs: it holds each of them once, better ones first.
pub open spec fn ranks(keys: Seq<i64>, order: Seq<usize>, n: nat) -> bool {
    &&& order.len() == n
    &&& forall|i: int| 0 <= i < n ==> #[trigger] order[i] < n
    &&& forall|i: int, j: int|
        0 <= i < j < n ==> #[trigger] ranks_before(keys, order[i], order[j])
}

/// Ranks the runs of a sweep by their keys.
pub fn rank_runs(keys: &[i64]) -> (r: Vec<usize>)
    ensures
        ranks(keys@, r@, keys@.len()),
{
    let mut order: Vec<usize> = Vec::new();
    let mut n: usize = 0;
    while n < keys.len()
        invariant
            n <= keys@.len(),
            ranks(keys@, order@, n as nat),
        decreases keys@.len() - n,
    {
        let mut at: usize = n;
        while at > 0 && keys[order[at - 1]] < keys[n]
            invariant
                at <= n < keys@.len(),
                ranks(keys@, order@, n as nat),
                forall|i: int| at <= i < n ==> keys@[#[trigger] order@[i] as int] < keys@[n as int],
            decreases at,
        {
            at = at - 1;
        }
        let ghost before = order@;
        order.insert(at, n);
        assert forall|i: int, j: int| 0 <= i < j < n + 1 implies #[trigger] ranks_before(
            keys@,
            order@[i],
            order@[j],
        ) by {
            if i != at && j != at {
                let a = if i < at {
                    i
                } else {
                    i - 1
                };
                let b = if j < at {
                    j
                } else {
                    j - 1
                };
                assert(ranks_before(keys@, before[a], before[b]));
            } else if i == at {
                assert(order@[j] == before[j - 1]);
            } else {
                assert(order@[i] == before[i]);
                if at > 0 && i < at - 1 {
                    assert(ranks_before(keys@, before[i], before[at - 1]));
                }
            }
        }
        assert forall|i: int| 0 <= i < n + 1 implies #[trigger] order@[i] < n + 1 by {
            if i < at {
                assert(order@[i] == before[i]);
            } else if i > at {
                assert(order@[i] == before[i - 1]);
            }
        }
        n = n + 1;
    }
    order
}

/// A ranking holds no run twice, and no run in it has a higher key than one before it.
pub proof fn law_ranking_is_in_order(keys: Seq<i64>, order: Seq<usize>, i: int, j: int)
    requires
        ranks(keys, order, keys.len()),
        0 <= i < j < order.len(),
    ensures
        order[i] != order[j],
        keys[order[i] as int] >= keys[order[j] as int],
        keys[order[i] as int] == keys[order[j] as int] ==> order[i] < order[j],
{
    assert(ranks_before(keys, order[i], order[j]));
}

/// There is only one ranking.
pub proof fn law_ranking_is_unique(keys: Seq<i64>, a: Seq<usize>, b: Seq<usize>)
    requires
        keys.len() <= usize::MAX,
        ranks(keys, a, keys.len()),
        ranks(keys, b, keys.len()),
    ensures
        a == b,
{
    assert forall|i: int| 0 <= i < a.len() implies a[i] == b[i] by {
        lemma_same_at(keys, a, b, i);
    }
    assert(a =~= b);
}

/// A ranking holds every run.
pub proof fn law_ranking_holds_every_run(keys: Seq<i64>, order: Seq<usize>, run: usize)
    requires
        keys.len() <= usize::MAX,
        ranks(keys, order, keys.len()),
        run < keys.len(),
    ensures
        order.contains(run),
{
    let n = keys.len() as int;
    assert(order.no_duplicates()) by {
        assert forall|i: int, j: int| 0 <= i < j < order.len() implies order[i] != order[j] by {
            assert(ranks_before(keys, order[i], order[j]));
        }
    }
    order.unique_seq_to_set();
    let all = Set::new(|k: usize| k < n);
    lemma_numbers_below(keys.len());
    assert(order.to_set().subset_of(all));
    vstd::set_lib::lemma_set_subset_finite(all, order.to_set());
    vstd::set_lib::lemma_subset_equality(order.to_set(), all);
    assert(order.to_set().contains(run));
}

/// That there are so many numbers below a number.
proof fn lemma_numbers_below(n: nat)
    requires
        n <= usize::MAX,
    ensures
        Set::new(|k: usize| k < n).finite(),
        Set::new(|k: usize| k < n).len() == n,
    decreases n,
{
    let all = Set::new(|k: usize| k < n);
    if n == 0 {
        assert(all =~= Set::empty());
    } else {
        lemma_numbers_below((n - 1) as nat);
        let fewer = Set::new(|k: usize| k < n - 1);
        assert(all =~= fewer.insert((n - 1) as usize));
    }
}

/// That two rankings agree at a place.
proof fn lemma_same_at(keys: Seq<i64>, a: Seq<usize>, b: Seq<usize>, i: int)
    requires
        keys.len() <= usize::MAX,
        ranks(keys, a, keys.len()),
        ranks(keys, b, keys.len()),
        0 <= i < keys.len(),
    ensures
        a[i] == b[i],
    decreases i,
{
    assert forall|k: int| 0 <= k < i implies a[k] == b[k] by {
        lemma_same_at(keys, a, b, k);
    }
    if a[i] != b[i] {
        law_ranking_holds_every_run(keys, b, a[i]);
        law_ranking_holds_every_run(keys, a, b[i]);
        let p = choose|p: int| 0 <= p < b.len() && b[p] == a[i];
        let q = choose|q: int| 0 <= q < a.len() && a[q] == b[i];
        if p < i {
            assert(ranks_before(keys, a[p], a[i]));
        } else if q < i {
            assert(ranks_before(keys, b[q], b[i]));
        } else {
            assert(ranks_before(keys, b[i], b[p]));
            assert(ranks_before(keys, a[i], a[q]));
        }
    }
}

/// One of the best runs of a sweep.
#[derive(Debug, Clone)]
pub struct TopRun {
    /// The place of the run in the sweep.
    pub run: usize,
    pub label: String,
    pub reason: String,
}

/// What a sweep calls one of its best runs.
pub open spec fn top_label_of(config: RunConfigSnapshot) -> Seq<char> {
    "streams="@ + decimal(config.streams as nat) + ",rate="@ + decimal(
        match config.rate_bps {
            Some(v) => v as nat,
            None => 0,
        },
    ) + "bps"@
}

/// One of the best runs of a sweep, with its texts as sequences of characters.
pub struct TopView {
    pub run: usize,
    pub label: Seq<char>,
    pub reason: Seq<char>,
}

/// What is said of the best runs of a sweep, by their ranking.
pub open spec fn top_of(
    order: Seq<usize>,
    configs: Seq<RunConfigSnapshot>,
    top: nat,
) -> Seq<TopView> {
    Seq::new(
        if top < order.len() {
            top
        } else {
            order.len()
        },
        |i: int|
            TopView {
                run: order[i],
                label: top_label_of(configs[order[i] as int]),
                reason: "top-ranked sweep result"@,
            },
    )
}

/// The best runs are the first ones of the ranking: as many as were asked for, or all, and no run
/// that is left out has a higher key than one of them. Each is called by what it was asked to do.
pub proof fn law_best_runs_are_on_top(
    keys: Seq<i64>,
    order: Seq<usize>,
    configs: Seq<RunConfigSnapshot>,
    top: nat,
    i: int,
    other: usize,
)
    requires
        keys.len() <= usize::MAX,
        ranks(keys, order, keys.len()),
        configs.len() == keys.len(),
        0 <= i < top_of(order, configs, top).len(),
        other < keys.len(),
    ensures
        ({
            let best = top_of(order, configs, top);
            let config = configs[best[i].run as int];
            &&& best.len() <= top
            &&& best.len() == top || best.len() == keys.len()
            &&& (forall|j: int| 0 <= j < best.len() ==> (#[trigger] best[j]).run != other)
                ==> keys[other as int] <= keys[best[i].run as int]
            &&& config.rate_bps matches Some(bps) ==> best[i].label == "streams="@ + decimal(
                config.streams as nat,
            ) + ",rate="@ + decimal(bps as nat) + "bps"@
        }),
{
    let best = top_of(order, configs, top);
    law_ranking_holds_every_run(keys, order, other);
    let at = choose|at: int| 0 <= at < order.len() && order[at] == other;
    if at < best.len() {
        assert(best[at].run == other);
    } else {
        assert(ranks_before(keys, order[i], order[at]));
    }
}

/// The first `top` runs of a ranking, with what each was asked to do.
pub fn top_runs(order: &[usize], configs: &[RunConfigSnapshot], top: usize) -> (r: Vec<TopRun>)
    requires
        forall|i: int| 0 <= i < order@.len() ==> #[trigger] order@[i] < configs@.len(),
    ensures
        r@.len() == if top < order@.len() {
            top as nat
        } else {
            order@.len()
        },
        forall|i: int|
            0 <= i < r@.len() ==> {
                &&& #[trigger] r@[i].run == order@[i]
                &&& r@[i].label@ == top_label_of(configs@[order@[i] as int])
                &&& r@[i].reason@ == "top-ranked sweep result"@
            },
        top_views(r@) == top_of(order@, configs@, top as nat),
{
    let mut r: Vec<TopRun> = Vec::new();
    let mut i: usize = 0;
    while i < order.len() && i < top
        invariant
            i <= order@.len(),
            i <= top,
            r@.len() == i,
            forall|i: int| 0 <= i < order@.len() ==> #[trigger] order@[i] < configs@.len(),
            forall|i: int|
                0 <= i < r@.len() ==> {
                    &&& #[trigger] r@[i].run == order@[i]
                    &&& r@[i].label@ == top_label_of(configs@[order@[i] as int])
                    &&& r@[i].reason@ == "top-ranked sweep result"@
                },
        decreases order@.len() - i,
    {
        let run: usize = order[i];
        assert(order@[i as int] < configs@.len());
        let config: RunConfigSnapshot = configs[run];
        let rate: u64 = match config.rate_bps {
            Some(v) => v,
            None => 0,
        };
        let mut label: String = "streams=".to_string();
        push_decimal(&mut label, config.streams as u64);
        label.append(",rate=");
        push_decimal(&mut label, rate);
        label.append("bps");
        r.push(TopRun { run, label, reason: "top-ranked sweep result".to_string() });
        i = i + 1;
    }
    assert(top_views(r@) =~= top_of(order@, configs@, top as nat));
    r
}

/// The best runs of a sweep, with their texts as sequences of characters.
pub open spec fn top_views(runs: Seq<TopRun>) -> Seq<TopView> {
    runs.map_values(
        |run: TopRun| TopView { run: run.run, label: run.label@, reason: run.reason@ },
    )
}

} // verus!
