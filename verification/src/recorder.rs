//! What a run counts while its packets come back.
use std::collections::BTreeMap;
use vstd::multiset::Multiset;
use vstd::prelude::*;
use vstd::std_specs::btree::increasing_seq;
use vstd::std_specs::cmp::OrdSpec;

use crate::figures::{
    bits_per_second, loss, loss_of, millis, packet_rate, per_second, throughput, whole_ms,
};
use crate::latency::{buckets_of, Latencies};
use crate::net::PacketEvent;
use crate::report::{AggregateStats, IntervalStats, LatencyHistogram, StreamStats};
use crate::stats::{mean, mean_of, ms, ms_of, quantile, quantile_of};

verus! {

/// The counters of one stream.
pub struct StreamAccumulator {
    packets_sent: u64,
    packets_acked: u64,
    packets_lost: u64,
    packets_reordered: u64,
    bytes: u64,
    last_seq: u64,
    latencies_ns: Vec<u64>,
    jitters_ns: Vec<u64>,
    last_latency_ns: Option<u64>,
}

/// What is known of one stream.
#[verifier::ext_equal]
pub struct StreamView {
    pub packets_sent: nat,
    pub packets_acked: nat,
    pub packets_lost: nat,
    pub packets_reordered: nat,
    pub bytes: nat,
    pub last_seq: u64,
    pub latencies_ns: Seq<u64>,
    pub jitters_ns: Seq<u64>,
    pub last_latency_ns: Option<u64>,
}

impl View for StreamAccumulator {
    type V = StreamView;

    closed spec fn view(&self) -> StreamView {
        StreamView {
            packets_sent: self.packets_sent as nat,
            packets_acked: self.packets_acked as nat,
            packets_lost: self.packets_lost as nat,
            packets_reordered: self.packets_reordered as nat,
            bytes: self.bytes as nat,
            last_seq: self.last_seq,
            latencies_ns: self.latencies_ns@,
            jitters_ns: self.jitters_ns@,
            last_latency_ns: self.last_latency_ns,
        }
    }
}

/// How long the answer to a packet took.
pub open spec fn latency_of(send_ns: u64, recv_ns: u64) -> u64 {
    if recv_ns >= send_ns {
        (recv_ns - send_ns) as u64
    } else {
        0
    }
}

/// How far two latencies lie apart.
pub open spec fn distance(a: u64, b: u64) -> u64 {
    if a >= b {
        (a - b) as u64
    } else {
        (b - a) as u64
    }
}

impl StreamView {
    /// What is known of a stream before its first packet.
    pub open spec fn fresh() -> StreamView {
        StreamView {
            packets_sent: 0,
            packets_acked: 0,
            packets_lost: 0,
            packets_reordered: 0,
            bytes: 0,
            last_seq: 0,
            latencies_ns: Seq::empty(),
            jitters_ns: Seq::empty(),
            last_latency_ns: None,
        }
    }

    /// The jitter of a latency: how far it lies from the latency before it, if there was one.
    pub open spec fn jitter(self, latency: u64) -> Option<u64> {
        match self.last_latency_ns {
            Some(before) => Some(distance(latency, before)),
            None => None,
        }
    }

    /// What is known of a stream after one more packet. A packet is lost if no answer came to it,
    /// and reordered if an answer to a later one came first.
    pub open spec fn after(self, event: PacketEvent) -> StreamView {
        match event.recv_mono_ns {
            None => StreamView {
                packets_sent: self.packets_sent + 1,
                packets_lost: self.packets_lost + 1,
                bytes: self.bytes + event.bytes as nat,
                ..self
            },
            Some(recv_ns) => {
                let latency = latency_of(event.send_mono_ns, recv_ns);
                StreamView {
                    packets_sent: self.packets_sent + 1,
                    packets_acked: self.packets_acked + 1,
                    packets_reordered: self.packets_reordered + if self.last_seq > event.seq {
                        1nat
                    } else {
                        0
                    },
                    bytes: self.bytes + event.bytes as nat,
                    last_seq: if self.last_seq > event.seq {
                        self.last_seq
                    } else {
                        event.seq
                    },
                    latencies_ns: self.latencies_ns.push(latency),
                    jitters_ns: self.jitters_ns + pushed(self.jitter(latency)),
                    last_latency_ns: Some(latency),
                    ..self
                }
            },
        }
    }

    /// What holds of every stream.
    pub open spec fn wf(self) -> bool {
        &&& self.packets_sent == self.packets_acked + self.packets_lost
        &&& self.packets_reordered <= self.packets_acked
        &&& self.latencies_ns.len() == self.packets_acked
        &&& self.last_latency_ns == if self.packets_acked == 0 {
            None
        } else {
            Some(self.latencies_ns.last())
        }
        &&& self.jitters_ns.len() == if self.packets_acked == 0 {
            0
        } else {
            (self.packets_acked - 1) as nat
        }
    }
}

/// What may be there, as a sequence.
pub open spec fn pushed(value: Option<u64>) -> Seq<u64> {
    match value {
        Some(v) => seq![v],
        None => Seq::empty(),
    }
}

/// What every stream sent, and what came of it.
#[derive(Debug, Clone, Copy, PartialEq, Eq, Structural)]
pub struct Totals {
    pub packets_sent: u64,
    pub packets_acked: u64,
    pub packets_lost: u64,
    pub bytes: u64,
}

impl Totals {
    /// Nothing sent.
    pub open spec fn nothing() -> Totals {
        Totals { packets_sent: 0, packets_acked: 0, packets_lost: 0, bytes: 0 }
    }
}

impl Default for Totals {
    fn default() -> (r: Totals)
        ensures
            r == Totals::nothing(),
    {
        Totals { packets_sent: 0, packets_acked: 0, packets_lost: 0, bytes: 0 }
    }
}

/// The counters of a run.
pub struct Recorder {
    streams: BTreeMap<u32, StreamAccumulator>,
    totals: Totals,
    interval_latencies: Vec<u64>,
    interval_jitters: Vec<u64>,
    latencies: Latencies,
}

/// What is known of a run.
#[verifier::ext_equal]
pub struct RecorderView {
    pub streams: Map<u32, StreamView>,
    pub packets_sent: nat,
    pub packets_acked: nat,
    pub packets_lost: nat,
    pub bytes: nat,
    /// The latencies and the jitters since the last interval ended.
    pub interval_latencies: Seq<u64>,
    pub interval_jitters: Seq<u64>,
    /// All latencies, in the order in which the answers came.
    pub latencies: Seq<u64>,
}

/// What is known of each stream.
pub open spec fn stream_views(m: Map<u32, StreamAccumulator>) -> Map<u32, StreamView> {
    m.map_values(|s: StreamAccumulator| s@)
}

impl View for Recorder {
    type V = RecorderView;

    closed spec fn view(&self) -> RecorderView {
        RecorderView {
            streams: stream_views(self.streams@),
            packets_sent: self.totals.packets_sent as nat,
            packets_acked: self.totals.packets_acked as nat,
            packets_lost: self.totals.packets_lost as nat,
            bytes: self.totals.bytes as nat,
            interval_latencies: self.interval_latencies@,
            interval_jitters: self.interval_jitters@,
            latencies: self.latencies@,
        }
    }
}

/// The sum of a figure over the streams with a number below `n`.
pub open spec fn sum_below(
    streams: Map<u32, StreamView>,
    figure: spec_fn(StreamView) -> nat,
    n: nat,
) -> nat
    decreases n,
{
    if n == 0 {
        0
    } else {
        let id = (n - 1) as u32;
        sum_below(streams, figure, (n - 1) as nat) + if streams.contains_key(id) {
            figure(streams[id])
        } else {
            0
        }
    }
}

/// How many numbers a stream can have.
pub open spec fn id_count() -> nat {
    0x1_0000_0000
}

/// The sum of a figure over all streams.
pub open spec fn sum_over(
    streams: Map<u32, StreamView>,
    figure: spec_fn(StreamView) -> nat,
) -> nat {
    sum_below(streams, figure, id_count())
}

/// The latencies of the streams with a number below `n`, in no order.
pub open spec fn pool_below(streams: Map<u32, StreamView>, n: nat) -> Multiset<u64>
    decreases n,
{
    if n == 0 {
        Multiset::empty()
    } else {
        let id = (n - 1) as u32;
        let before = pool_below(streams, (n - 1) as nat);
        if streams.contains_key(id) {
            before.add(streams[id].latencies_ns.to_multiset())
        } else {
            before
        }
    }
}

pub open spec fn sent() -> spec_fn(StreamView) -> nat {
    |s: StreamView| s.packets_sent
}

pub open spec fn acked() -> spec_fn(StreamView) -> nat {
    |s: StreamView| s.packets_acked
}

pub open spec fn lost() -> spec_fn(StreamView) -> nat {
    |s: StreamView| s.packets_lost
}

pub open spec fn reordered() -> spec_fn(StreamView) -> nat {
    |s: StreamView| s.packets_reordered
}

pub open spec fn carried() -> spec_fn(StreamView) -> nat {
    |s: StreamView| s.bytes
}

impl RecorderView {
    /// What is known of a run before its first packet.
    pub open spec fn fresh() -> RecorderView {
        RecorderView {
            streams: Map::empty(),
            packets_sent: 0,
            packets_acked: 0,
            packets_lost: 0,
            bytes: 0,
            interval_latencies: Seq::empty(),
            interval_jitters: Seq::empty(),
            latencies: Seq::empty(),
        }
    }

    /// What is known of a stream, whether it has sent yet or not.
    pub open spec fn stream(self, id: u32) -> StreamView {
        if self.streams.contains_key(id) {
            self.streams[id]
        } else {
            StreamView::fresh()
        }
    }

    /// What is known of a run after one more packet.
    pub open spec fn after(self, event: PacketEvent) -> RecorderView {
        let stream = self.stream(event.stream_id);
        let counted = RecorderView {
            streams: self.streams.insert(event.stream_id, stream.after(event)),
            packets_sent: self.packets_sent + 1,
            bytes: self.bytes + event.bytes as nat,
            ..self
        };
        match event.recv_mono_ns {
            None => RecorderView { packets_lost: self.packets_lost + 1, ..counted },
            Some(recv_ns) => {
                let latency = latency_of(event.send_mono_ns, recv_ns);
                RecorderView {
                    packets_acked: self.packets_acked + 1,
                    interval_latencies: self.interval_latencies.push(latency),
                    interval_jitters: self.interval_jitters + pushed(stream.jitter(latency)),
                    latencies: self.latencies.push(latency),
                    ..counted
                }
            },
        }
    }

    /// What is known of a run after these packets.
    pub open spec fn after_all(self, events: Seq<PacketEvent>) -> RecorderView
        decreases events.len(),
    {
        if events.len() == 0 {
            self
        } else {
            self.after_all(events.drop_last()).after(events.last())
        }
    }

    /// What is known of a run once an interval has ended.
    pub open spec fn interval_ended(self) -> RecorderView {
        RecorderView {
            interval_latencies: Seq::empty(),
            interval_jitters: Seq::empty(),
            ..self
        }
    }

    /// What holds of every run: each packet sent was answered or lost, and what is known of the
    /// run is the sum of what is known of its streams.
    pub open spec fn wf(self) -> bool {
        &&& forall|id: u32| #[trigger] self.streams.contains_key(id) ==> self.streams[id].wf()
        &&& self.packets_sent == self.packets_acked + self.packets_lost
        &&& self.latencies.len() == self.packets_acked
        &&& self.packets_sent == sum_over(self.streams, sent())
        &&& self.packets_acked == sum_over(self.streams, acked())
        &&& self.packets_lost == sum_over(self.streams, lost())
        &&& self.bytes == sum_over(self.streams, carried())
        &&& self.latencies.to_multiset() == pool_below(self.streams, id_count())
    }
}

/// That a sum over streams changes with the one stream that changes.
pub(crate) proof fn lemma_sum_changes(
    streams: Map<u32, StreamView>,
    figure: spec_fn(StreamView) -> nat,
    id: u32,
    stream: StreamView,
    n: nat,
)
    requires
        n <= id_count(),
    ensures
        sum_below(streams.insert(id, stream), figure, n) + if id < n && streams.contains_key(id) {
            figure(streams[id])
        } else {
            0
        } == sum_below(streams, figure, n) + if id < n {
            figure(stream)
        } else {
            0
        },
    decreases n,
{
    if n > 0 {
        lemma_sum_changes(streams, figure, id, stream, (n - 1) as nat);
    }
}

/// That a sum over streams is at least what one stream adds to it.
pub(crate) proof fn lemma_part_of_sum(
    streams: Map<u32, StreamView>,
    figure: spec_fn(StreamView) -> nat,
    id: u32,
    n: nat,
)
    requires
        id < n <= id_count(),
        streams.contains_key(id),
    ensures
        figure(streams[id]) <= sum_below(streams, figure, n),
    decreases n,
{
    if id < n - 1 {
        lemma_part_of_sum(streams, figure, id, (n - 1) as nat);
    }
}

/// That there is nothing to sum over no streams.
proof fn lemma_empty_sum(figure: spec_fn(StreamView) -> nat, n: nat)
    ensures
        sum_below(Map::empty(), figure, n) == 0,
    decreases n,
{
    if n > 0 {
        lemma_empty_sum(figure, (n - 1) as nat);
    }
}

/// That a figure which is at most another in every stream is so in the sum.
proof fn lemma_sums_compare(
    streams: Map<u32, StreamView>,
    low: spec_fn(StreamView) -> nat,
    high: spec_fn(StreamView) -> nat,
    n: nat,
)
    requires
        n <= id_count(),
        forall|id: u32| #[trigger]
            streams.contains_key(id) ==> low(streams[id]) <= high(streams[id]),
    ensures
        sum_below(streams, low, n) <= sum_below(streams, high, n),
    decreases n,
{
    if n > 0 {
        lemma_sums_compare(streams, low, high, (n - 1) as nat);
        let id = (n - 1) as u32;
        assert(streams.contains_key(id) ==> low(streams[id]) <= high(streams[id]));
    }
}

/// That the pool of latencies changes with the one stream that changes.
proof fn lemma_pool_changes(
    streams: Map<u32, StreamView>,
    id: u32,
    stream: StreamView,
    n: nat,
)
    requires
        n <= id_count(),
    ensures
        pool_below(streams.insert(id, stream), n).add(
            if id < n && streams.contains_key(id) {
                streams[id].latencies_ns.to_multiset()
            } else {
                Multiset::empty()
            },
        ) == pool_below(streams, n).add(
            if id < n {
                stream.latencies_ns.to_multiset()
            } else {
                Multiset::empty()
            },
        ),
    decreases n,
{
    let gone = if id < n && streams.contains_key(id) {
        streams[id].latencies_ns.to_multiset()
    } else {
        Multiset::empty()
    };
    let come = if id < n {
        stream.latencies_ns.to_multiset()
    } else {
        Multiset::empty()
    };
    if n > 0 {
        lemma_pool_changes(streams, id, stream, (n - 1) as nat);
        let k = (n - 1) as u32;
        let new_before = pool_below(streams.insert(id, stream), (n - 1) as nat);
        let old_before = pool_below(streams, (n - 1) as nat);
        if k == id {
            assert(new_before.add(Multiset::empty()) =~= new_before);
            assert(old_before.add(Multiset::empty()) =~= old_before);
            assert(new_before.add(come).add(gone) =~= new_before.add(gone).add(come));
            if !streams.contains_key(id) {
                assert(new_before.add(come).add(gone) =~= new_before.add(come));
            }
        } else if streams.contains_key(k) {
            let both = streams[k].latencies_ns.to_multiset();
            assert(new_before.add(both).add(gone) =~= new_before.add(gone).add(both));
            assert(old_before.add(both).add(come) =~= old_before.add(come).add(both));
        }
    }
}

/// That there is no pool without streams.
proof fn lemma_empty_pool(n: nat)
    ensures
        pool_below(Map::empty(), n) == Multiset::<u64>::empty(),
    decreases n,
{
    if n > 0 {
        lemma_empty_pool((n - 1) as nat);
    }
}

/// A fresh run is in order.
pub proof fn law_fresh_run_adds_up()
    ensures
        RecorderView::fresh().wf(),
{
    lemma_empty_sum(sent(), id_count());
    lemma_empty_sum(acked(), id_count());
    lemma_empty_sum(lost(), id_count());
    lemma_empty_sum(carried(), id_count());
    lemma_empty_pool(id_count());
    Seq::<u64>::empty().to_multiset_ensures();
    assert(Seq::<u64>::empty().to_multiset() =~= Multiset::empty());
}

/// Whatever comes of a packet, what holds of every run holds after it.
pub proof fn law_packets_keep_adding_up(run: RecorderView, event: PacketEvent)
    requires
        run.wf(),
    ensures
        run.after(event).wf(),
{
    let id = event.stream_id;
    let stream = run.stream(id).after(event);
    assert(stream.wf());
    lemma_sum_changes(run.streams, sent(), id, stream, id_count());
    lemma_sum_changes(run.streams, acked(), id, stream, id_count());
    lemma_sum_changes(run.streams, lost(), id, stream, id_count());
    lemma_sum_changes(run.streams, carried(), id, stream, id_count());
    lemma_pool_changes(run.streams, id, stream, id_count());
    let was = run.stream(id).latencies_ns;
    was.to_multiset_ensures();
    run.latencies.to_multiset_ensures();
    let now = run.after(event);
    let pool = pool_below(now.streams, id_count());
    if !run.streams.contains_key(id) {
        assert(was.to_multiset() =~= Multiset::empty());
    }
    assert(pool.add(was.to_multiset()) == run.latencies.to_multiset().add(
        stream.latencies_ns.to_multiset(),
    ));
    match event.recv_mono_ns {
        None => {
            assert(pool =~= run.latencies.to_multiset().add(was.to_multiset()).sub(
                was.to_multiset(),
            ));
        },
        Some(recv_ns) => {
            let latency = latency_of(event.send_mono_ns, recv_ns);
            assert(run.latencies.to_multiset().add(was.to_multiset().insert(latency))
                =~= run.latencies.to_multiset().insert(latency).add(was.to_multiset()));
            assert(pool =~= run.latencies.to_multiset().insert(latency).add(
                was.to_multiset(),
            ).sub(was.to_multiset()));
        },
    }
    assert(pool =~= now.latencies.to_multiset());
}

/// However many packets a run has counted, what was sent was answered or lost, and the streams
/// add up to the run.
pub proof fn law_runs_add_up(events: Seq<PacketEvent>)
    ensures
        RecorderView::fresh().after_all(events).wf(),
        RecorderView::fresh().after_all(events).packets_sent == events.len(),
    decreases events.len(),
{
    if events.len() == 0 {
        law_fresh_run_adds_up();
    } else {
        law_runs_add_up(events.drop_last());
        law_packets_keep_adding_up(
            RecorderView::fresh().after_all(events.drop_last()),
            events.last(),
        );
    }
}

/// The numbers of the packets of a stream that were answered, in the order in which the answers
/// came.
pub open spec fn answered_seqs(events: Seq<PacketEvent>, id: u32) -> Seq<u64>
    decreases events.len(),
{
    if events.len() == 0 {
        Seq::empty()
    } else {
        let before = answered_seqs(events.drop_last(), id);
        let event = events.last();
        if event.stream_id == id && event.recv_mono_ns is Some {
            before.push(event.seq)
        } else {
            before
        }
    }
}

/// How many numbers come after a greater one.
pub open spec fn count_late(seqs: Seq<u64>) -> nat
    decreases seqs.len(),
{
    if seqs.len() == 0 {
        0
    } else {
        let before = seqs.drop_last();
        count_late(before) + if exists|j: int|
            0 <= j < before.len() && #[trigger] before[j] > seqs.last() {
            1nat
        } else {
            0nat
        }
    }
}

/// That a number is the greatest of some, or zero where there are none.
pub open spec fn is_greatest(seqs: Seq<u64>, greatest: u64) -> bool {
    &&& forall|j: int| 0 <= j < seqs.len() ==> #[trigger] seqs[j] <= greatest
    &&& if seqs.len() == 0 {
        greatest == 0
    } else {
        seqs.contains(greatest)
    }
}

/// A packet of a stream is reordered if it is answered after one of the stream that has a greater
/// number, and `last_seq` is the greatest number that was answered.
pub proof fn law_reordering_is_counted(events: Seq<PacketEvent>, id: u32)
    ensures
        ({
            let stream = RecorderView::fresh().after_all(events).stream(id);
            let seqs = answered_seqs(events, id);
            &&& stream.packets_reordered == count_late(seqs)
            &&& is_greatest(seqs, stream.last_seq)
        }),
    decreases events.len(),
{
    if events.len() > 0 {
        law_reordering_is_counted(events.drop_last(), id);
        let event = events.last();
        if event.stream_id == id && event.recv_mono_ns is Some {
            let was = RecorderView::fresh().after_all(events.drop_last()).stream(id);
            let before = answered_seqs(events.drop_last(), id);
            let seqs = before.push(event.seq);
            assert(seqs.drop_last() =~= before);
            assert(seqs[before.len() as int] == event.seq);
            if was.last_seq > event.seq {
                let j = choose|j: int| 0 <= j < before.len() && before[j] == was.last_seq;
                assert(before[j] > event.seq);
                assert(seqs[j] == was.last_seq);
            }
        }
    }
}

/// No more packets are reordered than are answered, and no more are answered than are sent.
pub proof fn law_answers_are_bounded(run: RecorderView)
    requires
        run.wf(),
    ensures
        sum_over(run.streams, reordered()) <= run.packets_acked <= run.packets_sent,
{
    lemma_sums_compare(run.streams, reordered(), acked(), id_count());
}

/// The keys of the entries of a map.
spec fn keys_of(entries: Seq<(&u32, &StreamAccumulator)>) -> Seq<u32> {
    entries.map_values(|kv: (&u32, &StreamAccumulator)| *kv.0)
}

/// That in a sequence in order each number is above those before it.
proof fn lemma_rising(s: Seq<u32>)
    requires
        increasing_seq(s),
    ensures
        forall|i: int, j: int| 0 <= i < j < s.len() ==> s[i] < s[j],
{
    assert forall|i: int, j: int| 0 <= i < j < s.len() implies s[i] < s[j] by {
        assert(s[i].cmp_spec(&s[j]) is Less);
    }
}

/// The numbers below `n` of the streams, in order.
pub open spec fn ids_below(streams: Map<u32, StreamView>, n: nat) -> Seq<u32>
    decreases n,
{
    if n == 0 {
        Seq::empty()
    } else {
        let id = (n - 1) as u32;
        let before = ids_below(streams, (n - 1) as nat);
        if streams.contains_key(id) {
            before.push(id)
        } else {
            before
        }
    }
}

/// The numbers of the streams, in order.
pub open spec fn ids_of(streams: Map<u32, StreamView>) -> Seq<u32> {
    ids_below(streams, id_count())
}

/// That a rising sequence of the numbers of the streams holds them in order.
proof fn lemma_ids_in_order(streams: Map<u32, StreamView>, s: Seq<u32>, n: nat)
    requires
        n <= id_count(),
        forall|i: int, j: int| 0 <= i < j < s.len() ==> s[i] < s[j],
        forall|i: int| 0 <= i < s.len() ==> #[trigger] s[i] < n && streams.contains_key(s[i]),
        forall|id: u32| id < n && #[trigger] streams.contains_key(id) ==> s.contains(id),
    ensures
        s == ids_below(streams, n),
    decreases n,
{
    if n == 0 {
        assert(s.len() == 0) by {
            if s.len() > 0 {
                assert(s[0] < n);
            }
        }
    } else {
        let id = (n - 1) as u32;
        if streams.contains_key(id) {
            assert(s.contains(id));
            let at = choose|i: int| 0 <= i < s.len() && s[i] == id;
            assert(at == s.len() - 1) by {
                if at < s.len() - 1 {
                    assert(s[at] < s[s.len() - 1]);
                }
            }
            let before = s.drop_last();
            assert forall|k: u32| k < n - 1 && #[trigger] streams.contains_key(k) implies
                before.contains(k) by {
                let i = choose|i: int| 0 <= i < s.len() && s[i] == k;
                assert(before[i] == k);
            }
            lemma_ids_in_order(streams, before, (n - 1) as nat);
            assert(s =~= before.push(id));
        } else {
            lemma_ids_in_order(streams, s, (n - 1) as nat);
        }
    }
}

/// That the numbers of the streams are those of the streams.
proof fn lemma_ids_are_known(streams: Map<u32, StreamView>, n: nat)
    requires
        n <= id_count(),
    ensures
        forall|i: int|
            0 <= i < ids_below(streams, n).len() ==> #[trigger] streams.contains_key(
                ids_below(streams, n)[i],
            ) && ids_below(streams, n)[i] < n,
    decreases n,
{
    if n > 0 {
        lemma_ids_are_known(streams, (n - 1) as nat);
        let before = ids_below(streams, (n - 1) as nat);
        assert forall|i: int| 0 <= i < ids_below(streams, n).len() implies #[trigger]
        streams.contains_key(ids_below(streams, n)[i]) && ids_below(streams, n)[i] < n by {
            if i < before.len() {
                assert(streams.contains_key(before[i]));
            }
        }
    }
}

/// The sum of a figure over some streams.
pub open spec fn sum_by(
    streams: Map<u32, StreamView>,
    ids: Seq<u32>,
    figure: spec_fn(StreamView) -> nat,
) -> nat
    decreases ids.len(),
{
    if ids.len() == 0 {
        0
    } else {
        sum_by(streams, ids.drop_last(), figure) + figure(streams[ids.last()])
    }
}

/// The numbers of the streams rise, and they are those of all streams.
pub proof fn law_ids_rise(streams: Map<u32, StreamView>)
    ensures
        forall|i: int, j: int|
            0 <= i < j < ids_of(streams).len() ==> #[trigger] ids_of(streams)[i]
                < #[trigger] ids_of(streams)[j],
        forall|id: u32| #[trigger]
            ids_of(streams).contains(id) <==> streams.contains_key(id),
{
    lemma_ids_rise(streams, id_count());
    lemma_ids_are_known(streams, id_count());
}

/// That the numbers below `n` of the streams rise, and none is left out.
proof fn lemma_ids_rise(streams: Map<u32, StreamView>, n: nat)
    requires
        n <= id_count(),
    ensures
        forall|i: int, j: int|
            0 <= i < j < ids_below(streams, n).len() ==> #[trigger] ids_below(streams, n)[i]
                < #[trigger] ids_below(streams, n)[j],
        forall|id: u32|
            id < n && #[trigger] streams.contains_key(id) ==> ids_below(streams, n).contains(id),
    decreases n,
{
    if n > 0 {
        lemma_ids_rise(streams, (n - 1) as nat);
        lemma_ids_are_known(streams, (n - 1) as nat);
        let last = (n - 1) as u32;
        let before = ids_below(streams, (n - 1) as nat);
        let ids = ids_below(streams, n);
        assert forall|i: int, j: int| 0 <= i < j < ids.len() implies #[trigger] ids[i]
            < #[trigger] ids[j] by {
            assert(streams.contains_key(before[i]));
        }
        assert forall|id: u32| id < n && #[trigger] streams.contains_key(id) implies ids.contains(
            id,
        ) by {
            if id == last {
                assert(ids[before.len() as int] == id);
            } else {
                let i = choose|i: int| 0 <= i < before.len() && before[i] == id;
                assert(ids[i] == id);
            }
        }
    }
}

/// That the sum over the streams by their numbers is the sum over all streams.
pub(crate) proof fn lemma_sum_by_ids(
    streams: Map<u32, StreamView>,
    figure: spec_fn(StreamView) -> nat,
    n: nat,
)
    ensures
        sum_by(streams, ids_below(streams, n), figure) == sum_below(streams, figure, n),
    decreases n,
{
    if n > 0 {
        lemma_sum_by_ids(streams, figure, (n - 1) as nat);
        let id = (n - 1) as u32;
        let before = ids_below(streams, (n - 1) as nat);
        assert(before.push(id).drop_last() =~= before);
    }
}

/// That a sum over the first streams is at most the sum over all.
proof fn lemma_sum_by_grows(
    streams: Map<u32, StreamView>,
    ids: Seq<u32>,
    figure: spec_fn(StreamView) -> nat,
    n: int,
)
    requires
        0 <= n <= ids.len(),
    ensures
        sum_by(streams, ids.take(n), figure) <= sum_by(streams, ids, figure),
    decreases ids.len() - n,
{
    if n == ids.len() {
        assert(ids.take(n) =~= ids);
    } else {
        lemma_sum_by_grows(streams, ids, figure, n + 1);
        assert(ids.take(n + 1).drop_last() =~= ids.take(n));
    }
}

/// The values that some streams hold, stream by stream.
pub open spec fn joined(
    streams: Map<u32, StreamView>,
    ids: Seq<u32>,
    values: spec_fn(StreamView) -> Seq<u64>,
) -> Seq<u64>
    decreases ids.len(),
{
    if ids.len() == 0 {
        Seq::empty()
    } else {
        joined(streams, ids.drop_last(), values) + values(streams[ids.last()])
    }
}

/// The latencies of all streams, stream by stream.
pub open spec fn all_latencies(streams: Map<u32, StreamView>) -> Seq<u64> {
    joined(streams, ids_of(streams), |s: StreamView| s.latencies_ns)
}

/// The jitters of all streams, stream by stream.
pub open spec fn all_jitters(streams: Map<u32, StreamView>) -> Seq<u64> {
    joined(streams, ids_of(streams), |s: StreamView| s.jitters_ns)
}

/// The latencies in the order in which the answers came are those of all the streams.
pub proof fn law_latencies_are_those_of_the_streams(run: RecorderView)
    requires
        run.wf(),
    ensures
        all_latencies(run.streams).to_multiset() == run.latencies.to_multiset(),
{
    lemma_joined_pool(run.streams, id_count());
}

/// That the joined latencies of the streams are the pool of them.
proof fn lemma_joined_pool(streams: Map<u32, StreamView>, n: nat)
    ensures
        joined(streams, ids_below(streams, n), |s: StreamView| s.latencies_ns).to_multiset()
            == pool_below(streams, n),
    decreases n,
{
    let values = |s: StreamView| s.latencies_ns;
    if n == 0 {
        Seq::<u64>::empty().to_multiset_ensures();
        assert(joined(streams, ids_below(streams, n), values).to_multiset()
            =~= Multiset::empty());
    } else {
        lemma_joined_pool(streams, (n - 1) as nat);
        let id = (n - 1) as u32;
        let before = ids_below(streams, (n - 1) as nat);
        assert(before.push(id).drop_last() =~= before);
        vstd::seq_lib::lemma_multiset_commutative(
            joined(streams, before, values),
            streams[id].latencies_ns,
        );
    }
}

/// The figures of a stream over a span of time.
pub open spec fn stream_stats_of(id: u32, s: StreamView, span_ns: u128) -> StreamStats {
    StreamStats {
        stream_id: id,
        packets_sent: s.packets_sent as u64,
        packets_acked: s.packets_acked as u64,
        packets_lost: s.packets_lost as u64,
        packets_reordered: s.packets_reordered as u64,
        bytes: s.bytes as u64,
        throughput_bps: bits_per_second(s.bytes, span_ns),
        jitter_ms: mean_of(s.jitters_ns),
        p50_ms: ms_of(quantile_of(s.latencies_ns, 50)),
        p95_ms: ms_of(quantile_of(s.latencies_ns, 95)),
        p99_ms: ms_of(quantile_of(s.latencies_ns, 99)),
    }
}

/// The figures of a run over a span of time.
pub open spec fn aggregate_of(run: RecorderView, span_ns: u128) -> AggregateStats {
    AggregateStats {
        packets_sent: run.packets_sent as u64,
        packets_acked: run.packets_acked as u64,
        packets_lost: run.packets_lost as u64,
        packets_reordered: sum_over(run.streams, reordered()) as u64,
        bytes: run.bytes as u64,
        throughput_bps: bits_per_second(run.bytes, span_ns),
        packet_rate_pps: per_second(run.packets_sent, span_ns),
        loss_pct: loss_of(run.packets_lost, run.packets_sent),
        jitter_ms: mean_of(all_jitters(run.streams)),
        p50_ms: ms_of(quantile_of(all_latencies(run.streams), 50)),
        p95_ms: ms_of(quantile_of(all_latencies(run.streams), 95)),
        p99_ms: ms_of(quantile_of(all_latencies(run.streams), 99)),
    }
}

/// What was counted of packets up to some time.
pub open spec fn totals_of(run: RecorderView) -> Totals {
    Totals {
        packets_sent: run.packets_sent as u64,
        packets_acked: run.packets_acked as u64,
        packets_lost: run.packets_lost as u64,
        bytes: run.bytes as u64,
    }
}

/// What one count has over another, if it is the higher one.
pub open spec fn over(a: int, b: int) -> int {
    if a >= b {
        a - b
    } else {
        0
    }
}

/// The figures of an interval that ends `at_ns` into the measurement and is `span_ns` long, with
/// what was counted before it.
pub open spec fn interval_of(
    index: u64,
    run: RecorderView,
    before: Totals,
    span_ns: u128,
    at_ns: u128,
) -> IntervalStats {
    let bytes = over(run.bytes as int, before.bytes as int) as nat;
    let packets_sent = over(run.packets_sent as int, before.packets_sent as int) as nat;
    let packets_acked = over(run.packets_acked as int, before.packets_acked as int) as nat;
    let packets_lost = over(run.packets_lost as int, before.packets_lost as int) as nat;
    IntervalStats {
        index,
        start_ms: whole_ms(over(at_ns as int, span_ns as int) as u128),
        end_ms: whole_ms(at_ns),
        bytes: bytes as u64,
        packets_sent: packets_sent as u64,
        packets_acked: packets_acked as u64,
        packets_lost: packets_lost as u64,
        throughput_bps: bits_per_second(bytes, span_ns),
        packet_rate_pps: per_second(packets_sent, span_ns),
        loss_pct: loss_of(packets_lost, packets_sent),
        jitter_ms: mean_of(run.interval_jitters),
        p50_ms: ms_of(quantile_of(run.interval_latencies, 50)),
        p95_ms: ms_of(quantile_of(run.interval_latencies, 95)),
        p99_ms: ms_of(quantile_of(run.interval_latencies, 99)),
    }
}

impl StreamAccumulator {
    /// The figures of a stream over a span of time.
    pub fn stats(&self, id: u32, span_ns: u128) -> (r: StreamStats)
        ensures
            r == stream_stats_of(id, self@, span_ns),
            r.packets_sent == self@.packets_sent,
            r.packets_acked == self@.packets_acked,
            r.packets_lost == self@.packets_lost,
            r.packets_reordered == self@.packets_reordered,
            r.bytes == self@.bytes,
    {
        StreamStats {
            stream_id: id,
            packets_sent: self.packets_sent,
            packets_acked: self.packets_acked,
            packets_lost: self.packets_lost,
            packets_reordered: self.packets_reordered,
            bytes: self.bytes,
            throughput_bps: throughput(self.bytes, span_ns),
            jitter_ms: mean(&self.jitters_ns),
            p50_ms: ms(quantile(&self.latencies_ns, 50)),
            p95_ms: ms(quantile(&self.latencies_ns, 95)),
            p99_ms: ms(quantile(&self.latencies_ns, 99)),
        }
    }

    /// A stream before its first packet.
    fn fresh() -> (r: StreamAccumulator)
        ensures
            r@ == StreamView::fresh(),
    {
        StreamAccumulator {
            packets_sent: 0,
            packets_acked: 0,
            packets_lost: 0,
            packets_reordered: 0,
            bytes: 0,
            last_seq: 0,
            latencies_ns: Vec::new(),
            jitters_ns: Vec::new(),
            last_latency_ns: None,
        }
    }
}

impl Recorder {
    /// That the histogram holds what it should.
    pub closed spec fn histogram_agrees(self) -> bool {
        self.latencies.wf()
    }

    /// That the histogram holds what it should, and the counters add up and fit 64 bits.
    pub open spec fn wf(self) -> bool {
        &&& self.histogram_agrees()
        &&& self@.wf()
        &&& self@.packets_sent <= u64::MAX
        &&& self@.bytes <= u64::MAX
        &&& forall|id: u32| #[trigger]
            self@.streams.contains_key(id) ==> self@.streams[id].packets_sent <= u64::MAX
                && self@.streams[id].bytes <= u64::MAX
    }

    /// A run before its first packet.
    pub fn new() -> (r: Recorder)
        ensures
            r.wf(),
            r@ == RecorderView::fresh(),
    {
        let r = Recorder {
            streams: BTreeMap::new(),
            totals: Totals::default(),
            interval_latencies: Vec::new(),
            interval_jitters: Vec::new(),
            latencies: Latencies::new(),
        };
        proof {
            law_fresh_run_adds_up();
            assert(r@ =~= RecorderView::fresh());
        }
        r
    }

    /// The numbers of the streams, in order.
    fn stream_ids(&self) -> (r: Vec<u32>)
        ensures
            r@ == ids_of(self@.streams),
    {
        let mut r: Vec<u32> = Vec::new();
        for entry in it: self.streams.iter()
            invariant
                r@ == keys_of(it.seq()).take(it.index()),
                increasing_seq(keys_of(it.seq())),
                forall|i: int, j: int| 0 <= i < j < r@.len() ==> r@[i] < r@[j],
                forall|i: int|
                    0 <= i < it.seq().len() ==> self.streams@.contains_key(
                        #[trigger] *it.seq()[i].0,
                    ),
                forall|id: u32| #[trigger]
                    self.streams@.contains_key(id) ==> it.seq().contains((&id, &self.streams@[id])),
                forall|i: int| 0 <= i < r@.len() ==> #[trigger] self.streams@.contains_key(r@[i]),
                it.index() == it.seq().len() ==> forall|id: u32| #[trigger]
                    self.streams@.contains_key(id) ==> r@.contains(id),
        {
            proof {
                lemma_rising(keys_of(it.seq()));
                assert(keys_of(it.seq())[it.index()] == *entry.0);
            }
            r.push(*entry.0);
            assert forall|id: u32| it.index() + 1 == it.seq().len()
                && #[trigger] self.streams@.contains_key(id) implies r@.contains(id) by {
                let found = (&id, &self.streams@[id]);
                let i = choose|i: int| 0 <= i < it.seq().len() && it.seq()[i] == found;
                assert(r@[i] == id);
            }
        }
        proof {
            lemma_ids_in_order(self@.streams, r@, id_count());
        }
        r
    }

    /// What was counted of packets so far.
    pub fn totals(&self) -> (r: Totals)
        ensures
            r == totals_of(self@),
            r.packets_sent == self@.packets_sent,
            r.packets_acked == self@.packets_acked,
            r.packets_lost == self@.packets_lost,
            r.bytes == self@.bytes,
    {
        self.totals
    }

    /// The figures of every stream over a span of time, in the order of their numbers.
    pub fn stream_stats(&self, span_ns: u128) -> (r: Vec<StreamStats>)
        ensures
            r@ == ids_of(self@.streams).map_values(
                |id: u32| stream_stats_of(id, self@.streams[id], span_ns),
            ),
    {
        let ids: Vec<u32> = self.stream_ids();
        let mut r: Vec<StreamStats> = Vec::new();
        let mut i: usize = 0;
        proof {
            lemma_ids_are_known(self@.streams, id_count());
        }
        while i < ids.len()
            invariant
                i <= ids@.len(),
                ids@ == ids_of(self@.streams),
                forall|k: int|
                    0 <= k < ids@.len() ==> #[trigger] self@.streams.contains_key(ids@[k]),
                r@ == ids@.take(i as int).map_values(
                    |id: u32| stream_stats_of(id, self@.streams[id], span_ns),
                ),
            decreases ids@.len() - i,
        {
            let id: u32 = ids[i];
            assert(self@.streams.contains_key(ids@[i as int]));
            if let Some(s) = self.streams.get(&id) {
                r.push(s.stats(id, span_ns));
            }
            i = i + 1;
        }
        assert(ids@.take(ids@.len() as int) =~= ids@);
        r
    }

    /// The figures of the run over a span of time.
    pub fn build_aggregate(&self, span_ns: u128) -> (r: AggregateStats)
        requires
            self.wf(),
        ensures
            r == aggregate_of(self@, span_ns),
            r.packets_sent == self@.packets_sent,
            r.packets_acked == self@.packets_acked,
            r.packets_lost == self@.packets_lost,
            r.packets_reordered == sum_over(self@.streams, reordered()),
            r.bytes == self@.bytes,
    {
        let ids: Vec<u32> = self.stream_ids();
        let mut latencies: Vec<u64> = Vec::new();
        let mut jitters: Vec<u64> = Vec::new();
        let mut packets_reordered: u64 = 0;
        let mut i: usize = 0;
        proof {
            lemma_ids_are_known(self@.streams, id_count());
            law_answers_are_bounded(self@);
            lemma_sum_by_ids(self@.streams, reordered(), id_count());
        }
        while i < ids.len()
            invariant
                i <= ids@.len(),
                ids@ == ids_of(self@.streams),
                forall|k: int|
                    0 <= k < ids@.len() ==> #[trigger] self@.streams.contains_key(ids@[k]),
                latencies@ == joined(
                    self@.streams,
                    ids@.take(i as int),
                    |s: StreamView| s.latencies_ns,
                ),
                jitters@ == joined(
                    self@.streams,
                    ids@.take(i as int),
                    |s: StreamView| s.jitters_ns,
                ),
                packets_reordered == sum_by(self@.streams, ids@.take(i as int), reordered()),
                sum_by(self@.streams, ids@, reordered()) <= u64::MAX,
            decreases ids@.len() - i,
        {
            let id: u32 = ids[i];
            proof {
                assert(self@.streams.contains_key(ids@[i as int]));
                assert(ids@.take(i + 1).drop_last() =~= ids@.take(i as int));
                lemma_sum_by_grows(self@.streams, ids@, reordered(), i + 1);
            }
            if let Some(s) = self.streams.get(&id) {
                latencies.extend_from_slice(&s.latencies_ns);
                jitters.extend_from_slice(&s.jitters_ns);
                packets_reordered = packets_reordered + s.packets_reordered;
            }
            i = i + 1;
        }
        assert(ids@.take(ids@.len() as int) =~= ids@);
        AggregateStats {
            packets_sent: self.totals.packets_sent,
            packets_acked: self.totals.packets_acked,
            packets_lost: self.totals.packets_lost,
            packets_reordered,
            bytes: self.totals.bytes,
            throughput_bps: throughput(self.totals.bytes, span_ns),
            packet_rate_pps: packet_rate(self.totals.packets_sent, span_ns),
            loss_pct: loss(self.totals.packets_lost, self.totals.packets_sent),
            jitter_ms: mean(&jitters),
            p50_ms: ms(quantile(&latencies, 50)),
            p95_ms: ms(quantile(&latencies, 95)),
            p99_ms: ms(quantile(&latencies, 99)),
        }
    }

    /// The figures of an interval that ends `at_ns` into the measurement and is `span_ns` long,
    /// with what was counted before it.
    pub fn build_interval(&self, index: u64, before: &Totals, span_ns: u128, at_ns: u128) -> (r:
        IntervalStats)
        ensures
            r == interval_of(index, self@, *before, span_ns, at_ns),
    {
        let bytes: u64 = self.totals.bytes.saturating_sub(before.bytes);
        let packets_sent: u64 = self.totals.packets_sent.saturating_sub(before.packets_sent);
        let packets_acked: u64 = self.totals.packets_acked.saturating_sub(before.packets_acked);
        let packets_lost: u64 = self.totals.packets_lost.saturating_sub(before.packets_lost);
        IntervalStats {
            index,
            start_ms: millis(at_ns.saturating_sub(span_ns)),
            end_ms: millis(at_ns),
            bytes,
            packets_sent,
            packets_acked,
            packets_lost,
            throughput_bps: throughput(bytes, span_ns),
            packet_rate_pps: packet_rate(packets_sent, span_ns),
            loss_pct: loss(packets_lost, packets_sent),
            jitter_ms: mean(&self.interval_jitters),
            p50_ms: ms(quantile(&self.interval_latencies, 50)),
            p95_ms: ms(quantile(&self.interval_latencies, 95)),
            p99_ms: ms(quantile(&self.interval_latencies, 99)),
        }
    }

    /// Ends an interval: what follows belongs to the next one.
    pub fn end_interval(&mut self)
        requires
            old(self).wf(),
        ensures
            final(self).wf(),
            final(self)@ == old(self)@.interval_ended(),
    {
        self.interval_latencies.clear();
        self.interval_jitters.clear();
        assert(self@ =~= old(self)@.interval_ended());
    }

    /// How many latencies came within each of the times of a report.
    pub fn build_histogram(&self) -> (r: LatencyHistogram)
        requires
            self.wf(),
        ensures
            r.buckets@ == buckets_of(self@.latencies),
    {
        self.latencies.build_histogram()
    }

    /// Whether the counters have room for one more packet.
    pub fn has_room(&self, event: &PacketEvent) -> (r: bool)
        ensures
            r <==> self@.packets_sent < u64::MAX && self@.bytes + event.bytes <= u64::MAX,
    {
        self.totals.packets_sent < u64::MAX && self.totals.bytes <= u64::MAX - event.bytes
    }

    /// Counts one more packet.
    pub fn apply_event(&mut self, event: PacketEvent)
        requires
            old(self).wf(),
            old(self)@.packets_sent < u64::MAX,
            old(self)@.bytes + event.bytes <= u64::MAX,
        ensures
            final(self).wf(),
            final(self)@ == old(self)@.after(event),
    {
        let ghost run = self@;
        let ghost was = run.stream(event.stream_id);
        proof {
            law_packets_keep_adding_up(run, event);
            if run.streams.contains_key(event.stream_id) {
                lemma_part_of_sum(run.streams, sent(), event.stream_id, id_count());
                lemma_part_of_sum(run.streams, carried(), event.stream_id, id_count());
            }
        }
        let mut stream: StreamAccumulator = match self.streams.remove(&event.stream_id) {
            Some(s) => s,
            None => StreamAccumulator::fresh(),
        };
        assert(stream@ == was);
        stream.packets_sent = stream.packets_sent + 1;
        stream.bytes = stream.bytes + event.bytes;
        self.totals.packets_sent = self.totals.packets_sent + 1;
        self.totals.bytes = self.totals.bytes + event.bytes;
        match event.recv_mono_ns {
            Some(recv_ns) => {
                stream.packets_acked = stream.packets_acked + 1;
                self.totals.packets_acked = self.totals.packets_acked + 1;
                let latency: u64 = recv_ns.saturating_sub(event.send_mono_ns);
                stream.latencies_ns.push(latency);
                self.interval_latencies.push(latency);
                self.latencies.note(latency);
                if let Some(before) = stream.last_latency_ns {
                    let jitter: u64 = if latency >= before {
                        latency - before
                    } else {
                        before - latency
                    };
                    stream.jitters_ns.push(jitter);
                    self.interval_jitters.push(jitter);
                }
                stream.last_latency_ns = Some(latency);
                if stream.last_seq > event.seq {
                    stream.packets_reordered = stream.packets_reordered + 1;
                } else {
                    stream.last_seq = event.seq;
                }
            },
            None => {
                stream.packets_lost = stream.packets_lost + 1;
                self.totals.packets_lost = self.totals.packets_lost + 1;
            },
        }
        assert(stream@ =~= was.after(event));
        self.streams.insert(event.stream_id, stream);
        proof {
            assert(self@.streams =~= run.after(event).streams);
            assert(self@ =~= run.after(event));
        }
    }
}

} // verus!
