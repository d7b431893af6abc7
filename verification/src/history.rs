//! From what a run is told to what it reports.
//!
//! The packets of a run and the ticks of its clock are taken as they come, and each figure of a
//! report is tied to them: which packets it counts, which times it is taken from, and over what
//! span.
use vstd::prelude::*;

use crate::bench::{answers_loss, resolved, rows_of, BenchmarkView, Happening};
use crate::config::{RateMode, Transport};
use crate::latency::counts_in_time;
use crate::meaning::{
    is_bits_per_second, is_mean_ms, is_ms, is_per_second, is_percentage, is_place,
    is_quantile_ms, is_row_of, is_whole_ms, law_loss_is_the_share_of_the_lost,
    law_mean_is_the_sum_over_the_number, law_quantile_is_shown, law_rates_are_what_was_counted,
    law_whole_ms_are_full, lemma_total,
};
use crate::net::PacketEvent;
use crate::recorder::{
    aggregate_of, all_jitters, all_latencies, answered_seqs, count_late, id_count, ids_below,
    ids_of, joined, law_ids_rise, law_latencies_are_those_of_the_streams,
    law_reordering_is_counted, law_runs_add_up, lemma_sum_changes, stream_stats_of, sum_below,
    sum_over, RecorderView, StreamView, Totals,
};
use crate::report::{AggregateStats, IntervalStats, Ratio, RunReport, StreamStats};
use crate::stats::sum_of;

verus! {

/// The packets of one stream.
pub open spec fn of_stream(packets: Seq<PacketEvent>, id: u32) -> Seq<PacketEvent> {
    packets.filter(|p: PacketEvent| p.stream_id == id)
}

/// The packets that were answered.
pub open spec fn answered(packets: Seq<PacketEvent>) -> Seq<PacketEvent> {
    packets.filter(|p: PacketEvent| p.recv_mono_ns is Some)
}

/// How long the answer to a packet took: none at all if the clocks say that it came before the
/// packet was sent.
pub open spec fn time_taken(packet: PacketEvent) -> u64 {
    let sent = packet.send_mono_ns;
    let came = packet.recv_mono_ns->0;
    if came < sent {
        0
    } else {
        (came - sent) as u64
    }
}

/// How long the answers took, in the order in which they came.
pub open spec fn times(packets: Seq<PacketEvent>) -> Seq<u64> {
    answered(packets).map_values(|p: PacketEvent| time_taken(p))
}

/// The bytes that packets carried.
pub open spec fn bytes_in(packets: Seq<PacketEvent>) -> int {
    packets.fold_left(0int, |n: int, p: PacketEvent| n + p.bytes)
}

/// How far two times lie apart, whichever is the longer.
pub open spec fn apart(a: u64, b: u64) -> u64 {
    if a < b {
        (b - a) as u64
    } else {
        (a - b) as u64
    }
}

/// How far each answer lies from the one before it in its stream, for the packets from `first` on.
/// The first answer of a stream has none before it.
pub open spec fn swings(packets: Seq<PacketEvent>, first: int) -> Seq<u64>
    decreases packets.len(),
{
    if packets.len() == 0 || packets.len() <= first {
        Seq::empty()
    } else {
        let packet = packets.last();
        let earlier = times(of_stream(packets.drop_last(), packet.stream_id));
        let so_far = swings(packets.drop_last(), first);
        if packet.recv_mono_ns is Some && earlier.len() > 0 {
            so_far.push(apart(time_taken(packet), earlier.last()))
        } else {
            so_far
        }
    }
}

/// That one more packet is one more where it belongs.
proof fn lemma_one_more(packets: Seq<PacketEvent>, packet: PacketEvent, id: u32)
    ensures
        of_stream(packets.push(packet), id) == if packet.stream_id == id {
            of_stream(packets, id).push(packet)
        } else {
            of_stream(packets, id)
        },
        answered(packets.push(packet)) == if packet.recv_mono_ns is Some {
            answered(packets).push(packet)
        } else {
            answered(packets)
        },
        times(packets.push(packet)) == if packet.recv_mono_ns is Some {
            times(packets).push(time_taken(packet))
        } else {
            times(packets)
        },
        bytes_in(packets.push(packet)) == bytes_in(packets) + packet.bytes,
{
    reveal(Seq::filter);
    let more = packets.push(packet);
    assert(more.drop_last() =~= packets);
    assert(times(more) =~= if packet.recv_mono_ns is Some {
        times(packets).push(time_taken(packet))
    } else {
        times(packets)
    });
}

/// That the packets of a stream are its packets.
proof fn lemma_of_stream_twice(packets: Seq<PacketEvent>, id: u32)
    ensures
        of_stream(of_stream(packets, id), id) == of_stream(packets, id),
    decreases packets.len(),
{
    if packets.len() > 0 {
        let before = packets.drop_last();
        lemma_of_stream_twice(before, id);
        assert(packets =~= before.push(packets.last()));
        lemma_one_more(before, packets.last(), id);
        lemma_one_more(of_stream(before, id), packets.last(), id);
    }
}

/// That bytes are not negative.
proof fn lemma_bytes(packets: Seq<PacketEvent>)
    ensures
        bytes_in(packets) >= 0,
    decreases packets.len(),
{
    if packets.len() > 0 {
        lemma_bytes(packets.drop_last());
    }
}

/// What is known of a stream is what its packets tell: how many there were, how many of them were
/// answered and how many not, what they carried, how long the answers took, and how far each
/// answer lies from the one before it.
pub proof fn law_streams_count_their_packets(packets: Seq<PacketEvent>, id: u32)
    ensures
        ({
            let stream = RecorderView::fresh().after_all(packets).stream(id);
            let own = of_stream(packets, id);
            &&& stream.packets_sent == own.len()
            &&& stream.packets_acked == answered(own).len()
            &&& stream.packets_lost == own.len() - answered(own).len()
            &&& stream.bytes == bytes_in(own)
            &&& stream.latencies_ns == times(own)
            &&& stream.jitters_ns == swings(own, 0)
        }),
        RecorderView::fresh().after_all(packets).streams.contains_key(id) <==> of_stream(
            packets,
            id,
        ).len() > 0,
{
    lemma_stream(packets, id);
}

/// That what is known of a stream is what its packets tell, with its last latency.
proof fn lemma_stream(packets: Seq<PacketEvent>, id: u32)
    ensures
        ({
            let stream = RecorderView::fresh().after_all(packets).stream(id);
            let own = of_stream(packets, id);
            &&& stream.packets_sent == own.len()
            &&& stream.packets_acked == answered(own).len()
            &&& stream.packets_lost == own.len() - answered(own).len()
            &&& stream.bytes == bytes_in(own)
            &&& stream.latencies_ns == times(own)
            &&& stream.jitters_ns == swings(own, 0)
            &&& stream.last_latency_ns == if times(own).len() == 0 {
                None
            } else {
                Some(times(own).last())
            }
        }),
        RecorderView::fresh().after_all(packets).streams.contains_key(id) <==> of_stream(
            packets,
            id,
        ).len() > 0,
    decreases packets.len(),
{
    if packets.len() > 0 {
        let before = packets.drop_last();
        let packet = packets.last();
        lemma_stream(before, id);
        assert(packets =~= before.push(packet));
        lemma_one_more(before, packet, id);
        if packet.stream_id == id {
            let was = of_stream(before, id);
            lemma_one_more(was, packet, id);
            lemma_of_stream_twice(before, id);
            assert(was.push(packet).drop_last() =~= was);
            let stream = RecorderView::fresh().after_all(packets).stream(id);
            assert(stream.jitters_ns =~= swings(was.push(packet), 0));
        }
    }
}

/// Each jitter of a stream makes the lesser of two latencies that follow on each other the greater
/// one, whichever of them came first.
pub proof fn law_jitter_is_the_distance(packets: Seq<PacketEvent>, id: u32, i: int)
    requires
        0 <= i < RecorderView::fresh().after_all(packets).stream(id).latencies_ns.len() - 1,
    ensures
        ({
            let stream = RecorderView::fresh().after_all(packets).stream(id);
            let a = stream.latencies_ns[i];
            let b = stream.latencies_ns[i + 1];
            &&& stream.jitters_ns.len() == stream.latencies_ns.len() - 1
            &&& a <= b ==> a + stream.jitters_ns[i] == b
            &&& b <= a ==> b + stream.jitters_ns[i] == a
        }),
    decreases packets.len(),
{
    if packets.len() > 0 {
        let before = packets.drop_last();
        let was = RecorderView::fresh().after_all(before).stream(id);
        lemma_stream(before, id);
        lemma_stream(packets, id);
        law_runs_add_up(before);
        law_runs_add_up(packets);
        if i < was.latencies_ns.len() - 1 {
            law_jitter_is_the_distance(before, id, i);
        }
    }
}

/// What is known of a run is what all its packets tell.
pub proof fn law_runs_count_their_packets(packets: Seq<PacketEvent>)
    ensures
        ({
            let run = RecorderView::fresh().after_all(packets);
            &&& run.packets_sent == packets.len()
            &&& run.packets_acked == answered(packets).len()
            &&& run.packets_lost == packets.len() - answered(packets).len()
            &&& run.bytes == bytes_in(packets)
            &&& run.latencies == times(packets)
        }),
    decreases packets.len(),
{
    if packets.len() > 0 {
        let before = packets.drop_last();
        law_runs_count_their_packets(before);
        assert(packets =~= before.push(packets.last()));
        lemma_one_more(before, packets.last(), 0);
    }
}

/// That a row of a report says of a stream what its packets tell, over a span of time.
pub open spec fn shows_stream(
    row: StreamStats,
    id: u32,
    packets: Seq<PacketEvent>,
    span_ns: int,
) -> bool {
    let own = of_stream(packets, id);
    &&& row.stream_id == id
    &&& row.packets_sent == own.len()
    &&& row.packets_acked == answered(own).len()
    &&& row.packets_lost == own.len() - answered(own).len()
    &&& row.packets_reordered == count_late(answered_seqs(packets, id))
    &&& row.bytes == bytes_in(own)
    &&& is_bits_per_second(row.throughput_bps, bytes_in(own), span_ns)
    &&& is_mean_ms(row.jitter_ms, swings(own, 0))
    &&& is_quantile_ms(row.p50_ms, times(own), 50)
    &&& is_quantile_ms(row.p95_ms, times(own), 95)
    &&& is_quantile_ms(row.p99_ms, times(own), 99)
}

/// That the figures of a whole run say what all its packets tell, over a span of time.
pub open spec fn shows_run(all: AggregateStats, packets: Seq<PacketEvent>, span_ns: int) -> bool {
    let lost = packets.len() - answered(packets).len();
    &&& all.packets_sent == packets.len()
    &&& all.packets_acked == answered(packets).len()
    &&& all.packets_lost == lost
    &&& all.bytes == bytes_in(packets)
    &&& is_bits_per_second(all.throughput_bps, bytes_in(packets), span_ns)
    &&& is_per_second(all.packet_rate_pps, packets.len() as int, span_ns)
    &&& is_percentage(all.loss_pct, lost, packets.len() as int)
    &&& is_mean_ms(all.jitter_ms, swings(packets, 0))
    &&& is_quantile_ms(all.p50_ms, times(packets), 50)
    &&& is_quantile_ms(all.p95_ms, times(packets), 95)
    &&& is_quantile_ms(all.p99_ms, times(packets), 99)
}

/// That there are no more answers than packets, and no more jitters than answers.
proof fn lemma_counts(packets: Seq<PacketEvent>, first: int)
    ensures
        times(packets).len() == answered(packets).len() <= packets.len(),
        swings(packets, first).len() <= answered(packets).len(),
    decreases packets.len(),
{
    reveal(Seq::filter);
    if packets.len() > 0 {
        lemma_counts(packets.drop_last(), first);
    }
}

/// That a stream has no more packets and bytes than all streams have.
proof fn lemma_part(packets: Seq<PacketEvent>, id: u32)
    ensures
        of_stream(packets, id).len() <= packets.len(),
        0 <= bytes_in(of_stream(packets, id)) <= bytes_in(packets),
    decreases packets.len(),
{
    reveal(Seq::filter);
    if packets.len() > 0 {
        let before = packets.drop_last();
        lemma_part(before, id);
        assert(packets =~= before.push(packets.last()));
        lemma_one_more(before, packets.last(), id);
        lemma_one_more(of_stream(before, id), packets.last(), id);
    }
}

/// The row of a stream in a report says what the packets of the stream tell.
pub proof fn law_rows_show_their_streams(packets: Seq<PacketEvent>, span_ns: u128, id: u32)
    requires
        packets.len() <= u64::MAX,
        bytes_in(packets) <= u64::MAX,
    ensures
        ({
            let stream = RecorderView::fresh().after_all(packets).stream(id);
            shows_stream(stream_stats_of(id, stream, span_ns), id, packets, span_ns as int)
        }),
{
    let stream = RecorderView::fresh().after_all(packets).stream(id);
    let own = of_stream(packets, id);
    lemma_stream(packets, id);
    lemma_part(packets, id);
    lemma_counts(own, 0);
    law_reordering_is_counted(packets, id);
    law_runs_add_up(packets);
    law_rates_are_what_was_counted(stream.bytes, span_ns);
    law_mean_is_the_sum_over_the_number(swings(own, 0));
    law_quantile_is_shown(times(own), 50);
    law_quantile_is_shown(times(own), 95);
    law_quantile_is_shown(times(own), 99);
}

/// What the jitters of a stream come to.
spec fn jitter_sum() -> spec_fn(StreamView) -> nat {
    |s: StreamView| sum_of(s.jitters_ns)
}

/// How many jitters a stream has.
spec fn jitter_count() -> spec_fn(StreamView) -> nat {
    |s: StreamView| s.jitters_ns.len()
}

/// That values which streams hold add up stream by stream.
proof fn lemma_joined_sums(
    streams: Map<u32, StreamView>,
    values: spec_fn(StreamView) -> Seq<u64>,
    sum: spec_fn(StreamView) -> nat,
    count: spec_fn(StreamView) -> nat,
    n: nat,
)
    requires
        forall|s: StreamView| #[trigger] sum(s) == sum_of(values(s)),
        forall|s: StreamView| #[trigger] count(s) == values(s).len(),
    ensures
        sum_of(joined(streams, ids_below(streams, n), values)) == sum_below(streams, sum, n),
        joined(streams, ids_below(streams, n), values).len() == sum_below(streams, count, n),
    decreases n,
{
    if n > 0 {
        lemma_joined_sums(streams, values, sum, count, (n - 1) as nat);
        let id = (n - 1) as u32;
        let before = ids_below(streams, (n - 1) as nat);
        assert(before.push(id).drop_last() =~= before);
        lemma_sum_of_two(joined(streams, before, values), values(streams[id]));
        assert(sum(streams[id]) == sum_of(values(streams[id])));
        assert(count(streams[id]) == values(streams[id]).len());
    }
}

/// That two rows add up to the sum of both.
proof fn lemma_sum_of_two(a: Seq<u64>, b: Seq<u64>)
    ensures
        sum_of(a + b) == sum_of(a) + sum_of(b),
    decreases b.len(),
{
    if b.len() == 0 {
        assert(a + b =~= a);
    } else {
        lemma_sum_of_two(a, b.drop_last());
        assert((a + b).drop_last() =~= a + b.drop_last());
    }
}

/// That the jitters of the streams are those that the packets tell.
proof fn lemma_jitters(packets: Seq<PacketEvent>)
    ensures
        ({
            let streams = RecorderView::fresh().after_all(packets).streams;
            &&& sum_over(streams, jitter_sum()) == sum_of(swings(packets, 0))
            &&& sum_over(streams, jitter_count()) == swings(packets, 0).len()
        }),
    decreases packets.len(),
{
    if packets.len() == 0 {
        lemma_nothing(jitter_sum(), id_count());
        lemma_nothing(jitter_count(), id_count());
    } else {
        let before = packets.drop_last();
        let packet = packets.last();
        let id = packet.stream_id;
        lemma_jitters(before);
        let run = RecorderView::fresh().after_all(before);
        let was = run.stream(id);
        let now = was.after(packet);
        lemma_stream(before, id);
        lemma_sum_changes(run.streams, jitter_sum(), id, now, id_count());
        lemma_sum_changes(run.streams, jitter_count(), id, now, id_count());
        if packet.recv_mono_ns is Some && was.last_latency_ns is Some {
            let jitter = apart(time_taken(packet), times(of_stream(before, id)).last());
            assert(now.jitters_ns =~= was.jitters_ns.push(jitter));
            assert(was.jitters_ns.push(jitter).drop_last() =~= was.jitters_ns);
            assert(swings(before, 0).push(jitter).drop_last() =~= swings(before, 0));
        } else {
            assert(now.jitters_ns =~= was.jitters_ns);
        }
    }
}

/// That there is nothing to sum over no streams.
proof fn lemma_nothing(figure: spec_fn(StreamView) -> nat, n: nat)
    ensures
        sum_below(Map::empty(), figure, n) == 0,
    decreases n,
{
    if n > 0 {
        lemma_nothing(figure, (n - 1) as nat);
    }
}

/// The figures of a whole run say what all its packets tell.
pub proof fn law_aggregate_shows_all_packets(packets: Seq<PacketEvent>, span_ns: u128)
    requires
        packets.len() <= u64::MAX,
        bytes_in(packets) <= u64::MAX,
    ensures
        shows_run(
            aggregate_of(RecorderView::fresh().after_all(packets), span_ns),
            packets,
            span_ns as int,
        ),
{
    let run = RecorderView::fresh().after_all(packets);
    let all = aggregate_of(run, span_ns);
    law_runs_count_their_packets(packets);
    law_runs_add_up(packets);
    lemma_counts(packets, 0);
    lemma_bytes(packets);
    law_rates_are_what_was_counted(run.bytes, span_ns);
    law_rates_are_what_was_counted(run.packets_sent, span_ns);
    law_loss_is_the_share_of_the_lost(run.packets_lost, run.packets_sent);
    law_latencies_are_those_of_the_streams(run);
    let row = all_latencies(run.streams);
    row.to_multiset_ensures();
    times(packets).to_multiset_ensures();
    assert(row.len() == times(packets).len());
    law_quantile_is_shown(row, 50);
    law_quantile_is_shown(row, 95);
    law_quantile_is_shown(row, 99);
    lemma_same_quantile(all.p50_ms, row, times(packets), 50);
    lemma_same_quantile(all.p95_ms, row, times(packets), 95);
    lemma_same_quantile(all.p99_ms, row, times(packets), 99);
    let jitters = all_jitters(run.streams);
    lemma_jitters(packets);
    lemma_joined_sums(
        run.streams,
        |s: StreamView| s.jitters_ns,
        jitter_sum(),
        jitter_count(),
        id_count(),
    );
    lemma_total(jitters);
    lemma_total(swings(packets, 0));
    law_mean_is_the_sum_over_the_number(jitters);
}

/// That the order of times does not matter to what says a quantile of them.
proof fn lemma_same_quantile(shown: Ratio, a: Seq<u64>, b: Seq<u64>, percent: int)
    requires
        a.to_multiset() == b.to_multiset(),
        a.len() == b.len(),
        is_quantile_ms(shown, a, percent),
    ensures
        is_quantile_ms(shown, b, percent),
{
    assert forall|row: Seq<u64>, place: int|
        #![trigger is_row_of(row, b), is_place(place, b.len(), percent)]
        b.len() > 0 && is_row_of(row, b) && is_place(place, b.len(), percent) implies is_ms(
        shown,
        row[place] as int,
    ) by {
        assert(is_row_of(row, a));
        assert(is_place(place, a.len(), percent));
    }
}

/// The packets that a run is told of and that count: those of the warm-up do not.
pub open spec fn packets_told(told: Seq<Happening>) -> Seq<PacketEvent>
    decreases told.len(),
{
    if told.len() == 0 {
        Seq::empty()
    } else {
        let before = packets_told(told.drop_last());
        match told.last() {
            Happening::Packet(packet) if packet.measured => before.push(packet),
            _ => before,
        }
    }
}

/// A stretch of a run between two ticks of its clock, with the packets from `first` to before
/// `end` in it.
pub struct Spell {
    pub from_ns: u128,
    pub to_ns: u128,
    pub first: int,
    pub end: int,
}

/// The stretches of a run that is measured from a time on. Each begins where the one before it
/// ended, and the first one where the measurement begins; ticks before that end none.
pub open spec fn spells(told: Seq<Happening>, start_ns: u128) -> Seq<Spell>
    decreases told.len(),
{
    if told.len() == 0 {
        Seq::empty()
    } else {
        let before = spells(told.drop_last(), start_ns);
        match told.last() {
            Happening::Tick(now_ns) if now_ns >= start_ns => before.push(
                Spell {
                    from_ns: ended(before, start_ns),
                    to_ns: now_ns,
                    first: taken(before),
                    end: packets_told(told.drop_last()).len() as int,
                },
            ),
            _ => before,
        }
    }
}

/// When the last of some stretches ended.
pub open spec fn ended(before: Seq<Spell>, start_ns: u128) -> u128 {
    if before.len() == 0 {
        start_ns
    } else {
        before.last().to_ns
    }
}

/// How many packets are in some stretches.
pub open spec fn taken(before: Seq<Spell>) -> int {
    if before.len() == 0 {
        0
    } else {
        before.last().end
    }
}

/// That an interval says of a stretch of a run what its packets tell. Where no time has passed, it
/// is taken to be as long as intervals are meant to be.
pub open spec fn shows_spell(
    shown: IntervalStats,
    spell: Spell,
    told: Seq<PacketEvent>,
    start_ns: int,
    interval_ns: int,
) -> bool {
    let packets = told.subrange(spell.first, spell.end);
    let lost = packets.len() - answered(packets).len();
    let passed = spell.to_ns - spell.from_ns;
    let span = if passed > 0 {
        passed
    } else {
        interval_ns
    };
    &&& shown.packets_sent == packets.len()
    &&& shown.packets_acked == answered(packets).len()
    &&& shown.packets_lost == lost
    &&& shown.bytes == bytes_in(packets)
    &&& is_bits_per_second(shown.throughput_bps, bytes_in(packets), span)
    &&& is_per_second(shown.packet_rate_pps, packets.len() as int, span)
    &&& is_percentage(shown.loss_pct, lost, packets.len() as int)
    &&& is_whole_ms(shown.end_ms, spell.to_ns - start_ns)
    &&& passed > 0 ==> is_whole_ms(shown.start_ms, spell.from_ns - start_ns)
    &&& passed <= 0 && spell.to_ns - start_ns >= interval_ns ==> is_whole_ms(
        shown.start_ms,
        spell.to_ns - start_ns - interval_ns,
    )
    &&& passed <= 0 && spell.to_ns - start_ns < interval_ns ==> shown.start_ms == 0
    &&& is_mean_ms(shown.jitter_ms, swings(told.take(spell.end), spell.first))
    &&& is_quantile_ms(shown.p50_ms, times(packets), 50)
    &&& is_quantile_ms(shown.p95_ms, times(packets), 95)
    &&& is_quantile_ms(shown.p99_ms, times(packets), 99)
}

/// That what was counted of two parts adds up.
proof fn lemma_two_parts(packets: Seq<PacketEvent>, at: int)
    requires
        0 <= at <= packets.len(),
    ensures
        answered(packets).len() == answered(packets.take(at)).len() + answered(
            packets.skip(at),
        ).len(),
        times(packets) == times(packets.take(at)) + times(packets.skip(at)),
        bytes_in(packets) == bytes_in(packets.take(at)) + bytes_in(packets.skip(at)),
        bytes_in(packets.take(at)) >= 0,
        bytes_in(packets.skip(at)) >= 0,
    decreases packets.len() - at, 0int,
{
    reveal(Seq::filter);
    lemma_bytes(packets.take(at));
    lemma_bytes(packets.skip(at));
    if at == packets.len() {
        assert(packets.take(at) =~= packets);
        assert(packets.skip(at) =~= Seq::empty());
        assert(times(packets) =~= times(packets.take(at)) + times(packets.skip(at)));
    } else {
        let before = packets.drop_last();
        let packet = packets.last();
        lemma_two_parts_step(before, packet, at);
        assert(packets =~= before.push(packet));
    }
}

/// That what was counted of two parts adds up with one more packet.
proof fn lemma_two_parts_step(before: Seq<PacketEvent>, packet: PacketEvent, at: int)
    requires
        0 <= at <= before.len(),
    ensures
        ({
            let packets = before.push(packet);
            &&& answered(packets).len() == answered(packets.take(at)).len() + answered(
                packets.skip(at),
            ).len()
            &&& times(packets) == times(packets.take(at)) + times(packets.skip(at))
            &&& bytes_in(packets) == bytes_in(packets.take(at)) + bytes_in(packets.skip(at))
        }),
    decreases before.len() - at, 1int,
{
    let packets = before.push(packet);
    lemma_two_parts(before, at);
    lemma_one_more(before, packet, 0);
    lemma_one_more(before.skip(at), packet, 0);
    assert(packets.take(at) =~= before.take(at));
    assert(packets.skip(at) =~= before.skip(at).push(packet));
    assert(times(packets) =~= times(packets.take(at)) + times(packets.skip(at)));
}

/// That two runs have counted the same but for their intervals.
spec fn same_counts(a: RecorderView, b: RecorderView) -> bool {
    &&& a.streams == b.streams
    &&& a.packets_sent == b.packets_sent
    &&& a.packets_acked == b.packets_acked
    &&& a.packets_lost == b.packets_lost
    &&& a.bytes == b.bytes
    &&& a.latencies == b.latencies
}

/// That a run has counted some packets, with the stretches that are done.
spec fn has_counted(
    start: BenchmarkView,
    now: BenchmarkView,
    packets: Seq<PacketEvent>,
    done: Seq<Spell>,
) -> bool {
    let at = taken(done);
    &&& now.cfg == start.cfg
    &&& now.session_id == start.session_id
    &&& now.host == start.host
    &&& now.started_unix_ms == start.started_unix_ms
    &&& now.rate_bps == start.rate_bps
    &&& now.advice == start.advice
    &&& now.measurement_start_ns == start.measurement_start_ns
    &&& same_counts(now.run, RecorderView::fresh().after_all(packets))
    &&& 0 <= at <= packets.len()
    &&& now.run.interval_latencies == times(packets.skip(at))
    &&& now.run.interval_jitters == swings(packets, at)
    &&& now.before.packets_sent == at
    &&& now.before.packets_acked == answered(packets.take(at)).len()
    &&& now.before.packets_lost == at - answered(packets.take(at)).len()
    &&& now.before.bytes == bytes_in(packets.take(at))
    &&& now.last_tick_ns == if done.len() == 0 {
        None
    } else {
        Some(done.last().to_ns)
    }
    &&& ended(done, start.measurement_start_ns) >= start.measurement_start_ns
    &&& now.intervals.len() == done.len()
}

/// That a run which has counted some packets has counted one more.
proof fn lemma_packet_counts(
    start: BenchmarkView,
    was: BenchmarkView,
    packets: Seq<PacketEvent>,
    done: Seq<Spell>,
    packet: PacketEvent,
)
    requires
        has_counted(start, was, packets, done),
        packet.measured,
    ensures
        has_counted(start, was.after_event(packet), packets.push(packet), done),
{
    let at = taken(done);
    let more = packets.push(packet);
    let now = was.after_event(packet);
    assert(more.drop_last() =~= packets);
    lemma_stream(packets, packet.stream_id);
    lemma_one_more(packets.skip(at), packet, 0);
    assert(more.skip(at) =~= packets.skip(at).push(packet));
    assert(more.take(at) =~= packets.take(at));
    assert(now.run.interval_latencies =~= times(more.skip(at)));
    assert(now.run.interval_jitters =~= swings(more, at));
}

/// That a run which has counted some packets begins to count anew with a tick.
proof fn lemma_tick_counts(
    start: BenchmarkView,
    was: BenchmarkView,
    packets: Seq<PacketEvent>,
    done: Seq<Spell>,
    now_ns: u128,
)
    requires
        has_counted(start, was, packets, done),
        now_ns >= start.measurement_start_ns,
        packets.len() <= u64::MAX,
        bytes_in(packets) <= u64::MAX,
    ensures
        has_counted(
            start,
            was.after_tick(now_ns),
            packets,
            done.push(
                Spell {
                    from_ns: ended(done, start.measurement_start_ns),
                    to_ns: now_ns,
                    first: taken(done),
                    end: packets.len() as int,
                },
            ),
        ),
{
    let n = packets.len() as int;
    reveal(Seq::filter);
    assert(packets.skip(n) =~= Seq::empty());
    assert(times(packets.skip(n)) =~= Seq::empty());
    assert(packets.take(n) =~= packets);
    law_runs_count_their_packets(packets);
    lemma_counts(packets, 0);
    lemma_bytes(packets);
}

/// That a run has counted the packets that it was told of, since the last tick and before.
proof fn lemma_told_is_counted(start: BenchmarkView, told: Seq<Happening>)
    requires
        start.run == RecorderView::fresh(),
        start.before == Totals::nothing(),
        start.intervals.len() == 0,
        start.last_tick_ns is None,
        packets_told(told).len() <= u64::MAX,
        bytes_in(packets_told(told)) <= u64::MAX,
    ensures
        has_counted(
            start,
            start.after_all(told),
            packets_told(told),
            spells(told, start.measurement_start_ns),
        ),
    decreases told.len(),
{
    let packets = packets_told(told);
    if told.len() == 0 {
        reveal(Seq::filter);
        assert(packets.skip(0) =~= Seq::empty());
        assert(packets.take(0) =~= Seq::empty());
        assert(times(packets.skip(0)) =~= start.run.interval_latencies);
    } else {
        let earlier = told.drop_last();
        let was = packets_told(earlier);
        let done = spells(earlier, start.measurement_start_ns);
        lemma_told_before(told);
        lemma_told_is_counted(start, earlier);
        match told.last() {
            Happening::Packet(packet) => {
                if packet.measured {
                    lemma_packet_counts(start, start.after_all(earlier), was, done, packet);
                }
            },
            Happening::Tick(now_ns) => {
                if now_ns >= start.measurement_start_ns {
                    lemma_tick_counts(start, start.after_all(earlier), was, done, now_ns);
                }
            },
        }
    }
}

/// That no more was told before.
proof fn lemma_told_before(told: Seq<Happening>)
    requires
        told.len() > 0,
    ensures
        packets_told(told.drop_last()).len() <= packets_told(told).len(),
        bytes_in(packets_told(told.drop_last())) <= bytes_in(packets_told(told)),
        packets_told(told).take(packets_told(told.drop_last()).len() as int) == packets_told(
            told.drop_last(),
        ),
{
    let was = packets_told(told.drop_last());
    let packets = packets_told(told);
    assert(packets.take(was.len() as int) =~= was);
    if packets.len() > was.len() {
        lemma_one_more(was, packets.last(), 0);
    }
}

/// That intervals show the stretches of a run.
spec fn all_shown(
    intervals: Seq<IntervalStats>,
    done: Seq<Spell>,
    packets: Seq<PacketEvent>,
    start_ns: int,
    interval_ns: int,
) -> bool {
    &&& intervals.len() == done.len()
    &&& forall|i: int|
        0 <= i < done.len() ==> {
            &&& 0 <= (#[trigger] done[i]).first <= done[i].end <= packets.len()
            &&& i <= u64::MAX ==> intervals[i].index == i
            &&& shows_spell(intervals[i], done[i], packets, start_ns, interval_ns)
        }
}

/// That intervals still show their stretches when more packets have come.
proof fn lemma_still_shown(
    intervals: Seq<IntervalStats>,
    done: Seq<Spell>,
    was: Seq<PacketEvent>,
    packets: Seq<PacketEvent>,
    start_ns: int,
    interval_ns: int,
)
    requires
        all_shown(intervals, done, was, start_ns, interval_ns),
        was.len() <= packets.len(),
        packets.take(was.len() as int) == was,
    ensures
        all_shown(intervals, done, packets, start_ns, interval_ns),
{
    assert forall|i: int| 0 <= i < done.len() implies {
        &&& 0 <= (#[trigger] done[i]).first <= done[i].end <= packets.len()
        &&& i <= u64::MAX ==> intervals[i].index == i
        &&& shows_spell(intervals[i], done[i], packets, start_ns, interval_ns)
    } by {
        let spell = done[i];
        assert(shows_spell(intervals[i], spell, was, start_ns, interval_ns));
        assert(packets.subrange(spell.first, spell.end) =~= was.subrange(spell.first, spell.end));
        assert(packets.take(spell.end) =~= was.take(spell.end));
    }
}

/// That the intervals of a run show its stretches.
proof fn lemma_under_way(start: BenchmarkView, told: Seq<Happening>)
    requires
        start.run == RecorderView::fresh(),
        start.before == Totals::nothing(),
        start.intervals.len() == 0,
        start.last_tick_ns is None,
        packets_told(told).len() <= u64::MAX,
        bytes_in(packets_told(told)) <= u64::MAX,
    ensures
        has_counted(
            start,
            start.after_all(told),
            packets_told(told),
            spells(told, start.measurement_start_ns),
        ),
        all_shown(
            start.after_all(told).intervals,
            spells(told, start.measurement_start_ns),
            packets_told(told),
            start.measurement_start_ns as int,
            start.cfg.interval_ns as int,
        ),
    decreases told.len(),
{
    lemma_told_is_counted(start, told);
    if told.len() > 0 {
        let start_ns = start.measurement_start_ns;
        let interval_ns = start.cfg.interval_ns as int;
        let earlier = told.drop_last();
        let was = packets_told(earlier);
        let packets = packets_told(told);
        let before = start.after_all(earlier);
        let now = start.after_all(told);
        let done = spells(earlier, start_ns);
        let all = spells(told, start_ns);
        lemma_told_before(told);
        lemma_under_way(start, earlier);
        lemma_still_shown(before.intervals, done, was, packets, start_ns as int, interval_ns);
        if all.len() > done.len() {
            let now_ns = told.last()->Tick_0;
            lemma_spell(before, was, done, now_ns);
            assert forall|i: int| 0 <= i < all.len() implies {
                &&& 0 <= (#[trigger] all[i]).first <= all[i].end <= packets.len()
                &&& i <= u64::MAX ==> now.intervals[i].index == i
                &&& shows_spell(now.intervals[i], all[i], packets, start_ns as int, interval_ns)
            } by {
                if i < done.len() {
                    assert(all[i] == done[i]);
                    assert(now.intervals[i] == before.intervals[i]);
                }
            }
        }
    }
}

/// That the interval which ends with a tick shows its stretch.
proof fn lemma_spell(
    before: BenchmarkView,
    packets: Seq<PacketEvent>,
    done: Seq<Spell>,
    now_ns: u128,
)
    requires
        ({
            let at = taken(done);
            &&& now_ns >= before.measurement_start_ns
            &&& packets.len() <= u64::MAX
            &&& bytes_in(packets) <= u64::MAX
            &&& same_counts(before.run, RecorderView::fresh().after_all(packets))
            &&& 0 <= at <= packets.len()
            &&& before.run.interval_latencies == times(packets.skip(at))
            &&& before.run.interval_jitters == swings(packets, at)
            &&& before.before.packets_sent == at
            &&& before.before.packets_acked == answered(packets.take(at)).len()
            &&& before.before.packets_lost == at - answered(packets.take(at)).len()
            &&& before.before.bytes == bytes_in(packets.take(at))
            &&& before.last_tick_ns == if done.len() == 0 {
                None
            } else {
                Some(done.last().to_ns)
            }
            &&& ended(done, before.measurement_start_ns) >= before.measurement_start_ns
        }),
    ensures
        shows_spell(
            before.interval_at(now_ns),
            Spell {
                from_ns: ended(done, before.measurement_start_ns),
                to_ns: now_ns,
                first: taken(done),
                end: packets.len() as int,
            },
            packets,
            before.measurement_start_ns as int,
            before.cfg.interval_ns as int,
        ),
{
    let at = taken(done);
    let part = packets.skip(at);
    let shown = before.interval_at(now_ns);
    let span = before.interval_span(now_ns);
    assert(packets.subrange(at, packets.len() as int) =~= part);
    assert(packets.take(packets.len() as int) =~= packets);
    law_runs_count_their_packets(packets);
    lemma_two_parts(packets, at);
    lemma_counts(packets, at);
    lemma_counts(packets.take(at), 0);
    lemma_counts(part, 0);
    let lost = part.len() - answered(part).len();
    law_rates_are_what_was_counted(bytes_in(part) as nat, span);
    law_rates_are_what_was_counted(part.len(), span);
    law_loss_is_the_share_of_the_lost(lost as nat, part.len());
    law_mean_is_the_sum_over_the_number(swings(packets, at));
    law_quantile_is_shown(times(part), 50);
    law_quantile_is_shown(times(part), 95);
    law_quantile_is_shown(times(part), 99);
    let into = (now_ns - before.measurement_start_ns) as u128;
    law_whole_ms_are_full(into);
    if into >= span {
        law_whole_ms_are_full((into - span) as u128);
    }
}

/// That a row of intervals says what a run was told, from `start_ns` on: one for each stretch
/// between the ticks of the clock.
pub open spec fn shows_intervals(
    intervals: Seq<IntervalStats>,
    told: Seq<Happening>,
    start_ns: u128,
    interval_ns: u128,
) -> bool {
    let stretches = spells(told, start_ns);
    &&& intervals.len() == stretches.len()
    &&& forall|i: int|
        0 <= i < intervals.len() ==> {
            &&& i <= u64::MAX ==> (#[trigger] intervals[i]).index == i
            &&& shows_spell(
                intervals[i],
                stretches[i],
                packets_told(told),
                start_ns as int,
                interval_ns as int,
            )
        }
}

/// That a run came of a configuration and of what it was told, in order.
pub open spec fn came_of(run: BenchmarkView, now_ns: u128, told: Seq<Happening>) -> bool {
    &&& now_ns + run.cfg.warmup_ns <= u128::MAX
    &&& run == BenchmarkView::started(
        run.cfg,
        run.session_id,
        run.host,
        run.started_unix_ms,
        now_ns,
    ).after_all(told)
    &&& packets_told(told).len() <= u64::MAX
    &&& bytes_in(packets_told(told)) <= u64::MAX
}

/// The intervals of a run are its stretches between the ticks of its clock, one for each, and each
/// interval says what the packets in its stretch tell: over the time from the tick before it to its
/// own. The measurement begins when the warm-up is over.
pub proof fn law_intervals_show_their_packets(
    run: BenchmarkView,
    now_ns: u128,
    told: Seq<Happening>,
)
    requires
        came_of(run, now_ns, told),
    ensures
        shows_intervals(
            run.intervals,
            told,
            (now_ns + run.cfg.warmup_ns) as u128,
            run.cfg.interval_ns,
        ),
{
    let start = BenchmarkView::started(
        run.cfg,
        run.session_id,
        run.host,
        run.started_unix_ms,
        now_ns,
    );
    lemma_under_way(start, told);
    let stretches = spells(told, (now_ns + run.cfg.warmup_ns) as u128);
    assert forall|i: int| 0 <= i < run.intervals.len() implies {
        &&& i <= u64::MAX ==> (#[trigger] run.intervals[i]).index == i
        &&& shows_spell(
            run.intervals[i],
            stretches[i],
            packets_told(told),
            (now_ns + run.cfg.warmup_ns) as int,
            run.cfg.interval_ns as int,
        )
    } by {
        assert(0 <= stretches[i].first);
    }
}

/// A stretch begins when and where the one before it ended, and the first one with the measurement:
/// no time and no packet is left out, and none is counted twice.
pub proof fn law_stretches_follow_on(told: Seq<Happening>, start_ns: u128, i: int)
    requires
        0 <= i < spells(told, start_ns).len(),
    ensures
        ({
            let stretches = spells(told, start_ns);
            &&& i == 0 ==> stretches[i].from_ns == start_ns && stretches[i].first == 0
            &&& i > 0 ==> stretches[i].from_ns == stretches[i - 1].to_ns && stretches[i].first
                == stretches[i - 1].end
            &&& stretches[i].to_ns >= start_ns
        }),
    decreases told.len(),
{
    let before = spells(told.drop_last(), start_ns);
    if i < before.len() {
        law_stretches_follow_on(told.drop_last(), start_ns, i);
    }
}

/// On a clock that goes on, an interval starts where the one before it ended.
pub proof fn law_intervals_meet(run: BenchmarkView, now_ns: u128, told: Seq<Happening>, i: int)
    requires
        came_of(run, now_ns, told),
        0 < i < run.intervals.len(),
        ({
            let start_ns = (now_ns + run.cfg.warmup_ns) as u128;
            let stretches = spells(told, start_ns);
            &&& stretches[i - 1].to_ns < stretches[i].to_ns
            &&& (stretches[i].to_ns - start_ns) / 1_000_000 <= u64::MAX
        }),
    ensures
        run.intervals[i].start_ms == run.intervals[i - 1].end_ms,
        run.intervals[i].start_ms <= run.intervals[i].end_ms,
{
    let start_ns = (now_ns + run.cfg.warmup_ns) as u128;
    law_intervals_show_their_packets(run, now_ns, told);
    law_stretches_follow_on(told, start_ns, i);
    law_stretches_follow_on(told, start_ns, i - 1);
    assert(shows_spell(
        run.intervals[i],
        spells(told, start_ns)[i],
        packets_told(told),
        start_ns as int,
        run.cfg.interval_ns as int,
    ));
    assert(shows_spell(
        run.intervals[i - 1],
        spells(told, start_ns)[i - 1],
        packets_told(told),
        start_ns as int,
        run.cfg.interval_ns as int,
    ));
}

/// That rows say what the packets of a run tell of its streams: one row for each stream that has
/// sent, in the order of their numbers.
pub open spec fn shows_streams(
    rows: Seq<StreamStats>,
    packets: Seq<PacketEvent>,
    span_ns: int,
) -> bool {
    &&& forall|i: int|
        0 <= i < rows.len() ==> shows_stream(
            #[trigger] rows[i],
            rows[i].stream_id,
            packets,
            span_ns,
        )
    &&& forall|i: int, j: int|
        0 <= i < j < rows.len() ==> (#[trigger] rows[i]).stream_id < (#[trigger] rows[j]).stream_id
    &&& forall|id: u32|
        (#[trigger] of_stream(packets, id)).len() > 0 <==> exists|i: int|
            0 <= i < rows.len() && (#[trigger] rows[i]).stream_id == id
}

/// The report of a run says of each stream and of all of them what their packets tell, over the
/// time that was to be measured.
pub proof fn law_report_shows_the_packets(run: BenchmarkView, now_ns: u128, told: Seq<Happening>)
    requires
        came_of(run, now_ns, told),
    ensures
        shows_streams(
            rows_of(run.run, run.cfg.duration_ns),
            packets_told(told),
            run.cfg.duration_ns as int,
        ),
        shows_run(
            aggregate_of(run.run, run.cfg.duration_ns),
            packets_told(told),
            run.cfg.duration_ns as int,
        ),
        run.run.latencies == times(packets_told(told)),
        run.rate_bps == resolved(run.cfg.rate, run.cfg.transport).0,
        run.advice == resolved(run.cfg.rate, run.cfg.transport).1,
{
    let start = BenchmarkView::started(
        run.cfg,
        run.session_id,
        run.host,
        run.started_unix_ms,
        now_ns,
    );
    let packets = packets_told(told);
    let counted = RecorderView::fresh().after_all(packets);
    let span_ns = run.cfg.duration_ns;
    lemma_under_way(start, told);
    law_runs_count_their_packets(packets);
    law_aggregate_shows_all_packets(packets, span_ns);
    assert(aggregate_of(run.run, span_ns) == aggregate_of(counted, span_ns));
    let rows = rows_of(run.run, span_ns);
    let ids = ids_of(counted.streams);
    law_ids_rise(counted.streams);
    assert forall|i: int| 0 <= i < rows.len() implies shows_stream(
        #[trigger] rows[i],
        rows[i].stream_id,
        packets,
        span_ns as int,
    ) by {
        assert(ids.contains(ids[i]));
        law_rows_show_their_streams(packets, span_ns, ids[i]);
    }
    assert forall|i: int, j: int| 0 <= i < j < rows.len() implies (#[trigger] rows[i]).stream_id < (
    #[trigger] rows[j]).stream_id by {
        assert(ids[i] < ids[j]);
    }
    assert forall|id: u32| (#[trigger] of_stream(packets, id)).len() > 0 <==> exists|i: int|
        0 <= i < rows.len() && (#[trigger] rows[i]).stream_id == id by {
        lemma_stream(packets, id);
        if ids.contains(id) {
            let i = choose|i: int| 0 <= i < ids.len() && ids[i] == id;
            assert(rows[i].stream_id == id);
        } else if exists|i: int| 0 <= i < rows.len() && (#[trigger] rows[i]).stream_id == id {
            let i = choose|i: int| 0 <= i < rows.len() && (#[trigger] rows[i]).stream_id == id;
            assert(ids[i] == id);
        }
    }
}

/// That the report of a run says what the run was asked to do and what it was told.
pub open spec fn reports(
    run: BenchmarkView,
    now_ns: u128,
    told: Seq<Happening>,
    report: RunReport,
) -> bool {
    let packets = packets_told(told);
    let span_ns = run.cfg.duration_ns as int;
    let start_ns = (now_ns + run.cfg.warmup_ns) as u128;
    &&& report.run_meta.session_id == run.session_id
    &&& report.run_meta.version == 1
    &&& report.run_meta.host@ == run.host
    &&& report.run_meta.transport == run.cfg.transport
    &&& report.run_meta.started_unix_ms == run.started_unix_ms
    &&& report.config.streams == run.cfg.streams
    &&& report.config.payload_bytes == run.cfg.payload_bytes
    &&& run.cfg.rate matches RateMode::Bps(bps) ==> report.config.rate_bps == Some(bps)
    &&& run.cfg.rate is Auto ==> report.config.rate_bps == Some(
        match run.cfg.transport {
            Transport::Tcp => 80_000_000_000u64,
            Transport::Udp => 2_000_000_000,
            Transport::Quic => 1_000_000_000,
        },
    )
    &&& is_whole_ms(report.config.duration_ms, span_ns)
    &&& is_whole_ms(report.config.warmup_ms, run.cfg.warmup_ns as int)
    &&& is_whole_ms(report.config.interval_ms, run.cfg.interval_ns as int)
    &&& shows_intervals(report.intervals@, told, start_ns, run.cfg.interval_ns)
    &&& shows_streams(report.streams@, packets, span_ns)
    &&& shows_run(report.aggregate, packets, span_ns)
    &&& (forall|i: int|
        0 <= i < times(packets).len() ==> #[trigger] times(packets)[i] < 0x8_0000_0000_0000)
        ==> counts_in_time(report.latency_histogram.buckets@, times(packets))
    &&& run.cfg.rate is Bps ==> report.recommendations@.len() == 1
    &&& run.cfg.rate is Auto ==> report.recommendations@.len() == 2
        && report.recommendations@[0].label@ == "auto-rate-selected"@
    &&& answers_loss(
        report.recommendations@.last()@,
        report.aggregate.loss_pct,
        report.aggregate.throughput_bps,
    )
}

} // verus!
