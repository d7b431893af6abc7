//! Rates and shares, as exact fractions.
use vstd::prelude::*;

use crate::report::Ratio;

verus! {

/// A span of time that a rate is taken over, in nanoseconds: at least a microsecond.
pub open spec fn span_of(span_ns: u128) -> u128 {
    if span_ns < 1000 {
        1000
    } else {
        span_ns
    }
}

/// So many things in a span of time, per second.
pub open spec fn per_second(count: nat, span_ns: u128) -> Ratio {
    Ratio { num: (count * 1_000_000_000) as u128, den: span_of(span_ns) }
}

/// So many bytes in a span of time, in bits per second.
pub open spec fn bits_per_second(bytes: nat, span_ns: u128) -> Ratio {
    per_second(bytes * 8, span_ns)
}

/// The share of packets that were lost, in per cent, and zero where none was sent.
pub open spec fn loss_of(lost: nat, sent: nat) -> Ratio {
    if sent == 0 {
        Ratio::nothing()
    } else {
        Ratio { num: (lost * 100) as u128, den: sent as u128 }
    }
}

/// A span of time in whole milliseconds, as far as 64 bits hold them.
pub open spec fn whole_ms(ns: u128) -> u64 {
    ((ns / 1_000_000) % 0x1_0000_0000_0000_0000) as u64
}

/// A span of time in whole milliseconds, as far as 64 bits hold them.
pub fn millis(ns: u128) -> (r: u64)
    ensures
        r == whole_ms(ns),
{
    ((ns / 1_000_000) % 0x1_0000_0000_0000_0000) as u64
}

/// A span of time that a rate is taken over: at least a microsecond.
fn span(span_ns: u128) -> (r: u128)
    ensures
        r == span_of(span_ns),
{
    if span_ns < 1000 {
        1000
    } else {
        span_ns
    }
}

/// So many packets in a span of time, per second.
pub fn packet_rate(packets: u64, span_ns: u128) -> (r: Ratio)
    ensures
        r == per_second(packets as nat, span_ns),
        r.wf(),
{
    Ratio { num: packets as u128 * 1_000_000_000, den: span(span_ns) }
}

/// So many bytes in a span of time, in bits per second.
pub fn throughput(bytes: u64, span_ns: u128) -> (r: Ratio)
    ensures
        r == bits_per_second(bytes as nat, span_ns),
        r.wf(),
{
    Ratio { num: bytes as u128 * 8 * 1_000_000_000, den: span(span_ns) }
}

/// The share of packets that were lost, in per cent, and zero where none was sent.
pub fn loss(lost: u64, sent: u64) -> (r: Ratio)
    ensures
        r == loss_of(lost as nat, sent as nat),
        r.wf(),
{
    if sent == 0 {
        return Ratio::zero();
    }
    Ratio { num: lost as u128 * 100, den: sent as u128 }
}

/// Of the packets that a run sent, no more than all are lost.
pub proof fn law_loss_is_at_most_all(lost: u64, sent: u64)
    requires
        lost <= sent,
    ensures
        loss_of(lost as nat, sent as nat).at_most(Ratio { num: 100, den: 1 }),
{
}

} // verus!
