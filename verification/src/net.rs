//! What the streams of a run are told, and what they tell.
use vstd::prelude::*;

use crate::binary::{
    above, law_products_are_exact, law_quotients_keep_the_whole_part, number, product, quotient,
    whole_of, Binary, Number,
};
use crate::config::{Address, Transport};

verus! {

/// What one stream of a run is to do. Times are in nanoseconds.
#[derive(Debug, Clone)]
pub struct StreamRunSpec {
    pub session_id: u64,
    pub stream_id: u32,
    pub host: Address,
    pub transport: Transport,
    pub duration_ns: u128,
    pub warmup_ns: u128,
    pub payload_bytes: usize,
    pub rate_bps: Option<u64>,
    pub token: Option<String>,
    pub timeout_ns: u128,
}

/// What came of one packet.
#[derive(Debug, Clone, Copy, PartialEq, Eq)]
pub struct PacketEvent {
    pub stream_id: u32,
    pub seq: u64,
    pub bytes: u64,
    pub send_mono_ns: u64,
    pub recv_mono_ns: Option<u64>,
    pub measured: bool,
}

/// How long the bits of a payload take at a rate, in nanoseconds, with each step of the computation
/// rounded to 53 binary digits.
pub open spec fn payload_time(payload_bytes: usize, bps: u64) -> Number {
    let bits = product(number(payload_bytes as nat), number(8));
    quotient(product(bits, number(1_000_000_000)), number(bps as nat))
}

/// How long to wait between two packets of a stream that aims at a rate, in nanoseconds: as long
/// as the bits of a payload take, at least one nanosecond, and no longer than 64 bits can say.
pub open spec fn pacing_of(payload_bytes: usize, rate_bps: Option<u64>) -> Option<u64> {
    match rate_bps {
        None => None,
        Some(bps) => if bps == 0 {
            None
        } else {
            let nanos = whole_of(payload_time(payload_bytes, bps));
            Some(
                if nanos < 1 {
                    1
                } else if nanos > u64::MAX {
                    u64::MAX
                } else {
                    nanos as u64
                },
            )
        },
    }
}

/// How long to wait between two packets of a stream that aims at a rate, in nanoseconds.
pub fn pacing_delay(payload_bytes: usize, rate_bps: Option<u64>) -> (r: Option<u64>)
    ensures
        r == pacing_of(payload_bytes, rate_bps),
{
    let bps: u64 = match rate_bps {
        Some(v) => v,
        None => return None,
    };
    if bps == 0 {
        return None;
    }
    let bits: Binary = Binary::of(payload_bytes as u64).times(Binary::of(8));
    let nanos: u64 = bits.times(Binary::of(1_000_000_000)).over(Binary::of(bps)).whole();
    if nanos < 1 {
        Some(1)
    } else {
        Some(nanos)
    }
}

/// Where the bits of a payload, times the nanoseconds of a second, have at most 53 binary digits,
/// as has the rate, the wait is the time that the bits take, without rounding. A stream that keeps
/// it stays within its rate, to the next nanosecond.
pub proof fn law_pacing_keeps_the_rate(payload_bytes: usize, bps: u64)
    requires
        0 < bps < above(),
        payload_bytes * 8 * 1_000_000_000 < above(),
    ensures
        ({
            let time = payload_bytes * 8 * 1_000_000_000;
            &&& pacing_of(payload_bytes, Some(bps)) matches Some(delay)
            &&& delay == if time < bps {
                1
            } else {
                time / bps as int
            }
            &&& time < (delay + 1) * bps
        }),
{
    let time = (payload_bytes * 8 * 1_000_000_000) as nat;
    law_products_are_exact(payload_bytes as nat, 8);
    law_products_are_exact((payload_bytes * 8) as nat, 1_000_000_000);
    law_quotients_keep_the_whole_part(time, bps as nat);
    let b = bps as nat;
    let q = time / b;
    assert(q <= time && time < (q + 1) * b && (time < b <==> q < 1)) by (nonlinear_arith)
        requires
            b > 0,
            q == time / b,
    ;
    if q < 1 {
        assert((q + 1) * b <= 2 * b) by (nonlinear_arith)
            requires
                q < 1,
        ;
    }
}

/// A stream without a rate, or with none to speak of, is not paced; any other is, and waits at
/// least a nanosecond.
pub proof fn law_only_rates_are_paced(payload_bytes: usize, bps: u64)
    ensures
        pacing_of(payload_bytes, None) is None,
        pacing_of(payload_bytes, Some(0)) is None,
        bps > 0 ==> (pacing_of(payload_bytes, Some(bps)) matches Some(delay) && delay >= 1),
{
}

} // verus!
