//! What a server sends back on a stream of bytes, from the first packet to the end of the line.
use vstd::prelude::*;

use crate::client::{answers, law_echo_answers_the_packet, packet_bytes, packet_header, zeros};
use crate::error::ErrorView;
use crate::net::StreamRunSpec;
use crate::protocol::{header_bytes, header_of, lemma_header_fields, DATA_HEADER_SIZE};
use crate::server::{header_step, payload_step, HeaderReadView, PayloadReadView, StepView};

verus! {

/// What comes of reading a header off a line that holds these bytes and then ends.
pub open spec fn header_on(line: Seq<u8>) -> HeaderReadView {
    if line.len() < DATA_HEADER_SIZE {
        HeaderReadView::End
    } else {
        HeaderReadView::Full(line.take(DATA_HEADER_SIZE as int))
    }
}

/// What comes of reading a payload of some length off a line that holds these bytes and then ends,
/// where the system says `cut` of a line that ends too early.
pub open spec fn payload_on(line: Seq<u8>, len: u32, cut: Seq<char>) -> PayloadReadView {
    if line.len() < len {
        PayloadReadView::Failed(cut)
    } else {
        PayloadReadView::Full
    }
}

/// What a session sends back, and how it ends.
#[verifier::ext_equal]
pub struct Served {
    pub written: Seq<u8>,
    pub outcome: Result<(), ErrorView>,
}

/// That something is sent back before what follows.
pub open spec fn sent_before(head: Seq<u8>, after: Served) -> Served {
    Served { written: head + after.written, outcome: after.outcome }
}

/// What a session sends back on a line that holds these bytes and then ends, step by step.
pub open spec fn served(line: Seq<u8>, cut: Seq<char>) -> Served
    decreases line.len(),
{
    match header_step(header_on(line)) {
        StepView::Finish => Served { written: Seq::empty(), outcome: Ok(()) },
        StepView::Fail(e) => Served { written: Seq::empty(), outcome: Err(e) },
        StepView::Echo(head) => sent_before(head, served(line.skip(DATA_HEADER_SIZE as int), cut)),
        StepView::TakePayload(len) => {
            let behind = line.skip(DATA_HEADER_SIZE as int);
            match payload_step(line.take(DATA_HEADER_SIZE as int), payload_on(behind, len, cut)) {
                StepView::Echo(head) => sent_before(head, served(behind.skip(len as int), cut)),
                StepView::Fail(e) => Served { written: Seq::empty(), outcome: Err(e) },
                _ => Served { written: Seq::empty(), outcome: Ok(()) },
            }
        },
    }
}

/// A packet: its header and its payload.
pub struct Packet {
    pub header: Seq<u8>,
    pub payload: Seq<u8>,
}

impl Packet {
    /// That the header is one, and gives the length of the payload.
    pub open spec fn wf(self) -> bool {
        header_of(self.header) matches Ok(h) && h.payload_len == self.payload.len()
    }
}

/// Packets on a line, one after the other.
pub open spec fn line_of(packets: Seq<Packet>) -> Seq<u8>
    decreases packets.len(),
{
    if packets.len() == 0 {
        Seq::empty()
    } else {
        packets[0].header + packets[0].payload + line_of(packets.drop_first())
    }
}

/// The headers of packets, one after the other.
pub open spec fn headers_of(packets: Seq<Packet>) -> Seq<u8>
    decreases packets.len(),
{
    if packets.len() == 0 {
        Seq::empty()
    } else {
        packets[0].header + headers_of(packets.drop_first())
    }
}

/// That one packet is sent back by its header, and what follows it is served as if it came first.
proof fn lemma_one_packet(packet: Packet, rest: Seq<u8>, cut: Seq<char>)
    requires
        packet.wf(),
    ensures
        served(packet.header + packet.payload + rest, cut) == sent_before(
            packet.header,
            served(rest, cut),
        ),
{
    let line = packet.header + packet.payload + rest;
    assert(line.take(DATA_HEADER_SIZE as int) =~= packet.header);
    let behind = line.skip(DATA_HEADER_SIZE as int);
    assert(behind =~= packet.payload + rest);
    assert(behind.skip(packet.payload.len() as int) =~= rest);
    if packet.payload.len() == 0 {
        assert(behind =~= rest);
    }
}

/// The headers of packets are sent back, each once and in order, and no payload is; whatever
/// follows the packets is served as if it came first.
pub proof fn law_packets_are_echoed(packets: Seq<Packet>, rest: Seq<u8>, cut: Seq<char>)
    requires
        forall|i: int| 0 <= i < packets.len() ==> (#[trigger] packets[i]).wf(),
    ensures
        served(line_of(packets) + rest, cut) == sent_before(
            headers_of(packets),
            served(rest, cut),
        ),
    decreases packets.len(),
{
    if packets.len() == 0 {
        assert(line_of(packets) + rest =~= rest);
        assert(headers_of(packets) + served(rest, cut).written =~= served(rest, cut).written);
    } else {
        let behind = packets.drop_first();
        law_packets_are_echoed(behind, rest, cut);
        lemma_one_packet(packets[0], line_of(behind) + rest, cut);
        assert(line_of(packets) + rest =~= packets[0].header + packets[0].payload + (line_of(
            behind,
        ) + rest));
        assert(packets[0].header + (headers_of(behind) + served(rest, cut).written)
            =~= headers_of(packets) + served(rest, cut).written);
    }
}

/// A line that ends between two packets, or in a header, ends the session well.
pub proof fn law_line_may_end_in_a_header(packets: Seq<Packet>, part: Seq<u8>, cut: Seq<char>)
    requires
        forall|i: int| 0 <= i < packets.len() ==> (#[trigger] packets[i]).wf(),
        part.len() < DATA_HEADER_SIZE,
    ensures
        served(line_of(packets) + part, cut) == (Served {
            written: headers_of(packets),
            outcome: Ok(()),
        }),
{
    law_packets_are_echoed(packets, part, cut);
    assert(headers_of(packets) + Seq::empty() =~= headers_of(packets));
}

/// A line that ends in a payload ends the session with an error, and the header of that payload is
/// not sent back.
pub proof fn law_line_may_not_end_in_a_payload(
    packets: Seq<Packet>,
    last: Packet,
    len: int,
    cut: Seq<char>,
)
    requires
        forall|i: int| 0 <= i < packets.len() ==> (#[trigger] packets[i]).wf(),
        last.wf(),
        0 <= len < last.payload.len(),
    ensures
        served(line_of(packets) + (last.header + last.payload.take(len)), cut) == (Served {
            written: headers_of(packets),
            outcome: Err(ErrorView::Io(cut)),
        }),
{
    let rest = last.header + last.payload.take(len);
    law_packets_are_echoed(packets, rest, cut);
    assert(rest.take(DATA_HEADER_SIZE as int) =~= last.header);
    assert(rest.skip(DATA_HEADER_SIZE as int) =~= last.payload.take(len));
    assert(headers_of(packets) + Seq::empty() =~= headers_of(packets));
}

/// What is no header ends the session with the error of its decoding, and is not sent back.
pub proof fn law_bad_header_is_not_echoed(
    packets: Seq<Packet>,
    bad: Seq<u8>,
    rest: Seq<u8>,
    cut: Seq<char>,
)
    requires
        forall|i: int| 0 <= i < packets.len() ==> (#[trigger] packets[i]).wf(),
        bad.len() == DATA_HEADER_SIZE,
        header_of(bad) is Err,
    ensures
        served(line_of(packets) + (bad + rest), cut) == (Served {
            written: headers_of(packets),
            outcome: Err(header_of(bad)->Err_0),
        }),
{
    law_packets_are_echoed(packets, bad + rest, cut);
    assert((bad + rest).take(DATA_HEADER_SIZE as int) =~= bad);
    assert(headers_of(packets) + Seq::empty() =~= headers_of(packets));
}

/// What a server sends back for a packet of a stream answers that packet, and no other. The length
/// of the payload has to fit in the header.
pub proof fn law_stream_packet_is_answered(
    spec: StreamRunSpec,
    seq: u64,
    send_mono_ns: u64,
    other: u64,
    cut: Seq<char>,
)
    requires
        spec.payload_bytes <= u32::MAX,
    ensures
        ({
            let s = served(packet_bytes(spec, seq, send_mono_ns), cut);
            &&& s.outcome is Ok
            &&& answers(other, Some(s.written)) == Ok::<bool, ErrorView>(other == seq)
        }),
{
    let header = packet_header(spec, seq, send_mono_ns);
    let packet = Packet {
        header: header_bytes(header),
        payload: zeros(spec.payload_bytes as nat),
    };
    lemma_header_fields(header);
    law_echo_answers_the_packet(spec, seq, send_mono_ns, other);
    let line = packet_bytes(spec, seq, send_mono_ns);
    assert(line.take(DATA_HEADER_SIZE as int) =~= packet.header);
    lemma_one_packet(packet, Seq::empty(), cut);
    assert(line =~= packet.header + packet.payload + Seq::empty());
    assert(packet.header + Seq::empty() =~= packet.header);
}

} // verus!
