//! One stream of a run, from its greeting to what came of its last packet.
//!
//! A [`StreamClient`] says when to send, what to send and what to make of the answer; the sockets
//! and the clocks are not its concern. Times are in nanoseconds.
use vstd::prelude::*;
use vstd::utf8::encode_utf8;

use crate::config::Address;
use crate::error::{ErrorView, IpfuschError};
use crate::figures::{millis, whole_ms};
use crate::meaning::is_whole_ms;
use crate::net::{pacing_delay, pacing_of, PacketEvent, StreamRunSpec};
use crate::protocol::{
    hash_token, header_bytes, header_of, law_header_decodes_to_what_was_encoded,
    lemma_header_fields, sha256, token_digest, ControlMessage, ControlView, DataHeader,
    DATA_HEADER_SIZE, DATA_MAGIC, PROTOCOL_VERSION,
};
use crate::text::{decimal, push_decimal};
use crate::wire::texts;

verus! {

/// The address that a client sends from: any of its own, of the kind that the server has.
pub fn client_bind(host: Address) -> (r: &'static str)
    ensures
        r@ == match host {
            Address::V4 { .. } => "0.0.0.0:0"@,
            Address::V6 { .. } => "[::]:0"@,
        },
{
    match host {
        Address::V4 { .. } => "0.0.0.0:0",
        Address::V6 { .. } => "[::]:0",
    }
}

/// How a stream greets a server.
pub open spec fn hello_of(spec: StreamRunSpec) -> ControlView {
    ControlView::Hello {
        version: PROTOCOL_VERSION,
        client_name: "ipfusch-stream-"@ + decimal(spec.stream_id as nat),
        token_hash: match spec.token {
            Some(token) => Some(token_digest(token@)),
            None => None,
        },
        capabilities: seq![spec.transport.name(), "multistream"@],
    }
}

/// How a stream asks for its session.
pub open spec fn start_of(spec: StreamRunSpec) -> ControlView {
    ControlView::StartSession {
        session_id: spec.session_id,
        transport: spec.transport.name(),
        streams: 1,
        duration_ms: whole_ms(spec.duration_ns),
        payload_bytes: spec.payload_bytes,
        interval_ms: 100,
        rate_bps: spec.rate_bps,
    }
}

/// The message with which a stream greets a server.
pub fn hello_message(spec: &StreamRunSpec) -> (r: ControlMessage)
    ensures
        r@ == hello_of(*spec),
{
    let mut client_name: String = "ipfusch-stream-".to_string();
    push_decimal(&mut client_name, spec.stream_id as u64);
    let token_hash: Option<[u8; 32]> = match &spec.token {
        Some(token) => Some(hash_token(token.as_str())),
        None => None,
    };
    let mut capabilities: Vec<String> = Vec::new();
    capabilities.push(spec.transport.to_string());
    capabilities.push("multistream".to_string());
    assert(texts(capabilities@) =~= seq![spec.transport.name(), "multistream"@]);
    ControlMessage::Hello { version: PROTOCOL_VERSION, client_name, token_hash, capabilities }
}

/// The message with which a stream asks for its session.
pub fn start_session(spec: &StreamRunSpec) -> (r: ControlMessage)
    ensures
        r@ == start_of(*spec),
{
    ControlMessage::StartSession {
        session_id: spec.session_id,
        transport: spec.transport.to_string(),
        streams: 1,
        duration_ms: millis(spec.duration_ns),
        payload_bytes: spec.payload_bytes,
        interval_ms: 100,
        rate_bps: spec.rate_bps,
    }
}

/// Why an answer to the greeting is a refusal, if it is one.
pub open spec fn refusal_in(answer: ControlView) -> Option<Seq<char>> {
    match answer {
        ControlView::Ack { accepted, reason, .. } => if accepted {
            None
        } else {
            match reason {
                Some(text) => Some(text),
                None => Some("session rejected"@),
            }
        },
        _ => Some("unexpected control response"@),
    }
}

/// Takes the answer to the greeting: the session is on, or else why not.
pub fn validate_ack(msg: ControlMessage) -> (r: Result<(), String>)
    ensures
        match r {
            Ok(_) => refusal_in(msg@) is None,
            Err(m) => refusal_in(msg@) == Some(m@),
        },
{
    match msg {
        ControlMessage::Ack { accepted, reason, .. } => {
            if accepted {
                Ok(())
            } else {
                match reason {
                    Some(text) => Err(text),
                    None => Err("session rejected".to_string()),
                }
            }
        },
        _ => Err("unexpected control response".to_string()),
    }
}

/// A stream that sends packets.
pub struct StreamClient {
    spec: StreamRunSpec,
    payload: Vec<u8>,
    pacing: Option<u64>,
    warmup_until_ns: u128,
    end_ns: u128,
    next_send_ns: u128,
    seq: u64,
}

/// What is known of a stream that sends packets.
#[verifier::ext_equal]
pub struct ClientView {
    pub spec: StreamRunSpec,
    /// Up to when packets are not measured.
    pub warmup_until_ns: u128,
    /// From when on no packet is sent.
    pub end_ns: u128,
    /// When the next packet is due, where the stream is paced.
    pub next_send_ns: u128,
    /// The number of the last packet sent.
    pub seq: u64,
}

impl View for StreamClient {
    type V = ClientView;

    closed spec fn view(&self) -> ClientView {
        ClientView {
            spec: self.spec,
            warmup_until_ns: self.warmup_until_ns,
            end_ns: self.end_ns,
            next_send_ns: self.next_send_ns,
            seq: self.seq,
        }
    }
}

/// The header of the packet of a stream with a number, sent at some time.
pub open spec fn packet_header(spec: StreamRunSpec, seq: u64, send_mono_ns: u64) -> DataHeader {
    DataHeader {
        magic: DATA_MAGIC,
        version: PROTOCOL_VERSION,
        flags: 0,
        session_id: spec.session_id,
        stream_id: spec.stream_id,
        seq,
        send_mono_ns,
        payload_len: (spec.payload_bytes as int % 0x1_0000_0000) as u32,
    }
}

/// So many zeros.
pub open spec fn zeros(n: nat) -> Seq<u8> {
    Seq::new(n, |i: int| 0u8)
}

/// A packet: its header, and a payload of zeros.
pub open spec fn packet_bytes(spec: StreamRunSpec, seq: u64, send_mono_ns: u64) -> Seq<u8> {
    header_bytes(packet_header(spec, seq, send_mono_ns)) + zeros(spec.payload_bytes as nat)
}

/// Whether what came back, if anything did, answers the packet with a number: it does if it is as
/// long as a header, and the header has that number.
pub open spec fn answers(seq: u64, answer: Option<Seq<u8>>) -> Result<bool, ErrorView> {
    match answer {
        None => Ok(false),
        Some(bytes) => if bytes.len() < DATA_HEADER_SIZE {
            Ok(false)
        } else {
            match header_of(bytes.take(DATA_HEADER_SIZE as int)) {
                Ok(header) => Ok(header.seq == seq),
                Err(e) => Err(e),
            }
        },
    }
}

/// Some bytes that may be there.
pub open spec fn opt_bytes(o: Option<&[u8]>) -> Option<Seq<u8>> {
    match o {
        Some(bytes) => Some(bytes@),
        None => None,
    }
}

impl ClientView {
    /// What is known of a stream whose session is on.
    pub open spec fn started(spec: StreamRunSpec, start_ns: u128, now_ns: u128) -> ClientView {
        ClientView {
            spec,
            warmup_until_ns: (start_ns + spec.warmup_ns) as u128,
            end_ns: (start_ns + spec.warmup_ns + spec.duration_ns) as u128,
            next_send_ns: now_ns,
            seq: 0,
        }
    }

    /// Whether there is time for one more packet.
    pub open spec fn is_running(self, now_ns: u128) -> bool {
        now_ns < self.end_ns
    }

    /// How long the stream waits between two packets, if it is paced.
    pub open spec fn delay(self) -> Option<u64> {
        pacing_of(self.spec.payload_bytes, self.spec.rate_bps)
    }

    /// What is known of the stream once the next packet is due.
    pub open spec fn paced(self) -> ClientView {
        match self.delay() {
            Some(delay) => ClientView {
                next_send_ns: (self.next_send_ns + delay) as u128,
                ..self
            },
            None => self,
        }
    }

    /// What is known of the stream once the next packet is due, so many times.
    pub open spec fn paced_times(self, n: nat) -> ClientView
        decreases n,
    {
        if n == 0 {
            self
        } else {
            self.paced_times((n - 1) as nat).paced()
        }
    }

    /// Until when to wait before the packet that is due is sent, if it is not yet time.
    pub open spec fn wait_until(self, now_ns: u128) -> Option<u128> {
        if self.delay() is Some && now_ns < self.next_send_ns {
            Some(self.next_send_ns)
        } else {
            None
        }
    }

    /// What came of the last packet, where something did that answers it or does not.
    pub open spec fn event_of(
        self,
        send_mono_ns: u64,
        sent_ns: u128,
        answered: bool,
        answer_mono_ns: u64,
    ) -> PacketEvent {
        PacketEvent {
            stream_id: self.spec.stream_id,
            seq: self.seq,
            bytes: self.spec.payload_bytes as u64,
            send_mono_ns,
            recv_mono_ns: if answered {
                Some(answer_mono_ns)
            } else {
                None
            },
            measured: sent_ns >= self.warmup_until_ns,
        }
    }
}

/// A stream sends from its start on until its warm-up and the time to measure are over, and no
/// longer.
pub proof fn law_stream_runs_its_time(
    spec: StreamRunSpec,
    start_ns: u128,
    now_ns: u128,
    later_ns: u128,
)
    requires
        start_ns + spec.warmup_ns + spec.duration_ns <= u128::MAX,
    ensures
        ({
            let stream = ClientView::started(spec, start_ns, now_ns);
            &&& stream.is_running(later_ns) <==> later_ns - start_ns < spec.warmup_ns
                + spec.duration_ns
            &&& stream.seq == 0
            &&& stream.spec == spec
        }),
{
}

/// What comes of a packet counts from the end of the warm-up on. The packet is the last one that
/// was sent, it carried the payload of the stream, and it has a time of arrival only if it was
/// answered.
pub proof fn law_warmup_is_not_measured(
    spec: StreamRunSpec,
    start_ns: u128,
    now_ns: u128,
    seq: u64,
    send_mono_ns: u64,
    sent_ns: u128,
    answered: bool,
    answer_mono_ns: u64,
)
    requires
        start_ns + spec.warmup_ns + spec.duration_ns <= u128::MAX,
    ensures
        ({
            let stream = ClientView { seq, ..ClientView::started(spec, start_ns, now_ns) };
            let event = stream.event_of(send_mono_ns, sent_ns, answered, answer_mono_ns);
            &&& event.measured <==> sent_ns - start_ns >= spec.warmup_ns
            &&& event.stream_id == spec.stream_id
            &&& event.seq == seq
            &&& event.bytes == spec.payload_bytes
            &&& event.send_mono_ns == send_mono_ns
            &&& answered ==> event.recv_mono_ns == Some(answer_mono_ns)
            &&& !answered ==> event.recv_mono_ns is None
        }),
{
}

/// A stream that is paced sends a packet, once it has sent `n`, no earlier than `n` times its wait
/// after the first one was due, however late the packets before it were. One that is not paced
/// never waits.
pub proof fn law_stream_keeps_its_pace(
    spec: StreamRunSpec,
    start_ns: u128,
    first_ns: u128,
    n: nat,
    now_ns: u128,
)
    requires
        first_ns + n * u64::MAX <= u128::MAX,
    ensures
        ({
            let due = ClientView::started(spec, start_ns, first_ns).paced_times(n);
            match pacing_of(spec.payload_bytes, spec.rate_bps) {
                None => due.wait_until(now_ns) is None,
                Some(delay) => {
                    &&& now_ns < first_ns + n * delay ==> due.wait_until(now_ns) == Some(
                        (first_ns + n * delay) as u128,
                    )
                    &&& now_ns >= first_ns + n * delay ==> due.wait_until(now_ns) is None
                },
            }
        }),
{
    lemma_due(spec, start_ns, first_ns, n);
}

/// That the packet after `n` others is due after as many waits.
proof fn lemma_due(spec: StreamRunSpec, start_ns: u128, first_ns: u128, n: nat)
    requires
        first_ns + n * u64::MAX <= u128::MAX,
    ensures
        ({
            let due = ClientView::started(spec, start_ns, first_ns).paced_times(n);
            &&& due.spec == spec
            &&& due.delay() matches Some(delay) ==> due.next_send_ns == first_ns + n * delay
                && n * delay <= n * u64::MAX
        }),
    decreases n,
{
    if n > 0 {
        let m = n - 1;
        assert(m * u64::MAX + u64::MAX == n * u64::MAX) by (nonlinear_arith)
            requires
                m == n - 1,
        ;
        lemma_due(spec, start_ns, first_ns, m as nat);
        if let Some(delay) = pacing_of(spec.payload_bytes, spec.rate_bps) {
            let d = delay as int;
            assert(m * d + d == n * d && n * d <= n * u64::MAX) by (nonlinear_arith)
                requires
                    m == n - 1,
                    0 <= d <= u64::MAX,
                    n > 0,
            ;
        }
    } else {
        assert(0 * u64::MAX == 0);
        if let Some(delay) = pacing_of(spec.payload_bytes, spec.rate_bps) {
            assert(n * delay == 0) by (nonlinear_arith)
                requires
                    n == 0,
            ;
        }
    }
}

impl StreamClient {
    /// That the stream has its payload, and is paced as its rate says.
    pub closed spec fn wf(self) -> bool {
        &&& self.payload@ == zeros(self.spec.payload_bytes as nat)
        &&& self.pacing == pacing_of(self.spec.payload_bytes, self.spec.rate_bps)
    }

    /// A stream whose session is on, with the first packet due now.
    pub fn new(spec: StreamRunSpec, start_ns: u128, now_ns: u128) -> (r: StreamClient)
        requires
            start_ns + spec.warmup_ns + spec.duration_ns <= u128::MAX,
        ensures
            r.wf(),
            r@ == (ClientView {
                spec,
                warmup_until_ns: (start_ns + spec.warmup_ns) as u128,
                end_ns: (start_ns + spec.warmup_ns + spec.duration_ns) as u128,
                next_send_ns: now_ns,
                seq: 0,
            }),
            r@ == ClientView::started(spec, start_ns, now_ns),
    {
        let pacing: Option<u64> = pacing_delay(spec.payload_bytes, spec.rate_bps);
        let warmup_until_ns: u128 = start_ns + spec.warmup_ns;
        let end_ns: u128 = warmup_until_ns + spec.duration_ns;
        let mut payload: Vec<u8> = Vec::new();
        payload.resize(spec.payload_bytes, 0);
        assert(payload@ =~= zeros(spec.payload_bytes as nat));
        StreamClient { spec, payload, pacing, warmup_until_ns, end_ns, next_send_ns: now_ns, seq: 0 }
    }

    /// Whether there is time for one more packet.
    pub fn running(&self, now_ns: u128) -> (r: bool)
        ensures
            r == (now_ns < self@.end_ns),
            r == self@.is_running(now_ns),
    {
        now_ns < self.end_ns
    }

    /// Whether the clock has room for the time of the packet after the next.
    pub fn can_pace(&self) -> (r: bool)
        requires
            self.wf(),
        ensures
            r <==> (pacing_of(self@.spec.payload_bytes, self@.spec.rate_bps) matches Some(delay)
                ==> self@.next_send_ns + delay <= u128::MAX),
    {
        match self.pacing {
            None => true,
            Some(delay) => self.next_send_ns <= u128::MAX - delay as u128,
        }
    }

    /// Whether there is a number for the next packet.
    pub fn can_send(&self) -> (r: bool)
        ensures
            r == (self@.seq < u64::MAX),
    {
        self.seq < u64::MAX
    }

    /// Makes the next packet due, and gives the time to wait for before the one that is due now is
    /// sent, if any.
    pub fn pace(&mut self, now_ns: u128) -> (r: Option<u128>)
        requires
            old(self).wf(),
            pacing_of(old(self)@.spec.payload_bytes, old(self)@.spec.rate_bps) matches Some(delay)
                ==> old(self)@.next_send_ns + delay <= u128::MAX,
        ensures
            final(self).wf(),
            match pacing_of(old(self)@.spec.payload_bytes, old(self)@.spec.rate_bps) {
                None => r is None && final(self)@ == old(self)@,
                Some(delay) => {
                    &&& r == if now_ns < old(self)@.next_send_ns {
                        Some(old(self)@.next_send_ns)
                    } else {
                        None
                    }
                    &&& final(self)@ == (ClientView {
                        next_send_ns: (old(self)@.next_send_ns + delay) as u128,
                        ..old(self)@
                    })
                },
            },
            r == old(self)@.wait_until(now_ns),
            final(self)@ == old(self)@.paced(),
    {
        match self.pacing {
            None => None,
            Some(delay) => {
                let due: u128 = self.next_send_ns;
                self.next_send_ns = due + delay as u128;
                if now_ns < due {
                    Some(due)
                } else {
                    None
                }
            },
        }
    }

    /// The next packet, with the next number.
    pub fn next_packet(&mut self, send_mono_ns: u64) -> (r: Vec<u8>)
        requires
            old(self).wf(),
            old(self)@.seq < u64::MAX,
        ensures
            final(self).wf(),
            final(self)@ == (ClientView { seq: (old(self)@.seq + 1) as u64, ..old(self)@ }),
            r@ == packet_bytes(old(self)@.spec, (old(self)@.seq + 1) as u64, send_mono_ns),
    {
        self.seq = self.seq + 1;
        let payload_len: u32 = (self.spec.payload_bytes as u64 % 0x1_0000_0000) as u32;
        let header = DataHeader::new(
            self.spec.session_id,
            self.spec.stream_id,
            self.seq,
            send_mono_ns,
            payload_len,
        );
        let bytes: [u8; DATA_HEADER_SIZE] = header.encode();
        let mut frame: Vec<u8> = Vec::new();
        frame.extend_from_slice(&bytes);
        frame.extend_from_slice(&self.payload);
        frame
    }

    /// What came of the last packet. `sent_ns` is when it had been sent, and `answer` what came
    /// back in time, at `answer_mono_ns`.
    pub fn event(
        &self,
        send_mono_ns: u64,
        sent_ns: u128,
        answer: Option<&[u8]>,
        answer_mono_ns: u64,
    ) -> (r: Result<PacketEvent, IpfuschError>)
        ensures
            match answers(self@.seq, opt_bytes(answer)) {
                Err(e) => r matches Err(x) && x@ == e,
                Ok(answered) => r == Ok::<PacketEvent, IpfuschError>(
                    PacketEvent {
                        stream_id: self@.spec.stream_id,
                        seq: self@.seq,
                        bytes: self@.spec.payload_bytes as u64,
                        send_mono_ns,
                        recv_mono_ns: if answered {
                            Some(answer_mono_ns)
                        } else {
                            None
                        },
                        measured: sent_ns >= self@.warmup_until_ns,
                    },
                ),
            },
            answers(self@.seq, opt_bytes(answer)) matches Ok(answered) ==> r == Ok::<
                PacketEvent,
                IpfuschError,
            >(self@.event_of(send_mono_ns, sent_ns, answered, answer_mono_ns)),
    {
        let mut recv_mono_ns: Option<u64> = None;
        if let Some(bytes) = answer {
            if bytes.len() >= DATA_HEADER_SIZE {
                let head: &[u8] = vstd::slice::slice_subrange(bytes, 0, DATA_HEADER_SIZE);
                assert(head@ =~= bytes@.take(DATA_HEADER_SIZE as int));
                match DataHeader::decode(head) {
                    Ok(header) => {
                        if header.seq == self.seq {
                            recv_mono_ns = Some(answer_mono_ns);
                        }
                    },
                    Err(e) => return Err(e),
                }
            }
        }
        Ok(
            PacketEvent {
                stream_id: self.spec.stream_id,
                seq: self.seq,
                bytes: self.spec.payload_bytes as u64,
                send_mono_ns,
                recv_mono_ns,
                measured: sent_ns >= self.warmup_until_ns,
            },
        )
    }
}

/// A packet is forty bytes of header and the payload, all zeros. Its header is of this protocol,
/// and says which stream of which session sent it as which packet, when, and how much it carries.
pub proof fn law_packet_says_what_it_is(spec: StreamRunSpec, seq: u64, send_mono_ns: u64)
    ensures
        ({
            let packet = packet_bytes(spec, seq, send_mono_ns);
            &&& packet.len() == 40 + spec.payload_bytes
            &&& forall|i: int| 40 <= i < packet.len() ==> packet[i] == 0
            &&& header_of(packet.take(40)) matches Ok(header)
            &&& header.session_id == spec.session_id
            &&& header.stream_id == spec.stream_id
            &&& header.seq == seq
            &&& header.send_mono_ns == send_mono_ns
            &&& header.flags == 0
            &&& spec.payload_bytes <= u32::MAX ==> header.payload_len == spec.payload_bytes
        }),
{
    law_echo_answers_the_packet(spec, seq, send_mono_ns, seq);
    lemma_header_fields(packet_header(spec, seq, send_mono_ns));
}

/// What comes back answers a packet exactly if its first forty bytes are a header with the number
/// of the packet. Nothing, or less than a header, is no answer, and what is no header is an error.
pub proof fn law_answers_are_headers_with_the_number(seq: u64, bytes: Seq<u8>)
    ensures
        answers(seq, None) == Ok::<bool, ErrorView>(false),
        bytes.len() < 40 ==> answers(seq, Some(bytes)) == Ok::<bool, ErrorView>(false),
        bytes.len() >= 40 ==> match header_of(bytes.take(40)) {
            Ok(header) => answers(seq, Some(bytes)) == Ok::<bool, ErrorView>(seq == header.seq),
            Err(e) => answers(seq, Some(bytes)) == Err::<bool, ErrorView>(e),
        },
{
}

/// A client is refused exactly where it is not let in: for the reason that it is given, if there is
/// one, and so is one that is answered with anything else.
pub proof fn law_refusals_are_answers_that_do_not_let_in(answer: ControlView)
    ensures
        refusal_in(answer) is None <==> (answer matches ControlView::Ack { accepted, .. }
            && accepted),
        answer matches ControlView::Ack { accepted, reason, .. } ==> !accepted ==> refusal_in(
            answer,
        ) == Some(
            if reason is Some {
                reason->0
            } else {
                "session rejected"@
            },
        ),
        !(answer is Ack) ==> refusal_in(answer) == Some("unexpected control response"@),
{
}

/// A stream greets a server in version one of the protocol, by its number, with the digest of its
/// token if it has one, and asks for a session of one stream with what it is to do.
pub proof fn law_greeting_says_who_asks_for_what(spec: StreamRunSpec)
    ensures
        hello_of(spec) matches ControlView::Hello { version, client_name, token_hash, capabilities }
            && {
            &&& version == 1
            &&& client_name == "ipfusch-stream-"@ + decimal(spec.stream_id as nat)
            &&& spec.token is None ==> token_hash is None
            &&& spec.token is Some ==> token_hash == Some(sha256(encode_utf8(spec.token->0@)))
            &&& capabilities == seq![spec.transport.name(), "multistream"@]
        },
        start_of(spec) matches ControlView::StartSession {
            session_id,
            transport,
            streams,
            duration_ms,
            payload_bytes,
            interval_ms,
            rate_bps,
        } && {
            &&& session_id == spec.session_id
            &&& transport == spec.transport.name()
            &&& streams == 1
            &&& is_whole_ms(duration_ms, spec.duration_ns as int)
            &&& payload_bytes == spec.payload_bytes
            &&& interval_ms == 100
            &&& rate_bps == spec.rate_bps
        },
{
}

/// A server that sends the head of a packet back answers that packet, and no other.
pub proof fn law_echo_answers_the_packet(
    spec: StreamRunSpec,
    seq: u64,
    send_mono_ns: u64,
    other: u64,
)
    ensures
        ({
            let head = packet_bytes(spec, seq, send_mono_ns).take(DATA_HEADER_SIZE as int);
            &&& header_of(head) == Ok::<DataHeader, ErrorView>(
                packet_header(spec, seq, send_mono_ns),
            )
            &&& answers(other, Some(head)) == Ok::<bool, ErrorView>(other == seq)
        }),
{
    let header = packet_header(spec, seq, send_mono_ns);
    lemma_header_fields(header);
    law_header_decodes_to_what_was_encoded(header);
    let head = packet_bytes(spec, seq, send_mono_ns).take(DATA_HEADER_SIZE as int);
    assert(head =~= header_bytes(header));
    assert(head.take(DATA_HEADER_SIZE as int) =~= head);
}

} // verus!
