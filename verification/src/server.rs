//! What a server listens on, whom it lets in, and what it sends back.
use std::collections::BTreeSet;
use vstd::prelude::*;
use vstd::utf8::encode_utf8;

use crate::client::{
    answers, hello_of, law_echo_answers_the_packet, packet_bytes, packet_header, refusal_in,
    start_of,
};
use crate::config::{Address, ServerTransport};
use crate::error::{ErrorView, IpfuschError};
use crate::net::StreamRunSpec;
use crate::protocol::{
    admits, datagram_bytes, datagram_message, decode_control_datagram, encode_control_datagram,
    header_of, law_packets_are_not_control_datagrams, lemma_header_fields, opt_str, sha256,
    token_digest, token_matches, ControlMessage, ControlView, DataHeader, DATA_HEADER_SIZE,
    PROTOCOL_VERSION,
};
use crate::text::{decimal, push_decimal};
use crate::wire::opt_text;

verus! {

/// An address with another port, and without what IPv6 adds to an address.
pub open spec fn at_port(address: Address, port: u16) -> Address {
    match address {
        Address::V4 { ip, .. } => Address::V4 { ip, port },
        Address::V6 { ip, .. } => Address::V6 { ip, port, flowinfo: 0, scope_id: 0 },
    }
}

/// The port of an address.
pub open spec fn port_of(address: Address) -> u16 {
    match address {
        Address::V4 { port, .. } => port,
        Address::V6 { port, .. } => port,
    }
}

/// A port further on, or the last one there is.
pub open spec fn port_after(port: u16, n: u16) -> u16 {
    if port + n > u16::MAX {
        u16::MAX
    } else {
        (port + n) as u16
    }
}

/// Where a server listens, transport by transport.
#[derive(Debug, Clone, Copy, PartialEq, Eq)]
pub struct Listeners {
    pub tcp: Option<Address>,
    pub udp: Option<Address>,
    pub quic: Option<Address>,
}

/// Where a server listens: at its address, or with all transports at its port and the two after
/// it.
pub open spec fn listeners_of(bind: Address, transport: ServerTransport) -> Listeners {
    match transport {
        ServerTransport::Tcp => Listeners { tcp: Some(bind), udp: None, quic: None },
        ServerTransport::Udp => Listeners { tcp: None, udp: Some(bind), quic: None },
        ServerTransport::Quic => Listeners { tcp: None, udp: None, quic: Some(bind) },
        ServerTransport::All => Listeners {
            tcp: Some(bind),
            udp: Some(at_port(bind, port_after(port_of(bind), 1))),
            quic: Some(at_port(bind, port_after(port_of(bind), 2))),
        },
    }
}

/// The address so many ports further on, or at the last port there is.
fn address_after(address: Address, n: u16) -> (r: Address)
    ensures
        r == at_port(address, port_after(port_of(address), n)),
{
    match address {
        Address::V4 { ip, port } => Address::V4 { ip, port: port.saturating_add(n) },
        Address::V6 { ip, port, .. } => Address::V6 {
            ip,
            port: port.saturating_add(n),
            flowinfo: 0,
            scope_id: 0,
        },
    }
}

/// Where a server listens.
pub fn listeners(bind: Address, transport: ServerTransport) -> (r: Listeners)
    ensures
        r == listeners_of(bind, transport),
{
    match transport {
        ServerTransport::Tcp => Listeners { tcp: Some(bind), udp: None, quic: None },
        ServerTransport::Udp => Listeners { tcp: None, udp: Some(bind), quic: None },
        ServerTransport::Quic => Listeners { tcp: None, udp: None, quic: Some(bind) },
        ServerTransport::All => Listeners {
            tcp: Some(bind),
            udp: Some(address_after(bind, 1)),
            quic: Some(address_after(bind, 2)),
        },
    }
}

/// With all transports a server listens at three ports, if there are three from its own on.
pub proof fn law_listeners_are_apart(bind: Address)
    requires
        port_of(bind) <= u16::MAX - 2,
    ensures
        ({
            let all = listeners_of(bind, ServerTransport::All);
            &&& all.tcp matches Some(tcp) && all.udp matches Some(udp) && all.quic matches Some(
                quic,
            ) && port_of(tcp) + 1 == port_of(udp) && port_of(udp) + 1 == port_of(quic)
        }),
{
}

/// A server that offers one transport listens with that one alone, at its own address. With all of
/// them it listens with TCP there, with UDP at the next port and with QUIC at the one after, at the
/// same host; where there is no further port, it is the last one.
pub proof fn law_transports_listen_in_their_places(bind: Address, transport: ServerTransport)
    ensures
        ({
            let at = listeners_of(bind, transport);
            &&& at.tcp is Some <==> transport == ServerTransport::Tcp || transport
                == ServerTransport::All
            &&& at.udp is Some <==> transport == ServerTransport::Udp || transport
                == ServerTransport::All
            &&& at.quic is Some <==> transport == ServerTransport::Quic || transport
                == ServerTransport::All
            &&& at.tcp matches Some(tcp) ==> tcp == bind
            &&& transport != ServerTransport::All ==> {
                &&& at.udp matches Some(udp) ==> udp == bind
                &&& at.quic matches Some(quic) ==> quic == bind
            }
            &&& transport == ServerTransport::All ==> match (bind, at.udp->0, at.quic->0) {
                (
                    Address::V4 { ip, port },
                    Address::V4 { ip: udp_ip, port: udp },
                    Address::V4 { ip: quic_ip, port: quic },
                ) => {
                    &&& ip == udp_ip == quic_ip
                    &&& port <= 65_534 ==> udp == port + 1
                    &&& port <= 65_533 ==> quic == port + 2
                    &&& port > 65_534 ==> udp == 65_535
                    &&& port > 65_533 ==> quic == 65_535
                },
                (
                    Address::V6 { ip, port, .. },
                    Address::V6 { ip: udp_ip, port: udp, .. },
                    Address::V6 { ip: quic_ip, port: quic, .. },
                ) => {
                    &&& ip == udp_ip == quic_ip
                    &&& port <= 65_534 ==> udp == port + 1
                    &&& port <= 65_533 ==> quic == port + 2
                    &&& port > 65_534 ==> udp == 65_535
                    &&& port > 65_533 ==> quic == 65_535
                },
                _ => false,
            }
        }),
{
}

/// What a server makes of a request for a session.
#[derive(Debug, Clone)]
pub struct Verdict {
    pub session_id: u64,
    pub accepted: bool,
    pub reason: Option<String>,
}

/// What a server makes of a request for a session, with the reason as a sequence of characters.
pub struct VerdictView {
    pub session_id: u64,
    pub accepted: bool,
    pub reason: Option<Seq<char>>,
}

impl View for Verdict {
    type V = VerdictView;

    open spec fn view(&self) -> VerdictView {
        VerdictView {
            session_id: self.session_id,
            accepted: self.accepted,
            reason: opt_text(self.reason),
        }
    }
}

/// What a server that expects a token, or none, makes of a greeting and of what follows it.
pub open spec fn verdict_of(
    token: Option<Seq<char>>,
    hello: ControlView,
    start: ControlView,
) -> VerdictView {
    match (hello, start) {
        (
            ControlView::Hello { version, token_hash, .. },
            ControlView::StartSession { session_id, .. },
        ) => if version != PROTOCOL_VERSION {
            VerdictView {
                session_id,
                accepted: false,
                reason: Some("protocol version mismatch: "@ + decimal(version as nat)),
            }
        } else if !admits(token, token_hash) {
            VerdictView { session_id, accepted: false, reason: Some("token rejected"@) }
        } else {
            VerdictView { session_id, accepted: true, reason: None }
        },
        _ => VerdictView {
            session_id: 0,
            accepted: false,
            reason: Some("invalid control flow"@),
        },
    }
}

/// The answer that carries a verdict.
pub open spec fn ack_of(verdict: VerdictView) -> ControlView {
    ControlView::Ack {
        session_id: verdict.session_id,
        accepted: verdict.accepted,
        reason: verdict.reason,
    }
}

/// What a server that expects a token, or none, makes of a greeting and of what follows it.
pub fn negotiate(token: Option<&str>, hello: &ControlMessage, start: &ControlMessage) -> (r:
    Verdict)
    ensures
        r@ == verdict_of(opt_str(token), hello@, start@),
{
    if let ControlMessage::Hello { version, token_hash, .. } = hello {
        if let ControlMessage::StartSession { session_id, .. } = start {
            if *version != PROTOCOL_VERSION {
                let mut reason: String = "protocol version mismatch: ".to_string();
                push_decimal(&mut reason, *version as u64);
                return Verdict { session_id: *session_id, accepted: false, reason: Some(reason) };
            }
            if !token_matches(token, *token_hash) {
                return Verdict {
                    session_id: *session_id,
                    accepted: false,
                    reason: Some("token rejected".to_string()),
                };
            }
            return Verdict { session_id: *session_id, accepted: true, reason: None };
        }
    }
    Verdict { session_id: 0, accepted: false, reason: Some("invalid control flow".to_string()) }
}

/// Where a session of a server stands.
#[derive(Debug, Clone, Copy, PartialEq, Eq, Structural)]
pub enum Phase {
    /// The greeting has not come yet.
    Hello,
    /// What follows the greeting has not come yet.
    Start,
    /// The client is let in, and its packets are sent back.
    Data,
    /// The client is turned away, or its line is at an end.
    Closed,
}

/// What came of reading the header of a packet off a line.
#[derive(Debug, Clone)]
pub enum HeaderRead {
    /// All of it came.
    Full([u8; DATA_HEADER_SIZE]),
    /// The line ended before it or in it.
    End,
    /// It could not be read, with the message of the system.
    Failed(String),
}

/// What came of reading a header, with bytes and texts as sequences.
pub enum HeaderReadView {
    Full(Seq<u8>),
    End,
    Failed(Seq<char>),
}

impl View for HeaderRead {
    type V = HeaderReadView;

    open spec fn view(&self) -> HeaderReadView {
        match *self {
            HeaderRead::Full(header) => HeaderReadView::Full(header@),
            HeaderRead::End => HeaderReadView::End,
            HeaderRead::Failed(m) => HeaderReadView::Failed(m@),
        }
    }
}

/// What came of reading the payload of a packet off a line.
#[derive(Debug, Clone)]
pub enum PayloadRead {
    /// All of it came.
    Full,
    /// The line ended in it, or it could not be read, with the message of the system.
    Failed(String),
}

/// What came of reading a payload, with texts as sequences.
pub enum PayloadReadView {
    Full,
    Failed(Seq<char>),
}

impl View for PayloadRead {
    type V = PayloadReadView;

    open spec fn view(&self) -> PayloadReadView {
        match *self {
            PayloadRead::Full => PayloadReadView::Full,
            PayloadRead::Failed(m) => PayloadReadView::Failed(m@),
        }
    }
}

/// What to do next on a line.
#[derive(Debug, Clone)]
pub enum EchoStep {
    /// Send these bytes back, and read the next header.
    Echo([u8; DATA_HEADER_SIZE]),
    /// Read a payload of this length.
    TakePayload(u32),
    /// End the session: all went well.
    Finish,
    /// End the session with this error.
    Fail(IpfuschError),
}

/// What to do next on a line, with bytes and texts as sequences.
pub enum StepView {
    Echo(Seq<u8>),
    TakePayload(u32),
    Finish,
    Fail(ErrorView),
}

impl View for EchoStep {
    type V = StepView;

    open spec fn view(&self) -> StepView {
        match *self {
            EchoStep::Echo(header) => StepView::Echo(header@),
            EchoStep::TakePayload(n) => StepView::TakePayload(n),
            EchoStep::Finish => StepView::Finish,
            EchoStep::Fail(e) => StepView::Fail(e@),
        }
    }
}

/// What to do once the reading of a header is over. A header without payload is sent back at once,
/// a line that ends here ends well, and what is no header is not sent back.
pub open spec fn header_step(read: HeaderReadView) -> StepView {
    match read {
        HeaderReadView::Full(header) => match header_of(header) {
            Ok(h) => if h.payload_len == 0 {
                StepView::Echo(header)
            } else {
                StepView::TakePayload(h.payload_len)
            },
            Err(e) => StepView::Fail(e),
        },
        HeaderReadView::End => StepView::Finish,
        HeaderReadView::Failed(m) => StepView::Fail(ErrorView::Io(m)),
    }
}

/// What to do once the reading of the payload behind a header is over: the header is sent back,
/// and the payload is not.
pub open spec fn payload_step(header: Seq<u8>, read: PayloadReadView) -> StepView {
    match read {
        PayloadReadView::Full => StepView::Echo(header),
        PayloadReadView::Failed(m) => StepView::Fail(ErrorView::Io(m)),
    }
}

/// Where a session stands after a step.
pub open spec fn phase_after(step: StepView) -> Phase {
    match step {
        StepView::Echo(_) => Phase::Data,
        StepView::TakePayload(_) => Phase::Data,
        _ => Phase::Closed,
    }
}

/// A session goes on as long as there is something to send back or to read, and is over once it has
/// ended, well or not. What is no header ends it with what is wrong with it; a header is sent back
/// as it came, after its payload if it has one.
pub proof fn law_session_goes_on_with_headers(header: Seq<u8>, text: Seq<char>)
    ensures
        match header_of(header) {
            Ok(h) => {
                let step = header_step(HeaderReadView::Full(header));
                &&& h.payload_len == 0 ==> step == StepView::Echo(header)
                &&& h.payload_len > 0 ==> step == StepView::TakePayload(h.payload_len)
                &&& phase_after(step) == Phase::Data
            },
            Err(e) => {
                let step = header_step(HeaderReadView::Full(header));
                step == StepView::Fail(e) && phase_after(step) == Phase::Closed
            },
        },
        header_step(HeaderReadView::End) == StepView::Finish,
        phase_after(StepView::Finish) == Phase::Closed,
        header_step(HeaderReadView::Failed(text)) == StepView::Fail(ErrorView::Io(text)),
        payload_step(header, PayloadReadView::Full) == StepView::Echo(header),
        phase_after(payload_step(header, PayloadReadView::Full)) == Phase::Data,
        payload_step(header, PayloadReadView::Failed(text)) == StepView::Fail(
            ErrorView::Io(text),
        ),
        phase_after(StepView::Fail(ErrorView::Io(text))) == Phase::Closed,
{
}

/// The session of one client.
pub struct ServerSession {
    token: Option<String>,
    hello: Option<ControlMessage>,
    phase: Phase,
    pending: Option<[u8; DATA_HEADER_SIZE]>,
}

/// What is known of the session of one client.
pub struct SessionView {
    pub token: Option<Seq<char>>,
    pub hello: Option<ControlView>,
    pub phase: Phase,
    /// The header whose payload is still to be read.
    pub pending: Option<Seq<u8>>,
}

impl View for ServerSession {
    type V = SessionView;

    closed spec fn view(&self) -> SessionView {
        SessionView {
            token: opt_text(self.token),
            hello: match self.hello {
                Some(m) => Some(m@),
                None => None,
            },
            phase: self.phase,
            pending: match self.pending {
                Some(header) => Some(header@),
                None => None,
            },
        }
    }
}

impl SessionView {
    /// What is known of a session after a control message.
    pub open spec fn after_control(self, msg: ControlView) -> SessionView {
        match self.hello {
            Some(hello) if self.phase == Phase::Start => SessionView {
                phase: if verdict_of(self.token, hello, msg).accepted {
                    Phase::Data
                } else {
                    Phase::Closed
                },
                pending: None,
                ..self
            },
            _ => SessionView {
                hello: Some(msg),
                phase: Phase::Start,
                pending: None,
                ..self
            },
        }
    }

    /// What is made of a control message, once there is something to be made of it.
    pub open spec fn verdict_on(self, msg: ControlView) -> Option<VerdictView> {
        match self.hello {
            Some(hello) if self.phase == Phase::Start => Some(
                verdict_of(self.token, hello, msg),
            ),
            _ => None,
        }
    }
}

/// The second message of a client is judged together with the first, and packets are taken from it
/// exactly if it is let in.
pub proof fn law_second_message_decides(
    token: Option<Seq<char>>,
    first: ControlView,
    second: ControlView,
)
    ensures
        ({
            let new = SessionView { token, hello: None, phase: Phase::Hello, pending: None };
            let greeted = new.after_control(first);
            let decided = greeted.after_control(second);
            &&& new.verdict_on(first) is None
            &&& greeted.phase == Phase::Start
            &&& greeted.verdict_on(second) == Some(verdict_of(token, first, second))
            &&& decided.phase == Phase::Data <==> verdict_of(token, first, second).accepted
            &&& decided.phase == Phase::Closed <==> !verdict_of(token, first, second).accepted
            &&& decided.token == token
        }),
{
}

impl ServerSession {
    /// That the greeting is there once it has come, and payloads are read only of clients that are
    /// let in.
    pub open spec fn wf(self) -> bool {
        &&& self@.phase == Phase::Hello || self@.hello is Some
        &&& self@.pending is Some ==> self@.phase == Phase::Data
    }

    /// The session of a client that has said nothing yet.
    pub fn new(token: Option<String>) -> (r: ServerSession)
        ensures
            r.wf(),
            r@ == (SessionView {
                token: opt_text(token),
                hello: None,
                phase: Phase::Hello,
                pending: None,
            }),
    {
        ServerSession { token, hello: None, phase: Phase::Hello, pending: None }
    }

    /// Takes a control message of the client. Once there is a verdict, it is given, and is to be
    /// sent to the client; the session goes on only if it is favourable.
    pub fn on_control(&mut self, msg: ControlMessage) -> (r: Option<Verdict>)
        requires
            old(self).wf(),
            old(self)@.phase == Phase::Hello || old(self)@.phase == Phase::Start,
        ensures
            final(self).wf(),
            final(self)@.token == old(self)@.token,
            final(self)@.pending is None,
            match old(self)@.hello {
                Some(hello) if old(self)@.phase == Phase::Start => {
                    &&& r matches Some(verdict)
                    &&& verdict@ == verdict_of(old(self)@.token, hello, msg@)
                    &&& final(self)@.hello == old(self)@.hello
                    &&& final(self)@.phase == if verdict@.accepted {
                        Phase::Data
                    } else {
                        Phase::Closed
                    }
                },
                _ => {
                    &&& r is None
                    &&& final(self)@.hello == Some(msg@)
                    &&& final(self)@.phase == Phase::Start
                },
            },
            final(self)@ == old(self)@.after_control(msg@),
            match r {
                Some(verdict) => old(self)@.verdict_on(msg@) == Some(verdict@),
                None => old(self)@.verdict_on(msg@) is None,
            },
    {
        let token: Option<&str> = match &self.token {
            Some(t) => Some(t.as_str()),
            None => None,
        };
        if matches!(self.phase, Phase::Start) {
            if let Some(hello) = &self.hello {
                let verdict: Verdict = negotiate(token, hello, &msg);
                self.phase = if verdict.accepted {
                    Phase::Data
                } else {
                    Phase::Closed
                };
                return Some(verdict);
            }
        }
        self.hello = Some(msg);
        self.phase = Phase::Start;
        None
    }

    /// Takes the header of a packet, and gives the length of the payload to take off the line
    /// before the header is sent back.
    pub fn on_header(&self, header: &[u8]) -> (r: Result<u32, IpfuschError>)
        requires
            self@.phase == Phase::Data,
        ensures
            match header_of(header@) {
                Ok(h) => r == Ok::<u32, IpfuschError>(h.payload_len),
                Err(e) => r matches Err(x) && x@ == e,
            },
    {
        match DataHeader::decode(header) {
            Ok(h) => Ok(h.payload_len),
            Err(e) => Err(e),
        }
    }

    /// Takes what came of reading the header of a packet, and gives what to do next.
    pub fn on_header_read(&mut self, read: HeaderRead) -> (r: EchoStep)
        requires
            old(self).wf(),
            old(self)@.phase == Phase::Data,
            old(self)@.pending is None,
        ensures
            final(self).wf(),
            r@ == header_step(read@),
            final(self)@ == (SessionView {
                phase: phase_after(r@),
                pending: match (r@, read@) {
                    (StepView::TakePayload(_), HeaderReadView::Full(header)) => Some(header),
                    _ => None,
                },
                ..old(self)@
            }),
    {
        match read {
            HeaderRead::Full(header) => match self.on_header(&header) {
                Ok(n) => {
                    if n == 0 {
                        EchoStep::Echo(header)
                    } else {
                        self.pending = Some(header);
                        EchoStep::TakePayload(n)
                    }
                },
                Err(e) => {
                    self.phase = Phase::Closed;
                    EchoStep::Fail(e)
                },
            },
            HeaderRead::End => {
                self.phase = Phase::Closed;
                EchoStep::Finish
            },
            HeaderRead::Failed(m) => {
                self.phase = Phase::Closed;
                EchoStep::Fail(IpfuschError::Io(m))
            },
        }
    }

    /// Takes what came of reading the payload of a packet, and gives what to do next.
    pub fn on_payload_read(&mut self, read: PayloadRead) -> (r: EchoStep)
        requires
            old(self).wf(),
            old(self)@.pending is Some,
        ensures
            final(self).wf(),
            r@ == payload_step(old(self)@.pending->0, read@),
            final(self)@ == (SessionView { phase: phase_after(r@), pending: None, ..old(self)@ }),
    {
        let header: [u8; DATA_HEADER_SIZE] = self.pending.unwrap();
        self.pending = None;
        match read {
            PayloadRead::Full => EchoStep::Echo(header),
            PayloadRead::Failed(m) => {
                self.phase = Phase::Closed;
                EchoStep::Fail(IpfuschError::Io(m))
            },
        }
    }
}

/// The answer that carries a verdict.
pub fn ack_message(verdict: &Verdict) -> (r: ControlMessage)
    ensures
        r@ == ack_of(verdict@),
{
    let reason: Option<String> = match &verdict.reason {
        Some(text) => Some(text.clone()),
        None => None,
    };
    ControlMessage::Ack { session_id: verdict.session_id, accepted: verdict.accepted, reason }
}

/// Why a client is turned away, if it is.
pub fn refusal(verdict: &Verdict) -> (r: Option<String>)
    ensures
        match r {
            None => refusal_in(ack_of(verdict@)) is None,
            Some(m) => refusal_in(ack_of(verdict@)) == Some(m@),
        },
{
    if verdict.accepted {
        return None;
    }
    match &verdict.reason {
        Some(text) => Some(text.clone()),
        None => Some("session rejected".to_string()),
    }
}

/// Makes a buffer at least so long. What it held stays.
pub fn make_room(buf: &mut Vec<u8>, required: usize)
    ensures
        final(buf)@.len() == if old(buf)@.len() < required {
            required as nat
        } else {
            old(buf)@.len()
        },
        final(buf)@.take(old(buf)@.len() as int) == old(buf)@,
        forall|i: int| old(buf)@.len() <= i < final(buf)@.len() ==> final(buf)@[i] == 0,
{
    if buf.len() < required {
        buf.resize(required, 0);
    }
    assert(buf@.take(old(buf)@.len() as int) =~= old(buf)@);
}

/// A session is granted exactly to a greeting in version one that is followed by a request, if the
/// server expects no token or the greeting carries the digest of it. The answer names the session,
/// and a refusal says what is wrong.
pub proof fn law_session_is_granted_exactly_if(
    token: Option<Seq<char>>,
    hello: ControlView,
    start: ControlView,
)
    ensures
        ({
            let verdict = verdict_of(token, hello, start);
            match (hello, start) {
                (
                    ControlView::Hello { version, token_hash, .. },
                    ControlView::StartSession { session_id, .. },
                ) => {
                    let known = token matches Some(text) ==> token_hash == Some(
                        sha256(encode_utf8(text)),
                    );
                    &&& verdict.session_id == session_id
                    &&& verdict.accepted <==> version == 1 && known
                    &&& verdict.accepted ==> verdict.reason is None
                    &&& version != 1 ==> verdict.reason == Some(
                        "protocol version mismatch: "@ + decimal(version as nat),
                    )
                    &&& version == 1 && !known ==> verdict.reason == Some("token rejected"@)
                },
                _ => {
                    &&& !verdict.accepted
                    &&& verdict.session_id == 0
                    &&& verdict.reason == Some("invalid control flow"@)
                },
            }
        }),
{
}

/// An answer carries all of a verdict.
pub proof fn law_answer_carries_the_verdict(verdict: VerdictView)
    ensures
        ack_of(verdict) matches ControlView::Ack { session_id, accepted, reason } && session_id
            == verdict.session_id && accepted == verdict.accepted && reason == verdict.reason,
{
}

/// The streams of a client with the token of a server are let in, as are all where the server
/// expects none.
pub proof fn law_right_token_is_let_in(spec: StreamRunSpec, token: Option<Seq<char>>)
    requires
        token is None || token == opt_text(spec.token),
    ensures
        verdict_of(token, hello_of(spec), start_of(spec)) == (VerdictView {
            session_id: spec.session_id,
            accepted: true,
            reason: None,
        }),
        refusal_in(ack_of(verdict_of(token, hello_of(spec), start_of(spec)))) is None,
{
}

/// A client without the token that a server expects is turned away, and is told so.
pub proof fn law_wrong_token_is_turned_away(spec: StreamRunSpec, token: Seq<char>)
    requires
        opt_text(spec.token) matches Some(own) ==> token_digest(own) != token_digest(token),
    ensures
        verdict_of(Some(token), hello_of(spec), start_of(spec)) == (VerdictView {
            session_id: spec.session_id,
            accepted: false,
            reason: Some("token rejected"@),
        }),
        refusal_in(ack_of(verdict_of(Some(token), hello_of(spec), start_of(spec)))) == Some(
            "token rejected"@,
        ),
{
}

/// Whatever a client sends first and second, its answer says whether it is let in, and if not,
/// the reason that the server gives.
pub proof fn law_verdict_reaches_the_client(
    token: Option<Seq<char>>,
    hello: ControlView,
    start: ControlView,
)
    ensures
        ({
            let verdict = verdict_of(token, hello, start);
            &&& refusal_in(ack_of(verdict)) is None <==> verdict.accepted
            &&& !verdict.accepted ==> verdict.reason is Some && refusal_in(ack_of(verdict))
                == verdict.reason
        }),
{
}

/// What tells one address from another, as whole numbers.
type AddressKey = (u8, u128, u16, u32, u32);

/// What tells an address from others.
spec fn key_of(address: Address) -> AddressKey {
    match address {
        Address::V4 { ip, port } => (4, ip as u128, port, 0, 0),
        Address::V6 { ip, port, flowinfo, scope_id } => (6, ip, port, flowinfo, scope_id),
    }
}

/// What tells an address from others.
fn address_key(address: Address) -> (r: AddressKey)
    ensures
        r == key_of(address),
{
    match address {
        Address::V4 { ip, port } => (4, ip as u128, port, 0, 0),
        Address::V6 { ip, port, flowinfo, scope_id } => (6, ip, port, flowinfo, scope_id),
    }
}

/// A server of datagrams, with the clients that it let in.
pub struct UdpServer {
    token: Option<String>,
    authorized: BTreeSet<AddressKey>,
}

/// What is known of a server of datagrams.
#[verifier::ext_equal]
pub struct UdpView {
    pub token: Option<Seq<char>>,
    pub authorized: Set<Address>,
}

impl View for UdpServer {
    type V = UdpView;

    closed spec fn view(&self) -> UdpView {
        UdpView {
            token: opt_text(self.token),
            authorized: Set::new(|a: Address| self.authorized@.contains(key_of(a))),
        }
    }
}

/// What a server of datagrams sends back.
pub enum UdpReply {
    Nothing,
    Ack(ControlView),
    Echo(Seq<u8>),
}

impl UdpView {
    /// Whether a greeting lets its sender in.
    pub open spec fn lets_in(self, msg: ControlView) -> bool {
        msg matches ControlView::Hello { version, token_hash, .. } && version == PROTOCOL_VERSION
            && admits(self.token, token_hash)
    }

    /// What is known of the server after a datagram.
    pub open spec fn after(self, peer: Address, frame: Seq<u8>) -> UdpView {
        match datagram_message(frame) {
            Some(msg) if self.lets_in(msg) => UdpView {
                authorized: self.authorized.insert(peer),
                ..self
            },
            _ => self,
        }
    }

    /// What the server sends back for a datagram. A greeting is answered; other control messages
    /// are not. The head of a packet is sent back if its sender is let in, or all are.
    pub open spec fn reply(self, peer: Address, frame: Seq<u8>) -> UdpReply {
        match datagram_message(frame) {
            Some(msg) => if msg is Hello {
                UdpReply::Ack(
                    ControlView::Ack {
                        session_id: 0,
                        accepted: self.lets_in(msg),
                        reason: if self.lets_in(msg) {
                            None
                        } else {
                            Some("token or protocol rejected"@)
                        },
                    },
                )
            } else {
                UdpReply::Nothing
            },
            None => if self.token is Some && !self.authorized.contains(peer) {
                UdpReply::Nothing
            } else if frame.len() < DATA_HEADER_SIZE {
                UdpReply::Nothing
            } else if header_of(frame.take(DATA_HEADER_SIZE as int)) is Err {
                UdpReply::Nothing
            } else {
                UdpReply::Echo(frame.take(DATA_HEADER_SIZE as int))
            },
        }
    }
}

/// That a result is what the server sends back. An answer is a control datagram that reads back
/// as that answer.
pub open spec fn sends(reply: UdpReply, r: Result<Option<Vec<u8>>, IpfuschError>) -> bool {
    match reply {
        UdpReply::Nothing => r matches Ok(d) && d is None,
        UdpReply::Echo(bytes) => r matches Ok(Some(d)) && d@ == bytes,
        UdpReply::Ack(msg) => r matches Ok(Some(d)) && d@ == datagram_bytes(msg)
            && datagram_message(d@) == Some(msg),
    }
}

impl UdpServer {
    /// A server that has let in nobody.
    pub fn new(token: Option<String>) -> (r: UdpServer)
        ensures
            r@ == (UdpView { token: opt_text(token), authorized: Set::empty() }),
    {
        let r = UdpServer { token, authorized: BTreeSet::new() };
        assert(r@.authorized =~= Set::empty());
        r
    }

    /// Takes a datagram, and gives what to send back to its sender.
    pub fn on_datagram(&mut self, peer: Address, frame: &[u8]) -> (r: Result<
        Option<Vec<u8>>,
        IpfuschError,
    >)
        ensures
            final(self)@ == old(self)@.after(peer, frame@),
            sends(old(self)@.reply(peer, frame@), r),
    {
        match decode_control_datagram(frame) {
            Some(ControlMessage::Hello { version, token_hash, .. }) => {
                let token: Option<&str> = match &self.token {
                    Some(t) => Some(t.as_str()),
                    None => None,
                };
                let accepted: bool = version == PROTOCOL_VERSION && token_matches(
                    token,
                    token_hash,
                );
                if accepted {
                    self.authorized.insert(address_key(peer));
                    assert(self@.authorized =~= old(self)@.authorized.insert(peer));
                }
                let ack = ControlMessage::Ack {
                    session_id: 0,
                    accepted,
                    reason: if accepted {
                        None
                    } else {
                        Some("token or protocol rejected".to_string())
                    },
                };
                match encode_control_datagram(&ack) {
                    Ok(d) => Ok(Some(d)),
                    Err(e) => Err(e),
                }
            },
            Some(_) => Ok(None),
            None => {
                if self.token.is_some() && !self.authorized.contains(&address_key(peer)) {
                    return Ok(None);
                }
                if frame.len() < DATA_HEADER_SIZE {
                    return Ok(None);
                }
                let head: &[u8] = vstd::slice::slice_subrange(frame, 0, DATA_HEADER_SIZE);
                assert(head@ =~= frame@.take(DATA_HEADER_SIZE as int));
                if DataHeader::decode(head).is_err() {
                    return Ok(None);
                }
                let mut echo: Vec<u8> = Vec::new();
                echo.extend_from_slice(head);
                assert(echo@ =~= head@);
                Ok(Some(echo))
            },
        }
    }
}

/// A client whose greeting carries the token of a server is told that it is let in, and every
/// packet that it sends from then on is answered.
pub proof fn law_admitted_client_is_answered(
    server: UdpView,
    spec: StreamRunSpec,
    peer: Address,
    greeting: Seq<u8>,
    seq: u64,
    send_mono_ns: u64,
)
    requires
        datagram_message(greeting) == Some(hello_of(spec)),
        server.token is None || server.token == opt_text(spec.token),
    ensures
        server.reply(peer, greeting) matches UdpReply::Ack(answer) && refusal_in(answer) is None,
        server.after(peer, greeting).authorized.contains(peer),
        server.after(peer, greeting).reply(peer, packet_bytes(spec, seq, send_mono_ns))
            matches UdpReply::Echo(head) && answers(seq, Some(head)) == Ok::<bool, ErrorView>(true),
{
    let packet = packet_bytes(spec, seq, send_mono_ns);
    law_echo_answers_the_packet(spec, seq, send_mono_ns, seq);
    lemma_header_fields(packet_header(spec, seq, send_mono_ns));
    law_packets_are_not_control_datagrams(packet);
}

/// A server of datagrams answers every greeting, and lets its sender in exactly if it is in version
/// one and carries the digest of the token, or none is expected. It answers no other control
/// message. Of anything else it sends the first forty bytes back exactly if they are a header, and
/// the sender has been let in or no token is expected.
pub proof fn law_datagrams_are_answered_exactly_if(
    server: UdpView,
    peer: Address,
    other: Address,
    frame: Seq<u8>,
)
    ensures
        ({
            let reply = server.reply(peer, frame);
            let now = server.after(peer, frame).authorized;
            match datagram_message(frame) {
                Some(ControlView::Hello { version, token_hash, .. }) => {
                    let known = server.token matches Some(text) ==> token_hash == Some(
                        sha256(encode_utf8(text)),
                    );
                    &&& reply matches UdpReply::Ack(ControlView::Ack {
                        session_id,
                        accepted,
                        reason,
                    })
                    &&& session_id == 0
                    &&& accepted <==> version == 1 && known
                    &&& accepted ==> reason is None
                    &&& !accepted ==> reason == Some("token or protocol rejected"@)
                    &&& now.contains(other) <==> server.authorized.contains(other) || (accepted
                        && other == peer)
                },
                Some(_) => reply is Nothing && now == server.authorized,
                None => {
                    let welcome = server.token is None || server.authorized.contains(peer);
                    let head = frame.len() >= 40 && header_of(frame.take(40)) is Ok;
                    &&& now == server.authorized
                    &&& welcome && head ==> (reply matches UdpReply::Echo(bytes) && bytes
                        == frame.take(40))
                    &&& !(welcome && head) ==> reply is Nothing
                },
            }
        }),
{
}

/// Once a client is let in, no datagram of anybody takes that back.
pub proof fn law_admission_lasts(server: UdpView, client: Address, peer: Address, frame: Seq<u8>)
    requires
        server.authorized.contains(client),
    ensures
        server.after(peer, frame).authorized.contains(client),
        server.after(peer, frame).token == server.token,
{
}

/// A server that expects a token sends packets back only to whom it let in, and lets in only
/// those whose greeting carries the digest of the token.
pub proof fn law_only_admitted_clients_are_echoed(
    server: UdpView,
    token: Seq<char>,
    client: Address,
    peer: Address,
    frame: Seq<u8>,
)
    requires
        server.token == Some(token),
    ensures
        server.reply(peer, frame) is Echo ==> server.authorized.contains(peer),
        server.after(peer, frame).authorized.contains(client) && !server.authorized.contains(
            client,
        ) ==> client == peer && (datagram_message(frame) matches Some(
            ControlView::Hello { version, token_hash, .. },
        ) && version == PROTOCOL_VERSION && token_hash == Some(token_digest(token))),
{
}

} // verus!
