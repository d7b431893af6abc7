//! The wire protocol: packet headers, control messages, and the token that admits a client.
use crate::bytes::{
    has_number, law_bytes_write_their_number, le_bytes, le_value, lemma_byte_ranges,
    lemma_le_bytes, lemma_le_value, push_le, read_le,
};
use crate::error::{ErrorView, IpfuschError};
use crate::text::{decimal, push_decimal};
use crate::wire::{
    ack_fields, ack_kinds, begins_with_tuple, field_bytes, hello_fields, hello_kinds, joined_bytes,
    kinds, law_tuple_is_found, law_tuple_reads_back, no_ack_text, no_hello_text, no_start_text,
    no_stop_text, no_tag_text, opt_digest, opt_text, read_ack, read_hello, read_start, read_stop,
    read_tag, start_fields, start_kinds, stop_fields, stop_kinds, text_bytes, texts, tuple_bytes,
    tuple_in, writable, write_ack, write_hello, write_start, write_stop, Field, Kind,
};
use sha2::{Digest, Sha256};
use vstd::arithmetic::power::pow;
use vstd::prelude::*;
use vstd::utf8::encode_utf8;

verus! {

/// The version of the protocol that both sides speak.
pub const PROTOCOL_VERSION: u16 = 1;

/// The length of a packet header in bytes.
pub const DATA_HEADER_SIZE: usize = 40;

/// The number that every packet header begins with.
pub const DATA_MAGIC: u32 = 0x4950_4653;

/// A message that sets up or ends a session.
#[derive(Debug, Clone)]
pub enum ControlMessage {
    Hello {
        version: u16,
        client_name: String,
        token_hash: Option<[u8; 32]>,
        capabilities: Vec<String>,
    },
    StartSession {
        session_id: u64,
        transport: String,
        streams: u16,
        duration_ms: u64,
        payload_bytes: usize,
        interval_ms: u64,
        rate_bps: Option<u64>,
    },
    Ack { session_id: u64, accepted: bool, reason: Option<String> },
    StopSession { session_id: u64 },
}

/// A control message with its texts as sequences of characters.
pub enum ControlView {
    Hello {
        version: u16,
        client_name: Seq<char>,
        token_hash: Option<Seq<u8>>,
        capabilities: Seq<Seq<char>>,
    },
    StartSession {
        session_id: u64,
        transport: Seq<char>,
        streams: u16,
        duration_ms: u64,
        payload_bytes: usize,
        interval_ms: u64,
        rate_bps: Option<u64>,
    },
    Ack { session_id: u64, accepted: bool, reason: Option<Seq<char>> },
    StopSession { session_id: u64 },
}

impl View for ControlMessage {
    type V = ControlView;

    open spec fn view(&self) -> ControlView {
        match *self {
            ControlMessage::Hello { version, client_name, token_hash, capabilities } => {
                ControlView::Hello {
                    version,
                    client_name: client_name@,
                    token_hash: opt_digest(token_hash),
                    capabilities: texts(capabilities@),
                }
            },
            ControlMessage::StartSession {
                session_id,
                transport,
                streams,
                duration_ms,
                payload_bytes,
                interval_ms,
                rate_bps,
            } => ControlView::StartSession {
                session_id,
                transport: transport@,
                streams,
                duration_ms,
                payload_bytes,
                interval_ms,
                rate_bps,
            },
            ControlMessage::Ack { session_id, accepted, reason } => ControlView::Ack {
                session_id,
                accepted,
                reason: opt_text(reason),
            },
            ControlMessage::StopSession { session_id } => ControlView::StopSession { session_id },
        }
    }
}

/// The header of a packet.
#[derive(Debug, Clone, Copy, PartialEq, Eq, Structural)]
pub struct DataHeader {
    pub magic: u32,
    pub version: u16,
    pub flags: u16,
    pub session_id: u64,
    pub stream_id: u32,
    pub seq: u64,
    pub send_mono_ns: u64,
    pub payload_len: u32,
}

/// The bytes of a packet header.
pub open spec fn header_bytes(h: DataHeader) -> Seq<u8> {
    le_bytes(h.magic as nat, 4) + le_bytes(h.version as nat, 2) + le_bytes(h.flags as nat, 2)
        + le_bytes(h.session_id as nat, 8) + le_bytes(h.stream_id as nat, 4) + le_bytes(
        h.seq as nat,
        8,
    ) + le_bytes(h.send_mono_ns as nat, 8) + le_bytes(h.payload_len as nat, 4)
}

/// The fields that forty bytes write, whatever they are.
pub open spec fn header_fields(s: Seq<u8>) -> DataHeader {
    DataHeader {
        magic: le_value(s.subrange(0, 4)) as u32,
        version: le_value(s.subrange(4, 6)) as u16,
        flags: le_value(s.subrange(6, 8)) as u16,
        session_id: le_value(s.subrange(8, 16)) as u64,
        stream_id: le_value(s.subrange(16, 20)) as u32,
        seq: le_value(s.subrange(20, 28)) as u64,
        send_mono_ns: le_value(s.subrange(28, 36)) as u64,
        payload_len: le_value(s.subrange(36, 40)) as u32,
    }
}

/// The packet header that some bytes write, or why they write none.
pub open spec fn header_of(s: Seq<u8>) -> Result<DataHeader, ErrorView> {
    let h = header_fields(s);
    if s.len() != DATA_HEADER_SIZE || h.magic != DATA_MAGIC {
        Err(ErrorView::InvalidPacketHeader)
    } else if h.version != PROTOCOL_VERSION {
        Err(ErrorView::ProtocolVersionMismatch { expected: PROTOCOL_VERSION, got: h.version })
    } else {
        Ok(h)
    }
}

/// Each part of a header's bytes, by its place.
proof fn lemma_header_parts(h: DataHeader)
    ensures
        header_bytes(h).len() == 40,
        header_bytes(h).subrange(0, 4) == le_bytes(h.magic as nat, 4),
        header_bytes(h).subrange(4, 6) == le_bytes(h.version as nat, 2),
        header_bytes(h).subrange(6, 8) == le_bytes(h.flags as nat, 2),
        header_bytes(h).subrange(8, 16) == le_bytes(h.session_id as nat, 8),
        header_bytes(h).subrange(16, 20) == le_bytes(h.stream_id as nat, 4),
        header_bytes(h).subrange(20, 28) == le_bytes(h.seq as nat, 8),
        header_bytes(h).subrange(28, 36) == le_bytes(h.send_mono_ns as nat, 8),
        header_bytes(h).subrange(36, 40) == le_bytes(h.payload_len as nat, 4),
{
    lemma_le_bytes(h.magic as nat, 4);
    lemma_le_bytes(h.version as nat, 2);
    lemma_le_bytes(h.flags as nat, 2);
    lemma_le_bytes(h.session_id as nat, 8);
    lemma_le_bytes(h.stream_id as nat, 4);
    lemma_le_bytes(h.seq as nat, 8);
    lemma_le_bytes(h.send_mono_ns as nat, 8);
    lemma_le_bytes(h.payload_len as nat, 4);
    let b = header_bytes(h);
    assert(b.subrange(0, 4) =~= le_bytes(h.magic as nat, 4));
    assert(b.subrange(4, 6) =~= le_bytes(h.version as nat, 2));
    assert(b.subrange(6, 8) =~= le_bytes(h.flags as nat, 2));
    assert(b.subrange(8, 16) =~= le_bytes(h.session_id as nat, 8));
    assert(b.subrange(16, 20) =~= le_bytes(h.stream_id as nat, 4));
    assert(b.subrange(20, 28) =~= le_bytes(h.seq as nat, 8));
    assert(b.subrange(28, 36) =~= le_bytes(h.send_mono_ns as nat, 8));
    assert(b.subrange(36, 40) =~= le_bytes(h.payload_len as nat, 4));
}

/// The bytes of any header hold its fields.
pub proof fn lemma_header_fields(h: DataHeader)
    ensures
        header_bytes(h).len() == DATA_HEADER_SIZE,
        header_fields(header_bytes(h)) == h,
{
    lemma_header_parts(h);
    lemma_byte_ranges();
    lemma_le_bytes(h.magic as nat, 4);
    lemma_le_bytes(h.version as nat, 2);
    lemma_le_bytes(h.flags as nat, 2);
    lemma_le_bytes(h.session_id as nat, 8);
    lemma_le_bytes(h.stream_id as nat, 4);
    lemma_le_bytes(h.seq as nat, 8);
    lemma_le_bytes(h.send_mono_ns as nat, 8);
    lemma_le_bytes(h.payload_len as nat, 4);
}

/// Each field of a header has its place in the forty bytes, the least significant byte first.
pub proof fn law_fields_lie_in_their_places(h: DataHeader)
    ensures
        header_bytes(h).len() == 40,
        has_number(header_bytes(h), 0, 4, h.magic as int),
        has_number(header_bytes(h), 4, 2, h.version as int),
        has_number(header_bytes(h), 6, 2, h.flags as int),
        has_number(header_bytes(h), 8, 8, h.session_id as int),
        has_number(header_bytes(h), 16, 4, h.stream_id as int),
        has_number(header_bytes(h), 20, 8, h.seq as int),
        has_number(header_bytes(h), 28, 8, h.send_mono_ns as int),
        has_number(header_bytes(h), 36, 4, h.payload_len as int),
{
    lemma_header_parts(h);
    let b = header_bytes(h);
    lemma_number_at(b, 0, 4, h.magic as nat);
    lemma_number_at(b, 4, 2, h.version as nat);
    lemma_number_at(b, 6, 2, h.flags as nat);
    lemma_number_at(b, 8, 8, h.session_id as nat);
    lemma_number_at(b, 16, 4, h.stream_id as nat);
    lemma_number_at(b, 20, 8, h.seq as nat);
    lemma_number_at(b, 28, 8, h.send_mono_ns as nat);
    lemma_number_at(b, 36, 4, h.payload_len as nat);
}

/// That a part of some bytes which is a number writes that number there.
proof fn lemma_number_at(bytes: Seq<u8>, at: int, n: nat, x: nat)
    requires
        0 <= at <= at + n <= bytes.len(),
        bytes.subrange(at, at + n) == le_bytes(x, n),
    ensures
        has_number(bytes, at, n as int, x as int),
{
    law_bytes_write_their_number(x, n);
    assert forall|i: int| 0 <= i < n implies #[trigger] bytes[at + i] as int == (x as int / pow(
        256,
        i as nat,
    )) % 256 by {
        assert(bytes.subrange(at, at + n)[i] == bytes[at + i]);
        assert(le_bytes(x, n)[0 + i] as int == (x as int / pow(256, i as nat)) % 256);
    }
}

/// Bytes are a header exactly if there are forty of them, they begin with the four that every
/// header begins with, and the version that follows is one. Another version is said to be another.
pub proof fn law_only_headers_are_decoded(s: Seq<u8>)
    ensures
        s.len() != 40 ==> header_of(s) == Err::<DataHeader, ErrorView>(
            ErrorView::InvalidPacketHeader,
        ),
        s.len() == 40 && s.take(4) != seq![0x53u8, 0x46, 0x50, 0x49] ==> header_of(s) == Err::<
            DataHeader,
            ErrorView,
        >(ErrorView::InvalidPacketHeader),
        s.len() == 40 && s.take(4) == seq![0x53u8, 0x46, 0x50, 0x49] ==> {
            let version = s[4] + 256 * s[5];
            &&& version == 1 <==> header_of(s) is Ok
            &&& version != 1 ==> header_of(s) == Err::<DataHeader, ErrorView>(
                ErrorView::ProtocolVersionMismatch { expected: 1, got: version as u16 },
            )
        },
{
    if s.len() == 40 {
        lemma_byte_ranges();
        let a = s.subrange(0, 4);
        let b = s.subrange(4, 6);
        lemma_le_value(a);
        lemma_le_value(b);
        reveal_with_fuel(le_value, 5);
        assert(b.drop_first().drop_first() =~= Seq::empty());
        assert(le_value(b) == s[4] + 256 * s[5]);
        assert(a =~= s.take(4));
        assert(a.drop_first().drop_first().drop_first().drop_first() =~= Seq::empty());
        assert(le_value(a) == s[0] + 256 * (s[1] + 256 * (s[2] + 256 * s[3])));
        let magic = seq![0x53u8, 0x46, 0x50, 0x49];
        if le_value(a) == DATA_MAGIC {
            assert(a =~= magic);
        }
        if a == magic {
            assert(s[0] == a[0] && s[1] == a[1] && s[2] == a[2] && s[3] == a[3]);
        }
    }
}

/// Decoding gives back what was encoded: for every header of this protocol and version.
pub proof fn law_header_decodes_to_what_was_encoded(h: DataHeader)
    requires
        h.magic == DATA_MAGIC,
        h.version == PROTOCOL_VERSION,
    ensures
        header_of(header_bytes(h)) == Ok::<DataHeader, ErrorView>(h),
{
    lemma_header_fields(h);
}

/// Bytes that decode to a header are the bytes that this header encodes to.
pub proof fn law_decoded_header_encodes_back(s: Seq<u8>)
    requires
        header_of(s) is Ok,
    ensures
        header_bytes(header_of(s)->Ok_0) == s,
{
    lemma_byte_ranges();
    lemma_le_value(s.subrange(0, 4));
    lemma_le_value(s.subrange(4, 6));
    lemma_le_value(s.subrange(6, 8));
    lemma_le_value(s.subrange(8, 16));
    lemma_le_value(s.subrange(16, 20));
    lemma_le_value(s.subrange(20, 28));
    lemma_le_value(s.subrange(28, 36));
    lemma_le_value(s.subrange(36, 40));
    let h = header_of(s)->Ok_0;
    lemma_header_parts(h);
    let b = header_bytes(h);
    assert forall|i: int| 0 <= i < 40 implies b[i] == s[i] by {
        if i < 4 {
            assert(b[i] == b.subrange(0, 4)[i]);
        } else if i < 6 {
            assert(b[i] == b.subrange(4, 6)[i - 4]);
        } else if i < 8 {
            assert(b[i] == b.subrange(6, 8)[i - 6]);
        } else if i < 16 {
            assert(b[i] == b.subrange(8, 16)[i - 8]);
        } else if i < 20 {
            assert(b[i] == b.subrange(16, 20)[i - 16]);
        } else if i < 28 {
            assert(b[i] == b.subrange(20, 28)[i - 20]);
        } else if i < 36 {
            assert(b[i] == b.subrange(28, 36)[i - 28]);
        } else {
            assert(b[i] == b.subrange(36, 40)[i - 36]);
        }
    }
    assert(b =~= s);
}

impl DataHeader {
    /// A header of this protocol and version, without flags.
    pub fn new(
        session_id: u64,
        stream_id: u32,
        seq: u64,
        send_mono_ns: u64,
        payload_len: u32,
    ) -> (r: DataHeader)
        ensures
            r == (DataHeader {
                magic: DATA_MAGIC,
                version: PROTOCOL_VERSION,
                flags: 0,
                session_id,
                stream_id,
                seq,
                send_mono_ns,
                payload_len,
            }),
    {
        DataHeader {
            magic: DATA_MAGIC,
            version: PROTOCOL_VERSION,
            flags: 0,
            session_id,
            stream_id,
            seq,
            send_mono_ns,
            payload_len,
        }
    }

    /// The bytes of the header.
    pub fn encode(self) -> (r: [u8; DATA_HEADER_SIZE])
        ensures
            r@ == header_bytes(self),
    {
        let mut b: Vec<u8> = Vec::with_capacity(DATA_HEADER_SIZE);
        push_le(&mut b, self.magic as u64, 4);
        push_le(&mut b, self.version as u64, 2);
        push_le(&mut b, self.flags as u64, 2);
        push_le(&mut b, self.session_id, 8);
        push_le(&mut b, self.stream_id as u64, 4);
        push_le(&mut b, self.seq, 8);
        push_le(&mut b, self.send_mono_ns, 8);
        push_le(&mut b, self.payload_len as u64, 4);
        proof {
            lemma_header_parts(self);
            assert(b@ =~= header_bytes(self));
        }
        let mut out: [u8; DATA_HEADER_SIZE] = [0u8; DATA_HEADER_SIZE];
        let mut i: usize = 0;
        while i < DATA_HEADER_SIZE
            invariant
                i <= DATA_HEADER_SIZE,
                b@.len() == DATA_HEADER_SIZE,
                forall|k: int| 0 <= k < i ==> out@[k] == b@[k],
            decreases DATA_HEADER_SIZE - i,
        {
            out[i] = b[i];
            i = i + 1;
        }
        assert(out@ =~= b@);
        out
    }

    /// The header that exactly forty bytes write.
    pub fn decode(buf: &[u8]) -> (r: Result<DataHeader, IpfuschError>)
        ensures
            match r {
                Ok(h) => header_of(buf@) == Ok::<DataHeader, ErrorView>(h),
                Err(e) => header_of(buf@) == Err::<DataHeader, ErrorView>(e@),
            },
    {
        if buf.len() != DATA_HEADER_SIZE {
            return Err(IpfuschError::InvalidPacketHeader);
        }
        proof {
            lemma_byte_ranges();
            lemma_le_value(buf@.subrange(0, 4));
            lemma_le_value(buf@.subrange(4, 6));
            lemma_le_value(buf@.subrange(6, 8));
            lemma_le_value(buf@.subrange(16, 20));
            lemma_le_value(buf@.subrange(36, 40));
        }
        let magic: u32 = read_le(vstd::slice::slice_subrange(buf, 0, 4)) as u32;
        let version: u16 = read_le(vstd::slice::slice_subrange(buf, 4, 6)) as u16;
        if magic != DATA_MAGIC {
            return Err(IpfuschError::InvalidPacketHeader);
        }
        if version != PROTOCOL_VERSION {
            return Err(
                IpfuschError::ProtocolVersionMismatch { expected: PROTOCOL_VERSION, got: version },
            );
        }
        Ok(
            DataHeader {
                magic,
                version,
                flags: read_le(vstd::slice::slice_subrange(buf, 6, 8)) as u16,
                session_id: read_le(vstd::slice::slice_subrange(buf, 8, 16)),
                stream_id: read_le(vstd::slice::slice_subrange(buf, 16, 20)) as u32,
                seq: read_le(vstd::slice::slice_subrange(buf, 20, 28)),
                send_mono_ns: read_le(vstd::slice::slice_subrange(buf, 28, 36)),
                payload_len: read_le(vstd::slice::slice_subrange(buf, 36, 40)) as u32,
            },
        )
    }
}

/// The SHA-256 digest of some bytes.
pub uninterp spec fn sha256(data: Seq<u8>) -> Seq<u8>;

/// Calls `sha2`'s `Sha256` on the bytes. The contract claims only that the digest depends on
/// nothing but them.
#[verifier::external_body]
fn sha256_digest(data: &[u8]) -> (r: [u8; 32])
    ensures
        r@ == sha256(data@),
{
    let mut hasher = Sha256::new();
    hasher.update(data);
    hasher.finalize().into()
}

/// The digest that stands for a token on the wire.
pub open spec fn token_digest(token: Seq<char>) -> Seq<u8> {
    sha256(encode_utf8(token))
}

/// The digest that stands for a token on the wire: SHA-256 of its UTF-8 bytes.
pub fn hash_token(token: &str) -> (r: [u8; 32])
    ensures
        r@ == token_digest(token@),
{
    sha256_digest(token.as_bytes())
}

/// Whether two digests are equal. Every byte is looked at, wherever they differ.
pub fn same_digest(a: &[u8; 32], b: &[u8; 32]) -> (r: bool)
    ensures
        r == (a@ == b@),
{
    let mut diff: u8 = 0;
    let mut i: usize = 0;
    while i < 32
        invariant
            i <= 32,
            diff == 0 <==> (forall|k: int| 0 <= k < i ==> a@[k] == b@[k]),
        decreases 32 - i,
    {
        let x: u8 = a[i];
        let y: u8 = b[i];
        assert(((diff | (x ^ y)) == 0u8) == (diff == 0u8 && x == y)) by (bit_vector);
        diff = diff | (x ^ y);
        i = i + 1;
    }
    assert(diff == 0 ==> a@ =~= b@);
    diff == 0
}

/// Whether a digest admits a client to a server that expects a token, or none.
pub open spec fn admits(expected: Option<Seq<char>>, got: Option<Seq<u8>>) -> bool {
    match expected {
        None => true,
        Some(token) => got == Some(token_digest(token)),
    }
}

/// A server that expects no token admits everybody. One that does admits those who have its digest:
/// that of the bytes of the token in UTF-8.
pub proof fn law_digest_of_the_token_admits(token: Seq<char>, got: Option<Seq<u8>>)
    ensures
        admits(None, got),
        admits(Some(token), got) <==> (got matches Some(digest) && digest == sha256(
            encode_utf8(token),
        )),
{
}

/// An optional text as a sequence of characters.
pub open spec fn opt_str(o: Option<&str>) -> Option<Seq<char>> {
    match o {
        None => None,
        Some(s) => Some(s@),
    }
}

/// Whether a digest admits a client: always where no token is expected, else only the digest of
/// that token.
pub fn token_matches(expected_token: Option<&str>, got_hash: Option<[u8; 32]>) -> (r: bool)
    ensures
        r == admits(opt_str(expected_token), opt_digest(got_hash)),
{
    match expected_token {
        None => true,
        Some(token) => match got_hash {
            None => false,
            Some(got) => same_digest(&hash_token(token), &got),
        },
    }
}

/// A control message as the tuple that is written for it: the number of its variant, and its
/// fields in order.
pub open spec fn control_fields(m: ControlView) -> Seq<Field> {
    match m {
        ControlView::Hello { version, client_name, token_hash, capabilities } => hello_fields(
            0,
            version,
            client_name,
            token_hash,
            capabilities,
        ),
        ControlView::StartSession {
            session_id,
            transport,
            streams,
            duration_ms,
            payload_bytes,
            interval_ms,
            rate_bps,
        } => start_fields(
            1,
            session_id,
            transport,
            streams,
            duration_ms,
            payload_bytes as u64,
            interval_ms,
            rate_bps,
        ),
        ControlView::Ack { session_id, accepted, reason } => ack_fields(
            2,
            session_id,
            accepted,
            reason,
        ),
        ControlView::StopSession { session_id } => stop_fields(3, session_id),
    }
}

/// The body of a control message.
pub open spec fn control_bytes(m: ControlView) -> Seq<u8> {
    tuple_bytes(control_fields(m))
}

/// What may be missing has a byte in front that says whether it is there.
pub open spec fn flagged(value: Option<Seq<u8>>) -> Seq<u8> {
    match value {
        None => seq![0u8],
        Some(bytes) => seq![1u8] + bytes,
    }
}

/// The body of a control message is the number of its variant and its fields, in their order:
/// numbers with the least significant byte first, texts and lists with their lengths in front.
pub proof fn law_fields_of_messages_are_in_order(m: ControlView)
    ensures
        match m {
            ControlView::Hello { version, client_name, token_hash, capabilities } => {
                control_bytes(m) == le_bytes(0, 4) + le_bytes(version as nat, 2) + text_bytes(
                    client_name,
                ) + flagged(token_hash) + (le_bytes(capabilities.len(), 8) + joined_bytes(
                    capabilities,
                ))
            },
            ControlView::StartSession {
                session_id,
                transport,
                streams,
                duration_ms,
                payload_bytes,
                interval_ms,
                rate_bps,
            } => control_bytes(m) == le_bytes(1, 4) + le_bytes(session_id as nat, 8) + text_bytes(
                transport,
            ) + le_bytes(streams as nat, 2) + le_bytes(duration_ms as nat, 8) + le_bytes(
                payload_bytes as nat,
                8,
            ) + le_bytes(interval_ms as nat, 8) + flagged(
                match rate_bps {
                    Some(v) => Some(le_bytes(v as nat, 8)),
                    None => None,
                },
            ),
            ControlView::Ack { session_id, accepted, reason } => control_bytes(m) == le_bytes(2, 4)
                + le_bytes(session_id as nat, 8) + seq![if accepted { 1u8 } else { 0u8 }] + flagged(
                match reason {
                    Some(text) => Some(text_bytes(text)),
                    None => None,
                },
            ),
            ControlView::StopSession { session_id } => control_bytes(m) == le_bytes(3, 4)
                + le_bytes(session_id as nat, 8),
        },
{
    let f = control_fields(m);
    lemma_in_order(f, f.len() as int);
    assert(f.skip(f.len() as int) =~= Seq::empty());
    assert(bytes_up_to(f, f.len() as int) + tuple_bytes(Seq::empty()) =~= bytes_up_to(
        f,
        f.len() as int,
    ));
    reveal_with_fuel(bytes_up_to, 9);
}

/// The first values of a tuple as bytes, one after the other.
spec fn bytes_up_to(fields: Seq<Field>, n: int) -> Seq<u8>
    decreases n,
{
    if n <= 1 {
        field_bytes(fields[0])
    } else {
        bytes_up_to(fields, n - 1) + field_bytes(fields[n - 1])
    }
}

/// That the values of a tuple are written in their order.
proof fn lemma_in_order(fields: Seq<Field>, n: int)
    requires
        1 <= n <= fields.len(),
    ensures
        tuple_bytes(fields) == bytes_up_to(fields, n) + tuple_bytes(fields.skip(n)),
    decreases n,
{
    if n == 1 {
        assert(fields.skip(1) =~= fields.drop_first());
    } else {
        lemma_in_order(fields, n - 1);
        let rest = fields.skip(n - 1);
        assert(rest.drop_first() =~= fields.skip(n));
        assert(bytes_up_to(fields, n - 1) + (field_bytes(rest[0]) + tuple_bytes(fields.skip(n)))
            =~= bytes_up_to(fields, n) + tuple_bytes(fields.skip(n)));
    }
}

/// What the body of a control message turns out to be.
pub enum ControlRead {
    Message(ControlView),
    /// It does not begin with a message, and this is said of it.
    Unreadable(Seq<char>),
    /// It is of a variant that there is not.
    UnknownVariant(u32),
    /// It asks for a payload that no address on this machine can count.
    PayloadTooLong(u64),
}

/// What the start of a session turns out to be, from the values in it.
pub open spec fn start_read(
    session_id: u64,
    transport: Seq<char>,
    streams: u16,
    duration_ms: u64,
    payload_bytes: u64,
    interval_ms: u64,
    rate_bps: Option<u64>,
) -> ControlRead {
    if payload_bytes > usize::MAX {
        ControlRead::PayloadTooLong(payload_bytes)
    } else {
        ControlRead::Message(
            ControlView::StartSession {
                session_id,
                transport,
                streams,
                duration_ms,
                payload_bytes: payload_bytes as usize,
                interval_ms,
                rate_bps,
            },
        )
    }
}

/// What the tuple of a variant turns out to be.
pub open spec fn fields_read(tag: u32, f: Seq<Field>) -> ControlRead {
    if tag == 0 {
        ControlRead::Message(
            ControlView::Hello {
                version: f[1]->U16_0,
                client_name: f[2]->Text_0,
                token_hash: f[3]->OptDigest_0,
                capabilities: f[4]->Texts_0,
            },
        )
    } else if tag == 1 {
        start_read(
            f[1]->U64_0,
            f[2]->Text_0,
            f[3]->U16_0,
            f[4]->U64_0,
            f[5]->U64_0,
            f[6]->U64_0,
            f[7]->OptU64_0,
        )
    } else if tag == 2 {
        ControlRead::Message(
            ControlView::Ack {
                session_id: f[1]->U64_0,
                accepted: f[2]->Bool_0,
                reason: f[3]->OptText_0,
            },
        )
    } else {
        ControlRead::Message(ControlView::StopSession { session_id: f[1]->U64_0 })
    }
}

/// The types in the tuple of a variant.
pub open spec fn variant_kinds(tag: u32) -> Seq<Kind> {
    if tag == 0 {
        hello_kinds()
    } else if tag == 1 {
        start_kinds()
    } else if tag == 2 {
        ack_kinds()
    } else {
        stop_kinds()
    }
}

/// What is said of a body that has the number of a variant and not the tuple.
pub open spec fn no_variant_text(tag: u32, body: Seq<u8>) -> Seq<char> {
    if tag == 0 {
        no_hello_text(body, usize::MAX as nat)
    } else if tag == 1 {
        no_start_text(body, usize::MAX as nat)
    } else if tag == 2 {
        no_ack_text(body, usize::MAX as nat)
    } else {
        no_stop_text(body, usize::MAX as nat)
    }
}

/// What the body of a control message turns out to be: its variant is read first, and decides
/// what is read then.
pub open spec fn control_read(body: Seq<u8>) -> ControlRead {
    match tuple_in(seq![Kind::U32], body) {
        None => ControlRead::Unreadable(no_tag_text(body, usize::MAX as nat)),
        Some(first) => {
            let tag = first[0]->U32_0;
            if tag > 3 {
                ControlRead::UnknownVariant(tag)
            } else {
                match tuple_in(variant_kinds(tag), body) {
                    None => ControlRead::Unreadable(no_variant_text(tag, body)),
                    Some(f) => fields_read(tag, f),
                }
            }
        },
    }
}

/// The message for a variant that there is not.
pub open spec fn unknown_variant_text(tag: u32) -> Seq<char> {
    "invalid value: integer `"@ + decimal(tag as nat) + "`, expected variant index 0 <= i < 4"@
}

/// The message for a payload that cannot be counted.
pub open spec fn payload_too_long_text(n: u64) -> Seq<char> {
    "invalid value: integer `"@ + decimal(n as nat) + "`, expected usize"@
}

/// That a result says what a body turned out to be.
pub open spec fn says(read: ControlRead, r: Result<ControlMessage, IpfuschError>) -> bool {
    match read {
        ControlRead::Message(m) => r matches Ok(x) && x@ == m,
        ControlRead::Unreadable(m) => r matches Err(e) && e@ == ErrorView::Serialization(m),
        ControlRead::UnknownVariant(tag) => r matches Err(e) && e@ == ErrorView::Serialization(
            unknown_variant_text(tag),
        ),
        ControlRead::PayloadTooLong(n) => r matches Err(e) && e@ == ErrorView::Serialization(
            payload_too_long_text(n),
        ),
    }
}

/// The error for a variant that there is not.
pub fn unknown_variant(tag: u32) -> (r: IpfuschError)
    ensures
        r@ == ErrorView::Serialization(unknown_variant_text(tag)),
{
    let mut m: String = "invalid value: integer `".to_string();
    push_decimal(&mut m, tag as u64);
    m.append("`, expected variant index 0 <= i < 4");
    IpfuschError::Serialization(m)
}

/// The start of a session from the values in its tuple, if its payload can be counted.
pub fn start_message(
    session_id: u64,
    transport: String,
    streams: u16,
    duration_ms: u64,
    payload_bytes: u64,
    interval_ms: u64,
    rate_bps: Option<u64>,
) -> (r: Result<ControlMessage, IpfuschError>)
    ensures
        says(
            start_read(
                session_id,
                transport@,
                streams,
                duration_ms,
                payload_bytes,
                interval_ms,
                rate_bps,
            ),
            r,
        ),
{
    if payload_bytes > usize::MAX as u64 {
        let mut m: String = "invalid value: integer `".to_string();
        push_decimal(&mut m, payload_bytes);
        m.append("`, expected usize");
        return Err(IpfuschError::Serialization(m));
    }
    Ok(
        ControlMessage::StartSession {
            session_id,
            transport,
            streams,
            duration_ms,
            payload_bytes: payload_bytes as usize,
            interval_ms,
            rate_bps,
        },
    )
}

/// That a message can be written: its lengths fit, and a digest has its 32 bytes.
pub open spec fn writable_message(m: ControlView) -> bool {
    forall|i: int| 0 <= i < control_fields(m).len() ==> writable(#[trigger] control_fields(m)[i])
}

/// The body of a control message reads as that message, whatever follows it.
pub proof fn law_control_message_reads_back(m: ControlView, rest: Seq<u8>)
    requires
        writable_message(m),
    ensures
        control_read(control_bytes(m) + rest) == ControlRead::Message(m),
{
    let f = control_fields(m);
    let tag = f[0]->U32_0;
    law_tuple_reads_back(f, rest);
    assert(f[0].kind() == Kind::U32);
    assert(kinds(f) =~= variant_kinds(tag));
    assert(seq![f[0]][0] == f[0]);
    assert(fields_read(tag, f) == ControlRead::Message(m));
}

/// The body of a control message.
pub fn encode_control(msg: &ControlMessage) -> (r: Result<Vec<u8>, IpfuschError>)
    ensures
        r matches Ok(b) && b@ == control_bytes(msg@) && control_read(b@) == ControlRead::Message(
            msg@,
        ),
{
    let written: Result<Vec<u8>, String> = match msg {
        ControlMessage::Hello { version, client_name, token_hash, capabilities } => write_hello(
            0,
            *version,
            client_name,
            token_hash,
            capabilities,
        ),
        ControlMessage::StartSession {
            session_id,
            transport,
            streams,
            duration_ms,
            payload_bytes,
            interval_ms,
            rate_bps,
        } => write_start(
            1,
            *session_id,
            transport,
            *streams,
            *duration_ms,
            *payload_bytes as u64,
            *interval_ms,
            *rate_bps,
        ),
        ControlMessage::Ack { session_id, accepted, reason } => write_ack(
            2,
            *session_id,
            *accepted,
            reason,
        ),
        ControlMessage::StopSession { session_id } => write_stop(3, *session_id),
    };
    match written {
        Ok(b) => {
            proof {
                law_control_message_reads_back(msg@, Seq::empty());
                assert(control_bytes(msg@) + Seq::empty() =~= b@);
            }
            Ok(b)
        },
        Err(m) => Err(IpfuschError::Serialization(m)),
    }
}

/// The control message in a body.
pub fn decode_control(body: &[u8]) -> (r: Result<ControlMessage, IpfuschError>)
    ensures
        says(control_read(body@), r),
{
    let tag: u32 = match read_tag(body) {
        Ok(tag) => tag,
        Err(m) => return Err(IpfuschError::Serialization(m)),
    };
    proof {
        law_tuple_is_found(seq![Kind::U32], body@, seq![Field::U32(tag)]);
        assert(seq![Field::U32(tag)][0] == Field::U32(tag));
    }
    if tag == 0 {
        match read_hello(body) {
            Ok((first, version, client_name, token_hash, capabilities)) => {
                proof {
                    law_tuple_is_found(
                        hello_kinds(),
                        body@,
                        hello_fields(
                            first,
                            version,
                            client_name@,
                            opt_digest(token_hash),
                            texts(capabilities@),
                        ),
                    );
                }
                Ok(ControlMessage::Hello { version, client_name, token_hash, capabilities })
            },
            Err(m) => Err(IpfuschError::Serialization(m)),
        }
    } else if tag == 1 {
        match read_start(body) {
            Ok(
                (
                    first,
                    session_id,
                    transport,
                    streams,
                    duration_ms,
                    payload,
                    interval_ms,
                    rate_bps,
                ),
            ) => {
                proof {
                    law_tuple_is_found(
                        start_kinds(),
                        body@,
                        start_fields(
                            first,
                            session_id,
                            transport@,
                            streams,
                            duration_ms,
                            payload,
                            interval_ms,
                            rate_bps,
                        ),
                    );
                }
                start_message(
                    session_id,
                    transport,
                    streams,
                    duration_ms,
                    payload,
                    interval_ms,
                    rate_bps,
                )
            },
            Err(m) => Err(IpfuschError::Serialization(m)),
        }
    } else if tag == 2 {
        match read_ack(body) {
            Ok((first, session_id, accepted, reason)) => {
                proof {
                    law_tuple_is_found(
                        ack_kinds(),
                        body@,
                        ack_fields(first, session_id, accepted, opt_text(reason)),
                    );
                }
                Ok(ControlMessage::Ack { session_id, accepted, reason })
            },
            Err(m) => Err(IpfuschError::Serialization(m)),
        }
    } else if tag == 3 {
        match read_stop(body) {
            Ok((first, session_id)) => {
                proof {
                    law_tuple_is_found(stop_kinds(), body@, stop_fields(first, session_id));
                }
                Ok(ControlMessage::StopSession { session_id })
            },
            Err(m) => Err(IpfuschError::Serialization(m)),
        }
    } else {
        Err(unknown_variant(tag))
    }
}

/// A body with its length in front.
pub open spec fn frame_bytes(body: Seq<u8>) -> Seq<u8> {
    le_bytes(body.len(), 4) + body
}

/// The body of the frame at the start of some bytes, if it is there in full.
pub open spec fn frame_body(bytes: Seq<u8>) -> Option<Seq<u8>> {
    let n = le_value(bytes.take(4));
    if bytes.len() < 4 || bytes.len() - 4 < n {
        None
    } else {
        Some(bytes.subrange(4, 4 + n as int))
    }
}

/// The body of a frame is found again, whatever follows the frame.
pub proof fn law_frame_body_is_found(body: Seq<u8>, rest: Seq<u8>)
    requires
        body.len() <= u32::MAX,
    ensures
        frame_body(frame_bytes(body) + rest) == Some(body),
{
    lemma_byte_ranges();
    lemma_le_bytes(body.len(), 4);
    let bytes = frame_bytes(body) + rest;
    assert(bytes.take(4) =~= le_bytes(body.len(), 4));
    assert(bytes.subrange(4, 4 + body.len() as int) =~= body);
}

/// A frame is the length of its body in four bytes, the least significant first, and then the body.
pub proof fn law_frame_has_its_length_in_front(body: Seq<u8>)
    ensures
        frame_bytes(body).len() == 4 + body.len(),
        has_number(frame_bytes(body), 0, 4, body.len() as int),
        frame_bytes(body).skip(4) == body,
{
    lemma_le_bytes(body.len(), 4);
    assert(frame_bytes(body).subrange(0, 4) =~= le_bytes(body.len(), 4));
    lemma_number_at(frame_bytes(body), 0, 4, body.len());
    assert(frame_bytes(body).skip(4) =~= body);
}

/// A part of a frame that is not the whole of it holds no body.
pub proof fn law_part_of_a_frame_holds_nothing(body: Seq<u8>, n: int)
    requires
        body.len() <= u32::MAX,
        0 <= n < frame_bytes(body).len(),
    ensures
        frame_body(frame_bytes(body).take(n)) is None,
{
    lemma_byte_ranges();
    lemma_le_bytes(body.len(), 4);
    if n >= 4 {
        assert(frame_bytes(body).take(n).take(4) =~= le_bytes(body.len(), 4));
    }
}

/// Puts the length of a body in front of it.
pub fn frame_control(body: &[u8]) -> (r: Result<Vec<u8>, IpfuschError>)
    ensures
        match r {
            Ok(f) => body@.len() <= u32::MAX && f@ == frame_bytes(body@),
            Err(e) => body@.len() > u32::MAX && e@ == ErrorView::Serialization(
                "control frame too large"@,
            ),
        },
{
    if body.len() as u64 > u32::MAX as u64 {
        return Err(IpfuschError::Serialization("control frame too large".to_string()));
    }
    let mut out: Vec<u8> = Vec::new();
    push_le(&mut out, body.len() as u64, 4);
    out.extend_from_slice(body);
    assert(out@ =~= frame_bytes(body@));
    Ok(out)
}

/// The length of a body, from the four bytes in front of it.
pub fn control_body_len(prefix: &[u8]) -> (r: u32)
    requires
        prefix@.len() == 4,
    ensures
        r == le_value(prefix@),
{
    proof {
        lemma_byte_ranges();
        lemma_le_value(prefix@);
    }
    read_le(prefix) as u32
}

/// Appends the frame of a control message to what was written before. What a later read of the
/// frame gives back is the message.
pub fn write_control_frame(writer: &mut Vec<u8>, msg: &ControlMessage) -> (r: Result<
    (),
    IpfuschError,
>)
    ensures
        match r {
            Ok(_) => {
                &&& control_bytes(msg@).len() <= u32::MAX
                &&& final(writer)@ == old(writer)@ + frame_bytes(control_bytes(msg@))
                &&& frame_body(final(writer)@.skip(old(writer)@.len() as int)) == Some(
                    control_bytes(msg@),
                )
                &&& control_read(control_bytes(msg@)) == ControlRead::Message(msg@)
            },
            Err(e) => {
                &&& control_bytes(msg@).len() > u32::MAX
                &&& final(writer)@ == old(writer)@
                &&& e@ == ErrorView::Serialization("control frame too large"@)
            },
        },
{
    let body: Vec<u8> = match encode_control(msg) {
        Ok(b) => b,
        Err(e) => return Err(e),
    };
    match frame_control(&body) {
        Ok(f) => {
            writer.extend_from_slice(&f);
            proof {
                law_frame_body_is_found(body@, Seq::empty());
                assert(writer@.skip(old(writer)@.len() as int) =~= frame_bytes(body@)
                    + Seq::empty());
            }
            Ok(())
        },
        Err(e) => Err(e),
    }
}

/// That a result says what the frame at the start of some bytes holds and how long it is, or why
/// there is no message to be had.
pub open spec fn says_of_frame(
    bytes: Seq<u8>,
    r: Result<(ControlMessage, usize), IpfuschError>,
) -> bool {
    match frame_body(bytes) {
        None => r matches Err(e) && e@ == ErrorView::Io("failed to fill whole buffer"@),
        Some(body) => match r {
            Ok((msg, used)) => says(control_read(body), Ok(msg)) && used == 4 + body.len(),
            Err(e) => says(control_read(body), Err(e)),
        },
    }
}

/// Reads the control message of the frame at the start of some bytes, and gives how many of the
/// bytes are the frame: what follows them is left for the next read.
pub fn take_control_frame(reader: &[u8]) -> (r: Result<(ControlMessage, usize), IpfuschError>)
    ensures
        says_of_frame(reader@, r),
{
    if reader.len() < 4 {
        return Err(IpfuschError::Io("failed to fill whole buffer".to_string()));
    }
    let prefix: &[u8] = vstd::slice::slice_subrange(reader, 0, 4);
    assert(prefix@ =~= reader@.take(4));
    let n: u32 = control_body_len(prefix);
    if ((reader.len() - 4) as u64) < n as u64 {
        return Err(IpfuschError::Io("failed to fill whole buffer".to_string()));
    }
    let used: usize = 4 + n as usize;
    match decode_control(vstd::slice::slice_subrange(reader, 4, used)) {
        Ok(msg) => Ok((msg, used)),
        Err(e) => Err(e),
    }
}

/// Reads the control message of the frame at the start of some bytes.
pub fn read_control_frame(reader: &[u8]) -> (r: Result<ControlMessage, IpfuschError>)
    ensures
        match frame_body(reader@) {
            None => r matches Err(e) && e@ == ErrorView::Io("failed to fill whole buffer"@),
            Some(body) => says(control_read(body), r),
        },
{
    match take_control_frame(reader) {
        Ok((msg, _)) => Ok(msg),
        Err(e) => Err(e),
    }
}

/// What every control datagram begins with: `IPFUSCH_CTRL` in ASCII.
pub open spec fn control_prefix() -> Seq<u8> {
    seq![0x49, 0x50, 0x46, 0x55, 0x53, 0x43, 0x48, 0x5f, 0x43, 0x54, 0x52, 0x4c]
}

/// Whether a datagram begins as control datagrams do.
pub open spec fn is_control_datagram(frame: Seq<u8>) -> bool {
    frame.len() >= 12 && frame.take(12) == control_prefix()
}

/// The control message in a datagram, if there is one.
pub open spec fn datagram_message(frame: Seq<u8>) -> Option<ControlView> {
    if !is_control_datagram(frame) {
        None
    } else {
        match control_read(frame.skip(12)) {
            ControlRead::Message(m) => Some(m),
            _ => None,
        }
    }
}

/// What every control datagram begins with.
fn prefix_bytes() -> (r: Vec<u8>)
    ensures
        r@ == control_prefix(),
{
    vec![0x49, 0x50, 0x46, 0x55, 0x53, 0x43, 0x48, 0x5f, 0x43, 0x54, 0x52, 0x4c]
}

/// What is read as a message is there: the body begins with its bytes.
pub proof fn law_read_message_is_there(body: Seq<u8>)
    requires
        control_read(body) is Message,
    ensures
        ({
            let m = control_read(body)->Message_0;
            &&& control_bytes(m).len() <= body.len()
            &&& body.take(control_bytes(m).len() as int) == control_bytes(m)
        }),
{
    let m = control_read(body)->Message_0;
    let first = tuple_in(seq![Kind::U32], body)->0;
    let tag = first[0]->U32_0;
    let want = variant_kinds(tag);
    let f = choose|f: Seq<Field>| begins_with_tuple(want, body, f);
    assert(begins_with_tuple(want, body, f));
    assert(kinds(f).len() == f.len());
    let one = seq![f[0]];
    assert(kinds(f)[0] == f[0].kind());
    lemma_in_order(f, 1);
    lemma_in_order(one, 1);
    assert(one.skip(1) =~= Seq::empty());
    assert(tuple_bytes(one) =~= field_bytes(f[0]));
    let n = field_bytes(f[0]).len() as int;
    assert(body.take(tuple_bytes(f).len() as int).take(n) =~= body.take(n));
    assert(tuple_bytes(f).take(n) =~= field_bytes(f[0]));
    assert(kinds(one) =~= seq![Kind::U32]);
    assert(begins_with_tuple(seq![Kind::U32], body, one));
    law_tuple_is_found(seq![Kind::U32], body, one);
    assert(f[0] == Field::U32(tag));
    assert forall|i: int| 0 <= i < f.len() implies (#[trigger] f[i]).kind() == want[i] by {
        assert(kinds(f)[i] == f[i].kind());
    }
    assert(f =~= control_fields(m));
}

/// What is read as a control datagram begins with the letters `IPFUSCH_CTRL`, and the message that
/// is read is what follows them.
pub proof fn law_only_marked_datagrams_are_read(frame: Seq<u8>, i: int)
    requires
        datagram_message(frame) is Some,
        0 <= i < 12,
    ensures
        frame.len() >= 12,
        frame[i] as int == "IPFUSCH_CTRL"@[i] as int,
        control_read(frame.skip(12)) == ControlRead::Message(datagram_message(frame)->0),
{
    reveal_strlit("IPFUSCH_CTRL");
    assert(frame.take(12)[i] == frame[i]);
}

/// The datagram of a control message.
pub open spec fn datagram_bytes(m: ControlView) -> Seq<u8> {
    control_prefix() + control_bytes(m)
}

/// A control datagram begins with the letters `IPFUSCH_CTRL`, and its message follows them.
pub proof fn law_datagram_begins_with_its_mark(m: ControlView, i: int)
    ensures
        datagram_bytes(m).len() == 12 + control_bytes(m).len(),
        datagram_bytes(m).skip(12) == control_bytes(m),
        0 <= i < 12 ==> datagram_bytes(m)[i] as int == "IPFUSCH_CTRL"@[i] as int,
{
    reveal_strlit("IPFUSCH_CTRL");
    assert(datagram_bytes(m).skip(12) =~= control_bytes(m));
}

/// The datagram of a control message reads as that message.
pub proof fn law_datagram_reads_back(m: ControlView)
    requires
        writable_message(m),
    ensures
        datagram_message(datagram_bytes(m)) == Some(m),
{
    let d = datagram_bytes(m);
    law_control_message_reads_back(m, Seq::empty());
    assert(d.take(12) =~= control_prefix());
    assert(d.skip(12) =~= control_bytes(m) + Seq::empty());
}

/// The frame of a control message reads as that message, whatever follows it, and what follows it
/// is what lies behind the body and the four bytes of its length.
pub proof fn law_frame_reads_back(m: ControlView, rest: Seq<u8>)
    requires
        writable_message(m),
        control_bytes(m).len() <= u32::MAX,
    ensures
        ({
            let bytes = frame_bytes(control_bytes(m)) + rest;
            &&& frame_body(bytes) matches Some(body)
            &&& control_read(body) == ControlRead::Message(m)
            &&& 4 + body.len() == frame_bytes(control_bytes(m)).len()
            &&& bytes.skip(4 + body.len() as int) == rest
        }),
{
    lemma_le_bytes(control_bytes(m).len(), 4);
    assert((frame_bytes(control_bytes(m)) + rest).skip(4 + control_bytes(m).len() as int) =~= rest);
    law_frame_body_is_found(control_bytes(m), rest);
    law_control_message_reads_back(m, Seq::empty());
    assert(control_bytes(m) + Seq::empty() =~= control_bytes(m));
}

/// The datagram of a control message. What a later read of it gives back is the message.
pub fn encode_control_datagram(msg: &ControlMessage) -> (r: Result<Vec<u8>, IpfuschError>)
    ensures
        r matches Ok(d) && d@ == datagram_bytes(msg@) && datagram_message(d@) == Some(msg@),
{
    let body: Vec<u8> = match encode_control(msg) {
        Ok(b) => b,
        Err(e) => return Err(e),
    };
    let mut out: Vec<u8> = prefix_bytes();
    out.extend_from_slice(&body);
    proof {
        assert(out@ =~= control_prefix() + body@);
        assert(out@.take(12) =~= control_prefix());
        assert(out@.skip(12) =~= body@);
    }
    Ok(out)
}

/// Whether a datagram begins as control datagrams do.
fn starts_with_prefix(frame: &[u8]) -> (r: bool)
    ensures
        r == is_control_datagram(frame@),
{
    if frame.len() < 12 {
        return false;
    }
    let prefix: Vec<u8> = prefix_bytes();
    let mut i: usize = 0;
    while i < 12
        invariant
            i <= 12,
            frame@.len() >= 12,
            prefix@ == control_prefix(),
            forall|k: int| 0 <= k < i ==> frame@[k] == prefix@[k],
        decreases 12 - i,
    {
        if frame[i] != prefix[i] {
            assert(frame@.take(12)[i as int] != control_prefix()[i as int]);
            return false;
        }
        i = i + 1;
    }
    assert(frame@.take(12) =~= control_prefix());
    true
}

/// Reads the control message of a datagram; other datagrams give none.
pub fn decode_control_datagram(frame: &[u8]) -> (r: Option<ControlMessage>)
    ensures
        match r {
            Some(m) => datagram_message(frame@) == Some(m@),
            None => datagram_message(frame@) is None,
        },
{
    if !starts_with_prefix(frame) {
        return None;
    }
    let body: &[u8] = vstd::slice::slice_subrange(frame, 12, frame.len());
    assert(body@ =~= frame@.skip(12));
    match decode_control(body) {
        Ok(m) => Some(m),
        Err(_) => None,
    }
}

/// A datagram that begins with a packet header is no control datagram.
pub proof fn law_packets_are_not_control_datagrams(frame: Seq<u8>)
    requires
        frame.len() >= DATA_HEADER_SIZE,
        header_of(frame.take(DATA_HEADER_SIZE as int)) is Ok,
    ensures
        !is_control_datagram(frame),
        datagram_message(frame) is None,
{
    let s = frame.take(40);
    law_decoded_header_encodes_back(s);
    let h = header_of(s)->Ok_0;
    lemma_header_parts(h);
    assert(header_bytes(h).subrange(0, 4)[0] == s[0]);
    assert(le_bytes(DATA_MAGIC as nat, 4)[0] == (DATA_MAGIC % 256) as u8);
    if is_control_datagram(frame) {
        assert(frame.take(12)[0] == frame[0]);
        assert(control_prefix()[0] == 0x49u8);
    }
}

} // verus!
