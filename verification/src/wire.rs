//! The bodies of control messages as bytes, in the format of the `bincode` crate.
//!
//! A message is written as its variant's number and then its fields in order: the same bytes as
//! for a tuple of these values. The functions here hand such tuples to `bincode`.
use crate::bytes::{byte_range, le_bytes, lemma_byte_ranges, lemma_le_bytes};
use vstd::prelude::*;
use vstd::utf8::encode_utf8;

verus! {

/// One value of a tuple that `bincode` writes or reads.
pub enum Field {
    U16(u16),
    U32(u32),
    U64(u64),
    Bool(bool),
    Text(Seq<char>),
    Texts(Seq<Seq<char>>),
    OptText(Option<Seq<char>>),
    OptU64(Option<u64>),
    OptDigest(Option<Seq<u8>>),
}

/// The type of one value of such a tuple.
pub enum Kind {
    U16,
    U32,
    U64,
    Bool,
    Text,
    Texts,
    OptText,
    OptU64,
    OptDigest,
}

impl Field {
    /// The type of the value.
    pub open spec fn kind(self) -> Kind {
        match self {
            Field::U16(_) => Kind::U16,
            Field::U32(_) => Kind::U32,
            Field::U64(_) => Kind::U64,
            Field::Bool(_) => Kind::Bool,
            Field::Text(_) => Kind::Text,
            Field::Texts(_) => Kind::Texts,
            Field::OptText(_) => Kind::OptText,
            Field::OptU64(_) => Kind::OptU64,
            Field::OptDigest(_) => Kind::OptDigest,
        }
    }
}

/// The types of the values of a tuple.
pub open spec fn kinds(fields: Seq<Field>) -> Seq<Kind> {
    fields.map_values(|f: Field| f.kind())
}

/// A text as bytes: how many bytes its UTF-8 has, and these.
pub open spec fn text_bytes(text: Seq<char>) -> Seq<u8> {
    le_bytes(encode_utf8(text).len(), 8) + encode_utf8(text)
}

/// Texts as bytes, one after the other.
pub open spec fn joined_bytes(texts: Seq<Seq<char>>) -> Seq<u8>
    decreases texts.len(),
{
    if texts.len() == 0 {
        Seq::empty()
    } else {
        text_bytes(texts[0]) + joined_bytes(texts.drop_first())
    }
}

/// A value as bytes. Numbers and lengths have their lowest byte first, and what may be missing has
/// a byte in front that says whether it is there.
pub open spec fn field_bytes(field: Field) -> Seq<u8> {
    match field {
        Field::U16(v) => le_bytes(v as nat, 2),
        Field::U32(v) => le_bytes(v as nat, 4),
        Field::U64(v) => le_bytes(v as nat, 8),
        Field::Bool(v) => seq![if v { 1u8 } else { 0u8 }],
        Field::Text(text) => text_bytes(text),
        Field::Texts(texts) => le_bytes(texts.len(), 8) + joined_bytes(texts),
        Field::OptText(None) => seq![0u8],
        Field::OptText(Some(text)) => seq![1u8] + text_bytes(text),
        Field::OptU64(None) => seq![0u8],
        Field::OptU64(Some(v)) => seq![1u8] + le_bytes(v as nat, 8),
        Field::OptDigest(None) => seq![0u8],
        Field::OptDigest(Some(digest)) => seq![1u8] + digest,
    }
}

/// A tuple as bytes: its values one after the other.
pub open spec fn tuple_bytes(fields: Seq<Field>) -> Seq<u8>
    decreases fields.len(),
{
    if fields.len() == 0 {
        Seq::empty()
    } else {
        field_bytes(fields[0]) + tuple_bytes(fields.drop_first())
    }
}

/// That a length can be written: in eight bytes.
pub open spec fn fits(len: nat) -> bool {
    len < 0x1_0000_0000_0000_0000
}

/// That a value can be written: its lengths fit, and a digest has its 32 bytes.
pub open spec fn writable(field: Field) -> bool {
    match field {
        Field::Text(text) => fits(encode_utf8(text).len()),
        Field::Texts(texts) => fits(texts.len()) && forall|i: int|
            0 <= i < texts.len() ==> fits(encode_utf8(#[trigger] texts[i]).len()),
        Field::OptText(Some(text)) => fits(encode_utf8(text).len()),
        Field::OptDigest(Some(digest)) => digest.len() == 32,
        _ => true,
    }
}

/// That bytes begin with others.
pub open spec fn begins_with(bytes: Seq<u8>, start: Seq<u8>) -> bool {
    start.len() <= bytes.len() && bytes.take(start.len() as int) == start
}

/// That bytes begin with a tuple of the given types.
pub open spec fn begins_with_tuple(kinds: Seq<Kind>, bytes: Seq<u8>, fields: Seq<Field>) -> bool {
    &&& self::kinds(fields) == kinds
    &&& forall|i: int| 0 <= i < fields.len() ==> writable(#[trigger] fields[i])
    &&& begins_with(bytes, tuple_bytes(fields))
}

/// The tuple of the given types that some bytes begin with, if they do.
pub open spec fn tuple_in(kinds: Seq<Kind>, bytes: Seq<u8>) -> Option<Seq<Field>> {
    if exists|fields: Seq<Field>| begins_with_tuple(kinds, bytes, fields) {
        Some(choose|fields: Seq<Field>| begins_with_tuple(kinds, bytes, fields))
    } else {
        None
    }
}

/// That bytes which begin with two starts of one length begin with one start.
proof fn lemma_same_start(bytes: Seq<u8>, a: Seq<u8>, b: Seq<u8>)
    requires
        begins_with(bytes, a),
        begins_with(bytes, b),
        a.len() == b.len(),
    ensures
        a == b,
{
}

/// That bytes which begin with two parts begin with the first of them, and the rest with the
/// second.
proof fn lemma_parts(bytes: Seq<u8>, a: Seq<u8>, b: Seq<u8>)
    requires
        begins_with(bytes, a + b),
    ensures
        begins_with(bytes, a),
        begins_with(bytes.skip(a.len() as int), b),
{
    let whole = a + b;
    assert(bytes.take(a.len() as int) =~= whole.take(a.len() as int));
    assert(whole.take(a.len() as int) =~= a);
    assert(bytes.skip(a.len() as int).take(b.len() as int) =~= bytes.take(
        whole.len() as int,
    ).skip(a.len() as int));
    assert(whole.skip(a.len() as int) =~= b);
}

/// That a number which bytes begin with is the only one of its length.
proof fn lemma_one_number(bytes: Seq<u8>, x: nat, y: nat, n: nat)
    requires
        x < byte_range(n),
        y < byte_range(n),
        begins_with(bytes, le_bytes(x, n)),
        begins_with(bytes, le_bytes(y, n)),
    ensures
        x == y,
{
    lemma_le_bytes(x, n);
    lemma_le_bytes(y, n);
    lemma_same_start(bytes, le_bytes(x, n), le_bytes(y, n));
}

/// That a text which bytes begin with is the only one.
proof fn lemma_one_text(bytes: Seq<u8>, a: Seq<char>, b: Seq<char>)
    requires
        fits(encode_utf8(a).len()),
        fits(encode_utf8(b).len()),
        begins_with(bytes, text_bytes(a)),
        begins_with(bytes, text_bytes(b)),
    ensures
        a == b,
{
    lemma_byte_ranges();
    let m = encode_utf8(a).len();
    let n = encode_utf8(b).len();
    lemma_le_bytes(m, 8);
    lemma_le_bytes(n, 8);
    lemma_parts(bytes, le_bytes(m, 8), encode_utf8(a));
    lemma_parts(bytes, le_bytes(n, 8), encode_utf8(b));
    lemma_one_number(bytes, m, n, 8);
    lemma_same_start(bytes.skip(8), encode_utf8(a), encode_utf8(b));
    vstd::utf8::encode_utf8_decode_utf8(a);
    vstd::utf8::encode_utf8_decode_utf8(b);
}

/// That a row of texts which bytes begin with is the only one of its length.
proof fn lemma_one_row(bytes: Seq<u8>, a: Seq<Seq<char>>, b: Seq<Seq<char>>)
    requires
        a.len() == b.len(),
        forall|i: int| 0 <= i < a.len() ==> fits(encode_utf8(#[trigger] a[i]).len()),
        forall|i: int| 0 <= i < b.len() ==> fits(encode_utf8(#[trigger] b[i]).len()),
        begins_with(bytes, joined_bytes(a)),
        begins_with(bytes, joined_bytes(b)),
    ensures
        a == b,
    decreases a.len(),
{
    if a.len() > 0 {
        lemma_parts(bytes, text_bytes(a[0]), joined_bytes(a.drop_first()));
        lemma_parts(bytes, text_bytes(b[0]), joined_bytes(b.drop_first()));
        lemma_one_text(bytes, a[0], b[0]);
        lemma_one_row(
            bytes.skip(text_bytes(a[0]).len() as int),
            a.drop_first(),
            b.drop_first(),
        );
        assert(a =~= seq![a[0]] + a.drop_first());
        assert(b =~= seq![b[0]] + b.drop_first());
    } else {
        assert(a =~= b);
    }
}

/// That a value which bytes begin with is the only one of its type.
proof fn lemma_one_field(bytes: Seq<u8>, a: Field, b: Field)
    requires
        a.kind() == b.kind(),
        writable(a),
        writable(b),
        begins_with(bytes, field_bytes(a)),
        begins_with(bytes, field_bytes(b)),
    ensures
        a == b,
{
    lemma_byte_ranges();
    match (a, b) {
        (Field::U16(x), Field::U16(y)) => lemma_one_number(bytes, x as nat, y as nat, 2),
        (Field::U32(x), Field::U32(y)) => lemma_one_number(bytes, x as nat, y as nat, 4),
        (Field::U64(x), Field::U64(y)) => lemma_one_number(bytes, x as nat, y as nat, 8),
        (Field::Bool(_), Field::Bool(_)) => {
            assert(field_bytes(a)[0] == bytes.take(1)[0]);
            assert(field_bytes(b)[0] == bytes.take(1)[0]);
        },
        (Field::Text(x), Field::Text(y)) => lemma_one_text(bytes, x, y),
        (Field::Texts(x), Field::Texts(y)) => {
            lemma_le_bytes(x.len(), 8);
            lemma_le_bytes(y.len(), 8);
            lemma_parts(bytes, le_bytes(x.len(), 8), joined_bytes(x));
            lemma_parts(bytes, le_bytes(y.len(), 8), joined_bytes(y));
            lemma_one_number(bytes, x.len(), y.len(), 8);
            lemma_one_row(bytes.skip(8), x, y);
        },
        _ => {
            // What may be missing: the first byte says whether it is.
            assert(field_bytes(a)[0] == bytes.take(field_bytes(a).len() as int)[0]);
            assert(field_bytes(b)[0] == bytes.take(field_bytes(b).len() as int)[0]);
            match (a, b) {
                (Field::OptText(Some(x)), Field::OptText(Some(y))) => {
                    lemma_parts(bytes, seq![1u8], text_bytes(x));
                    lemma_parts(bytes, seq![1u8], text_bytes(y));
                    lemma_one_text(bytes.skip(1), x, y);
                },
                (Field::OptU64(Some(x)), Field::OptU64(Some(y))) => {
                    lemma_parts(bytes, seq![1u8], le_bytes(x as nat, 8));
                    lemma_parts(bytes, seq![1u8], le_bytes(y as nat, 8));
                    lemma_one_number(bytes.skip(1), x as nat, y as nat, 8);
                },
                (Field::OptDigest(Some(x)), Field::OptDigest(Some(y))) => {
                    lemma_parts(bytes, seq![1u8], x);
                    lemma_parts(bytes, seq![1u8], y);
                    lemma_same_start(bytes.skip(1), x, y);
                },
                _ => {},
            }
        },
    }
}

/// That a tuple which bytes begin with is the only one of its types.
proof fn lemma_one_tuple(kinds: Seq<Kind>, bytes: Seq<u8>, a: Seq<Field>, b: Seq<Field>)
    requires
        begins_with_tuple(kinds, bytes, a),
        begins_with_tuple(kinds, bytes, b),
    ensures
        a == b,
    decreases kinds.len(),
{
    assert(a.len() == kinds.len() && b.len() == kinds.len());
    if kinds.len() > 0 {
        assert(a[0].kind() == kinds[0] && b[0].kind() == kinds[0]);
        lemma_parts(bytes, field_bytes(a[0]), tuple_bytes(a.drop_first()));
        lemma_parts(bytes, field_bytes(b[0]), tuple_bytes(b.drop_first()));
        lemma_one_field(bytes, a[0], b[0]);
        assert(self::kinds(a.drop_first()) =~= kinds.drop_first());
        assert(self::kinds(b.drop_first()) =~= kinds.drop_first());
        lemma_one_tuple(
            kinds.drop_first(),
            bytes.skip(field_bytes(a[0]).len() as int),
            a.drop_first(),
            b.drop_first(),
        );
        assert(a =~= seq![a[0]] + a.drop_first());
        assert(b =~= seq![b[0]] + b.drop_first());
    } else {
        assert(a =~= b);
    }
}

/// Bytes that begin with a tuple hold it, and no other of its types.
pub proof fn law_tuple_is_found(kinds: Seq<Kind>, bytes: Seq<u8>, fields: Seq<Field>)
    requires
        begins_with_tuple(kinds, bytes, fields),
    ensures
        tuple_in(kinds, bytes) == Some(fields),
{
    let found = choose|f: Seq<Field>| begins_with_tuple(kinds, bytes, f);
    lemma_one_tuple(kinds, bytes, fields, found);
}

/// A written tuple reads back, whatever follows it, and so does its first value alone.
pub proof fn law_tuple_reads_back(fields: Seq<Field>, rest: Seq<u8>)
    requires
        fields.len() > 0,
        forall|i: int| 0 <= i < fields.len() ==> writable(#[trigger] fields[i]),
    ensures
        tuple_in(kinds(fields), tuple_bytes(fields) + rest) == Some(fields),
        tuple_in(seq![fields[0].kind()], tuple_bytes(fields) + rest) == Some(seq![fields[0]]),
{
    let bytes = tuple_bytes(fields) + rest;
    assert(bytes.take(tuple_bytes(fields).len() as int) =~= tuple_bytes(fields));
    law_tuple_is_found(kinds(fields), bytes, fields);
    let first = seq![fields[0]];
    assert(first.drop_first() =~= Seq::empty());
    assert(tuple_bytes(first.drop_first()) =~= Seq::empty());
    assert(tuple_bytes(first) =~= field_bytes(fields[0]));
    assert(bytes.take(field_bytes(fields[0]).len() as int) =~= field_bytes(fields[0]));
    assert(kinds(first) =~= seq![fields[0].kind()]);
    law_tuple_is_found(seq![fields[0].kind()], bytes, first);
}

/// What is claimed of `bincode::serialize` on a tuple: that it does not fail, for it sets no limit
/// to the size, knows all lengths beforehand and writes to memory; that it writes the bytes of the
/// values one after the other; and that the lengths of what lies in memory fit.
pub open spec fn written(fields: Seq<Field>, r: Result<Vec<u8>, String>) -> bool {
    &&& r is Ok
    &&& r->Ok_0@ == tuple_bytes(fields)
    &&& forall|i: int| 0 <= i < fields.len() ==> writable(#[trigger] fields[i])
}

/// Strings as sequences of characters.
pub open spec fn texts(v: Seq<String>) -> Seq<Seq<char>> {
    v.map_values(|s: String| s@)
}

/// An optional string as a sequence of characters.
pub open spec fn opt_text(o: Option<String>) -> Option<Seq<char>> {
    match o {
        None => None,
        Some(s) => Some(s@),
    }
}

/// An optional digest as a sequence of bytes.
pub open spec fn opt_digest(o: Option<[u8; 32]>) -> Option<Seq<u8>> {
    match o {
        None => None,
        Some(d) => Some(d@),
    }
}

/// A hello as a tuple.
pub open spec fn hello_fields(
    tag: u32,
    version: u16,
    name: Seq<char>,
    digest: Option<Seq<u8>>,
    capabilities: Seq<Seq<char>>,
) -> Seq<Field> {
    seq![
        Field::U32(tag),
        Field::U16(version),
        Field::Text(name),
        Field::OptDigest(digest),
        Field::Texts(capabilities),
    ]
}

/// The start of a session as a tuple.
pub open spec fn start_fields(
    tag: u32,
    session_id: u64,
    transport: Seq<char>,
    streams: u16,
    duration_ms: u64,
    payload_bytes: u64,
    interval_ms: u64,
    rate_bps: Option<u64>,
) -> Seq<Field> {
    seq![
        Field::U32(tag),
        Field::U64(session_id),
        Field::Text(transport),
        Field::U16(streams),
        Field::U64(duration_ms),
        Field::U64(payload_bytes),
        Field::U64(interval_ms),
        Field::OptU64(rate_bps),
    ]
}

/// An answer as a tuple.
pub open spec fn ack_fields(
    tag: u32,
    session_id: u64,
    accepted: bool,
    reason: Option<Seq<char>>,
) -> Seq<Field> {
    seq![
        Field::U32(tag),
        Field::U64(session_id),
        Field::Bool(accepted),
        Field::OptText(reason),
    ]
}

/// The stop of a session as a tuple.
pub open spec fn stop_fields(tag: u32, session_id: u64) -> Seq<Field> {
    seq![Field::U32(tag), Field::U64(session_id)]
}

/// The types in the tuple of a hello.
pub open spec fn hello_kinds() -> Seq<Kind> {
    seq![Kind::U32, Kind::U16, Kind::Text, Kind::OptDigest, Kind::Texts]
}

/// The types in the tuple of the start of a session.
pub open spec fn start_kinds() -> Seq<Kind> {
    seq![
        Kind::U32,
        Kind::U64,
        Kind::Text,
        Kind::U16,
        Kind::U64,
        Kind::U64,
        Kind::U64,
        Kind::OptU64,
    ]
}

/// The types in the tuple of an answer.
pub open spec fn ack_kinds() -> Seq<Kind> {
    seq![Kind::U32, Kind::U64, Kind::Bool, Kind::OptText]
}

/// The types in the tuple of the stop of a session.
pub open spec fn stop_kinds() -> Seq<Kind> {
    seq![Kind::U32, Kind::U64]
}

/// Calls `bincode::serialize` on the tuple of a hello. The contract claims what
/// [`written`] says.
#[verifier::external_body]
pub(crate) fn write_hello(
    tag: u32,
    version: u16,
    name: &String,
    digest: &Option<[u8; 32]>,
    capabilities: &Vec<String>,
) -> (r: Result<Vec<u8>, String>)
    ensures
        written(
            hello_fields(tag, version, name@, opt_digest(*digest), texts(capabilities@)),
            r,
        ),
{
    match bincode::serialize(&(tag, version, name, digest, capabilities)) {
        Ok(b) => Ok(b),
        Err(e) => Err(e.to_string()),
    }
}

/// Calls `bincode::serialize` on the tuple of the start of a session. The contract claims what
/// [`written`] says.
#[verifier::external_body]
pub(crate) fn write_start(
    tag: u32,
    session_id: u64,
    transport: &String,
    streams: u16,
    duration_ms: u64,
    payload_bytes: u64,
    interval_ms: u64,
    rate_bps: Option<u64>,
) -> (r: Result<Vec<u8>, String>)
    ensures
        written(
            start_fields(
                tag,
                session_id,
                transport@,
                streams,
                duration_ms,
                payload_bytes,
                interval_ms,
                rate_bps,
            ),
            r,
        ),
{
    match bincode::serialize(
        &(
            tag,
            session_id,
            transport,
            streams,
            duration_ms,
            payload_bytes,
            interval_ms,
            rate_bps,
        ),
    ) {
        Ok(b) => Ok(b),
        Err(e) => Err(e.to_string()),
    }
}

/// Calls `bincode::serialize` on the tuple of an answer. The contract claims what
/// [`written`] says.
#[verifier::external_body]
pub(crate) fn write_ack(tag: u32, session_id: u64, accepted: bool, reason: &Option<String>) -> (r:
    Result<Vec<u8>, String>)
    ensures
        written(ack_fields(tag, session_id, accepted, opt_text(*reason)), r),
{
    match bincode::serialize(&(tag, session_id, accepted, reason)) {
        Ok(b) => Ok(b),
        Err(e) => Err(e.to_string()),
    }
}

/// Calls `bincode::serialize` on the tuple of the stop of a session. The contract claims what
/// [`written`] says.
#[verifier::external_body]
pub(crate) fn write_stop(tag: u32, session_id: u64) -> (r: Result<Vec<u8>, String>)
    ensures
        written(stop_fields(tag, session_id), r),
{
    match bincode::serialize(&(tag, session_id)) {
        Ok(b) => Ok(b),
        Err(e) => Err(e.to_string()),
    }
}

/// What `bincode` says of bytes in which it finds no number of a variant, where no length may be
/// above `longest`.
pub uninterp spec fn no_tag_text(bytes: Seq<u8>, longest: nat) -> Seq<char>;

/// What `bincode` says of bytes in which it finds no hello, where no length may be above `longest`.
pub uninterp spec fn no_hello_text(bytes: Seq<u8>, longest: nat) -> Seq<char>;

/// What `bincode` says of bytes in which it finds no start of a session, where no length may be
/// above `longest`.
pub uninterp spec fn no_start_text(bytes: Seq<u8>, longest: nat) -> Seq<char>;

/// What `bincode` says of bytes in which it finds no answer, where no length may be above
/// `longest`.
pub uninterp spec fn no_ack_text(bytes: Seq<u8>, longest: nat) -> Seq<char>;

/// What `bincode` says of bytes in which it finds no stop of a session, where no length may be
/// above `longest`.
pub uninterp spec fn no_stop_text(bytes: Seq<u8>, longest: nat) -> Seq<char>;

/// Calls `bincode::deserialize` for the number of a variant. The contract claims that it reads the
/// number that the bytes begin with, and fails where they begin with none. The text of an error
/// depends on nothing but the bytes and the longest length that the machine can count.
#[verifier::external_body]
pub(crate) fn read_tag(bytes: &[u8]) -> (r: Result<u32, String>)
    ensures
        match r {
            Ok(v) => begins_with_tuple(
                seq![Kind::U32],
                bytes@,
                seq![Field::U32(v)],
            ),
            Err(m) => {
                &&& forall|f: Seq<Field>| !begins_with_tuple(seq![Kind::U32], bytes@, f)
                &&& m@ == no_tag_text(bytes@, usize::MAX as nat)
            },
        },
{
    match bincode::deserialize::<u32>(bytes) {
        Ok(v) => Ok(v),
        Err(e) => Err(e.to_string()),
    }
}

/// Calls `bincode::deserialize` for the tuple of a hello. The contract claims that it
/// reads the tuple that the bytes begin with, and fails where they begin with none. The text of an
/// error depends on nothing but the bytes and the longest length that the machine can count.
#[verifier::external_body]
pub(crate) fn read_hello(bytes: &[u8]) -> (r: Result<
    (u32, u16, String, Option<[u8; 32]>, Vec<String>),
    String,
>)
    ensures
        match r {
            Ok(v) => begins_with_tuple(
                hello_kinds(),
                bytes@,
                hello_fields(v.0, v.1, v.2@, opt_digest(v.3), texts(v.4@)),
            ),
            Err(m) => {
                &&& forall|f: Seq<Field>| !begins_with_tuple(hello_kinds(), bytes@, f)
                &&& m@ == no_hello_text(bytes@, usize::MAX as nat)
            },
        },
{
    match bincode::deserialize(bytes) {
        Ok(v) => Ok(v),
        Err(e) => Err(e.to_string()),
    }
}

/// Calls `bincode::deserialize` for the tuple of the start of a session. The contract claims that
/// it reads the tuple that the bytes begin with, and fails where they begin with none. The text of
/// an error depends on nothing but the bytes and the longest length that the machine can count.
#[verifier::external_body]
pub(crate) fn read_start(bytes: &[u8]) -> (r: Result<
    (u32, u64, String, u16, u64, u64, u64, Option<u64>),
    String,
>)
    ensures
        match r {
            Ok(v) => begins_with_tuple(
                start_kinds(),
                bytes@,
                start_fields(v.0, v.1, v.2@, v.3, v.4, v.5, v.6, v.7),
            ),
            Err(m) => {
                &&& forall|f: Seq<Field>| !begins_with_tuple(start_kinds(), bytes@, f)
                &&& m@ == no_start_text(bytes@, usize::MAX as nat)
            },
        },
{
    match bincode::deserialize(bytes) {
        Ok(v) => Ok(v),
        Err(e) => Err(e.to_string()),
    }
}

/// Calls `bincode::deserialize` for the tuple of an answer. The contract claims that it
/// reads the tuple that the bytes begin with, and fails where they begin with none. The text of an
/// error depends on nothing but the bytes and the longest length that the machine can count.
#[verifier::external_body]
pub(crate) fn read_ack(bytes: &[u8]) -> (r: Result<(u32, u64, bool, Option<String>), String>)
    ensures
        match r {
            Ok(v) => begins_with_tuple(
                ack_kinds(),
                bytes@,
                ack_fields(v.0, v.1, v.2, opt_text(v.3)),
            ),
            Err(m) => {
                &&& forall|f: Seq<Field>| !begins_with_tuple(ack_kinds(), bytes@, f)
                &&& m@ == no_ack_text(bytes@, usize::MAX as nat)
            },
        },
{
    match bincode::deserialize(bytes) {
        Ok(v) => Ok(v),
        Err(e) => Err(e.to_string()),
    }
}

/// Calls `bincode::deserialize` for the tuple of the stop of a session. The contract claims that it
/// reads the tuple that the bytes begin with, and fails where they begin with none. The text of an
/// error depends on nothing but the bytes and the longest length that the machine can count.
#[verifier::external_body]
pub(crate) fn read_stop(bytes: &[u8]) -> (r: Result<(u32, u64), String>)
    ensures
        match r {
            Ok(v) => begins_with_tuple(
                stop_kinds(),
                bytes@,
                stop_fields(v.0, v.1),
            ),
            Err(m) => {
                &&& forall|f: Seq<Field>| !begins_with_tuple(stop_kinds(), bytes@, f)
                &&& m@ == no_stop_text(bytes@, usize::MAX as nat)
            },
        },
{
    match bincode::deserialize(bytes) {
        Ok(v) => Ok(v),
        Err(e) => Err(e.to_string()),
    }
}

} // verus!
