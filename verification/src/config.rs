//! What a run, a sweep and a server are asked to do, and how the command line writes it.
use crate::text::{
    all_digits, chars_of, decimal, digits_value, ends_in, is_digit, law_numbers_are_read,
    law_only_numbers_are_read, lower, lowered, number_of, parse_number, piece_bounds, pieces,
    push_decimal, same_text, suffix_start, trim, trim_bounds, value_of, NumberError,
};
use vstd::prelude::*;

verus! {

/// How packets travel in a run.
#[derive(Debug, Clone, Copy, PartialEq, Eq, Hash, Structural)]
pub enum Transport {
    Tcp,
    Udp,
    Quic,
}

impl Transport {
    /// The name of the transport.
    pub open spec fn name(self) -> Seq<char> {
        match self {
            Transport::Tcp => "tcp"@,
            Transport::Udp => "udp"@,
            Transport::Quic => "quic"@,
        }
    }

    /// The transport that `s` names in capitals or small letters, or the message that there is
    /// none of that name.
    pub open spec fn named(s: Seq<char>) -> Result<Transport, Seq<char>> {
        if lower(s) == "tcp"@ {
            Ok(Transport::Tcp)
        } else if lower(s) == "udp"@ {
            Ok(Transport::Udp)
        } else if lower(s) == "quic"@ {
            Ok(Transport::Quic)
        } else {
            Err("unsupported transport: "@ + s)
        }
    }

    /// The name of the transport.
    pub fn to_string(&self) -> (r: String)
        ensures
            r@ == self.name(),
    {
        match self {
            Transport::Tcp => "tcp".to_string(),
            Transport::Udp => "udp".to_string(),
            Transport::Quic => "quic".to_string(),
        }
    }

    /// The transport of a name, in capitals or small letters.
    pub fn from_str(s: &str) -> (r: Result<Transport, String>)
        ensures
            match r {
                Ok(t) => Transport::named(s@) == Ok::<Transport, Seq<char>>(t),
                Err(m) => Transport::named(s@) == Err::<Transport, Seq<char>>(m@),
            },
    {
        let chars: Vec<char> = chars_of(s);
        let low: Vec<char> = lowered(&chars);
        if same_text(&low, "tcp") {
            Ok(Transport::Tcp)
        } else if same_text(&low, "udp") {
            Ok(Transport::Udp)
        } else if same_text(&low, "quic") {
            Ok(Transport::Quic)
        } else {
            let mut m: String = "unsupported transport: ".to_string();
            m.append(s);
            Err(m)
        }
    }
}

/// Which transports a server offers.
#[derive(Debug, Clone, Copy, PartialEq, Eq, Structural)]
pub enum ServerTransport {
    Tcp,
    Udp,
    Quic,
    All,
}

/// What a sweep ranks its runs by.
#[derive(Debug, Clone, Copy, PartialEq, Eq, Structural)]
pub enum SweepObjective {
    Throughput,
    MaxEfficiency,
    Balanced,
}

/// The rate that a run aims at, in bits per second.
#[derive(Debug, Clone, Copy, PartialEq, Eq, Structural)]
pub enum RateMode {
    Auto,
    Bps(u64),
}

impl RateMode {
    /// The rate in bits per second, if it was given.
    pub fn as_bps(self) -> (r: Option<u64>)
        ensures
            r == match self {
                RateMode::Auto => None::<u64>,
                RateMode::Bps(v) => Some(v),
            },
    {
        match self {
            RateMode::Auto => None,
            RateMode::Bps(v) => Some(v),
        }
    }

    /// Whether the rate is left to the program.
    pub fn is_auto(self) -> (r: bool)
        ensures
            r == (self is Auto),
    {
        matches!(self, RateMode::Auto)
    }
}

/// A socket address: the bits of an IP address, a port, and what IPv6 adds to them.
#[derive(Debug, Clone, Copy, PartialEq, Eq, Hash, Structural)]
pub enum Address {
    V4 { ip: u32, port: u16 },
    V6 { ip: u128, port: u16, flowinfo: u32, scope_id: u32 },
}

/// One benchmark run. Spans of time are in nanoseconds.
#[derive(Debug, Clone)]
pub struct RunConfig {
    pub host: Address,
    pub transport: Transport,
    pub streams: u16,
    pub duration_ns: u128,
    pub warmup_ns: u128,
    pub payload_bytes: usize,
    pub rate: RateMode,
    pub token: Option<String>,
    pub interval_ns: u128,
}

/// A run for each pair of a stream count and a rate. Spans of time are in nanoseconds.
#[derive(Debug, Clone)]
pub struct SweepConfig {
    pub host: Address,
    pub transport: Transport,
    pub streams: Vec<u16>,
    pub rates: Vec<RateMode>,
    pub duration_ns: u128,
    pub warmup_ns: u128,
    pub payload_bytes: usize,
    pub token: Option<String>,
    pub interval_ns: u128,
    pub objective: SweepObjective,
    pub top: usize,
}

/// What a server listens for. The idle timeout is in nanoseconds.
#[derive(Debug, Clone)]
pub struct ServerConfig {
    pub bind: Address,
    pub transport: ServerTransport,
    pub token: Option<String>,
    pub max_clients: usize,
    pub idle_timeout_ns: u128,
}

/// The payload of a packet, in bytes, where none was asked for.
pub fn default_payload_size(transport: Transport) -> (r: usize)
    ensures
        r == match transport {
            Transport::Tcp => 262_144,
            Transport::Udp => 1200,
            Transport::Quic => 1200int,
        },
{
    match transport {
        Transport::Tcp => 256 * 1024,
        Transport::Udp | Transport::Quic => 1200,
    }
}

/// `s` without its last characters, as many as `suffix` has.
pub open spec fn without(s: Seq<char>, suffix: Seq<char>) -> Seq<char> {
    s.take(s.len() - suffix.len())
}

/// The number in a rate and what its unit multiplies it by.
pub open spec fn rate_parts(raw: Seq<char>) -> (Seq<char>, nat) {
    if ends_in(raw, "kbps"@) {
        (without(raw, "kbps"@), 1_000)
    } else if ends_in(raw, "k"@) {
        (without(raw, "k"@), 1_000)
    } else if ends_in(raw, "mbps"@) {
        (without(raw, "mbps"@), 1_000_000)
    } else if ends_in(raw, "m"@) {
        (without(raw, "m"@), 1_000_000)
    } else if ends_in(raw, "gbps"@) {
        (without(raw, "gbps"@), 1_000_000_000)
    } else if ends_in(raw, "g"@) {
        (without(raw, "g"@), 1_000_000_000)
    } else if ends_in(raw, "tbps"@) {
        (without(raw, "tbps"@), 1_000_000_000_000)
    } else if ends_in(raw, "t"@) {
        (without(raw, "t"@), 1_000_000_000_000)
    } else if ends_in(raw, "bps"@) {
        (without(raw, "bps"@), 1)
    } else {
        (raw, 1)
    }
}

/// The rate that `input` writes, or the message that it writes none.
pub open spec fn rate_of(input: Seq<char>) -> Result<RateMode, Seq<char>> {
    let raw = lower(trim(input));
    let (digits, scale) = rate_parts(raw);
    if raw == "auto"@ {
        Ok(RateMode::Auto)
    } else {
        match number_of(digits, u64::MAX as nat) {
            Err(e) => Err("invalid rate `"@ + input + "`: "@ + e.message()),
            Ok(base) => if base * scale > u64::MAX {
                Err("rate `"@ + input + "` is too large"@)
            } else if base * scale == 0 {
                Err("rate must be > 0"@)
            } else {
                Ok(RateMode::Bps((base * scale) as u64))
            },
        }
    }
}

/// The rates of a list, or the message of the first piece that writes none.
pub open spec fn rates_of(list: Seq<Seq<char>>) -> Result<Seq<RateMode>, Seq<char>>
    decreases list.len(),
{
    if list.len() == 0 {
        Ok(Seq::empty())
    } else {
        match rates_of(list.drop_last()) {
            Err(m) => Err(m),
            Ok(before) => match rate_of(trim(list.last())) {
                Err(m) => Err(m),
                Ok(rate) => Ok(before.push(rate)),
            },
        }
    }
}

/// The stream count that one piece of a list writes.
pub open spec fn stream_of(piece: Seq<char>) -> Result<u16, Seq<char>> {
    match number_of(trim(piece), u16::MAX as nat) {
        Err(e) => Err("invalid stream count `"@ + piece + "`: "@ + e.message()),
        Ok(n) => if n == 0 {
            Err("stream count must be >= 1"@)
        } else {
            Ok(n as u16)
        },
    }
}

/// The stream counts of a list, or the message of the first piece that writes none.
pub open spec fn streams_of(list: Seq<Seq<char>>) -> Result<Seq<u16>, Seq<char>>
    decreases list.len(),
{
    if list.len() == 0 {
        Ok(Seq::empty())
    } else {
        match streams_of(list.drop_last()) {
            Err(m) => Err(m),
            Ok(before) => match stream_of(list.last()) {
                Err(m) => Err(m),
                Ok(n) => Ok(before.push(n)),
            },
        }
    }
}

/// Where the digits of a rate end, and what its unit multiplies them by.
fn split_unit(raw: &[char]) -> (r: (usize, u64))
    ensures
        r.0 <= raw@.len(),
        rate_parts(raw@) == (raw@.take(r.0 as int), r.1 as nat),
{
    if let Some(at) = suffix_start(raw, "kbps") {
        (at, 1_000)
    } else if let Some(at) = suffix_start(raw, "k") {
        (at, 1_000)
    } else if let Some(at) = suffix_start(raw, "mbps") {
        (at, 1_000_000)
    } else if let Some(at) = suffix_start(raw, "m") {
        (at, 1_000_000)
    } else if let Some(at) = suffix_start(raw, "gbps") {
        (at, 1_000_000_000)
    } else if let Some(at) = suffix_start(raw, "g") {
        (at, 1_000_000_000)
    } else if let Some(at) = suffix_start(raw, "tbps") {
        (at, 1_000_000_000_000)
    } else if let Some(at) = suffix_start(raw, "t") {
        (at, 1_000_000_000_000)
    } else if let Some(at) = suffix_start(raw, "bps") {
        (at, 1)
    } else {
        assert(raw@.take(raw@.len() as int) =~= raw@);
        (raw.len(), 1)
    }
}

/// Reads a rate: `auto`, or a positive number of bits per second with an optional unit.
pub fn parse_rate_mode(input: &str) -> (r: Result<RateMode, String>)
    ensures
        match r {
            Ok(rate) => rate_of(input@) == Ok::<RateMode, Seq<char>>(rate),
            Err(m) => rate_of(input@) == Err::<RateMode, Seq<char>>(m@),
        },
{
    let chars: Vec<char> = chars_of(input);
    let (a, b) = trim_bounds(&chars);
    let raw: Vec<char> = lowered(vstd::slice::slice_subrange(&chars, a, b));
    if same_text(&raw, "auto") {
        return Ok(RateMode::Auto);
    }
    let (end, scale) = split_unit(&raw);
    let digits: &[char] = vstd::slice::slice_subrange(&raw, 0, end);
    assert(digits@ =~= raw@.take(end as int));
    let base: u64 = match parse_number(digits, u64::MAX) {
        Ok(v) => v,
        Err(e) => {
            let mut m: String = "invalid rate `".to_string();
            m.append(input);
            m.append("`: ");
            m.append(e.text());
            return Err(m);
        },
    };
    match base.checked_mul(scale) {
        None => {
            let mut m: String = "rate `".to_string();
            m.append(input);
            m.append("` is too large");
            Err(m)
        },
        Some(total) => if total == 0 {
            Err("rate must be > 0".to_string())
        } else {
            Ok(RateMode::Bps(total))
        },
    }
}

/// The first message in a list of rates is the message of every list that begins with it.
proof fn lemma_rates_prefix(list: Seq<Seq<char>>, k: int)
    requires
        0 <= k <= list.len(),
        rates_of(list.take(k)) is Err,
    ensures
        rates_of(list) == rates_of(list.take(k)),
    decreases list.len() - k,
{
    if k == list.len() {
        assert(list.take(k) =~= list);
    } else {
        assert(list.take(k + 1).drop_last() =~= list.take(k));
        lemma_rates_prefix(list, k + 1);
    }
}

/// The first message in a list of stream counts is the message of every list that begins with it.
proof fn lemma_streams_prefix(list: Seq<Seq<char>>, k: int)
    requires
        0 <= k <= list.len(),
        streams_of(list.take(k)) is Err,
    ensures
        streams_of(list) == streams_of(list.take(k)),
    decreases list.len() - k,
{
    if k == list.len() {
        assert(list.take(k) =~= list);
    } else {
        assert(list.take(k + 1).drop_last() =~= list.take(k));
        lemma_streams_prefix(list, k + 1);
    }
}

/// Reads a list of rates with commas between them.
pub fn parse_rates_list(input: &str) -> (r: Result<Vec<RateMode>, String>)
    ensures
        match r {
            Ok(v) => rates_of(pieces(input@)) == Ok::<Seq<RateMode>, Seq<char>>(v@),
            Err(m) => rates_of(pieces(input@)) == Err::<Seq<RateMode>, Seq<char>>(m@),
        },
{
    let chars: Vec<char> = chars_of(input);
    let bounds: Vec<(usize, usize)> = piece_bounds(&chars);
    let ghost list = pieces(input@);
    let mut out: Vec<RateMode> = Vec::new();
    let mut i: usize = 0;
    assert(list.take(0) =~= Seq::empty());
    while i < bounds.len()
        invariant
            i <= bounds@.len(),
            bounds@.len() == list.len(),
            list == pieces(input@),
            chars@ == input@,
            forall|k: int|
                0 <= k < bounds@.len() ==> (#[trigger] bounds@[k]).0 <= bounds@[k].1 <= chars@.len()
                    && chars@.subrange(bounds@[k].0 as int, bounds@[k].1 as int) == list[k],
            rates_of(list.take(i as int)) == Ok::<Seq<RateMode>, Seq<char>>(out@),
        decreases bounds@.len() - i,
    {
        let (from, to) = bounds[i];
        let (a, b) = trim_bounds(vstd::slice::slice_subrange(&chars, from, to));
        let part: &str = input.substring_char(from + a, from + b);
        proof {
            assert(part@ =~= trim(list[i as int]));
            assert(list.take(i + 1).drop_last() =~= list.take(i as int));
        }
        match parse_rate_mode(part) {
            Ok(rate) => out.push(rate),
            Err(m) => {
                proof {
                    lemma_rates_prefix(list, i + 1);
                }
                return Err(m);
            },
        }
        i = i + 1;
    }
    assert(list.take(i as int) =~= list);
    Ok(out)
}

/// Reads a list of stream counts with commas between them.
pub fn parse_streams_list(input: &str) -> (r: Result<Vec<u16>, String>)
    ensures
        match r {
            Ok(v) => streams_of(pieces(input@)) == Ok::<Seq<u16>, Seq<char>>(v@),
            Err(m) => streams_of(pieces(input@)) == Err::<Seq<u16>, Seq<char>>(m@),
        },
{
    let chars: Vec<char> = chars_of(input);
    let bounds: Vec<(usize, usize)> = piece_bounds(&chars);
    let ghost list = pieces(input@);
    let mut out: Vec<u16> = Vec::new();
    let mut i: usize = 0;
    assert(list.take(0) =~= Seq::empty());
    while i < bounds.len()
        invariant
            i <= bounds@.len(),
            bounds@.len() == list.len(),
            list == pieces(input@),
            chars@ == input@,
            forall|k: int|
                0 <= k < bounds@.len() ==> (#[trigger] bounds@[k]).0 <= bounds@[k].1 <= chars@.len()
                    && chars@.subrange(bounds@[k].0 as int, bounds@[k].1 as int) == list[k],
            streams_of(list.take(i as int)) == Ok::<Seq<u16>, Seq<char>>(out@),
        decreases bounds@.len() - i,
    {
        let (from, to) = bounds[i];
        let piece: &[char] = vstd::slice::slice_subrange(&chars, from, to);
        let (a, b) = trim_bounds(piece);
        proof {
            assert(list.take(i + 1).drop_last() =~= list.take(i as int));
        }
        match parse_number(vstd::slice::slice_subrange(piece, a, b), 65_535) {
            Err(e) => {
                let mut m: String = "invalid stream count `".to_string();
                m.append(input.substring_char(from, to));
                m.append("`: ");
                m.append(e.text());
                proof {
                    lemma_streams_prefix(list, i + 1);
                }
                return Err(m);
            },
            Ok(n) => {
                if n == 0 {
                    proof {
                        lemma_streams_prefix(list, i + 1);
                    }
                    return Err("stream count must be >= 1".to_string());
                }
                out.push(n as u16);
            },
        }
        i = i + 1;
    }
    assert(list.take(i as int) =~= list);
    Ok(out)
}

/// How many ASCII digits a text holds.
pub open spec fn digits_in(s: Seq<char>) -> nat
    decreases s.len(),
{
    if s.len() == 0 {
        0
    } else {
        digits_in(s.drop_last()) + if is_digit(s.last()) {
            1nat
        } else {
            0nat
        }
    }
}

/// A text without the zeros that only lengthen the number it begins with.
pub open spec fn bare(s: Seq<char>) -> Seq<char>
    decreases s.len(),
{
    if s.len() >= 2 && s[0] == '0' && is_digit(s[1]) {
        bare(s.drop_first())
    } else {
        s
    }
}

/// How many ASCII digits a text holds, without the zeros that only lengthen the number it begins
/// with.
pub fn count_digits(s: &str) -> (r: usize)
    ensures
        r == digits_in(bare(s@)),
{
    let chars: Vec<char> = chars_of(s);
    let len: usize = chars.len();
    let mut from: usize = 0;
    assert(chars@.skip(0) =~= chars@);
    while len - from >= 2 && chars[from] == '0' && '0' <= chars[from + 1] && chars[from + 1] <= '9'
        invariant
            from <= len == chars@.len(),
            bare(chars@) == bare(chars@.skip(from as int)),
        decreases len - from,
    {
        assert(chars@.skip(from as int).drop_first() =~= chars@.skip(from + 1));
        from = from + 1;
    }
    let mut n: usize = 0;
    let mut i: usize = from;
    assert(chars@.subrange(from as int, from as int) =~= Seq::empty());
    while i < len
        invariant
            from <= i <= len == chars@.len(),
            n <= i - from,
            n == digits_in(chars@.subrange(from as int, i as int)),
        decreases len - i,
    {
        let c: char = chars[i];
        assert(chars@.subrange(from as int, i + 1).drop_last() =~= chars@.subrange(
            from as int,
            i as int,
        ));
        if '0' <= c && c <= '9' {
            n = n + 1;
        }
        i = i + 1;
    }
    assert(chars@.subrange(from as int, len as int) =~= chars@.skip(from as int));
    n
}

/// Whether a character can stand in the name of a unit.
pub open spec fn is_letter(c: char) -> bool {
    'a' <= c <= 'z' || 'A' <= c <= 'Z' || c == '\u{b5}'
}

/// That a text has at most one number with its unit: no digit comes after a letter.
pub open spec fn has_one_part(s: Seq<char>) -> bool {
    forall|i: int, j: int|
        0 <= i < j < s.len() && is_letter(#[trigger] s[i]) ==> !is_digit(#[trigger] s[j])
}

/// That a text is too short to run over, or has no second part to run over with.
pub open spec fn is_readable_span(s: Seq<char>) -> bool {
    digits_in(bare(s)) <= 16 || has_one_part(s)
}

/// Whether a text is short enough to be read as a span of time, or has only one part.
pub fn can_parse_duration(s: &str) -> (r: bool)
    ensures
        r == is_readable_span(s@),
{
    if count_digits(s) <= 16 {
        return true;
    }
    let chars: Vec<char> = chars_of(s);
    let mut letter: Option<usize> = None;
    let mut i: usize = 0;
    while i < chars.len()
        invariant
            i <= chars@.len(),
            chars@ == s@,
            digits_in(bare(s@)) > 16,
            match letter {
                Some(at) => at < i && is_letter(chars@[at as int]),
                None => forall|k: int| 0 <= k < i ==> !is_letter(#[trigger] chars@[k]),
            },
            has_one_part(chars@.take(i as int)),
        decreases chars@.len() - i,
    {
        let c: char = chars[i];
        if '0' <= c && c <= '9' {
            if let Some(at) = letter {
                assert(is_letter(s@[at as int]) && is_digit(s@[i as int]));
                return false;
            }
        }
        assert forall|k: int, j: int|
            0 <= k < j < i + 1 && is_letter(#[trigger] chars@.take(i + 1)[k]) implies !is_digit(
            #[trigger] chars@.take(i + 1)[j],
        ) by {
            if j < i {
                assert(chars@.take(i as int)[k] == chars@[k]);
                assert(chars@.take(i as int)[j] == chars@[j]);
            } else {
                assert(is_letter(chars@[k]));
            }
        }
        if letter.is_none() && (('a' <= c && c <= 'z') || ('A' <= c && c <= 'Z') || c
            == '\u{b5}') {
            letter = Some(i);
        }
        i = i + 1;
    }
    assert(chars@.take(i as int) =~= chars@);
    true
}

/// What `humantime` reads in a text: a span of time in nanoseconds, or its message.
pub uninterp spec fn humantime_span(s: Seq<char>) -> Result<u128, Seq<char>>;

/// Calls `humantime::parse_duration` and takes the span in nanoseconds, or the message of the
/// error. The contract claims only that the outcome depends on nothing but the text. A text of
/// several parts and more than sixteen digits is left out: with enough of them the parts can come
/// to the largest number of seconds that a duration holds and a second of nanoseconds more, where
/// the function panics. Sixteen are too few for that. At least twelve digits are needed to come
/// near so many seconds, in years; these leave millions of seconds to write, and the last second
/// takes four digits alone. Zeros at the head of the text do not count: they leave the number that
/// the function has read at zero, as if they were not there. One part alone does not do it either.
/// What comes before its point is either whole seconds, with no nanoseconds, or few seconds, and
/// what comes after it never makes exactly a full second of nanoseconds.
#[verifier::external_body]
fn humantime_parse(s: &str) -> (r: Result<u128, String>)
    requires
        is_readable_span(s@),
    ensures
        match r {
            Ok(ns) => humantime_span(s@) == Ok::<u128, Seq<char>>(ns),
            Err(m) => humantime_span(s@) == Err::<u128, Seq<char>>(m@),
        },
{
    match humantime::parse_duration(s) {
        Ok(d) => Ok(d.as_nanos()),
        Err(e) => Err(e.to_string()),
    }
}

/// Reads a span of time such as `10s` or `1h 30min`, in nanoseconds.
pub fn parse_duration(input: &str) -> (r: Result<u128, String>)
    requires
        is_readable_span(input@),
    ensures
        match r {
            Ok(ns) => humantime_span(input@) == Ok::<u128, Seq<char>>(ns),
            Err(m) => humantime_span(input@) == Err::<u128, Seq<char>>(m@),
        },
{
    humantime_parse(input)
}

/// How `humantime` writes a span of so many seconds and nanoseconds.
pub uninterp spec fn humantime_text(secs: u64, nanos: u32) -> Seq<char>;

/// Calls `humantime::format_duration` and takes its text. The contract claims only that the text
/// depends on nothing but the span.
#[verifier::external_body]
fn humantime_format(secs: u64, nanos: u32) -> (r: String)
    requires
        nanos < 1_000_000_000,
    ensures
        r@ == humantime_text(secs, nanos),
{
    humantime::format_duration(std::time::Duration::new(secs, nanos)).to_string()
}

/// How a span of time in nanoseconds is written.
pub open spec fn duration_text(ns: u128) -> Seq<char> {
    humantime_text((ns / 1_000_000_000) as u64, (ns % 1_000_000_000) as u32)
}

/// A span of time in nanoseconds as text, such as `1m 30s`.
pub fn format_duration(ns: u128) -> (r: String)
    requires
        ns / 1_000_000_000 <= u64::MAX,
    ensures
        r@ == duration_text(ns),
{
    humantime_format((ns / 1_000_000_000) as u64, (ns % 1_000_000_000) as u32)
}

/// How a rate is written in the label of a run.
pub open spec fn rate_text(rate: RateMode) -> Seq<char> {
    match rate {
        RateMode::Auto => "auto"@,
        RateMode::Bps(v) => decimal(v as nat),
    }
}

/// A rate as text: `auto`, or its bits per second.
pub fn rate_label(rate: RateMode) -> (r: String)
    ensures
        r@ == rate_text(rate),
{
    match rate {
        RateMode::Auto => "auto".to_string(),
        RateMode::Bps(v) => {
            let mut s: String = String::new();
            push_decimal(&mut s, v);
            assert(s@ =~= decimal(v as nat));
            s
        },
    }
}

/// A decimal form is made of digits, and reads back as its number.
pub proof fn lemma_decimal(n: nat, max: nat)
    requires
        n <= max,
    ensures
        decimal(n).len() > 0,
        forall|i: int| 0 <= i < decimal(n).len() ==> is_digit(#[trigger] decimal(n)[i]),
        digits_value(decimal(n), max) == Ok::<nat, NumberError>(n),
    decreases n,
{
    if n < 10 {
        assert(decimal(n).drop_last() =~= Seq::empty());
        assert(digits_value(Seq::empty(), max) == Ok::<nat, NumberError>(0));
    } else {
        lemma_decimal(n / 10, max);
        assert(decimal(n).drop_last() =~= decimal(n / 10));
    }
}

/// The label of a rate reads back as the rate: `auto` and every positive number of bits per
/// second.
pub proof fn law_rate_label_reads_back(rate: RateMode)
    requires
        rate != RateMode::Bps(0),
    ensures
        rate_of(rate_text(rate)) == Ok::<RateMode, Seq<char>>(rate),
{
    reveal_strlit("auto");
    reveal_strlit("kbps");
    reveal_strlit("k");
    reveal_strlit("mbps");
    reveal_strlit("m");
    reveal_strlit("gbps");
    reveal_strlit("g");
    reveal_strlit("tbps");
    reveal_strlit("t");
    reveal_strlit("bps");
    let s = rate_text(rate);
    match rate {
        RateMode::Auto => {
            assert(trim(s) == s);
            assert(lower(s) =~= s);
        },
        RateMode::Bps(v) => {
            lemma_decimal(v as nat, u64::MAX as nat);
            assert(is_digit(s[0]) && is_digit(s.last()));
            assert(trim(s) == s);
            assert(lower(s) =~= s);
            assert(s[0] != "auto"@[0]);
            assert forall|t: Seq<char>| #[trigger] ends_in(s, t) && t.len() > 0 implies is_digit(
                t.last(),
            ) by {
                assert(s.skip(s.len() - t.len()).last() == s.last());
            }
            assert(!ends_in(s, "kbps"@) && !ends_in(s, "k"@));
            assert(!ends_in(s, "mbps"@) && !ends_in(s, "m"@));
            assert(!ends_in(s, "gbps"@) && !ends_in(s, "g"@));
            assert(!ends_in(s, "tbps"@) && !ends_in(s, "t"@) && !ends_in(s, "bps"@));
        },
    }
}

/// A transport's name, in capitals or small letters, names that transport.
pub proof fn law_transport_name_reads_back(t: Transport, s: Seq<char>)
    requires
        lower(s) == t.name(),
    ensures
        Transport::named(s) == Ok::<Transport, Seq<char>>(t),
{
    reveal_strlit("tcp");
    reveal_strlit("udp");
    reveal_strlit("quic");
    assert("tcp"@[0] != "udp"@[0]);
    assert("tcp"@[0] != "quic"@[0]);
    assert("udp"@[0] != "quic"@[0]);
}

/// That a unit of rates stands for so many bits per second.
pub open spec fn is_unit(unit: Seq<char>, bits: nat) -> bool {
    ||| bits == 1 && (unit == Seq::<char>::empty() || unit == "bps"@)
    ||| bits == 1_000 && (unit == "k"@ || unit == "kbps"@)
    ||| bits == 1_000_000 && (unit == "m"@ || unit == "mbps"@)
    ||| bits == 1_000_000_000 && (unit == "g"@ || unit == "gbps"@)
    ||| bits == 1_000_000_000_000 && (unit == "t"@ || unit == "tbps"@)
}

/// That a text does not end in another where one character differs.
proof fn lemma_other_end(raw: Seq<char>, t: Seq<char>, i: int)
    requires
        0 <= i < t.len(),
        t.len() <= raw.len() ==> raw[raw.len() - t.len() + i] != t[i],
    ensures
        !ends_in(raw, t),
{
    if ends_in(raw, t) {
        assert(raw.skip(raw.len() - t.len())[i] == t[i]);
    }
}

/// That a number with its unit is taken apart into both.
proof fn lemma_rate_parts(digits: Seq<char>, unit: Seq<char>, bits: nat)
    requires
        digits.len() > 0,
        all_digits(digits),
        is_unit(unit, bits),
    ensures
        rate_parts(digits + unit) == (digits, bits),
{
    reveal_strlit("kbps");
    reveal_strlit("k");
    reveal_strlit("mbps");
    reveal_strlit("m");
    reveal_strlit("gbps");
    reveal_strlit("g");
    reveal_strlit("tbps");
    reveal_strlit("t");
    reveal_strlit("bps");
    let raw = digits + unit;
    let n = raw.len();
    assert('0' <= digits[digits.len() - 1] <= '9');
    assert(raw.skip(digits.len() as int) =~= unit);
    assert(raw.take(digits.len() as int) =~= digits);
    if unit.len() == 0 {
        assert(raw =~= digits);
        lemma_other_end(raw, "kbps"@, 3);
        lemma_other_end(raw, "k"@, 0);
        lemma_other_end(raw, "mbps"@, 3);
        lemma_other_end(raw, "m"@, 0);
        lemma_other_end(raw, "gbps"@, 3);
        lemma_other_end(raw, "g"@, 0);
        lemma_other_end(raw, "tbps"@, 3);
        lemma_other_end(raw, "t"@, 0);
        lemma_other_end(raw, "bps"@, 2);
    } else if unit.len() == 1 {
        assert(raw[n - 1] == unit[0]);
        lemma_other_end(raw, "kbps"@, 3);
        lemma_other_end(raw, "mbps"@, 3);
        lemma_other_end(raw, "gbps"@, 3);
        lemma_other_end(raw, "tbps"@, 3);
        if unit[0] != 'k' {
            lemma_other_end(raw, "k"@, 0);
        }
        if unit[0] != 'm' {
            lemma_other_end(raw, "m"@, 0);
        }
        if unit[0] != 'g' {
            lemma_other_end(raw, "g"@, 0);
        }
    } else {
        assert(raw[n - 1] == unit[unit.len() - 1]);
        assert(raw[n - 1] == 's');
        lemma_other_end(raw, "k"@, 0);
        lemma_other_end(raw, "m"@, 0);
        lemma_other_end(raw, "g"@, 0);
        lemma_other_end(raw, "t"@, 0);
        if unit.len() == 4 {
            assert(raw[n - 4] == unit[0]);
        } else {
            assert(raw[n - 4] == digits[digits.len() - 1]);
        }
        if raw[n - 4] != 'k' {
            lemma_other_end(raw, "kbps"@, 0);
        }
        if raw[n - 4] != 'm' {
            lemma_other_end(raw, "mbps"@, 0);
        }
        if raw[n - 4] != 'g' {
            lemma_other_end(raw, "gbps"@, 0);
        }
        if raw[n - 4] != 't' {
            lemma_other_end(raw, "tbps"@, 0);
        }
    }
}

/// A rate is a number of its unit, in small letters or capitals and with white space around it or
/// none. Nothing is no rate, and what does not fit in 64 bits is too large.
pub proof fn law_rate_is_a_number_of_units(
    input: Seq<char>,
    digits: Seq<char>,
    unit: Seq<char>,
    bits: nat,
)
    requires
        lower(trim(input)) == digits + unit,
        digits.len() > 0,
        all_digits(digits),
        is_unit(unit, bits),
    ensures
        ({
            let n = value_of(digits);
            let rate = rate_of(input);
            &&& 0 < n * bits <= u64::MAX ==> rate == Ok::<RateMode, Seq<char>>(
                RateMode::Bps((n * bits) as u64),
            )
            &&& n == 0 ==> rate == Err::<RateMode, Seq<char>>("rate must be > 0"@)
            &&& n <= u64::MAX && n * bits > u64::MAX ==> rate == Err::<RateMode, Seq<char>>(
                "rate `"@ + input + "` is too large"@,
            )
            &&& n > u64::MAX ==> rate == Err::<RateMode, Seq<char>>(
                "invalid rate `"@ + input + "`: "@ + "number too large to fit in target type"@,
            )
        }),
{
    reveal_strlit("auto");
    lemma_rate_parts(digits, unit, bits);
    law_numbers_are_read(digits, u64::MAX as nat);
    assert((digits + unit)[0] == digits[0]);
    assert('0' <= digits[0] <= '9');
    assert(digits + unit != "auto"@);
    let n = value_of(digits);
    let b = bits as int;
    assert(n > u64::MAX ==> n * b > u64::MAX) by (nonlinear_arith)
        requires
            b >= 1,
    ;
    assert(n == 0 ==> n * b == 0) by (nonlinear_arith);
    assert(n * b == 0 ==> n == 0) by (nonlinear_arith)
        requires
            b >= 1,
    ;
}

/// The rate is left to the program exactly where it says `auto`, in small letters or capitals and
/// with white space around it or none. Any other rate is a number of a unit.
pub proof fn law_only_rates_are_read(input: Seq<char>)
    ensures
        lower(trim(input)) == "auto"@ <==> rate_of(input) == Ok::<RateMode, Seq<char>>(
            RateMode::Auto,
        ),
        rate_of(input) matches Ok(RateMode::Bps(bps)) ==> exists|
            number: Seq<char>,
            unit: Seq<char>,
            bits: nat,
            base: nat,
        |
            {
                &&& #[trigger] is_unit(unit, bits)
                &&& lower(trim(input)) == #[trigger] (number + unit)
                &&& number_of(number, u64::MAX as nat) == Ok::<nat, NumberError>(base)
                &&& bps == #[trigger] (base * bits)
                &&& bps > 0
            },
{
    let raw = lower(trim(input));
    if let Ok(RateMode::Bps(bps)) = rate_of(input) {
        let (number, bits) = rate_parts(raw);
        let unit = raw.skip(number.len() as int);
        let base = number_of(number, u64::MAX as nat)->Ok_0;
        lemma_has_unit(raw);
        assert(is_unit(unit, bits));
        assert(raw =~= number + unit);
        assert(bps == base * bits);
    }
}

/// That what is behind the number of a rate is a unit.
proof fn lemma_has_unit(raw: Seq<char>)
    ensures
        ({
            let (number, bits) = rate_parts(raw);
            &&& number.len() <= raw.len()
            &&& number == raw.take(number.len() as int)
            &&& is_unit(raw.skip(number.len() as int), bits)
        }),
{
    assert(raw.take(raw.len() as int) =~= raw);
    assert(raw.skip(raw.len() as int) =~= Seq::empty());
}

/// A piece of a list is a stream count if it is a number from one to the greatest that 16 bits
/// hold, with white space around it or none.
pub proof fn law_stream_counts_are_read(piece: Seq<char>)
    requires
        all_digits(trim(piece)),
        trim(piece).len() > 0,
    ensures
        ({
            let n = value_of(trim(piece));
            &&& 1 <= n <= 65_535 ==> stream_of(piece) == Ok::<u16, Seq<char>>(n as u16)
            &&& n == 0 ==> stream_of(piece) == Err::<u16, Seq<char>>("stream count must be >= 1"@)
            &&& n > 65_535 ==> stream_of(piece) == Err::<u16, Seq<char>>(
                "invalid stream count `"@ + piece + "`: "@
                    + "number too large to fit in target type"@,
            )
        }),
{
    law_numbers_are_read(trim(piece), u16::MAX as nat);
}

/// What is read as a stream count is a number that is written there, and not zero.
pub proof fn law_only_stream_counts_are_read(piece: Seq<char>)
    requires
        stream_of(piece) is Ok,
    ensures
        number_of(trim(piece), 65_535) == Ok::<nat, NumberError>(
            stream_of(piece)->Ok_0 as nat,
        ),
        stream_of(piece)->Ok_0 > 0,
{
    law_only_numbers_are_read(trim(piece), u16::MAX as nat);
}

/// A list of stream counts is read if each of its pieces is one, as these in their order. Else it
/// is refused for its first piece that is none.
pub proof fn law_stream_counts_are_read_in_order(list: Seq<Seq<char>>)
    ensures
        match streams_of(list) {
            Ok(counts) => {
                &&& counts.len() == list.len()
                &&& forall|i: int|
                    0 <= i < list.len() ==> stream_of(#[trigger] list[i]) == Ok::<u16, Seq<char>>(
                        counts[i],
                    )
            },
            Err(m) => exists|i: int|
                {
                    &&& 0 <= i < list.len()
                    &&& stream_of(#[trigger] list[i]) == Err::<u16, Seq<char>>(m)
                    &&& forall|k: int| 0 <= k < i ==> stream_of(#[trigger] list[k]) is Ok
                },
        },
    decreases list.len(),
{
    if list.len() > 0 {
        let before = list.drop_last();
        law_stream_counts_are_read_in_order(before);
        match streams_of(before) {
            Err(m) => {
                let i = choose|i: int|
                    {
                        &&& 0 <= i < before.len()
                        &&& stream_of(#[trigger] before[i]) == Err::<u16, Seq<char>>(m)
                        &&& forall|k: int| 0 <= k < i ==> stream_of(#[trigger] before[k]) is Ok
                    };
                assert(list[i] == before[i]);
                assert forall|k: int| 0 <= k < i implies stream_of(#[trigger] list[k]) is Ok by {
                    assert(list[k] == before[k]);
                }
            },
            Ok(counts) => {
                assert forall|k: int| 0 <= k < before.len() implies stream_of(
                    #[trigger] list[k],
                ) == Ok::<u16, Seq<char>>(counts[k]) by {
                    assert(list[k] == before[k]);
                }
                assert(list[list.len() - 1] == list.last());
            },
        }
    }
}

/// A list of rates is read if each of its pieces is one, with white space around it or none, as
/// these in their order. Else it is refused for its first piece that is none.
pub proof fn law_rates_are_read_in_order(list: Seq<Seq<char>>)
    ensures
        match rates_of(list) {
            Ok(rates) => {
                &&& rates.len() == list.len()
                &&& forall|i: int|
                    0 <= i < list.len() ==> rate_of(trim(#[trigger] list[i])) == Ok::<
                        RateMode,
                        Seq<char>,
                    >(rates[i])
            },
            Err(m) => exists|i: int|
                {
                    &&& 0 <= i < list.len()
                    &&& rate_of(trim(#[trigger] list[i])) == Err::<RateMode, Seq<char>>(m)
                    &&& forall|k: int| 0 <= k < i ==> rate_of(trim(#[trigger] list[k])) is Ok
                },
        },
    decreases list.len(),
{
    if list.len() > 0 {
        let before = list.drop_last();
        law_rates_are_read_in_order(before);
        match rates_of(before) {
            Err(m) => {
                let i = choose|i: int|
                    {
                        &&& 0 <= i < before.len()
                        &&& rate_of(trim(#[trigger] before[i])) == Err::<RateMode, Seq<char>>(m)
                        &&& forall|k: int|
                            0 <= k < i ==> rate_of(trim(#[trigger] before[k])) is Ok
                    };
                assert(list[i] == before[i]);
                assert forall|k: int| 0 <= k < i implies rate_of(
                    trim(#[trigger] list[k]),
                ) is Ok by {
                    assert(list[k] == before[k]);
                }
            },
            Ok(rates) => {
                assert forall|k: int| 0 <= k < before.len() implies rate_of(
                    trim(#[trigger] list[k]),
                ) == Ok::<RateMode, Seq<char>>(rates[k]) by {
                    assert(list[k] == before[k]);
                }
                assert(list[list.len() - 1] == list.last());
            },
        }
    }
}

/// A transport is named by `tcp`, `udp` and `quic`, in small letters or capitals, and by nothing
/// else.
pub proof fn law_transports_have_their_names(s: Seq<char>)
    ensures
        lower(s) == "tcp"@ <==> Transport::named(s) == Ok::<Transport, Seq<char>>(Transport::Tcp),
        lower(s) == "udp"@ <==> Transport::named(s) == Ok::<Transport, Seq<char>>(Transport::Udp),
        lower(s) == "quic"@ <==> Transport::named(s) == Ok::<Transport, Seq<char>>(
            Transport::Quic,
        ),
        Transport::Tcp.name() == "tcp"@,
        Transport::Udp.name() == "udp"@,
        Transport::Quic.name() == "quic"@,
        Transport::named(s) matches Err(m) ==> m == "unsupported transport: "@ + s,
{
    reveal_strlit("tcp");
    reveal_strlit("udp");
    reveal_strlit("quic");
    assert("tcp"@[0] != "udp"@[0]);
    assert("tcp"@[0] != "quic"@[0]);
    assert("udp"@[0] != "quic"@[0]);
}

/// A span of time is written from its whole seconds and the nanoseconds beyond them.
pub proof fn law_spans_are_written_in_full(secs: u64, nanos: u32)
    requires
        nanos < 1_000_000_000,
    ensures
        duration_text((secs * 1_000_000_000 + nanos) as u128) == humantime_text(secs, nanos),
{
}

} // verus!
