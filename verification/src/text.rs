//! Building and reading text: decimal numbers, trimming, splitting, ASCII case.
use vstd::prelude::*;

verus! {

/// The character of a decimal digit.
pub open spec fn digit_char(d: int) -> char {
    (48 + d) as char
}

/// The decimal form of `n`, without leading zeros.
pub open spec fn decimal(n: nat) -> Seq<char>
    decreases n,
{
    if n < 10 {
        seq![digit_char(n as int)]
    } else {
        decimal(n / 10).push(digit_char((n % 10) as int))
    }
}

/// Whether `c` is an ASCII decimal digit.
pub open spec fn is_digit(c: char) -> bool {
    '0' <= c && c <= '9'
}

/// The number that an ASCII decimal digit stands for.
pub open spec fn digit_value(c: char) -> nat {
    (c as int - 48) as nat
}

/// Why a text is no unsigned number of the wanted size.
#[derive(Debug, Clone, Copy, PartialEq, Eq, Structural)]
pub enum NumberError {
    Empty,
    InvalidDigit,
    TooLarge,
}

/// The value of a run of digits, read from the left; the first thing wrong decides the error.
pub open spec fn digits_value(s: Seq<char>, max: nat) -> Result<nat, NumberError>
    decreases s.len(),
{
    if s.len() == 0 {
        Ok(0)
    } else {
        match digits_value(s.drop_last(), max) {
            Err(e) => Err(e),
            Ok(v) => if !is_digit(s.last()) {
                Err(NumberError::InvalidDigit)
            } else if v * 10 + digit_value(s.last()) > max {
                Err(NumberError::TooLarge)
            } else {
                Ok(v * 10 + digit_value(s.last()))
            },
        }
    }
}

/// The unsigned number that `s` writes: digits, after an optional plus sign.
pub open spec fn number_of(s: Seq<char>, max: nat) -> Result<nat, NumberError> {
    if s.len() == 0 {
        Err(NumberError::Empty)
    } else if s.len() == 1 && s[0] == '+' {
        Err(NumberError::InvalidDigit)
    } else if s[0] == '+' {
        digits_value(s.drop_first(), max)
    } else {
        digits_value(s, max)
    }
}

impl NumberError {
    /// What the error says to a reader.
    pub open spec fn message(self) -> Seq<char> {
        match self {
            NumberError::Empty => "cannot parse integer from empty string"@,
            NumberError::InvalidDigit => "invalid digit found in string"@,
            NumberError::TooLarge => "number too large to fit in target type"@,
        }
    }

    /// The text of the error.
    pub fn text(self) -> (r: &'static str)
        ensures
            r@ == self.message(),
    {
        match self {
            NumberError::Empty => "cannot parse integer from empty string",
            NumberError::InvalidDigit => "invalid digit found in string",
            NumberError::TooLarge => "number too large to fit in target type",
        }
    }
}

/// Whether `c` is Unicode white space.
pub open spec fn is_space(c: char) -> bool {
    ||| 0x9 <= c as u32 <= 0xd
    ||| c as u32 == 0x20
    ||| c as u32 == 0x85
    ||| c as u32 == 0xa0
    ||| c as u32 == 0x1680
    ||| 0x2000 <= c as u32 <= 0x200a
    ||| c as u32 == 0x2028
    ||| c as u32 == 0x2029
    ||| c as u32 == 0x202f
    ||| c as u32 == 0x205f
    ||| c as u32 == 0x3000
}

/// `s` without white space at its start.
pub open spec fn trim_start(s: Seq<char>) -> Seq<char>
    decreases s.len(),
{
    if s.len() > 0 && is_space(s.first()) {
        trim_start(s.drop_first())
    } else {
        s
    }
}

/// `s` without white space at its end.
pub open spec fn trim_end(s: Seq<char>) -> Seq<char>
    decreases s.len(),
{
    if s.len() > 0 && is_space(s.last()) {
        trim_end(s.drop_last())
    } else {
        s
    }
}

/// `s` without white space at either end.
pub open spec fn trim(s: Seq<char>) -> Seq<char> {
    trim_end(trim_start(s))
}

/// `c`, or its lower case if it is an ASCII capital.
pub open spec fn lower_char(c: char) -> char {
    if 'A' <= c && c <= 'Z' {
        (c as int + 32) as char
    } else {
        c
    }
}

/// `s` with ASCII capitals in lower case.
pub open spec fn lower(s: Seq<char>) -> Seq<char> {
    s.map_values(|c: char| lower_char(c))
}

/// Whether `s` ends in `suffix`.
pub open spec fn ends_in(s: Seq<char>, suffix: Seq<char>) -> bool {
    suffix.len() <= s.len() && s.skip(s.len() - suffix.len()) == suffix
}

/// The pieces of `s` between its commas: one more than there are commas.
pub open spec fn pieces(s: Seq<char>) -> Seq<Seq<char>>
    decreases s.len(),
{
    if s.len() == 0 {
        seq![Seq::empty()]
    } else {
        let before = pieces(s.drop_last());
        if s.last() == ',' {
            before.push(Seq::empty())
        } else {
            before.drop_last().push(before.last().push(s.last()))
        }
    }
}

/// That a text is made of the digits from zero to nine.
pub open spec fn all_digits(s: Seq<char>) -> bool {
    forall|i: int| 0 <= i < s.len() ==> '0' <= #[trigger] s[i] <= '9'
}

/// The number that digits write: each one counts ten times as much as the one behind it.
pub open spec fn value_of(digits: Seq<char>) -> int {
    digits.fold_left(0int, |before: int, c: char| before * 10 + (c as int - 48))
}

/// That digits write no negative number, and that what they write is read.
proof fn lemma_digits_value(s: Seq<char>, max: nat)
    requires
        all_digits(s),
    ensures
        value_of(s) >= 0,
        value_of(s) <= max ==> digits_value(s, max) == Ok::<nat, NumberError>(value_of(s) as nat),
        value_of(s) > max ==> digits_value(s, max) == Err::<nat, NumberError>(
            NumberError::TooLarge,
        ),
    decreases s.len(),
{
    if s.len() > 0 {
        let before = s.drop_last();
        assert forall|i: int| 0 <= i < before.len() implies '0' <= #[trigger] before[i] <= '9' by {
            assert(before[i] == s[i]);
        }
        lemma_digits_value(before, max);
        assert('0' <= s[s.len() - 1] <= '9');
    }
}

/// Digits, after a plus sign or without one, are read as the number that they write if it is at
/// most `max`, and are too large if it is not. Without digits there is no number.
pub proof fn law_numbers_are_read(s: Seq<char>, max: nat)
    requires
        all_digits(s),
    ensures
        s.len() > 0 && value_of(s) <= max ==> {
            &&& number_of(s, max) == Ok::<nat, NumberError>(value_of(s) as nat)
            &&& number_of(seq!['+'] + s, max) == Ok::<nat, NumberError>(value_of(s) as nat)
        },
        s.len() > 0 && value_of(s) > max ==> {
            &&& number_of(s, max) == Err::<nat, NumberError>(NumberError::TooLarge)
            &&& number_of(seq!['+'] + s, max) == Err::<nat, NumberError>(NumberError::TooLarge)
        },
        s.len() == 0 ==> {
            &&& number_of(s, max) == Err::<nat, NumberError>(NumberError::Empty)
            &&& number_of(seq!['+'] + s, max) == Err::<nat, NumberError>(NumberError::InvalidDigit)
        },
{
    lemma_digits_value(s, max);
    assert((seq!['+'] + s).drop_first() =~= s);
    if s.len() > 0 {
        assert('0' <= s[0] <= '9');
    }
}

/// What is read as a number is that number: digits, after a plus sign or without one, and nothing
/// else.
pub proof fn law_only_numbers_are_read(s: Seq<char>, max: nat)
    requires
        number_of(s, max) is Ok,
    ensures
        ({
            let digits = if s[0] == '+' {
                s.drop_first()
            } else {
                s
            };
            &&& digits.len() > 0
            &&& all_digits(digits)
            &&& number_of(s, max) == Ok::<nat, NumberError>(value_of(digits) as nat)
            &&& 0 <= value_of(digits) <= max
        }),
{
    let digits = if s[0] == '+' {
        s.drop_first()
    } else {
        s
    };
    lemma_read_digits(digits, max);
    lemma_digits_value(digits, max);
}

/// That what is read digit by digit is digits.
proof fn lemma_read_digits(s: Seq<char>, max: nat)
    requires
        digits_value(s, max) is Ok,
    ensures
        all_digits(s),
    decreases s.len(),
{
    if s.len() > 0 {
        lemma_read_digits(s.drop_last(), max);
        assert forall|i: int| 0 <= i < s.len() implies '0' <= #[trigger] s[i] <= '9' by {
            if i < s.len() - 1 {
                assert(s.drop_last()[i] == s[i]);
            }
        }
    }
}

/// The decimal form of a number is the digits that write it, without zeros in front.
pub proof fn law_decimal_writes_its_number(n: nat)
    ensures
        decimal(n).len() > 0,
        all_digits(decimal(n)),
        value_of(decimal(n)) == n,
        n > 0 ==> decimal(n)[0] != '0',
    decreases n,
{
    if n < 10 {
        assert(decimal(n).drop_last() =~= Seq::empty());
        assert(value_of(Seq::empty()) == 0);
    } else {
        law_decimal_writes_its_number(n / 10);
        let before = decimal(n / 10);
        assert(decimal(n).drop_last() =~= before);
        assert forall|i: int| 0 <= i < decimal(n).len() implies '0' <= #[trigger] decimal(n)[i]
            <= '9' by {
            if i < before.len() {
                assert(decimal(n)[i] == before[i]);
            }
        }
    }
}

/// In lower case every capital is the small letter of the same name, and all else is as it was.
pub proof fn law_capitals_become_small(s: Seq<char>, i: int)
    requires
        0 <= i < s.len(),
    ensures
        lower(s).len() == s.len(),
        'A' <= s[i] <= 'Z' ==> lower(s)[i] as int - 'a' as int == s[i] as int - 'A' as int,
        !('A' <= s[i] <= 'Z') ==> lower(s)[i] == s[i],
{
}

/// That a part of a text is what is between white space at its ends.
pub open spec fn is_trimmed(s: Seq<char>, from: int, to: int) -> bool {
    &&& 0 <= from <= to <= s.len()
    &&& forall|k: int| 0 <= k < from ==> is_space(#[trigger] s[k])
    &&& forall|k: int| to <= k < s.len() ==> is_space(#[trigger] s[k])
    &&& from < to ==> !is_space(s[from]) && !is_space(s[to - 1])
}

/// Trimming takes white space off the ends of a text, all of it, and nothing else.
pub proof fn law_trimming_takes_space_off(s: Seq<char>)
    ensures
        exists|from: int, to: int| #[trigger]
            is_trimmed(s, from, to) && trim(s) == s.subrange(from, to),
{
    let from = lemma_trim_start(s);
    let rest = s.skip(from);
    let to = lemma_trim_end(rest);
    assert(rest.take(to) =~= s.subrange(from, from + to));
    assert forall|k: int| from + to <= k < s.len() implies is_space(#[trigger] s[k]) by {
        assert(rest[k - from] == s[k]);
    }
    if to > 0 {
        assert(rest[0] == s[from] && rest[to - 1] == s[from + to - 1]);
    }
    assert(is_trimmed(s, from, from + to));
}

/// That white space is taken off the start.
proof fn lemma_trim_start(s: Seq<char>) -> (from: int)
    ensures
        0 <= from <= s.len(),
        trim_start(s) == s.skip(from),
        forall|k: int| 0 <= k < from ==> is_space(#[trigger] s[k]),
        from < s.len() ==> !is_space(s[from]),
    decreases s.len(),
{
    if s.len() > 0 && is_space(s.first()) {
        let from = lemma_trim_start(s.drop_first());
        assert(s.drop_first().skip(from) =~= s.skip(from + 1));
        assert forall|k: int| 0 <= k < from + 1 implies is_space(#[trigger] s[k]) by {
            if k > 0 {
                assert(s.drop_first()[k - 1] == s[k]);
            }
        }
        from + 1
    } else {
        assert(s.skip(0) =~= s);
        0
    }
}

/// That white space is taken off the end.
proof fn lemma_trim_end(s: Seq<char>) -> (to: int)
    ensures
        0 <= to <= s.len(),
        trim_end(s) == s.take(to),
        forall|k: int| to <= k < s.len() ==> is_space(#[trigger] s[k]),
        0 < to ==> !is_space(s[to - 1]),
    decreases s.len(),
{
    if s.len() > 0 && is_space(s.last()) {
        let to = lemma_trim_end(s.drop_last());
        assert(s.drop_last().take(to) =~= s.take(to));
        assert forall|k: int| to <= k < s.len() implies is_space(#[trigger] s[k]) by {
            if k < s.len() - 1 {
                assert(s.drop_last()[k] == s[k]);
            }
        }
        to
    } else {
        assert(s.take(s.len() as int) =~= s);
        s.len() as int
    }
}

/// Pieces with commas between them.
pub open spec fn with_commas(list: Seq<Seq<char>>) -> Seq<char>
    decreases list.len(),
{
    if list.len() <= 1 {
        list[0]
    } else {
        with_commas(list.drop_last()) + seq![','] + list.last()
    }
}

/// The pieces of a text are the text again with commas between them, and there is no comma in any.
pub proof fn law_pieces_lie_between_commas(s: Seq<char>)
    ensures
        pieces(s).len() > 0,
        with_commas(pieces(s)) == s,
        forall|i: int, k: int|
            0 <= i < pieces(s).len() && 0 <= k < pieces(s)[i].len() ==> #[trigger] pieces(s)[i][k]
                != ',',
    decreases s.len(),
{
    if s.len() == 0 {
        assert(with_commas(pieces(s)) =~= s);
    } else {
        let c = s.last();
        let before = pieces(s.drop_last());
        law_pieces_lie_between_commas(s.drop_last());
        let now = pieces(s);
        if c == ',' {
            assert(now.drop_last() =~= before);
            assert(with_commas(now) =~= s);
        } else {
            assert(now.drop_last() =~= before.drop_last());
            assert(now.last() == before.last().push(c));
            assert(with_commas(before).push(c) =~= s);
            assert(with_commas(now) =~= with_commas(before).push(c));
        }
        assert forall|i: int, k: int|
            0 <= i < now.len() && 0 <= k < now[i].len() implies #[trigger] now[i][k] != ',' by {
            if i < before.len() && k < before[i].len() {
                assert(before[i][k] != ',');
            }
        }
    }
}

/// A digit as text.
fn digit_text(d: u64) -> (r: &'static str)
    requires
        d < 10,
    ensures
        r@ == seq![digit_char(d as int)],
{
    proof {
        reveal_strlit("0");
        reveal_strlit("1");
        reveal_strlit("2");
        reveal_strlit("3");
        reveal_strlit("4");
        reveal_strlit("5");
        reveal_strlit("6");
        reveal_strlit("7");
        reveal_strlit("8");
        reveal_strlit("9");
    }
    match d {
        0 => "0",
        1 => "1",
        2 => "2",
        3 => "3",
        4 => "4",
        5 => "5",
        6 => "6",
        7 => "7",
        8 => "8",
        _ => "9",
    }
}

/// Appends the decimal form of `n`.
pub fn push_decimal(out: &mut String, n: u64)
    ensures
        final(out)@ == old(out)@ + decimal(n as nat),
    decreases n,
{
    if n >= 10 {
        push_decimal(out, n / 10);
    }
    out.append(digit_text(n % 10));
    proof {
        assert(old(out)@ + decimal(n as nat) =~= out@);
    }
}

/// The characters of `s`.
pub fn chars_of(s: &str) -> (r: Vec<char>)
    ensures
        r@ == s@,
{
    let mut out: Vec<char> = Vec::new();
    for c in it: s.chars()
        invariant
            it.seq() == s@,
            out@ == s@.take(it.index()),
    {
        assert(c == it.seq()[it.index()]);
        out.push(c);
    }
    out
}

/// Whether `c` is Unicode white space.
fn space(c: char) -> (r: bool)
    ensures
        r == is_space(c),
{
    let u: u32 = c as u32;
    (0x9 <= u && u <= 0xd) || u == 0x20 || u == 0x85 || u == 0xa0 || u == 0x1680 || (0x2000 <= u
        && u <= 0x200a) || u == 0x2028 || u == 0x2029 || u == 0x202f || u == 0x205f || u == 0x3000
}

/// Where the trimmed part of `s` begins and where it ends.
pub fn trim_bounds(s: &[char]) -> (r: (usize, usize))
    ensures
        r.0 <= r.1 <= s@.len(),
        trim(s@) == s@.subrange(r.0 as int, r.1 as int),
{
    let n: usize = s.len();
    let mut a: usize = 0;
    assert(s@.skip(0) =~= s@);
    while a < n && space(s[a])
        invariant
            a <= n,
            n == s@.len(),
            trim_start(s@) == trim_start(s@.skip(a as int)),
        decreases n - a,
    {
        assert(s@.skip(a as int).drop_first() =~= s@.skip(a + 1));
        a = a + 1;
    }
    let mut b: usize = n;
    assert(s@.skip(a as int) =~= s@.subrange(a as int, n as int));
    while a < b && space(s[b - 1])
        invariant
            a <= b <= n,
            n == s@.len(),
            trim(s@) == trim_end(s@.subrange(a as int, b as int)),
        decreases b - a,
    {
        assert(s@.subrange(a as int, b as int).drop_last() =~= s@.subrange(a as int, b - 1));
        b = b - 1;
    }
    (a, b)
}

/// `s` with ASCII capitals in lower case.
pub fn lowered(s: &[char]) -> (r: Vec<char>)
    ensures
        r@ == lower(s@),
{
    let mut out: Vec<char> = Vec::new();
    let n: usize = s.len();
    let mut i: usize = 0;
    while i < n
        invariant
            i <= n,
            n == s@.len(),
            out@ == lower(s@.take(i as int)),
        decreases n - i,
    {
        let c: char = s[i];
        let low: char = if 'A' <= c && c <= 'Z' {
            ((c as u8) + 32) as char
        } else {
            c
        };
        out.push(low);
        i = i + 1;
        assert(lower(s@.take(i as int)) =~= lower(s@.take(i - 1)).push(low));
    }
    assert(s@.take(n as int) =~= s@);
    out
}

/// Whether `s` holds the characters of `t` and nothing else.
pub fn same_text(s: &[char], t: &str) -> (r: bool)
    ensures
        r == (s@ == t@),
{
    let u: Vec<char> = chars_of(t);
    if s.len() != u.len() {
        return false;
    }
    let n: usize = s.len();
    let mut i: usize = 0;
    while i < n
        invariant
            i <= n,
            n == s@.len(),
            n == u@.len(),
            u@ == t@,
            s@.take(i as int) == u@.take(i as int),
        decreases n - i,
    {
        if s[i] != u[i] {
            return false;
        }
        i = i + 1;
        assert(s@.take(i as int) =~= s@.take(i - 1).push(s@[i - 1]));
        assert(u@.take(i as int) =~= u@.take(i - 1).push(u@[i - 1]));
    }
    assert(s@.take(n as int) =~= s@);
    assert(u@.take(n as int) =~= u@);
    true
}

/// Where the last part of `s` begins that reads `suffix`, if `s` ends in it.
pub fn suffix_start(s: &[char], suffix: &str) -> (r: Option<usize>)
    ensures
        match r {
            Some(at) => ends_in(s@, suffix@) && at == s@.len() - suffix@.len(),
            None => !ends_in(s@, suffix@),
        },
{
    let k: usize = suffix.unicode_len();
    if k > s.len() {
        return None;
    }
    let at: usize = s.len() - k;
    let tail: &[char] = vstd::slice::slice_subrange(s, at, s.len());
    assert(tail@ =~= s@.skip(at as int));
    if same_text(tail, suffix) {
        Some(at)
    } else {
        None
    }
}

/// An unsigned number of at most `max`, after an optional plus sign.
pub fn parse_number(s: &[char], max: u64) -> (r: Result<u64, NumberError>)
    ensures
        match r {
            Ok(v) => number_of(s@, max as nat) == Ok::<nat, NumberError>(v as nat),
            Err(e) => number_of(s@, max as nat) == Err::<nat, NumberError>(e),
        },
{
    let n: usize = s.len();
    if n == 0 {
        return Err(NumberError::Empty);
    }
    let mut start: usize = 0;
    if s[0] == '+' {
        if n == 1 {
            return Err(NumberError::InvalidDigit);
        }
        start = 1;
    }
    let ghost digits = s@.skip(start as int);
    assert(s@.skip(1) =~= s@.drop_first());
    assert(s@.skip(0) =~= s@);
    let mut value: u64 = 0;
    let mut i: usize = start;
    while i < n
        invariant
            start <= i <= n,
            n == s@.len(),
            digits == s@.skip(start as int),
            value <= max,
            number_of(s@, max as nat) == digits_value(digits, max as nat),
            digits_value(digits.take(i - start), max as nat) == Ok::<nat, NumberError>(value as nat),
        decreases n - i,
    {
        let c: char = s[i];
        let ghost next = digits.take(i + 1 - start);
        assert(next.drop_last() =~= digits.take(i - start));
        assert(next.last() == c);
        if !('0' <= c && c <= '9') {
            proof {
                lemma_first_error(digits, i + 1 - start, max as nat);
            }
            return Err(NumberError::InvalidDigit);
        }
        let d: u64 = (c as u32 - 48) as u64;
        if d > max || value > (max - d) / 10 {
            proof {
                lemma_first_error(digits, i + 1 - start, max as nat);
            }
            return Err(NumberError::TooLarge);
        }
        value = value * 10 + d;
        i = i + 1;
    }
    assert(digits.take(n - start) =~= digits);
    Ok(value)
}

/// What goes wrong first in the first digits goes wrong in all of them.
proof fn lemma_first_error(s: Seq<char>, k: int, max: nat)
    requires
        0 <= k <= s.len(),
        digits_value(s.take(k), max) is Err,
    ensures
        digits_value(s, max) == digits_value(s.take(k), max),
    decreases s.len() - k,
{
    if k == s.len() {
        assert(s.take(k) =~= s);
    } else {
        assert(s.take(k + 1).drop_last() =~= s.take(k));
        lemma_first_error(s, k + 1, max);
    }
}

/// Where each piece between the commas of `s` begins and ends.
pub fn piece_bounds(s: &[char]) -> (r: Vec<(usize, usize)>)
    ensures
        r@.len() == pieces(s@).len(),
        forall|i: int|
            0 <= i < r@.len() ==> (#[trigger] r@[i]).0 <= r@[i].1 <= s@.len() && s@.subrange(
                r@[i].0 as int,
                r@[i].1 as int,
            ) == pieces(s@)[i],
{
    let n: usize = s.len();
    let mut out: Vec<(usize, usize)> = Vec::new();
    let mut start: usize = 0;
    let mut i: usize = 0;
    assert(s@.take(0) =~= Seq::empty());
    assert(s@.subrange(0, 0) =~= Seq::empty());
    while i < n
        invariant
            start <= i <= n,
            n == s@.len(),
            pieces(s@.take(i as int)).len() == out@.len() + 1,
            pieces(s@.take(i as int)).last() == s@.subrange(start as int, i as int),
            forall|k: int|
                0 <= k < out@.len() ==> (#[trigger] out@[k]).0 <= out@[k].1 <= n && s@.subrange(
                    out@[k].0 as int,
                    out@[k].1 as int,
                ) == pieces(s@.take(i as int))[k],
        decreases n - i,
    {
        assert(s@.take(i + 1).drop_last() =~= s@.take(i as int));
        if s[i] == ',' {
            out.push((start, i));
            start = i + 1;
            assert(s@.subrange(i + 1, i + 1) =~= Seq::empty());
        } else {
            assert(s@.subrange(start as int, i as int).push(s@[i as int]) =~= s@.subrange(
                start as int,
                i + 1,
            ));
        }
        i = i + 1;
    }
    assert(s@.take(n as int) =~= s@);
    out.push((start, n));
    out
}

} // verus!
