//! Unsigned integers as little-endian bytes.
use vstd::arithmetic::div_mod::lemma_div_denominator;
use vstd::arithmetic::power::{lemma_pow0, lemma_pow_positive, pow};
use vstd::prelude::*;

verus! {

/// The lowest `n` bytes of `x`, the least significant first.
pub open spec fn le_bytes(x: nat, n: nat) -> Seq<u8>
    decreases n,
{
    if n == 0 {
        Seq::empty()
    } else {
        seq![(x % 256) as u8] + le_bytes(x / 256, (n - 1) as nat)
    }
}

/// The number whose bytes are `s`, the least significant first.
pub open spec fn le_value(s: Seq<u8>) -> nat
    decreases s.len(),
{
    if s.len() == 0 {
        0
    } else {
        s[0] as nat + 256 * le_value(s.drop_first())
    }
}

/// How many numbers `n` bytes can write.
pub open spec fn byte_range(n: nat) -> nat
    decreases n,
{
    if n == 0 {
        1
    } else {
        256 * byte_range((n - 1) as nat)
    }
}

/// The ranges of two, four and eight bytes.
pub proof fn lemma_byte_ranges()
    ensures
        byte_range(2) == 0x1_0000,
        byte_range(4) == 0x1_0000_0000,
        byte_range(8) == 0x1_0000_0000_0000_0000,
{
    reveal_with_fuel(byte_range, 9);
}

/// `n` bytes come out, and they write the number where it fits.
pub proof fn lemma_le_bytes(x: nat, n: nat)
    ensures
        le_bytes(x, n).len() == n,
        x < byte_range(n) ==> le_value(le_bytes(x, n)) == x,
    decreases n,
{
    if n > 0 {
        let m = (n - 1) as nat;
        lemma_le_bytes(x / 256, m);
        assert(le_bytes(x, n).drop_first() =~= le_bytes(x / 256, m));
    }
}

/// The bytes of the number that `s` writes are `s`.
pub proof fn lemma_le_value(s: Seq<u8>)
    ensures
        le_value(s) < byte_range(s.len()),
        le_bytes(le_value(s), s.len()) == s,
    decreases s.len(),
{
    if s.len() > 0 {
        lemma_le_value(s.drop_first());
        let x = le_value(s);
        assert(x % 256 == s[0] && x / 256 == le_value(s.drop_first()));
        assert(le_bytes(x, s.len()) =~= s);
    } else {
        assert(le_bytes(0, 0) =~= s);
    }
}

/// That `n` bytes from a place on write a number, the least significant first: the byte `i` places
/// further on says how often 256 to the `i` goes into it, from none to 255 times.
pub open spec fn has_number(bytes: Seq<u8>, at: int, n: int, x: int) -> bool {
    forall|i: int|
        0 <= i < n ==> #[trigger] bytes[at + i] as int == (x / pow(256, i as nat)) % 256
}

/// The bytes of a number write it, the least significant first.
pub proof fn law_bytes_write_their_number(x: nat, n: nat)
    ensures
        le_bytes(x, n).len() == n,
        has_number(le_bytes(x, n), 0, n as int, x as int),
{
    lemma_le_bytes(x, n);
    assert forall|i: int| 0 <= i < n implies #[trigger] le_bytes(x, n)[0 + i] as int == (x as int
        / pow(256, i as nat)) % 256 by {
        lemma_byte_at(x, n, i as nat);
    }
}

/// That each byte of a number is the one at its place.
proof fn lemma_byte_at(x: nat, n: nat, i: nat)
    requires
        i < n,
    ensures
        le_bytes(x, n).len() == n,
        le_bytes(x, n)[i as int] as int == (x as int / pow(256, i)) % 256,
    decreases n,
{
    lemma_le_bytes(x, n);
    if i == 0 {
        lemma_pow0(256);
    } else {
        let m = (i - 1) as nat;
        lemma_byte_at(x / 256, (n - 1) as nat, m);
        lemma_pow_positive(256, m);
        lemma_div_denominator(x as int, 256, pow(256, m));
        reveal(pow);
        assert(pow(256, i) == 256 * pow(256, m));
    }
}

/// Appends the lowest `n` bytes of `x`.
pub fn push_le(out: &mut Vec<u8>, x: u64, n: usize)
    ensures
        final(out)@ == old(out)@ + le_bytes(x as nat, n as nat),
    decreases n,
{
    if n > 0 {
        out.push((x % 256) as u8);
        push_le(out, x / 256, n - 1);
    }
    assert(out@ =~= old(out)@ + le_bytes(x as nat, n as nat));
}

/// The number that at most eight bytes write.
pub fn read_le(s: &[u8]) -> (r: u64)
    requires
        s@.len() <= 8,
    ensures
        r == le_value(s@),
{
    let n: usize = s.len();
    let mut i: usize = n;
    let mut value: u64 = 0;
    assert(s@.skip(n as int) =~= Seq::empty());
    while i > 0
        invariant
            i <= n,
            n == s@.len(),
            n <= 8,
            value == le_value(s@.skip(i as int)),
        decreases i,
    {
        proof {
            assert(s@.skip(i - 1).drop_first() =~= s@.skip(i as int));
            lemma_le_value(s@.skip(i - 1));
            lemma_range_monotone(s@.skip(i - 1).len(), 8);
            lemma_byte_ranges();
        }
        i = i - 1;
        value = value * 256 + s[i] as u64;
    }
    assert(s@.skip(0) =~= s@);
    value
}

/// More bytes write more numbers.
proof fn lemma_range_monotone(a: nat, b: nat)
    requires
        a <= b,
    ensures
        byte_range(a) <= byte_range(b),
    decreases b - a,
{
    if a < b {
        lemma_range_monotone(a, (b - 1) as nat);
    }
}

} // verus!
