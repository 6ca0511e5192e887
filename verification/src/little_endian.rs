//! Numbers as little-endian bytes.

use vstd::prelude::*;

verus! {

/// The low `n` bytes of `x`, least significant first.
pub open spec fn le_bytes(x: int, n: nat) -> Seq<u8>
    decreases n,
{
    if n == 0 {
        seq![]
    } else {
        seq![(x % 256) as u8] + le_bytes(x / 256, (n - 1) as nat)
    }
}

/// The number whose bytes, least significant first, are `s`.
pub open spec fn le_value(s: Seq<u8>) -> int
    decreases s.len(),
{
    if s.len() == 0 {
        0
    } else {
        s[0] as int + 256 * le_value(s.drop_first())
    }
}

/// One more than the largest number of `n` bytes.
pub open spec fn le_limit(n: nat) -> int
    decreases n,
{
    if n == 0 {
        1
    } else {
        256 * le_limit((n - 1) as nat)
    }
}

pub proof fn le_bytes_len(x: int, n: nat)
    ensures
        le_bytes(x, n).len() == n,
    decreases n,
{
    if n > 0 {
        le_bytes_len(x / 256, (n - 1) as nat);
    }
}

/// A number that fits is read back from its bytes.
pub proof fn le_round_trip(x: int, n: nat)
    requires
        0 <= x < le_limit(n),
    ensures
        le_value(le_bytes(x, n)) == x,
        le_bytes(x, n).len() == n,
    decreases n,
{
    if n > 0 {
        let m = (n - 1) as nat;
        assert(x / 256 < le_limit(m)) by {
            assert(x < 256 * le_limit(m));
        }
        le_round_trip(x / 256, m);
        assert(le_bytes(x, n).drop_first() =~= le_bytes(x / 256, m));
        assert(le_bytes(x, n)[0] == (x % 256) as u8);
    }
}

/// Bytes are read back from the number that they spell.
pub proof fn le_value_round_trip(s: Seq<u8>)
    ensures
        le_bytes(le_value(s), s.len()) == s,
        0 <= le_value(s) < le_limit(s.len()),
    decreases s.len(),
{
    if s.len() > 0 {
        let rest = s.drop_first();
        le_value_round_trip(rest);
        let v = le_value(s);
        assert(v % 256 == s[0] as int && v / 256 == le_value(rest)) by {
            assert(v == s[0] as int + 256 * le_value(rest));
        }
        assert(le_bytes(v, s.len()) =~= s);
    } else {
        assert(le_bytes(0, 0) =~= s);
    }
}

pub proof fn le_limits()
    ensures
        le_limit(2) == 0x1_0000,
        le_limit(4) == 0x1_0000_0000,
        le_limit(8) == 0x1_0000_0000_0000_0000,
{
    reveal_with_fuel(le_limit, 9);
}

/// Appends the low `n` bytes of `x`, least significant first.
pub fn push_le(out: &mut Vec<u8>, x: u64, n: usize)
    ensures
        final(out)@ == old(out)@ + le_bytes(x as int, n as nat),
{
    let mut left: u64 = x;
    let mut i: usize = 0;
    let ghost start = out@;
    assert(out@ + le_bytes(x as int, n as nat) == start + le_bytes(x as int, n as nat));
    while i < n
        invariant
            i <= n,
            out@ + le_bytes(left as int, (n - i) as nat) == start + le_bytes(x as int, n as nat),
        decreases n - i,
    {
        let byte: u8 = (left % 256) as u8;
        let ghost before = out@;
        out.push(byte);
        proof {
            assert(before + le_bytes(left as int, (n - i) as nat) =~= before.push(byte) + le_bytes(
                left as int / 256,
                (n - i - 1) as nat,
            ));
        }
        left = left / 256;
        i = i + 1;
    }
    assert(out@ + le_bytes(left as int, 0) =~= out@);
}

/// The little-endian number in the `n` bytes from `at` on.
pub fn read_le(bytes: &[u8], at: usize, n: usize) -> (x: u64)
    requires
        at + n <= bytes@.len(),
        n <= 8,
    ensures
        x == le_value(bytes@.subrange(at as int, at + n)),
        x < le_limit(n as nat),
{
    let mut x: u64 = 0;
    let mut i: usize = n;
    let end: usize = bytes.len();
    let ghost whole = bytes@.subrange(at as int, at + n);
    while i > 0
        invariant
            i <= n <= 8,
            at + n <= end,
            end == bytes@.len(),
            whole == bytes@.subrange(at as int, at + n),
            x == le_value(whole.skip(i as int)),
            x < le_limit((n - i) as nat),
        decreases i,
    {
        i = i - 1;
        proof {
            reveal_with_fuel(le_limit, 9);
            assert(whole.skip(i as int).drop_first() =~= whole.skip(i + 1));
            le_value_round_trip(whole.skip(i as int));
        }
        x = bytes[at + i] as u64 + 256 * x;
    }
    assert(whole.skip(0) =~= whole);
    x
}

} // verus!
