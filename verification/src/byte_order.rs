//! The lexicographic order of byte strings, and the eight-byte prefix that
//! decides most comparisons without reading the strings themselves.

use std::cmp::Ordering;

use vstd::prelude::*;

verus! {

/// `a` stands before `b`, or is `b`, in the lexicographic order of bytes.
pub open spec fn lex_le(a: Seq<u8>, b: Seq<u8>) -> bool
    decreases a.len(),
{
    if a.len() == 0 {
        true
    } else if b.len() == 0 {
        false
    } else if a[0] != b[0] {
        a[0] < b[0]
    } else {
        lex_le(a.drop_first(), b.drop_first())
    }
}

/// `a` stands strictly before `b`.
pub open spec fn lex_lt(a: Seq<u8>, b: Seq<u8>) -> bool {
    lex_le(a, b) && a != b
}

/// Every byte string stands before or at itself.
pub proof fn lex_le_reflexive(a: Seq<u8>)
    ensures
        lex_le(a, a),
    decreases a.len(),
{
    if a.len() > 0 {
        lex_le_reflexive(a.drop_first());
    }
}

/// Two byte strings that stand before each other are the same.
pub proof fn lex_le_antisymmetric(a: Seq<u8>, b: Seq<u8>)
    requires
        lex_le(a, b),
        lex_le(b, a),
    ensures
        a == b,
    decreases a.len(),
{
    if a.len() > 0 && b.len() > 0 {
        lex_le_antisymmetric(a.drop_first(), b.drop_first());
        assert(a =~= seq![a[0]] + a.drop_first());
        assert(b =~= seq![b[0]] + b.drop_first());
    } else {
        assert(a =~= b);
    }
}

/// The order is transitive.
pub proof fn lex_le_transitive(a: Seq<u8>, b: Seq<u8>, c: Seq<u8>)
    requires
        lex_le(a, b),
        lex_le(b, c),
    ensures
        lex_le(a, c),
    decreases a.len(),
{
    if a.len() > 0 && b.len() > 0 && c.len() > 0 && a[0] == b[0] && b[0] == c[0] {
        lex_le_transitive(a.drop_first(), b.drop_first(), c.drop_first());
    }
}

/// Any two byte strings are comparable.
pub proof fn lex_le_total(a: Seq<u8>, b: Seq<u8>)
    ensures
        lex_le(a, b) || lex_le(b, a),
    decreases a.len(),
{
    if a.len() > 0 && b.len() > 0 {
        lex_le_total(a.drop_first(), b.drop_first());
    }
}

/// The order of two strings that agree on their first `d` bytes is the order of
/// what follows.
proof fn lex_le_skip(a: Seq<u8>, b: Seq<u8>, d: int)
    requires
        0 <= d <= a.len(),
        d <= b.len(),
        forall|i: int| 0 <= i < d ==> a[i] == b[i],
    ensures
        lex_le(a, b) == lex_le(a.skip(d), b.skip(d)),
    decreases d,
{
    if d == 0 {
        assert(a.skip(0) =~= a);
        assert(b.skip(0) =~= b);
    } else {
        let x = a.drop_first();
        let y = b.drop_first();
        assert forall|i: int| 0 <= i < d - 1 implies x[i] == y[i] by {
            assert(a[i + 1] == b[i + 1]);
        }
        lex_le_skip(x, y, d - 1);
        assert(x.skip(d - 1) =~= a.skip(d));
        assert(y.skip(d - 1) =~= b.skip(d));
    }
}

/// The number of leading bytes that `a` and `b` share, and what it says of their
/// order.
fn common_prefix_len(a: &[u8], b: &[u8]) -> (d: usize)
    ensures
        d <= a@.len(),
        d <= b@.len(),
        a@.len() == d && b@.len() == d ==> a@ == b@,
        a@.len() == d && d < b@.len() ==> lex_lt(a@, b@),
        b@.len() == d && d < a@.len() ==> lex_lt(b@, a@),
        d < a@.len() && d < b@.len() ==> a@[d as int] != b@[d as int],
        d < a@.len() && d < b@.len() && a@[d as int] < b@[d as int] ==> lex_lt(a@, b@),
        d < a@.len() && d < b@.len() && b@[d as int] < a@[d as int] ==> lex_lt(b@, a@),
{
    let mut d: usize = 0;
    while d < a.len() && d < b.len() && a[d] == b[d]
        invariant
            d <= a@.len(),
            d <= b@.len(),
            forall|i: int| 0 <= i < d ==> a@[i] == b@[i],
        decreases a@.len() - d,
    {
        d = d + 1;
    }
    proof {
        lex_le_skip(a@, b@, d as int);
        lex_le_skip(b@, a@, d as int);
        if a@.len() == d && b@.len() == d {
            assert(a@ =~= b@);
        }
        if d < a@.len() && d < b@.len() {
            assert(a@.skip(d as int)[0] == a@[d as int]);
            assert(b@.skip(d as int)[0] == b@[d as int]);
        }
    }
    d
}

/// How `a` stands to `b` in the lexicographic order of bytes.
pub fn compare_bytes(a: &[u8], b: &[u8]) -> (o: Ordering)
    ensures
        o == Ordering::Less <==> lex_lt(a@, b@),
        o == Ordering::Equal <==> a@ == b@,
        o == Ordering::Greater <==> lex_lt(b@, a@),
{
    let d: usize = common_prefix_len(a, b);
    proof {
        if lex_lt(a@, b@) && lex_lt(b@, a@) {
            lex_le_antisymmetric(a@, b@);
        }
    }
    if d == a.len() && d == b.len() {
        Ordering::Equal
    } else if d == a.len() {
        Ordering::Less
    } else if d == b.len() {
        Ordering::Greater
    } else if a[d] < b[d] {
        Ordering::Less
    } else {
        Ordering::Greater
    }
}

/// Whether two byte strings are the same.
pub fn same_bytes(a: &[u8], b: &[u8]) -> (r: bool)
    ensures
        r == (a@ == b@),
{
    let d: usize = common_prefix_len(a, b);
    d == a.len() && d == b.len()
}

/// The byte of `s` at `i`, or zero behind its end.
pub open spec fn padded(s: Seq<u8>, i: int) -> int {
    if 0 <= i < s.len() {
        s[i] as int
    } else {
        0
    }
}

/// The first `n` bytes of `s`, zeros behind its end, read as a big-endian number.
pub open spec fn prefix_value(s: Seq<u8>, n: nat) -> int
    decreases n,
{
    if n == 0 {
        0
    } else {
        prefix_value(s, (n - 1) as nat) * 256 + padded(s, n - 1)
    }
}

/// 256 to the power `n`.
spec fn pow256(n: nat) -> int
    decreases n,
{
    if n == 0 {
        1
    } else {
        pow256((n - 1) as nat) * 256
    }
}

proof fn prefix_value_bound(s: Seq<u8>, n: nat)
    ensures
        0 <= prefix_value(s, n) < pow256(n),
    decreases n,
{
    if n > 0 {
        prefix_value_bound(s, (n - 1) as nat);
    }
}

/// Where two strings first differ, as padded, decides the order of their
/// prefix values.
proof fn prefix_value_order(a: Seq<u8>, b: Seq<u8>, n: nat)
    ensures
        prefix_value(a, n) < prefix_value(b, n) <==> exists|d: int|
            0 <= d < n && #[trigger] padded(a, d) < padded(b, d) && forall|i: int|
                0 <= i < d ==> #[trigger] padded(a, i) == padded(b, i),
        prefix_value(a, n) == prefix_value(b, n) <==> forall|i: int|
            0 <= i < n ==> #[trigger] padded(a, i) == padded(b, i),
    decreases n,
{
    if n > 0 {
        let m = (n - 1) as nat;
        prefix_value_order(a, b, m);
        prefix_value_order(b, a, m);
        if prefix_value(a, n) < prefix_value(b, n) {
            if prefix_value(a, m) == prefix_value(b, m) {
                assert(padded(a, m as int) < padded(b, m as int));
            }
        }
        if exists|d: int|
            0 <= d < n && #[trigger] padded(a, d) < padded(b, d) && forall|i: int|
                0 <= i < d ==> #[trigger] padded(a, i) == padded(b, i) {
            let d = choose|d: int|
                0 <= d < n && #[trigger] padded(a, d) < padded(b, d) && forall|i: int|
                    0 <= i < d ==> #[trigger] padded(a, i) == padded(b, i);
            if d < m {
                assert(prefix_value(a, m) < prefix_value(b, m));
            } else {
                assert(prefix_value(a, m) == prefix_value(b, m));
            }
        }
        if prefix_value(a, n) == prefix_value(b, n) {
            assert(prefix_value(a, m) == prefix_value(b, m));
        }
    }
}

/// A smaller eight-byte prefix means a strictly smaller byte string, so a prefix
/// may decide a comparison wherever two prefixes differ.
pub proof fn prefix_decides_order(a: Seq<u8>, b: Seq<u8>)
    ensures
        prefix_value(a, 8) < prefix_value(b, 8) ==> lex_lt(a, b),
        a == b ==> prefix_value(a, 8) == prefix_value(b, 8),
{
    if prefix_value(a, 8) < prefix_value(b, 8) {
        prefix_value_order(a, b, 8);
        let d = choose|d: int|
            0 <= d < 8 && #[trigger] padded(a, d) < padded(b, d) && forall|i: int|
                0 <= i < d ==> #[trigger] padded(a, i) == padded(b, i);
        assert(d < b.len());
        let e = if d < a.len() {
            d
        } else {
            a.len() as int
        };
        assert forall|i: int| 0 <= i < e implies a[i] == b[i] by {
            assert(padded(a, i) == padded(b, i));
        }
        lex_le_skip(a, b, e);
        if d < a.len() {
            assert(a.skip(d)[0] == a[d]);
            assert(b.skip(d)[0] == b[d]);
            assert(a[d] != b[d]);
        }
    }
}

/// The first eight bytes of `bytes`, zeros behind its end, as a big-endian
/// number.
pub fn lexical_prefix(bytes: &[u8]) -> (p: u64)
    ensures
        p == prefix_value(bytes@, 8),
{
    let mut p: u64 = 0;
    let mut n: usize = 0;
    while n < 8
        invariant
            n <= 8,
            p == prefix_value(bytes@, n as nat),
        decreases 8 - n,
    {
        let byte: u8 = if n < bytes.len() {
            bytes[n]
        } else {
            0
        };
        proof {
            prefix_value_bound(bytes@, n as nat);
            reveal_with_fuel(pow256, 9);
            assert(pow256(n as nat) <= 0x1_0000_0000_0000_00) by {
                assert(n <= 7);
            }
        }
        p = p * 256 + byte as u64;
        n = n + 1;
    }
    p
}

} // verus!
