//! Fixed-width integers stored in byte strings.

use vstd::arithmetic::power::pow;
use vstd::prelude::*;

verus! {

/// The number whose base-256 digits are `s`, least significant digit first.
pub open spec fn le_value(s: Seq<u8>) -> nat
    decreases s.len(),
{
    if s.len() == 0 {
        0
    } else {
        (s[0] as nat) + 256 * le_value(s.drop_first())
    }
}

/// The number whose base-256 digits are `s`, most significant digit first.
pub open spec fn be_value(s: Seq<u8>) -> nat
    decreases s.len(),
{
    if s.len() == 0 {
        0
    } else {
        256 * be_value(s.drop_last()) + (s.last() as nat)
    }
}

/// `n` bytes can be read at `offset`.
pub open spec fn readable(s: Seq<u8>, offset: int, n: int) -> bool {
    0 <= offset && offset + n <= s.len()
}

/// The `n`-byte little-endian number at `offset`.
pub open spec fn le_at(s: Seq<u8>, offset: int, n: int) -> nat {
    le_value(s.subrange(offset, offset + n))
}

/// The `n`-byte big-endian number at `offset`.
pub open spec fn be_at(s: Seq<u8>, offset: int, n: int) -> nat {
    be_value(s.subrange(offset, offset + n))
}

/// `n` base-256 digits stand for a number below `256^n`, in either order.
pub proof fn lemma_value_bound(s: Seq<u8>)
    ensures
        le_value(s) < pow(256, s.len()),
        be_value(s) < pow(256, s.len()),
    decreases s.len(),
{
    reveal(pow);
    if s.len() > 0 {
        lemma_value_bound(s.drop_first());
        lemma_value_bound(s.drop_last());
    }
}

/// The first powers of 256.
pub proof fn lemma_pow256()
    ensures
        pow(256, 0) == 1,
        pow(256, 1) == 0x100,
        pow(256, 2) == 0x1_0000,
        pow(256, 3) == 0x100_0000,
        pow(256, 4) == 0x1_0000_0000,
        pow(256, 5) == 0x100_0000_0000,
        pow(256, 6) == 0x1_0000_0000_0000,
        pow(256, 7) == 0x100_0000_0000_0000,
        pow(256, 8) == 0x1_0000_0000_0000_0000,
{
    reveal(pow);
    assert(pow(256, 0) == 1);
    assert(pow(256, 1) == 256 * pow(256, 0));
    assert(pow(256, 2) == 256 * pow(256, 1));
    assert(pow(256, 3) == 256 * pow(256, 2));
    assert(pow(256, 4) == 256 * pow(256, 3));
    assert(pow(256, 5) == 256 * pow(256, 4));
    assert(pow(256, 6) == 256 * pow(256, 5));
    assert(pow(256, 7) == 256 * pow(256, 6));
    assert(pow(256, 8) == 256 * pow(256, 7));
}

/// `256^n` grows with `n`.
proof fn lemma_pow256_monotonic(a: nat, b: nat)
    requires
        a <= b,
    ensures
        pow(256, a) <= pow(256, b),
{
    vstd::arithmetic::power::lemma_pow_increases(256, a, b);
}

/// Reads the `n`-byte little-endian number at `offset`, where there is one.
pub fn read_le(bytes: &[u8], offset: u64, n: usize) -> (value: Option<u64>)
    requires
        n <= 8,
    ensures
        value is Some <==> readable(bytes@, offset as int, n as int),
        value matches Some(v) ==> v == le_at(bytes@, offset as int, n as int) && v < pow(
            256,
            n as nat,
        ),
{
    if offset > bytes.len() as u64 || bytes.len() as u64 - offset < n as u64 {
        return None;
    }
    let start: usize = offset as usize;
    let mut acc: u64 = 0;
    let mut i: usize = n;
    let ghost end = offset + n;
    proof {
        lemma_pow256();
        assert(bytes@.subrange(end, end).len() == 0);
    }
    while i > 0
        invariant
            i <= n <= 8,
            start == offset,
            offset + n <= usize::MAX,
            end == offset + n,
            end <= bytes@.len(),
            acc == le_value(bytes@.subrange(offset + i, end)),
        decreases i,
    {
        i = i - 1;
        let ghost tail = bytes@.subrange(offset + i, end);
        proof {
            assert(tail.drop_first() =~= bytes@.subrange(offset + i + 1, end));
            assert(tail[0] == bytes@[offset + i]);
            lemma_value_bound(tail);
            lemma_pow256();
            lemma_pow256_monotonic(tail.len(), 8);
        }
        acc = acc * 256 + bytes[start + i] as u64;
    }
    proof {
        lemma_value_bound(bytes@.subrange(offset as int, end));
    }
    Some(acc)
}

/// Reads the `n`-byte big-endian number at `offset`, where there is one.
pub fn read_be(bytes: &[u8], offset: u64, n: usize) -> (value: Option<u64>)
    requires
        n <= 8,
    ensures
        value is Some <==> readable(bytes@, offset as int, n as int),
        value matches Some(v) ==> v == be_at(bytes@, offset as int, n as int) && v < pow(
            256,
            n as nat,
        ),
{
    if offset > bytes.len() as u64 || bytes.len() as u64 - offset < n as u64 {
        return None;
    }
    let start: usize = offset as usize;
    let mut acc: u64 = 0;
    let mut i: usize = 0;
    proof {
        lemma_pow256();
        assert(bytes@.subrange(offset as int, offset as int).len() == 0);
    }
    while i < n
        invariant
            i <= n <= 8,
            start == offset,
            offset + n <= usize::MAX,
            offset + n <= bytes@.len(),
            acc == be_value(bytes@.subrange(offset as int, offset + i)),
        decreases n - i,
    {
        let ghost head = bytes@.subrange(offset as int, offset + i + 1);
        proof {
            assert(head.drop_last() =~= bytes@.subrange(offset as int, offset + i));
            assert(head.last() == bytes@[offset + i]);
            lemma_value_bound(head);
            lemma_pow256();
            lemma_pow256_monotonic(head.len(), 8);
        }
        acc = acc * 256 + bytes[start + i] as u64;
        i = i + 1;
    }
    proof {
        lemma_value_bound(bytes@.subrange(offset as int, offset + n));
    }
    Some(acc)
}

/// Whether two byte strings are equal.
pub fn same_bytes(a: &[u8], b: &[u8]) -> (same: bool)
    ensures
        same == (a@ == b@),
{
    a.len() == b.len() && has_prefix(a, b)
}

/// Whether `s` starts with `prefix`.
pub fn has_prefix(s: &[u8], prefix: &[u8]) -> (found: bool)
    ensures
        found == prefix@.is_prefix_of(s@),
        s@.len() == prefix@.len() ==> found == (s@ == prefix@),
{
    if s.len() < prefix.len() {
        return false;
    }
    let mut i: usize = 0;
    while i < prefix.len()
        invariant
            i <= prefix@.len() <= s@.len(),
            forall|j: int| 0 <= j < i ==> s@[j] == prefix@[j],
        decreases prefix@.len() - i,
    {
        if s[i] != prefix[i] {
            assert(s@.subrange(0, prefix@.len() as int)[i as int] != prefix@[i as int]);
            return false;
        }
        i = i + 1;
    }
    assert(prefix@ =~= s@.subrange(0, prefix@.len() as int));
    assert(s@.len() == prefix@.len() ==> s@ =~= prefix@);
    true
}

} // verus!
