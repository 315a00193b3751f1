//! Numbers at fixed places of a message, byte by byte.

use vstd::prelude::*;

use crate::bytes::{be, from_be, from_le, le, lemma_pow256_values, pow256};

verus! {

/// The 16-bit number at `i`, most significant byte first.
pub open spec fn be16_at(s: Seq<u8>, i: int) -> int {
    s[i] * 0x100 + s[i + 1]
}

/// The 32-bit number at `i`, most significant byte first.
pub open spec fn be32_at(s: Seq<u8>, i: int) -> int {
    s[i] * 0x100_0000 + s[i + 1] * 0x1_0000 + s[i + 2] * 0x100 + s[i + 3]
}

/// The 64-bit number at `i`, most significant byte first.
pub open spec fn be64_at(s: Seq<u8>, i: int) -> int {
    be32_at(s, i) * 0x1_0000_0000 + be32_at(s, i + 4)
}

/// The 16-bit number at `i`, least significant byte first.
pub open spec fn le16_at(s: Seq<u8>, i: int) -> int {
    s[i] + s[i + 1] * 0x100
}

/// The 32-bit number at `i`, least significant byte first.
pub open spec fn le32_at(s: Seq<u8>, i: int) -> int {
    s[i] + s[i + 1] * 0x100 + s[i + 2] * 0x1_0000 + s[i + 3] * 0x100_0000
}

/// The 64-bit number at `i`, least significant byte first.
pub open spec fn le64_at(s: Seq<u8>, i: int) -> int {
    le32_at(s, i) + le32_at(s, i + 4) * 0x1_0000_0000
}

/// Whether `part` stands at `i`.
pub open spec fn stands_at(s: Seq<u8>, i: int, part: Seq<u8>) -> bool {
    0 <= i && i + part.len() <= s.len() && forall|j: int|
        0 <= j < part.len() ==> #[trigger] part[j] == s[i + j]
}

/// Whether all of `n` bytes from `i` on are `b`.
pub open spec fn filled_with(s: Seq<u8>, i: int, n: int, b: u8) -> bool {
    0 <= i && i + n <= s.len() && forall|j: int| i <= j < i + n ==> #[trigger] s[j] == b
}

proof fn lemma_be_mod(v: nat, n: nat)
    ensures
        from_be(be(v, n)) == v % pow256(n),
        be(v, n).len() == n,
    decreases n,
{
    if n > 0 {
        lemma_be_mod(v / 256, (n - 1) as nat);
        assert(be(v, n).drop_last() =~= be(v / 256, (n - 1) as nat));
        lemma_pow256_pos((n - 1) as nat);
        lemma_mod_step(v, pow256((n - 1) as nat));
    }
}

proof fn lemma_le_mod(v: nat, n: nat)
    ensures
        from_le(le(v, n)) == v % pow256(n),
        le(v, n).len() == n,
    decreases n,
{
    if n > 0 {
        lemma_le_mod(v / 256, (n - 1) as nat);
        assert(le(v, n).skip(1) =~= le(v / 256, (n - 1) as nat));
        lemma_pow256_pos((n - 1) as nat);
        lemma_mod_step(v, pow256((n - 1) as nat));
    }
}

proof fn lemma_pow256_pos(n: nat)
    ensures
        pow256(n) > 0,
    decreases n,
{
    if n > 0 {
        lemma_pow256_pos((n - 1) as nat);
    }
}

proof fn lemma_mod_step(v: nat, p: nat)
    requires
        p > 0,
    ensures
        ((v / 256) % p) * 256 + v % 256 == v % (256 * p),
{
    vstd::arithmetic::div_mod::lemma_breakdown(v as int, 256, p as int);
}

/// What 2 bytes spell, most significant byte first.
pub proof fn lemma_read_be16(s: Seq<u8>, i: int)
    requires
        0 <= i,
        i + 2 <= s.len(),
    ensures
        from_be(s.subrange(i, i + 2)) == be16_at(s, i),
        0 <= be16_at(s, i) < 0x1_0000,
{
    let t = s.subrange(i, i + 2);
    reveal_with_fuel(from_be, 3);
    assert(t.last() == s[i + 1]);
    assert(t.drop_last() =~= t.take(1));
    assert(t.take(1).last() == s[i + 0]);
    assert(t.take(1).drop_last() =~= t.take(0));
}

/// A number written in 2 bytes, most significant byte first.
pub proof fn lemma_wrote_be16(s: Seq<u8>, i: int, v: nat)
    requires
        0 <= i,
        i + 2 <= s.len(),
        s.subrange(i, i + 2) == be(v, 2),
    ensures
        be16_at(s, i) == v % 0x1_0000,
{
    lemma_read_be16(s, i);
    lemma_be_mod(v, 2);
    lemma_pow256_values();
}

/// What 4 bytes spell, most significant byte first.
pub proof fn lemma_read_be32(s: Seq<u8>, i: int)
    requires
        0 <= i,
        i + 4 <= s.len(),
    ensures
        from_be(s.subrange(i, i + 4)) == be32_at(s, i),
        0 <= be32_at(s, i) < 0x1_0000_0000,
{
    let t = s.subrange(i, i + 4);
    reveal_with_fuel(from_be, 5);
    assert(t.last() == s[i + 3]);
    assert(t.drop_last() =~= t.take(3));
    assert(t.take(3).last() == s[i + 2]);
    assert(t.take(3).drop_last() =~= t.take(2));
    assert(t.take(2).last() == s[i + 1]);
    assert(t.take(2).drop_last() =~= t.take(1));
    assert(t.take(1).last() == s[i + 0]);
    assert(t.take(1).drop_last() =~= t.take(0));
}

/// A number written in 4 bytes, most significant byte first.
pub proof fn lemma_wrote_be32(s: Seq<u8>, i: int, v: nat)
    requires
        0 <= i,
        i + 4 <= s.len(),
        s.subrange(i, i + 4) == be(v, 4),
    ensures
        be32_at(s, i) == v % 0x1_0000_0000,
{
    lemma_read_be32(s, i);
    lemma_be_mod(v, 4);
    lemma_pow256_values();
}

/// What 8 bytes spell, most significant byte first.
pub proof fn lemma_read_be64(s: Seq<u8>, i: int)
    requires
        0 <= i,
        i + 8 <= s.len(),
    ensures
        from_be(s.subrange(i, i + 8)) == be64_at(s, i),
        0 <= be64_at(s, i) < 0x1_0000_0000_0000_0000,
{
    let t = s.subrange(i, i + 8);
    reveal_with_fuel(from_be, 9);
    assert(t.last() == s[i + 7]);
    assert(t.drop_last() =~= t.take(7));
    assert(t.take(7).last() == s[i + 6]);
    assert(t.take(7).drop_last() =~= t.take(6));
    assert(t.take(6).last() == s[i + 5]);
    assert(t.take(6).drop_last() =~= t.take(5));
    assert(t.take(5).last() == s[i + 4]);
    assert(t.take(5).drop_last() =~= t.take(4));
    assert(t.take(4).last() == s[i + 3]);
    assert(t.take(4).drop_last() =~= t.take(3));
    assert(t.take(3).last() == s[i + 2]);
    assert(t.take(3).drop_last() =~= t.take(2));
    assert(t.take(2).last() == s[i + 1]);
    assert(t.take(2).drop_last() =~= t.take(1));
    assert(t.take(1).last() == s[i + 0]);
    assert(t.take(1).drop_last() =~= t.take(0));
}

/// A number written in 8 bytes, most significant byte first.
pub proof fn lemma_wrote_be64(s: Seq<u8>, i: int, v: nat)
    requires
        0 <= i,
        i + 8 <= s.len(),
        s.subrange(i, i + 8) == be(v, 8),
    ensures
        be64_at(s, i) == v % 0x1_0000_0000_0000_0000,
{
    lemma_read_be64(s, i);
    lemma_be_mod(v, 8);
    lemma_pow256_values();
}

/// What 2 bytes spell, least significant byte first.
pub proof fn lemma_read_le16(s: Seq<u8>, i: int)
    requires
        0 <= i,
        i + 2 <= s.len(),
    ensures
        from_le(s.subrange(i, i + 2)) == le16_at(s, i),
        0 <= le16_at(s, i) < 0x1_0000,
{
    let t = s.subrange(i, i + 2);
    reveal_with_fuel(from_le, 3);
    assert(t[0] == s[i + 0]);
    assert(t.skip(1) =~= t.skip(1));
    assert(t.skip(1)[0] == s[i + 1]);
    assert(t.skip(1).skip(1) =~= t.skip(2));
}

/// A number written in 2 bytes, least significant byte first.
pub proof fn lemma_wrote_le16(s: Seq<u8>, i: int, v: nat)
    requires
        0 <= i,
        i + 2 <= s.len(),
        s.subrange(i, i + 2) == le(v, 2),
    ensures
        le16_at(s, i) == v % 0x1_0000,
{
    lemma_read_le16(s, i);
    lemma_le_mod(v, 2);
    lemma_pow256_values();
}

/// What 4 bytes spell, least significant byte first.
pub proof fn lemma_read_le32(s: Seq<u8>, i: int)
    requires
        0 <= i,
        i + 4 <= s.len(),
    ensures
        from_le(s.subrange(i, i + 4)) == le32_at(s, i),
        0 <= le32_at(s, i) < 0x1_0000_0000,
{
    let t = s.subrange(i, i + 4);
    reveal_with_fuel(from_le, 5);
    assert(t[0] == s[i + 0]);
    assert(t.skip(1) =~= t.skip(1));
    assert(t.skip(1)[0] == s[i + 1]);
    assert(t.skip(1).skip(1) =~= t.skip(2));
    assert(t.skip(2)[0] == s[i + 2]);
    assert(t.skip(2).skip(1) =~= t.skip(3));
    assert(t.skip(3)[0] == s[i + 3]);
    assert(t.skip(3).skip(1) =~= t.skip(4));
}

/// A number written in 4 bytes, least significant byte first.
pub proof fn lemma_wrote_le32(s: Seq<u8>, i: int, v: nat)
    requires
        0 <= i,
        i + 4 <= s.len(),
        s.subrange(i, i + 4) == le(v, 4),
    ensures
        le32_at(s, i) == v % 0x1_0000_0000,
{
    lemma_read_le32(s, i);
    lemma_le_mod(v, 4);
    lemma_pow256_values();
}

/// What 8 bytes spell, least significant byte first.
pub proof fn lemma_read_le64(s: Seq<u8>, i: int)
    requires
        0 <= i,
        i + 8 <= s.len(),
    ensures
        from_le(s.subrange(i, i + 8)) == le64_at(s, i),
        0 <= le64_at(s, i) < 0x1_0000_0000_0000_0000,
{
    let t = s.subrange(i, i + 8);
    reveal_with_fuel(from_le, 9);
    assert(t[0] == s[i + 0]);
    assert(t.skip(1) =~= t.skip(1));
    assert(t.skip(1)[0] == s[i + 1]);
    assert(t.skip(1).skip(1) =~= t.skip(2));
    assert(t.skip(2)[0] == s[i + 2]);
    assert(t.skip(2).skip(1) =~= t.skip(3));
    assert(t.skip(3)[0] == s[i + 3]);
    assert(t.skip(3).skip(1) =~= t.skip(4));
    assert(t.skip(4)[0] == s[i + 4]);
    assert(t.skip(4).skip(1) =~= t.skip(5));
    assert(t.skip(5)[0] == s[i + 5]);
    assert(t.skip(5).skip(1) =~= t.skip(6));
    assert(t.skip(6)[0] == s[i + 6]);
    assert(t.skip(6).skip(1) =~= t.skip(7));
    assert(t.skip(7)[0] == s[i + 7]);
    assert(t.skip(7).skip(1) =~= t.skip(8));
}

/// A number written in 8 bytes, least significant byte first.
pub proof fn lemma_wrote_le64(s: Seq<u8>, i: int, v: nat)
    requires
        0 <= i,
        i + 8 <= s.len(),
        s.subrange(i, i + 8) == le(v, 8),
    ensures
        le64_at(s, i) == v % 0x1_0000_0000_0000_0000,
{
    lemma_read_le64(s, i);
    lemma_le_mod(v, 8);
    lemma_pow256_values();
}

} // verus!
