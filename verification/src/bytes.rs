//! Byte-level building blocks: fixed-width integers, decimal text, and copying
//! into caller-owned buffers.

use vstd::prelude::*;

verus! {

/// `256` to the power `n`.
pub open spec fn pow256(n: nat) -> nat
    decreases n,
{
    if n == 0 {
        1
    } else {
        256 * pow256((n - 1) as nat)
    }
}

/// The low `n` bytes of `v`, most significant first.
pub open spec fn be(v: nat, n: nat) -> Seq<u8>
    decreases n,
{
    if n == 0 {
        Seq::empty()
    } else {
        be(v / 256, (n - 1) as nat).push((v % 256) as u8)
    }
}

/// The number that `s` spells, most significant byte first.
pub open spec fn from_be(s: Seq<u8>) -> nat
    decreases s.len(),
{
    if s.len() == 0 {
        0
    } else {
        from_be(s.drop_last()) * 256 + s.last() as nat
    }
}

/// The low `n` bytes of `v`, least significant first.
pub open spec fn le(v: nat, n: nat) -> Seq<u8>
    decreases n,
{
    if n == 0 {
        Seq::empty()
    } else {
        seq![(v % 256) as u8] + le(v / 256, (n - 1) as nat)
    }
}

/// The number that `s` spells, least significant byte first.
pub open spec fn from_le(s: Seq<u8>) -> nat
    decreases s.len(),
{
    if s.len() == 0 {
        0
    } else {
        s[0] as nat + 256 * from_le(s.skip(1))
    }
}

/// `n` copies of `b`.
pub open spec fn run(b: u8, n: nat) -> Seq<u8> {
    Seq::new(n, |i: int| b)
}

/// `out` with `src` written over its first bytes.
pub open spec fn overlay(out: Seq<u8>, src: Seq<u8>) -> Seq<u8> {
    src + out.skip(src.len() as int)
}

pub proof fn lemma_be_len(v: nat, n: nat)
    ensures
        be(v, n).len() == n,
    decreases n,
{
    if n > 0 {
        lemma_be_len(v / 256, (n - 1) as nat);
    }
}

pub proof fn lemma_le_len(v: nat, n: nat)
    ensures
        le(v, n).len() == n,
    decreases n,
{
    if n > 0 {
        lemma_le_len(v / 256, (n - 1) as nat);
    }
}

proof fn lemma_from_be_bound(s: Seq<u8>)
    ensures
        from_be(s) < pow256(s.len()),
    decreases s.len(),
{
    if s.len() > 0 {
        lemma_from_be_bound(s.drop_last());
    }
}

proof fn lemma_from_le_bound(s: Seq<u8>)
    ensures
        from_le(s) < pow256(s.len()),
    decreases s.len(),
{
    if s.len() > 0 {
        lemma_from_le_bound(s.skip(1));
    }
}

pub proof fn lemma_pow256_values()
    ensures
        pow256(0) == 1,
        pow256(1) == 0x100,
        pow256(2) == 0x1_0000,
        pow256(3) == 0x100_0000,
        pow256(4) == 0x1_0000_0000,
        pow256(5) == 0x100_0000_0000,
        pow256(6) == 0x1_0000_0000_0000,
        pow256(7) == 0x100_0000_0000_0000,
        pow256(8) == 0x1_0000_0000_0000_0000,
{
    reveal_with_fuel(pow256, 9);
}

/// Reading back a big-endian number gives the number that was written, whenever
/// it fits in the width.
pub proof fn lemma_be_round_trip(v: nat, n: nat)
    requires
        v < pow256(n),
    ensures
        from_be(be(v, n)) == v,
        be(v, n).len() == n,
    decreases n,
{
    if n > 0 {
        lemma_be_round_trip(v / 256, (n - 1) as nat);
        assert(be(v, n).drop_last() =~= be(v / 256, (n - 1) as nat));
    }
}

/// Reading back a little-endian number gives the number that was written,
/// whenever it fits in the width.
pub proof fn lemma_le_round_trip(v: nat, n: nat)
    requires
        v < pow256(n),
    ensures
        from_le(le(v, n)) == v,
        le(v, n).len() == n,
    decreases n,
{
    if n > 0 {
        lemma_le_round_trip(v / 256, (n - 1) as nat);
        assert(le(v, n).skip(1) =~= le(v / 256, (n - 1) as nat));
    }
}

/// Writing the number that little-endian bytes spell gives the bytes back.
pub proof fn lemma_le_inverse(s: Seq<u8>)
    ensures
        le(from_le(s), s.len()) == s,
    decreases s.len(),
{
    if s.len() > 0 {
        lemma_le_inverse(s.skip(1));
        assert(seq![s[0]] + s.skip(1) =~= s);
    }
}

/// Appends the low `n` bytes of `v`, most significant first.
pub fn push_be(out: &mut Vec<u8>, v: u64, n: usize)
    ensures
        final(out)@ == old(out)@ + be(v as nat, n as nat),
    decreases n,
{
    if n > 0 {
        push_be(out, v / 256, n - 1);
        out.push((v % 256) as u8);
    }
    assert(out@ =~= old(out)@ + be(v as nat, n as nat));
}

/// Appends the low `n` bytes of `v`, least significant first.
pub fn push_le(out: &mut Vec<u8>, v: u64, n: usize)
    ensures
        final(out)@ == old(out)@ + le(v as nat, n as nat),
    decreases n,
{
    if n > 0 {
        out.push((v % 256) as u8);
        push_le(out, v / 256, n - 1);
    }
    assert(out@ =~= old(out)@ + le(v as nat, n as nat));
}

/// Appends `n` copies of `b`.
pub fn push_run(out: &mut Vec<u8>, b: u8, n: usize)
    ensures
        final(out)@ == old(out)@ + run(b, n as nat),
{
    let mut i: usize = 0;
    while i < n
        invariant
            i <= n,
            out@ == old(out)@ + run(b, i as nat),
        decreases n - i,
    {
        out.push(b);
        i = i + 1;
        assert(out@ =~= old(out)@ + run(b, i as nat));
    }
    assert(out@ =~= old(out)@ + run(b, n as nat));
}

/// Appends `src`.
pub fn push_all(out: &mut Vec<u8>, src: &[u8])
    ensures
        final(out)@ == old(out)@ + src@,
{
    let mut i: usize = 0;
    while i < src.len()
        invariant
            i <= src@.len(),
            out@ == old(out)@ + src@.take(i as int),
        decreases src@.len() - i,
    {
        out.push(src[i]);
        i = i + 1;
        assert(out@ =~= old(out)@ + src@.take(i as int));
    }
    assert(src@.take(i as int) =~= src@);
}

/// A copy of `src`.
pub fn to_vec(src: &[u8]) -> (r: Vec<u8>)
    ensures
        r@ == src@,
{
    let mut out: Vec<u8> = Vec::new();
    push_all(&mut out, src);
    assert(out@ =~= src@);
    out
}

/// Reads `n` bytes of `buf` starting at `at` as a big-endian number.
pub fn read_be(buf: &[u8], at: usize, n: usize) -> (r: u64)
    requires
        n <= 8,
        at + n <= buf.len(),
    ensures
        r == from_be(buf@.subrange(at as int, at + n)),
        r < pow256(n as nat),
    decreases n,
{
    let ghost s = buf@.subrange(at as int, at + n);
    proof {
        lemma_from_be_bound(s);
        lemma_pow256_values();
    }
    if n == 0 {
        return 0;
    }
    let hi: u64 = read_be(buf, at, n - 1);
    assert(s.drop_last() =~= buf@.subrange(at as int, at + n - 1));
    hi * 256 + buf[at + n - 1] as u64
}

/// Reads `n` bytes of `buf` starting at `at` as a little-endian number.
pub fn read_le(buf: &[u8], at: usize, n: usize) -> (r: u64)
    requires
        n <= 8,
        at + n <= buf.len(),
    ensures
        r == from_le(buf@.subrange(at as int, at + n)),
        r < pow256(n as nat),
    decreases n,
{
    let ghost s = buf@.subrange(at as int, at + n);
    proof {
        lemma_from_le_bound(s);
        lemma_pow256_values();
    }
    if n == 0 {
        return 0;
    }
    let hi: u64 = read_le(buf, at + 1, n - 1);
    assert(s.skip(1) =~= buf@.subrange(at + 1, at + n));
    buf[at] as u64 + 256 * hi
}

/// Reads a big-endian 32-bit number.
pub fn read_be32(buf: &[u8], at: usize) -> (r: u32)
    requires
        at + 4 <= buf.len(),
    ensures
        r == from_be(buf@.subrange(at as int, at + 4)),
{
    proof {
        lemma_pow256_values();
    }
    read_be(buf, at, 4) as u32
}

/// Reads a little-endian 32-bit number.
pub fn read_le32(buf: &[u8], at: usize) -> (r: u32)
    requires
        at + 4 <= buf.len(),
    ensures
        r == from_le(buf@.subrange(at as int, at + 4)),
{
    proof {
        lemma_pow256_values();
    }
    read_le(buf, at, 4) as u32
}

/// Writes `src` over the bytes of `out` that start at `at`.
pub fn put_at(out: &mut [u8], at: usize, src: &[u8])
    requires
        at + src@.len() <= old(out).len(),
    ensures
        final(out)@ == old(out)@.take(at as int) + src@ + old(out)@.skip(at + src@.len()),
{
    let mut i: usize = 0;
    while i < src.len()
        invariant
            i <= src@.len(),
            at + src@.len() <= out.len(),
            out@.len() == old(out)@.len(),
            forall|k: int| 0 <= k < out@.len() ==> out@[k] == (if at <= k < at + i {
                src@[k - at]
            } else {
                old(out)@[k]
            }),
        decreases src@.len() - i,
    {
        out[at + i] = src[i];
        i = i + 1;
    }
    assert(out@ =~= old(out)@.take(at as int) + src@ + old(out)@.skip(at + src@.len()));
}

/// Writes `src` over the first bytes of `out`.
pub fn put(out: &mut [u8], src: &[u8])
    requires
        src@.len() <= old(out)@.len(),
    ensures
        final(out)@ == overlay(old(out)@, src@),
{
    put_at(out, 0, src);
    assert(out@ =~= overlay(old(out)@, src@));
}

/// Whether two byte strings are the same.
pub fn same(a: &[u8], b: &[u8]) -> (r: bool)
    ensures
        r == (a@ == b@),
{
    if a.len() != b.len() {
        return false;
    }
    let mut i: usize = 0;
    while i < a.len()
        invariant
            i <= a@.len() == b@.len(),
            a@.take(i as int) == b@.take(i as int),
        decreases a@.len() - i,
    {
        if a[i] != b[i] {
            assert(a@[i as int] != b@[i as int]);
            return false;
        }
        i = i + 1;
        assert(a@.take(i as int) =~= b@.take(i as int)) by {
            assert forall|k: int| 0 <= k < i implies a@[k] == b@[k] by {
                if k < i - 1 {
                    assert(a@.take(i - 1)[k] == b@.take(i - 1)[k]);
                }
            }
        }
    }
    assert(a@.take(i as int) =~= a@);
    assert(b@.take(i as int) =~= b@);
    true
}

/// `v` in decimal digits, without leading zeros.
pub open spec fn decimal(v: nat) -> Seq<u8>
    decreases v,
{
    if v < 10 {
        seq![(48 + v) as u8]
    } else {
        decimal(v / 10).push((48 + v % 10) as u8)
    }
}

/// `v` in decimal, with a leading minus sign when it is negative.
pub open spec fn signed_decimal(v: int) -> Seq<u8> {
    if v < 0 {
        seq![45u8] + decimal((-v) as nat)
    } else {
        decimal(v as nat)
    }
}

/// Whether every byte of `s` is an ASCII digit.
pub open spec fn all_digits(s: Seq<u8>) -> bool {
    forall|i: int| 0 <= i < s.len() ==> 48 <= #[trigger] s[i] <= 57
}

/// The number that the digits `s` spell.
pub open spec fn digits_value(s: Seq<u8>) -> nat
    decreases s.len(),
{
    if s.len() == 0 {
        0
    } else {
        digits_value(s.drop_last()) * 10 + (s.last() - 48) as nat
    }
}

/// The digits of a number, behind an optional plus sign.
pub open spec fn unsigned_digits(s: Seq<u8>) -> Seq<u8> {
    if s.len() > 0 && s[0] == 43 {
        s.skip(1)
    } else {
        s
    }
}

/// The 64-bit number that `s` spells: digits behind an optional plus sign.
pub open spec fn unsigned(s: Seq<u8>) -> Option<u64> {
    let d = unsigned_digits(s);
    if d.len() == 0 || !all_digits(d) || digits_value(d) > u64::MAX {
        None
    } else {
        Some(digits_value(d) as u64)
    }
}

/// Appends `v` in decimal.
pub fn push_decimal(out: &mut Vec<u8>, v: u64)
    ensures
        final(out)@ == old(out)@ + decimal(v as nat),
    decreases v,
{
    if v >= 10 {
        push_decimal(out, v / 10);
        out.push(48 + (v % 10) as u8);
    } else {
        out.push(48 + v as u8);
    }
    assert(out@ =~= old(out)@ + decimal(v as nat));
}

/// `v` in decimal.
pub fn decimal_text(v: u64) -> (r: Vec<u8>)
    ensures
        r@ == decimal(v as nat),
{
    let mut out: Vec<u8> = Vec::new();
    push_decimal(&mut out, v);
    assert(out@ =~= decimal(v as nat));
    out
}

proof fn lemma_digits_monotone(s: Seq<u8>, i: int)
    requires
        0 <= i <= s.len(),
        all_digits(s.take(i)),
        all_digits(s),
    ensures
        digits_value(s.take(i)) <= digits_value(s),
    decreases s.len() - i,
{
    if i < s.len() {
        let t = s.take(i + 1);
        assert(all_digits(t)) by {
            assert forall|k: int| 0 <= k < t.len() implies 48 <= #[trigger] t[k] <= 57 by {
                assert(t[k] == s[k]);
            }
        }
        lemma_digits_monotone(s, i + 1);
        assert(t.drop_last() =~= s.take(i));
    } else {
        assert(s.take(i) =~= s);
    }
}

/// Parses decimal digits, behind an optional plus sign, as a 64-bit number.
pub fn parse_u64(s: &[u8]) -> (r: Option<u64>)
    ensures
        r == unsigned(s@),
{
    let start: usize = if s.len() > 0 && s[0] == 43 { 1 } else { 0 };
    let ghost d = unsigned_digits(s@);
    assert(d =~= s@.skip(start as int));
    if start == s.len() {
        return None;
    }
    let mut i: usize = start;
    let mut v: u64 = 0;
    let mut over: bool = false;
    while i < s.len()
        invariant
            start <= i <= s@.len(),
            d == s@.skip(start as int),
            d == unsigned_digits(s@),
            all_digits(d.take(i - start)),
            !over ==> v == digits_value(d.take(i - start)),
            over ==> digits_value(d.take(i - start)) > u64::MAX,
        decreases s@.len() - i,
    {
        let c: u8 = s[i];
        assert(d[i - start] == c);
        if c < 48 || c > 57 {
            return None;
        }
        let digit: u64 = (c - 48) as u64;
        proof {
            let t = d.take(i + 1 - start);
            assert(t.drop_last() =~= d.take(i - start));
            assert(t.last() == c);
            assert forall|k: int| 0 <= k < t.len() implies 48 <= #[trigger] t[k] <= 57 by {
                if k < i - start {
                    assert(d.take(i - start)[k] == t[k]);
                }
            }
        }
        if !over {
            if v > (u64::MAX - digit) / 10 {
                over = true;
            } else {
                v = v * 10 + digit;
            }
        }
        i = i + 1;
    }
    assert(d.take(i - start) =~= d);
    if over {
        None
    } else {
        Some(v)
    }
}

/// Parsing the decimal text of a 64-bit number gives the number back.
pub proof fn lemma_decimal_round_trip(v: u64)
    ensures
        unsigned(decimal(v as nat)) == Some(v),
{
    lemma_decimal_digits(v as nat);
}

/// A number is read digit by digit. A plus sign before it counts for nothing; anything else
/// among the digits, nothing at all, and more than 64 bits are no number.
pub proof fn lemma_how_numbers_are_read(s: Seq<u8>, b: u8, i: int)
    ensures
        digits_value(Seq::empty()) == 0,
        48 <= b <= 57 ==> digits_value(s.push(b)) == 10 * digits_value(s) + (b - 48),
        unsigned(Seq::empty()) is None,
        s.len() > 0 && s[0] != 43 ==> unsigned(seq![43u8] + s) == unsigned(s),
        1 <= i < s.len() && !(48 <= s[i] <= 57) ==> unsigned(s) is None,
        s.len() > 0 && all_digits(s) && digits_value(s) <= u64::MAX ==> unsigned(s) == Some(
            digits_value(s) as u64,
        ),
        all_digits(s) && digits_value(s) > u64::MAX ==> unsigned(s) is None,
{
    assert(s.push(b).drop_last() =~= s);
    let plus = seq![43u8] + s;
    assert(plus.skip(1) =~= s);
    if s.len() > 0 && all_digits(s) {
        assert(48 <= s[0] <= 57);
    }
    if 1 <= i < s.len() && !(48 <= s[i] <= 57) {
        let d = unsigned_digits(s);
        if s[0] == 43 {
            assert(d[i - 1] == s[i]);
        } else {
            assert(d[i] == s[i]);
        }
    }
}

pub proof fn lemma_decimal_digits(v: nat)
    ensures
        decimal(v).len() > 0,
        all_digits(decimal(v)),
        digits_value(decimal(v)) == v,
    decreases v,
{
    let d = decimal(v);
    reveal_with_fuel(digits_value, 2);
    if v < 10 {
        assert(d.drop_last() =~= Seq::<u8>::empty());
        assert(d.last() == (48 + v) as u8);
    } else {
        lemma_decimal_digits(v / 10);
        assert(d.drop_last() =~= decimal(v / 10));
        assert forall|i: int| 0 <= i < d.len() implies 48 <= #[trigger] d[i] <= 57 by {
            if i < d.len() - 1 {
                assert(decimal(v / 10)[i] == d[i]);
            }
        }
    }
}

/// An unsigned 64-bit number read as a signed one.
pub open spec fn signed64(v: u64) -> int {
    if v > i64::MAX {
        v - 0x1_0000_0000_0000_0000
    } else {
        v as int
    }
}

/// An unsigned 64-bit number read as a signed one.
pub fn to_signed64(v: u64) -> (r: i64)
    ensures
        r == signed64(v),
        unsigned64(r) == v,
{
    if v > i64::MAX as u64 {
        -((u64::MAX - v) as i64) - 1
    } else {
        v as i64
    }
}

/// A signed 64-bit number read as an unsigned one.
pub open spec fn unsigned64(v: i64) -> int {
    if v < 0 {
        v + 0x1_0000_0000_0000_0000
    } else {
        v as int
    }
}

/// A signed 64-bit number read as an unsigned one.
pub fn to_unsigned64(v: i64) -> (r: u64)
    ensures
        r == unsigned64(v),
        signed64(r) == v,
{
    if v < 0 {
        u64::MAX - (-(v + 1)) as u64
    } else {
        v as u64
    }
}

/// `v + 1`, from the top back to zero.
pub open spec fn next64(v: u64) -> u64 {
    if v == u64::MAX {
        0
    } else {
        (v + 1) as u64
    }
}

/// `v + 1`, from the top back to zero.
pub fn bump(v: u64) -> (r: u64)
    ensures
        r == next64(v),
{
    if v == u64::MAX {
        0
    } else {
        v + 1
    }
}

} // verus!
