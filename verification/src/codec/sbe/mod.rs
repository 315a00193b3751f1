//! Simple Binary Encoding: message header and field values.
//!
//! Every message is a header of four little-endian 16-bit numbers and a block of
//! fields at fixed offsets.

use ironsbe_core::header::MessageHeader;
use vstd::prelude::*;

use crate::bytes::{
    from_le, le, lemma_le_len, lemma_le_round_trip, lemma_pow256_values, overlay, pow256, put_at,
};

pub mod market_data;
pub mod order_entry;

verus! {

/// What the header of a message says.
#[derive(Debug, Clone, Copy, PartialEq, Eq, Structural)]
pub struct Header {
    pub block_length: u16,
    pub template_id: u16,
    pub schema_id: u16,
    pub version: u16,
}

/// How long a header is.
pub const HEADER_LEN: usize = 8;

/// A header on the wire.
pub open spec fn header_bytes(h: Header) -> Seq<u8> {
    le(h.block_length as nat, 2) + le(h.template_id as nat, 2) + le(h.schema_id as nat, 2) + le(
        h.version as nat,
        2,
    )
}

/// The header that a buffer starts with.
pub open spec fn header_at(buf: Seq<u8>) -> Header {
    Header {
        block_length: from_le(buf.subrange(0, 2)) as u16,
        template_id: from_le(buf.subrange(2, 4)) as u16,
        schema_id: from_le(buf.subrange(4, 6)) as u16,
        version: from_le(buf.subrange(6, 8)) as u16,
    }
}

/// `ironsbe_core::header::MessageHeader::wrap` at offset 0: reads the header that
/// the buffer starts with.
#[verifier::external_body]
pub(crate) fn read_header(buf: &[u8]) -> (r: Header)
    requires
        HEADER_LEN <= buf@.len(),
    ensures
        r == header_at(buf@),
{
    let h = MessageHeader::wrap(buf, 0);
    Header {
        block_length: h.block_length,
        template_id: h.template_id,
        schema_id: h.schema_id,
        version: h.version,
    }
}

/// `ironsbe_core::header::MessageHeader::encode` at offset 0: writes the header
/// over the first bytes of the buffer.
#[verifier::external_body]
pub(crate) fn write_header(h: Header, out: &mut [u8])
    requires
        HEADER_LEN <= old(out)@.len(),
    ensures
        final(out)@ == overlay(old(out)@, header_bytes(h)),
{
    MessageHeader::new(h.block_length, h.template_id, h.schema_id, h.version).encode(out, 0)
}

/// The side of an order on the wire.
#[derive(Debug, Clone, Copy, PartialEq, Eq, Structural)]
pub enum Side {
    Buy,
    Sell,
}

/// A side on the wire.
pub open spec fn side_byte(side: Side) -> u8 {
    match side {
        Side::Buy => 49,
        Side::Sell => 50,
    }
}

/// The side that a byte stands for. What is no side is read as the first one.
pub open spec fn side_at(b: u8) -> Side {
    if b == 50 {
        Side::Sell
    } else {
        Side::Buy
    }
}

pub(crate) fn side_code(side: Side) -> (r: u8)
    ensures
        r == side_byte(side),
{
    match side {
        Side::Buy => 49,
        Side::Sell => 50,
    }
}

pub(crate) fn read_side(b: u8) -> (r: Side)
    ensures
        r == side_at(b),
{
    if b == 50 {
        Side::Sell
    } else {
        Side::Buy
    }
}

/// The wire's name for a side of the book.
pub open spec fn wire_side(side: crate::types::Side) -> Side {
    match side {
        crate::types::Side::Bid => Side::Buy,
        crate::types::Side::Ask => Side::Sell,
    }
}

/// The book's name for a side on the wire.
pub open spec fn book_side(side: Side) -> crate::types::Side {
    match side {
        Side::Buy => crate::types::Side::Bid,
        Side::Sell => crate::types::Side::Ask,
    }
}

pub(crate) fn to_wire_side(side: crate::types::Side) -> (r: Side)
    ensures
        r == wire_side(side),
{
    match side {
        crate::types::Side::Bid => Side::Buy,
        crate::types::Side::Ask => Side::Sell,
    }
}

pub(crate) fn to_book_side(side: Side) -> (r: crate::types::Side)
    ensures
        r == book_side(side),
{
    match side {
        Side::Buy => crate::types::Side::Bid,
        Side::Sell => crate::types::Side::Ask,
    }
}

/// Byte `i` of `s`, or zero past its end.
pub open spec fn symbol_byte(s: Seq<u8>, i: int) -> u8 {
    if i < s.len() {
        s[i]
    } else {
        0
    }
}

/// The first eight bytes of `s`, filled up with zeros.
pub open spec fn symbol_of(s: Seq<u8>) -> [u8; 8] {
    [
        symbol_byte(s, 0),
        symbol_byte(s, 1),
        symbol_byte(s, 2),
        symbol_byte(s, 3),
        symbol_byte(s, 4),
        symbol_byte(s, 5),
        symbol_byte(s, 6),
        symbol_byte(s, 7),
    ]
}

fn read_symbol_byte(s: &[u8], i: usize) -> (r: u8)
    ensures
        r == symbol_byte(s@, i as int),
{
    if i < s.len() {
        s[i]
    } else {
        0
    }
}

/// The first eight bytes of `s`, filled up with zeros.
pub fn symbol(s: &[u8]) -> (r: [u8; 8])
    ensures
        r == symbol_of(s@),
{
    let a: [u8; 8] = [
        read_symbol_byte(s, 0),
        read_symbol_byte(s, 1),
        read_symbol_byte(s, 2),
        read_symbol_byte(s, 3),
        read_symbol_byte(s, 4),
        read_symbol_byte(s, 5),
        read_symbol_byte(s, 6),
        read_symbol_byte(s, 7),
    ];
    assert(a =~= symbol_of(s@));
    a
}

/// Writes a header and the block behind it over the first bytes of `out`.
pub(crate) fn write_message(h: Header, block: &[u8], out: &mut [u8]) -> (r: usize)
    requires
        HEADER_LEN + block@.len() <= old(out).len(),
    ensures
        r == HEADER_LEN + block@.len(),
        final(out)@ == overlay(old(out)@, header_bytes(h) + block@),
{
    proof {
        lemma_header_len(h);
    }
    write_header(h, out);
    put_at(out, HEADER_LEN, block);
    assert(out@ =~= overlay(old(out)@, header_bytes(h) + block@));
    HEADER_LEN + block.len()
}

pub proof fn lemma_header_len(h: Header)
    ensures
        header_bytes(h).len() == HEADER_LEN,
{
    lemma_le_len(h.block_length as nat, 2);
    lemma_le_len(h.template_id as nat, 2);
    lemma_le_len(h.schema_id as nat, 2);
    lemma_le_len(h.version as nat, 2);
}

/// A number of `n` bytes that stands at `at` in `s` is read as what was written.
pub proof fn lemma_number_at(s: Seq<u8>, at: int, v: nat, n: nat)
    requires
        0 <= at,
        at + n <= s.len(),
        s.subrange(at, at + n) == le(v, n),
        v < pow256(n),
    ensures
        from_le(s.subrange(at, at + n)) == v,
{
    lemma_le_round_trip(v, n);
}

/// A header that was written is read back.
pub proof fn lemma_header_round_trip(h: Header, rest: Seq<u8>)
    ensures
        header_at(header_bytes(h) + rest) == h,
{
    let s = header_bytes(h) + rest;
    lemma_header_len(h);
    lemma_pow256_values();
    lemma_le_len(h.block_length as nat, 2);
    lemma_le_len(h.template_id as nat, 2);
    lemma_le_len(h.schema_id as nat, 2);
    lemma_le_len(h.version as nat, 2);
    assert(s.subrange(0, 2) =~= le(h.block_length as nat, 2));
    assert(s.subrange(2, 4) =~= le(h.template_id as nat, 2));
    assert(s.subrange(4, 6) =~= le(h.schema_id as nat, 2));
    assert(s.subrange(6, 8) =~= le(h.version as nat, 2));
    lemma_number_at(s, 0, h.block_length as nat, 2);
    lemma_number_at(s, 2, h.template_id as nat, 2);
    lemma_number_at(s, 4, h.schema_id as nat, 2);
    lemma_number_at(s, 6, h.version as nat, 2);
}

} // verus!
