//! The market-data schema.

use vstd::prelude::*;

use crate::bytes::{
    from_le, le, lemma_le_len, lemma_pow256_values, overlay, push_all, push_le, read_le, signed64,
    to_signed64, to_unsigned64, unsigned64,
};
use crate::codec::sbe::{
    header_bytes, lemma_header_len, lemma_number_at, read_side, side_at, side_byte, side_code,
    symbol, symbol_of, write_message, Header, HEADER_LEN,
};

pub use crate::codec::sbe::Side;

verus! {

pub const SCHEMA_ID: u16 = 2;

pub const SCHEMA_VERSION: u16 = 0;

/// The header of a message of this schema.
pub open spec fn header_of(block_length: u16, template_id: u16) -> Header {
    Header { block_length, template_id, schema_id: SCHEMA_ID, version: SCHEMA_VERSION }
}

/// An order that came to rest.
#[derive(Debug, Clone, Copy)]
pub struct Add {
    pub order_id: u64,
    pub symbol: [u8; 8],
    pub side: Side,
    pub price: i64,
    pub quantity: u64,
}

pub const ADD_ORDER_TEMPLATE: u16 = 1;

pub const ADD_ORDER_BLOCK: usize = 33;

pub open spec fn add_order_block(m: Add) -> Seq<u8> {
    le(m.order_id as nat, 8)
        + m.symbol@
        + seq![side_byte(m.side)]
        + le(unsigned64(m.price) as nat, 8)
        + le(m.quantity as nat, 8)
}

pub open spec fn add_order_bytes(m: Add) -> Seq<u8> {
    header_bytes(header_of(33, ADD_ORDER_TEMPLATE)) + add_order_block(m)
}

pub open spec fn add_order_at(buf: Seq<u8>) -> Add {
    Add {
        order_id: from_le(buf.subrange(8, 16)) as u64,
        symbol: symbol_of(buf.subrange(16, 24)),
        side: side_at(buf[24]),
        price: signed64(from_le(buf.subrange(25, 33)) as u64) as i64,
        quantity: from_le(buf.subrange(33, 41)) as u64,
    }
}

impl Add {
    pub fn encode(&self, out: &mut [u8]) -> (r: usize)
        requires
            HEADER_LEN + ADD_ORDER_BLOCK <= old(out)@.len(),
        ensures
            r == HEADER_LEN + ADD_ORDER_BLOCK,
            final(out)@ == overlay(old(out)@, add_order_bytes(*self)),
    {
        let mut block: Vec<u8> = Vec::new();
        push_le(&mut block, self.order_id, 8);
        push_all(&mut block, &self.symbol);
        block.push(side_code(self.side));
        push_le(&mut block, to_unsigned64(self.price), 8);
        push_le(&mut block, self.quantity, 8);
        assert(block@ =~= add_order_block(*self));
        proof {
            lemma_add_order_len(*self);
        }
        let h = Header {
            block_length: 33,
            template_id: ADD_ORDER_TEMPLATE,
            schema_id: SCHEMA_ID,
            version: SCHEMA_VERSION,
        };
        write_message(h, &block, out)
    }

    pub fn decode(buf: &[u8]) -> (r: Self)
        requires
            HEADER_LEN + ADD_ORDER_BLOCK <= buf@.len(),
        ensures
            r == add_order_at(buf@),
    {
        Self {
            order_id: read_le(buf, 8, 8),
            symbol: symbol(&buf[16..24]),
            side: read_side(buf[24]),
            price: to_signed64(read_le(buf, 25, 8)),
            quantity: read_le(buf, 33, 8),
        }
    }
}

proof fn lemma_add_order_len(m: Add)
    ensures
        add_order_block(m).len() == ADD_ORDER_BLOCK,
        add_order_bytes(m).len() == HEADER_LEN + ADD_ORDER_BLOCK,
{
    lemma_header_len(header_of(33, ADD_ORDER_TEMPLATE));
    lemma_le_len(m.order_id as nat, 8);
    lemma_le_len(unsigned64(m.price) as nat, 8);
    lemma_le_len(m.quantity as nat, 8);
}

/// What was written as an order that came to rest is read back.
pub proof fn lemma_add_order_round_trip(m: Add, rest: Seq<u8>)
    ensures
        add_order_at(add_order_bytes(m) + rest) == m,
        add_order_bytes(m).len() == HEADER_LEN + ADD_ORDER_BLOCK,
{
    let s = add_order_bytes(m) + rest;
    lemma_add_order_len(m);
    lemma_header_len(header_of(33, ADD_ORDER_TEMPLATE));
    lemma_pow256_values();
    lemma_le_len(m.order_id as nat, 8);
    lemma_le_len(unsigned64(m.price) as nat, 8);
    lemma_le_len(m.quantity as nat, 8);
    assert(s.subrange(8, 16) =~= le(m.order_id as nat, 8));
    assert(s.subrange(16, 24) =~= m.symbol@);
    assert(s[24] == side_byte(m.side));
    assert(s.subrange(25, 33) =~= le(unsigned64(m.price) as nat, 8));
    assert(s.subrange(33, 41) =~= le(m.quantity as nat, 8));
    lemma_number_at(s, 8, m.order_id as nat, 8);
    assert(symbol_of(m.symbol@) =~= m.symbol);
    lemma_number_at(s, 25, unsigned64(m.price) as nat, 8);
    lemma_number_at(s, 33, m.quantity as nat, 8);
}

/// A fill of a resting order.
#[derive(Debug, Clone, Copy)]
pub struct Execute {
    pub order_id: u64,
    pub match_number: u64,
    pub quantity: u64,
}

pub const EXECUTE_TEMPLATE: u16 = 2;

pub const EXECUTE_BLOCK: usize = 24;

pub open spec fn execute_block(m: Execute) -> Seq<u8> {
    le(m.order_id as nat, 8)
        + le(m.match_number as nat, 8)
        + le(m.quantity as nat, 8)
}

pub open spec fn execute_bytes(m: Execute) -> Seq<u8> {
    header_bytes(header_of(24, EXECUTE_TEMPLATE)) + execute_block(m)
}

pub open spec fn execute_at(buf: Seq<u8>) -> Execute {
    Execute {
        order_id: from_le(buf.subrange(8, 16)) as u64,
        match_number: from_le(buf.subrange(16, 24)) as u64,
        quantity: from_le(buf.subrange(24, 32)) as u64,
    }
}

impl Execute {
    pub fn encode(&self, out: &mut [u8]) -> (r: usize)
        requires
            HEADER_LEN + EXECUTE_BLOCK <= old(out)@.len(),
        ensures
            r == HEADER_LEN + EXECUTE_BLOCK,
            final(out)@ == overlay(old(out)@, execute_bytes(*self)),
    {
        let mut block: Vec<u8> = Vec::new();
        push_le(&mut block, self.order_id, 8);
        push_le(&mut block, self.match_number, 8);
        push_le(&mut block, self.quantity, 8);
        assert(block@ =~= execute_block(*self));
        proof {
            lemma_execute_len(*self);
        }
        let h = Header {
            block_length: 24,
            template_id: EXECUTE_TEMPLATE,
            schema_id: SCHEMA_ID,
            version: SCHEMA_VERSION,
        };
        write_message(h, &block, out)
    }

    pub fn decode(buf: &[u8]) -> (r: Self)
        requires
            HEADER_LEN + EXECUTE_BLOCK <= buf@.len(),
        ensures
            r == execute_at(buf@),
    {
        Self {
            order_id: read_le(buf, 8, 8),
            match_number: read_le(buf, 16, 8),
            quantity: read_le(buf, 24, 8),
        }
    }
}

proof fn lemma_execute_len(m: Execute)
    ensures
        execute_block(m).len() == EXECUTE_BLOCK,
        execute_bytes(m).len() == HEADER_LEN + EXECUTE_BLOCK,
{
    lemma_header_len(header_of(24, EXECUTE_TEMPLATE));
    lemma_le_len(m.order_id as nat, 8);
    lemma_le_len(m.match_number as nat, 8);
    lemma_le_len(m.quantity as nat, 8);
}

/// What was written as a fill of a resting order is read back.
pub proof fn lemma_execute_round_trip(m: Execute, rest: Seq<u8>)
    ensures
        execute_at(execute_bytes(m) + rest) == m,
        execute_bytes(m).len() == HEADER_LEN + EXECUTE_BLOCK,
{
    let s = execute_bytes(m) + rest;
    lemma_execute_len(m);
    lemma_header_len(header_of(24, EXECUTE_TEMPLATE));
    lemma_pow256_values();
    lemma_le_len(m.order_id as nat, 8);
    lemma_le_len(m.match_number as nat, 8);
    lemma_le_len(m.quantity as nat, 8);
    assert(s.subrange(8, 16) =~= le(m.order_id as nat, 8));
    assert(s.subrange(16, 24) =~= le(m.match_number as nat, 8));
    assert(s.subrange(24, 32) =~= le(m.quantity as nat, 8));
    lemma_number_at(s, 8, m.order_id as nat, 8);
    lemma_number_at(s, 16, m.match_number as nat, 8);
    lemma_number_at(s, 24, m.quantity as nat, 8);
}

/// An order that left the book.
#[derive(Debug, Clone, Copy)]
pub struct Delete {
    pub order_id: u64,
}

pub const DELETE_TEMPLATE: u16 = 3;

pub const DELETE_BLOCK: usize = 8;

pub open spec fn delete_block(m: Delete) -> Seq<u8> {
    le(m.order_id as nat, 8)
}

pub open spec fn delete_bytes(m: Delete) -> Seq<u8> {
    header_bytes(header_of(8, DELETE_TEMPLATE)) + delete_block(m)
}

pub open spec fn delete_at(buf: Seq<u8>) -> Delete {
    Delete {
        order_id: from_le(buf.subrange(8, 16)) as u64,
    }
}

impl Delete {
    pub fn encode(&self, out: &mut [u8]) -> (r: usize)
        requires
            HEADER_LEN + DELETE_BLOCK <= old(out)@.len(),
        ensures
            r == HEADER_LEN + DELETE_BLOCK,
            final(out)@ == overlay(old(out)@, delete_bytes(*self)),
    {
        let mut block: Vec<u8> = Vec::new();
        push_le(&mut block, self.order_id, 8);
        assert(block@ =~= delete_block(*self));
        proof {
            lemma_delete_len(*self);
        }
        let h = Header {
            block_length: 8,
            template_id: DELETE_TEMPLATE,
            schema_id: SCHEMA_ID,
            version: SCHEMA_VERSION,
        };
        write_message(h, &block, out)
    }

    pub fn decode(buf: &[u8]) -> (r: Self)
        requires
            HEADER_LEN + DELETE_BLOCK <= buf@.len(),
        ensures
            r == delete_at(buf@),
    {
        Self {
            order_id: read_le(buf, 8, 8),
        }
    }
}

proof fn lemma_delete_len(m: Delete)
    ensures
        delete_block(m).len() == DELETE_BLOCK,
        delete_bytes(m).len() == HEADER_LEN + DELETE_BLOCK,
{
    lemma_header_len(header_of(8, DELETE_TEMPLATE));
    lemma_le_len(m.order_id as nat, 8);
}

/// What was written as an order that left the book is read back.
pub proof fn lemma_delete_round_trip(m: Delete, rest: Seq<u8>)
    ensures
        delete_at(delete_bytes(m) + rest) == m,
        delete_bytes(m).len() == HEADER_LEN + DELETE_BLOCK,
{
    let s = delete_bytes(m) + rest;
    lemma_delete_len(m);
    lemma_header_len(header_of(8, DELETE_TEMPLATE));
    lemma_pow256_values();
    lemma_le_len(m.order_id as nat, 8);
    assert(s.subrange(8, 16) =~= le(m.order_id as nat, 8));
    lemma_number_at(s, 8, m.order_id as nat, 8);
}

} // verus!
