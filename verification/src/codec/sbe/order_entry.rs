//! The order-entry schema.

use vstd::prelude::*;

use crate::bytes::{
    from_le, le, lemma_le_len, lemma_pow256_values, overlay, push_all, push_le, read_le, read_le32,
    signed64, to_signed64, to_unsigned64, unsigned64,
};
use crate::codec::sbe::{
    header_bytes, lemma_header_len, lemma_number_at, read_side, side_at, side_byte, side_code,
    symbol, symbol_of, write_message, Header, HEADER_LEN,
};

pub use crate::codec::sbe::Side;

verus! {

pub const SCHEMA_ID: u16 = 1;

pub const SCHEMA_VERSION: u16 = 0;

/// What an ExecutionReport reports.
#[derive(Debug, Clone, Copy, PartialEq, Eq, Structural)]
pub enum ExecType {
    New,
    Canceled,
    Replaced,
    Rejected,
    Trade,
}

/// The state of the order that an ExecutionReport is about.
#[derive(Debug, Clone, Copy, PartialEq, Eq, Structural)]
pub enum OrdStatus {
    New,
    PartialFill,
    Canceled,
    Replaced,
    Rejected,
}

pub open spec fn exec_type_byte(v: ExecType) -> u8 {
    match v {
        ExecType::New => 48,
        ExecType::Canceled => 52,
        ExecType::Replaced => 53,
        ExecType::Rejected => 56,
        ExecType::Trade => 70,
    }
}

pub open spec fn exec_type_at(b: u8) -> ExecType {
    if b == 52 {
        ExecType::Canceled
    } else if b == 53 {
        ExecType::Replaced
    } else if b == 56 {
        ExecType::Rejected
    } else if b == 70 {
        ExecType::Trade
    } else {
        ExecType::New
    }
}

pub open spec fn ord_status_byte(v: OrdStatus) -> u8 {
    match v {
        OrdStatus::New => 48,
        OrdStatus::PartialFill => 49,
        OrdStatus::Canceled => 52,
        OrdStatus::Replaced => 53,
        OrdStatus::Rejected => 56,
    }
}

pub open spec fn ord_status_at(b: u8) -> OrdStatus {
    if b == 49 {
        OrdStatus::PartialFill
    } else if b == 52 {
        OrdStatus::Canceled
    } else if b == 53 {
        OrdStatus::Replaced
    } else if b == 56 {
        OrdStatus::Rejected
    } else {
        OrdStatus::New
    }
}

fn exec_type_code(v: ExecType) -> (r: u8)
    ensures
        r == exec_type_byte(v),
{
    match v {
        ExecType::New => 48,
        ExecType::Canceled => 52,
        ExecType::Replaced => 53,
        ExecType::Rejected => 56,
        ExecType::Trade => 70,
    }
}

fn read_exec_type(b: u8) -> (r: ExecType)
    ensures
        r == exec_type_at(b),
{
    match b {
        52 => ExecType::Canceled,
        53 => ExecType::Replaced,
        56 => ExecType::Rejected,
        70 => ExecType::Trade,
        _ => ExecType::New,
    }
}

fn ord_status_code(v: OrdStatus) -> (r: u8)
    ensures
        r == ord_status_byte(v),
{
    match v {
        OrdStatus::New => 48,
        OrdStatus::PartialFill => 49,
        OrdStatus::Canceled => 52,
        OrdStatus::Replaced => 53,
        OrdStatus::Rejected => 56,
    }
}

fn read_ord_status(b: u8) -> (r: OrdStatus)
    ensures
        r == ord_status_at(b),
{
    match b {
        49 => OrdStatus::PartialFill,
        52 => OrdStatus::Canceled,
        53 => OrdStatus::Replaced,
        56 => OrdStatus::Rejected,
        _ => OrdStatus::New,
    }
}

/// The header of a message of this schema.
pub open spec fn header_of(block_length: u16, template_id: u16) -> Header {
    Header { block_length, template_id, schema_id: SCHEMA_ID, version: SCHEMA_VERSION }
}

/// A new order.
#[derive(Debug, Clone, Copy)]
pub struct NewOrderSingle {
    pub user_ref: u32,
    pub symbol: [u8; 8],
    pub side: Side,
    pub price: i64,
    pub quantity: u64,
}

pub const NEW_ORDER_TEMPLATE: u16 = 1;

pub const NEW_ORDER_BLOCK: usize = 29;

pub open spec fn new_order_block(m: NewOrderSingle) -> Seq<u8> {
    le(m.user_ref as nat, 4)
        + m.symbol@
        + seq![side_byte(m.side)]
        + le(unsigned64(m.price) as nat, 8)
        + le(m.quantity as nat, 8)
}

pub open spec fn new_order_bytes(m: NewOrderSingle) -> Seq<u8> {
    header_bytes(header_of(29, NEW_ORDER_TEMPLATE)) + new_order_block(m)
}

pub open spec fn new_order_at(buf: Seq<u8>) -> NewOrderSingle {
    NewOrderSingle {
        user_ref: from_le(buf.subrange(8, 12)) as u32,
        symbol: symbol_of(buf.subrange(12, 20)),
        side: side_at(buf[20]),
        price: signed64(from_le(buf.subrange(21, 29)) as u64) as i64,
        quantity: from_le(buf.subrange(29, 37)) as u64,
    }
}

impl NewOrderSingle {
    pub fn encode(&self, out: &mut [u8]) -> (r: usize)
        requires
            HEADER_LEN + NEW_ORDER_BLOCK <= old(out)@.len(),
        ensures
            r == HEADER_LEN + NEW_ORDER_BLOCK,
            final(out)@ == overlay(old(out)@, new_order_bytes(*self)),
    {
        let mut block: Vec<u8> = Vec::new();
        push_le(&mut block, self.user_ref as u64, 4);
        push_all(&mut block, &self.symbol);
        block.push(side_code(self.side));
        push_le(&mut block, to_unsigned64(self.price), 8);
        push_le(&mut block, self.quantity, 8);
        assert(block@ =~= new_order_block(*self));
        proof {
            lemma_new_order_len(*self);
        }
        let h = Header {
            block_length: 29,
            template_id: NEW_ORDER_TEMPLATE,
            schema_id: SCHEMA_ID,
            version: SCHEMA_VERSION,
        };
        write_message(h, &block, out)
    }

    pub fn decode(buf: &[u8]) -> (r: Self)
        requires
            HEADER_LEN + NEW_ORDER_BLOCK <= buf@.len(),
        ensures
            r == new_order_at(buf@),
    {
        Self {
            user_ref: read_le32(buf, 8),
            symbol: symbol(&buf[12..20]),
            side: read_side(buf[20]),
            price: to_signed64(read_le(buf, 21, 8)),
            quantity: read_le(buf, 29, 8),
        }
    }
}

proof fn lemma_new_order_len(m: NewOrderSingle)
    ensures
        new_order_block(m).len() == NEW_ORDER_BLOCK,
        new_order_bytes(m).len() == HEADER_LEN + NEW_ORDER_BLOCK,
{
    lemma_header_len(header_of(29, NEW_ORDER_TEMPLATE));
    lemma_le_len(m.user_ref as nat, 4);
    lemma_le_len(unsigned64(m.price) as nat, 8);
    lemma_le_len(m.quantity as nat, 8);
}

/// What was written as a new order is read back.
pub proof fn lemma_new_order_round_trip(m: NewOrderSingle, rest: Seq<u8>)
    ensures
        new_order_at(new_order_bytes(m) + rest) == m,
        new_order_bytes(m).len() == HEADER_LEN + NEW_ORDER_BLOCK,
{
    let s = new_order_bytes(m) + rest;
    lemma_new_order_len(m);
    lemma_header_len(header_of(29, NEW_ORDER_TEMPLATE));
    lemma_pow256_values();
    lemma_le_len(m.user_ref as nat, 4);
    lemma_le_len(unsigned64(m.price) as nat, 8);
    lemma_le_len(m.quantity as nat, 8);
    assert(s.subrange(8, 12) =~= le(m.user_ref as nat, 4));
    assert(s.subrange(12, 20) =~= m.symbol@);
    assert(s[20] == side_byte(m.side));
    assert(s.subrange(21, 29) =~= le(unsigned64(m.price) as nat, 8));
    assert(s.subrange(29, 37) =~= le(m.quantity as nat, 8));
    lemma_number_at(s, 8, m.user_ref as nat, 4);
    assert(symbol_of(m.symbol@) =~= m.symbol);
    lemma_number_at(s, 21, unsigned64(m.price) as nat, 8);
    lemma_number_at(s, 29, m.quantity as nat, 8);
}

/// A request to cancel an order.
#[derive(Debug, Clone, Copy)]
pub struct OrderCancelRequest {
    pub user_ref: u32,
    pub quantity: u64,
}

pub const CANCEL_REQUEST_TEMPLATE: u16 = 2;

pub const CANCEL_REQUEST_BLOCK: usize = 12;

pub open spec fn cancel_request_block(m: OrderCancelRequest) -> Seq<u8> {
    le(m.user_ref as nat, 4)
        + le(m.quantity as nat, 8)
}

pub open spec fn cancel_request_bytes(m: OrderCancelRequest) -> Seq<u8> {
    header_bytes(header_of(12, CANCEL_REQUEST_TEMPLATE)) + cancel_request_block(m)
}

pub open spec fn cancel_request_at(buf: Seq<u8>) -> OrderCancelRequest {
    OrderCancelRequest {
        user_ref: from_le(buf.subrange(8, 12)) as u32,
        quantity: from_le(buf.subrange(12, 20)) as u64,
    }
}

impl OrderCancelRequest {
    pub fn encode(&self, out: &mut [u8]) -> (r: usize)
        requires
            HEADER_LEN + CANCEL_REQUEST_BLOCK <= old(out)@.len(),
        ensures
            r == HEADER_LEN + CANCEL_REQUEST_BLOCK,
            final(out)@ == overlay(old(out)@, cancel_request_bytes(*self)),
    {
        let mut block: Vec<u8> = Vec::new();
        push_le(&mut block, self.user_ref as u64, 4);
        push_le(&mut block, self.quantity, 8);
        assert(block@ =~= cancel_request_block(*self));
        proof {
            lemma_cancel_request_len(*self);
        }
        let h = Header {
            block_length: 12,
            template_id: CANCEL_REQUEST_TEMPLATE,
            schema_id: SCHEMA_ID,
            version: SCHEMA_VERSION,
        };
        write_message(h, &block, out)
    }

    pub fn decode(buf: &[u8]) -> (r: Self)
        requires
            HEADER_LEN + CANCEL_REQUEST_BLOCK <= buf@.len(),
        ensures
            r == cancel_request_at(buf@),
    {
        Self {
            user_ref: read_le32(buf, 8),
            quantity: read_le(buf, 12, 8),
        }
    }
}

proof fn lemma_cancel_request_len(m: OrderCancelRequest)
    ensures
        cancel_request_block(m).len() == CANCEL_REQUEST_BLOCK,
        cancel_request_bytes(m).len() == HEADER_LEN + CANCEL_REQUEST_BLOCK,
{
    lemma_header_len(header_of(12, CANCEL_REQUEST_TEMPLATE));
    lemma_le_len(m.user_ref as nat, 4);
    lemma_le_len(m.quantity as nat, 8);
}

/// What was written as a request to cancel an order is read back.
pub proof fn lemma_cancel_request_round_trip(m: OrderCancelRequest, rest: Seq<u8>)
    ensures
        cancel_request_at(cancel_request_bytes(m) + rest) == m,
        cancel_request_bytes(m).len() == HEADER_LEN + CANCEL_REQUEST_BLOCK,
{
    let s = cancel_request_bytes(m) + rest;
    lemma_cancel_request_len(m);
    lemma_header_len(header_of(12, CANCEL_REQUEST_TEMPLATE));
    lemma_pow256_values();
    lemma_le_len(m.user_ref as nat, 4);
    lemma_le_len(m.quantity as nat, 8);
    assert(s.subrange(8, 12) =~= le(m.user_ref as nat, 4));
    assert(s.subrange(12, 20) =~= le(m.quantity as nat, 8));
    lemma_number_at(s, 8, m.user_ref as nat, 4);
    lemma_number_at(s, 12, m.quantity as nat, 8);
}

/// A request to replace an order.
#[derive(Debug, Clone, Copy)]
pub struct OrderCancelReplaceRequest {
    pub user_ref: u32,
    pub side: Side,
    pub price: i64,
    pub quantity: u64,
}

pub const REPLACE_REQUEST_TEMPLATE: u16 = 3;

pub const REPLACE_REQUEST_BLOCK: usize = 21;

pub open spec fn replace_request_block(m: OrderCancelReplaceRequest) -> Seq<u8> {
    le(m.user_ref as nat, 4)
        + seq![side_byte(m.side)]
        + le(unsigned64(m.price) as nat, 8)
        + le(m.quantity as nat, 8)
}

pub open spec fn replace_request_bytes(m: OrderCancelReplaceRequest) -> Seq<u8> {
    header_bytes(header_of(21, REPLACE_REQUEST_TEMPLATE)) + replace_request_block(m)
}

pub open spec fn replace_request_at(buf: Seq<u8>) -> OrderCancelReplaceRequest {
    OrderCancelReplaceRequest {
        user_ref: from_le(buf.subrange(8, 12)) as u32,
        side: side_at(buf[12]),
        price: signed64(from_le(buf.subrange(13, 21)) as u64) as i64,
        quantity: from_le(buf.subrange(21, 29)) as u64,
    }
}

impl OrderCancelReplaceRequest {
    pub fn encode(&self, out: &mut [u8]) -> (r: usize)
        requires
            HEADER_LEN + REPLACE_REQUEST_BLOCK <= old(out)@.len(),
        ensures
            r == HEADER_LEN + REPLACE_REQUEST_BLOCK,
            final(out)@ == overlay(old(out)@, replace_request_bytes(*self)),
    {
        let mut block: Vec<u8> = Vec::new();
        push_le(&mut block, self.user_ref as u64, 4);
        block.push(side_code(self.side));
        push_le(&mut block, to_unsigned64(self.price), 8);
        push_le(&mut block, self.quantity, 8);
        assert(block@ =~= replace_request_block(*self));
        proof {
            lemma_replace_request_len(*self);
        }
        let h = Header {
            block_length: 21,
            template_id: REPLACE_REQUEST_TEMPLATE,
            schema_id: SCHEMA_ID,
            version: SCHEMA_VERSION,
        };
        write_message(h, &block, out)
    }

    pub fn decode(buf: &[u8]) -> (r: Self)
        requires
            HEADER_LEN + REPLACE_REQUEST_BLOCK <= buf@.len(),
        ensures
            r == replace_request_at(buf@),
    {
        Self {
            user_ref: read_le32(buf, 8),
            side: read_side(buf[12]),
            price: to_signed64(read_le(buf, 13, 8)),
            quantity: read_le(buf, 21, 8),
        }
    }
}

proof fn lemma_replace_request_len(m: OrderCancelReplaceRequest)
    ensures
        replace_request_block(m).len() == REPLACE_REQUEST_BLOCK,
        replace_request_bytes(m).len() == HEADER_LEN + REPLACE_REQUEST_BLOCK,
{
    lemma_header_len(header_of(21, REPLACE_REQUEST_TEMPLATE));
    lemma_le_len(m.user_ref as nat, 4);
    lemma_le_len(unsigned64(m.price) as nat, 8);
    lemma_le_len(m.quantity as nat, 8);
}

/// What was written as a request to replace an order is read back.
pub proof fn lemma_replace_request_round_trip(m: OrderCancelReplaceRequest, rest: Seq<u8>)
    ensures
        replace_request_at(replace_request_bytes(m) + rest) == m,
        replace_request_bytes(m).len() == HEADER_LEN + REPLACE_REQUEST_BLOCK,
{
    let s = replace_request_bytes(m) + rest;
    lemma_replace_request_len(m);
    lemma_header_len(header_of(21, REPLACE_REQUEST_TEMPLATE));
    lemma_pow256_values();
    lemma_le_len(m.user_ref as nat, 4);
    lemma_le_len(unsigned64(m.price) as nat, 8);
    lemma_le_len(m.quantity as nat, 8);
    assert(s.subrange(8, 12) =~= le(m.user_ref as nat, 4));
    assert(s[12] == side_byte(m.side));
    assert(s.subrange(13, 21) =~= le(unsigned64(m.price) as nat, 8));
    assert(s.subrange(21, 29) =~= le(m.quantity as nat, 8));
    lemma_number_at(s, 8, m.user_ref as nat, 4);
    lemma_number_at(s, 13, unsigned64(m.price) as nat, 8);
    lemma_number_at(s, 21, m.quantity as nat, 8);
}

/// A report on an order.
#[derive(Debug, Clone, Copy)]
pub struct ExecutionReport {
    pub user_ref: u32,
    pub exec_id: u64,
    pub order_id: u64,
    pub symbol: [u8; 8],
    pub side: Side,
    pub exec_type: ExecType,
    pub ord_status: OrdStatus,
    pub price: i64,
    pub quantity: u64,
    pub last_px: i64,
    pub last_qty: u64,
}

pub const REPORT_TEMPLATE: u16 = 4;

pub const REPORT_BLOCK: usize = 63;

pub open spec fn report_block(m: ExecutionReport) -> Seq<u8> {
    le(m.user_ref as nat, 4)
        + le(m.exec_id as nat, 8)
        + le(m.order_id as nat, 8)
        + m.symbol@
        + seq![side_byte(m.side)]
        + seq![exec_type_byte(m.exec_type)]
        + seq![ord_status_byte(m.ord_status)]
        + le(unsigned64(m.price) as nat, 8)
        + le(m.quantity as nat, 8)
        + le(unsigned64(m.last_px) as nat, 8)
        + le(m.last_qty as nat, 8)
}

pub open spec fn report_bytes(m: ExecutionReport) -> Seq<u8> {
    header_bytes(header_of(63, REPORT_TEMPLATE)) + report_block(m)
}

pub open spec fn report_at(buf: Seq<u8>) -> ExecutionReport {
    ExecutionReport {
        user_ref: from_le(buf.subrange(8, 12)) as u32,
        exec_id: from_le(buf.subrange(12, 20)) as u64,
        order_id: from_le(buf.subrange(20, 28)) as u64,
        symbol: symbol_of(buf.subrange(28, 36)),
        side: side_at(buf[36]),
        exec_type: exec_type_at(buf[37]),
        ord_status: ord_status_at(buf[38]),
        price: signed64(from_le(buf.subrange(39, 47)) as u64) as i64,
        quantity: from_le(buf.subrange(47, 55)) as u64,
        last_px: signed64(from_le(buf.subrange(55, 63)) as u64) as i64,
        last_qty: from_le(buf.subrange(63, 71)) as u64,
    }
}

impl ExecutionReport {
    pub fn encode(&self, out: &mut [u8]) -> (r: usize)
        requires
            HEADER_LEN + REPORT_BLOCK <= old(out)@.len(),
        ensures
            r == HEADER_LEN + REPORT_BLOCK,
            final(out)@ == overlay(old(out)@, report_bytes(*self)),
    {
        let mut block: Vec<u8> = Vec::new();
        push_le(&mut block, self.user_ref as u64, 4);
        push_le(&mut block, self.exec_id, 8);
        push_le(&mut block, self.order_id, 8);
        push_all(&mut block, &self.symbol);
        block.push(side_code(self.side));
        block.push(exec_type_code(self.exec_type));
        block.push(ord_status_code(self.ord_status));
        push_le(&mut block, to_unsigned64(self.price), 8);
        push_le(&mut block, self.quantity, 8);
        push_le(&mut block, to_unsigned64(self.last_px), 8);
        push_le(&mut block, self.last_qty, 8);
        assert(block@ =~= report_block(*self));
        proof {
            lemma_report_len(*self);
        }
        let h = Header {
            block_length: 63,
            template_id: REPORT_TEMPLATE,
            schema_id: SCHEMA_ID,
            version: SCHEMA_VERSION,
        };
        write_message(h, &block, out)
    }

    pub fn decode(buf: &[u8]) -> (r: Self)
        requires
            HEADER_LEN + REPORT_BLOCK <= buf@.len(),
        ensures
            r == report_at(buf@),
    {
        Self {
            user_ref: read_le32(buf, 8),
            exec_id: read_le(buf, 12, 8),
            order_id: read_le(buf, 20, 8),
            symbol: symbol(&buf[28..36]),
            side: read_side(buf[36]),
            exec_type: read_exec_type(buf[37]),
            ord_status: read_ord_status(buf[38]),
            price: to_signed64(read_le(buf, 39, 8)),
            quantity: read_le(buf, 47, 8),
            last_px: to_signed64(read_le(buf, 55, 8)),
            last_qty: read_le(buf, 63, 8),
        }
    }
}

proof fn lemma_report_len(m: ExecutionReport)
    ensures
        report_block(m).len() == REPORT_BLOCK,
        report_bytes(m).len() == HEADER_LEN + REPORT_BLOCK,
{
    lemma_header_len(header_of(63, REPORT_TEMPLATE));
    lemma_le_len(m.user_ref as nat, 4);
    lemma_le_len(m.exec_id as nat, 8);
    lemma_le_len(m.order_id as nat, 8);
    lemma_le_len(unsigned64(m.price) as nat, 8);
    lemma_le_len(m.quantity as nat, 8);
    lemma_le_len(unsigned64(m.last_px) as nat, 8);
    lemma_le_len(m.last_qty as nat, 8);
}

/// What was written as a report on an order is read back.
pub proof fn lemma_report_round_trip(m: ExecutionReport, rest: Seq<u8>)
    ensures
        report_at(report_bytes(m) + rest) == m,
        report_bytes(m).len() == HEADER_LEN + REPORT_BLOCK,
{
    let s = report_bytes(m) + rest;
    lemma_report_len(m);
    lemma_header_len(header_of(63, REPORT_TEMPLATE));
    lemma_pow256_values();
    lemma_le_len(m.user_ref as nat, 4);
    lemma_le_len(m.exec_id as nat, 8);
    lemma_le_len(m.order_id as nat, 8);
    lemma_le_len(unsigned64(m.price) as nat, 8);
    lemma_le_len(m.quantity as nat, 8);
    lemma_le_len(unsigned64(m.last_px) as nat, 8);
    lemma_le_len(m.last_qty as nat, 8);
    assert(s.subrange(8, 12) =~= le(m.user_ref as nat, 4));
    assert(s.subrange(12, 20) =~= le(m.exec_id as nat, 8));
    assert(s.subrange(20, 28) =~= le(m.order_id as nat, 8));
    assert(s.subrange(28, 36) =~= m.symbol@);
    assert(s[36] == side_byte(m.side));
    assert(s[37] == exec_type_byte(m.exec_type));
    assert(s[38] == ord_status_byte(m.ord_status));
    assert(s.subrange(39, 47) =~= le(unsigned64(m.price) as nat, 8));
    assert(s.subrange(47, 55) =~= le(m.quantity as nat, 8));
    assert(s.subrange(55, 63) =~= le(unsigned64(m.last_px) as nat, 8));
    assert(s.subrange(63, 71) =~= le(m.last_qty as nat, 8));
    lemma_number_at(s, 8, m.user_ref as nat, 4);
    lemma_number_at(s, 12, m.exec_id as nat, 8);
    lemma_number_at(s, 20, m.order_id as nat, 8);
    assert(symbol_of(m.symbol@) =~= m.symbol);
    lemma_number_at(s, 39, unsigned64(m.price) as nat, 8);
    lemma_number_at(s, 47, m.quantity as nat, 8);
    lemma_number_at(s, 55, unsigned64(m.last_px) as nat, 8);
    lemma_number_at(s, 63, m.last_qty as nat, 8);
}

/// A refusal of a request.
#[derive(Debug, Clone, Copy)]
pub struct Reject {
    pub user_ref: u32,
    pub reason: u16,
}

pub const REJECT_TEMPLATE: u16 = 5;

pub const REJECT_BLOCK: usize = 6;

pub open spec fn reject_block(m: Reject) -> Seq<u8> {
    le(m.user_ref as nat, 4)
        + le(m.reason as nat, 2)
}

pub open spec fn reject_bytes(m: Reject) -> Seq<u8> {
    header_bytes(header_of(6, REJECT_TEMPLATE)) + reject_block(m)
}

pub open spec fn reject_at(buf: Seq<u8>) -> Reject {
    Reject {
        user_ref: from_le(buf.subrange(8, 12)) as u32,
        reason: from_le(buf.subrange(12, 14)) as u16,
    }
}

impl Reject {
    pub fn encode(&self, out: &mut [u8]) -> (r: usize)
        requires
            HEADER_LEN + REJECT_BLOCK <= old(out)@.len(),
        ensures
            r == HEADER_LEN + REJECT_BLOCK,
            final(out)@ == overlay(old(out)@, reject_bytes(*self)),
    {
        let mut block: Vec<u8> = Vec::new();
        push_le(&mut block, self.user_ref as u64, 4);
        push_le(&mut block, self.reason as u64, 2);
        assert(block@ =~= reject_block(*self));
        proof {
            lemma_reject_len(*self);
        }
        let h = Header {
            block_length: 6,
            template_id: REJECT_TEMPLATE,
            schema_id: SCHEMA_ID,
            version: SCHEMA_VERSION,
        };
        write_message(h, &block, out)
    }

    pub fn decode(buf: &[u8]) -> (r: Self)
        requires
            HEADER_LEN + REJECT_BLOCK <= buf@.len(),
        ensures
            r == reject_at(buf@),
    {
        proof {
            lemma_pow256_values();
        }
        Self {
            user_ref: read_le32(buf, 8),
            reason: read_le(buf, 12, 2) as u16,
        }
    }
}

proof fn lemma_reject_len(m: Reject)
    ensures
        reject_block(m).len() == REJECT_BLOCK,
        reject_bytes(m).len() == HEADER_LEN + REJECT_BLOCK,
{
    lemma_header_len(header_of(6, REJECT_TEMPLATE));
    lemma_le_len(m.user_ref as nat, 4);
    lemma_le_len(m.reason as nat, 2);
}

/// What was written as a refusal of a request is read back.
pub proof fn lemma_reject_round_trip(m: Reject, rest: Seq<u8>)
    ensures
        reject_at(reject_bytes(m) + rest) == m,
        reject_bytes(m).len() == HEADER_LEN + REJECT_BLOCK,
{
    let s = reject_bytes(m) + rest;
    lemma_reject_len(m);
    lemma_header_len(header_of(6, REJECT_TEMPLATE));
    lemma_pow256_values();
    lemma_le_len(m.user_ref as nat, 4);
    lemma_le_len(m.reason as nat, 2);
    assert(s.subrange(8, 12) =~= le(m.user_ref as nat, 4));
    assert(s.subrange(12, 14) =~= le(m.reason as nat, 2));
    lemma_number_at(s, 8, m.user_ref as nat, 4);
    lemma_number_at(s, 12, m.reason as nat, 2);
}

} // verus!
