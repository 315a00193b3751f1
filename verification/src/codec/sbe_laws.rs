//! Where the fields of the SBE messages stand on the wire, and what clients and subscribers
//! read there.

use vstd::prelude::*;

use crate::bytes::{le, lemma_le_len, unsigned64};
use crate::codec::{MarketData, OrderEntry, ParseOutcome, SessionId};
use crate::codec::sbe::{symbol_of, Side};
use crate::codec::sbe::market_data::{
    add_order_at, add_order_bytes, delete_at, delete_bytes, execute_at, execute_bytes, Add, Delete,
    Execute,
};
use crate::codec::sbe::order_entry::{
    cancel_request_at, cancel_request_bytes, new_order_at, new_order_bytes, reject_at,
    reject_bytes, replace_request_at, replace_request_bytes, report_at, report_bytes, ExecType,
    ExecutionReport, NewOrderSingle, OrdStatus, OrderCancelReplaceRequest, OrderCancelRequest,
    Reject,
};
use crate::codec::sbe_md::{SbeMd, SbeMdView};
use crate::codec::sbe_oe::{report_of, SbeOe};
use crate::types::{CommandType, Event, EventType};
use crate::wire::{
    filled_with, le16_at, le32_at, le64_at, lemma_read_le16, lemma_read_le32, lemma_read_le64,
    lemma_wrote_le16, lemma_wrote_le32, lemma_wrote_le64, stands_at,
};

verus! {

/// Whether a message starts with a header that says this.
pub open spec fn has_header(b: Seq<u8>, block: int, template: int, schema: int) -> bool {
    &&& b.len() >= 8 + block
    &&& le16_at(b, 0) == block
    &&& le16_at(b, 2) == template
    &&& le16_at(b, 4) == schema
    &&& le16_at(b, 6) == 0
}

/// A signed number as it stands in eight bytes.
pub open spec fn in_two_complement(v: int) -> int {
    if v < 0 {
        v + 0x1_0000_0000_0000_0000
    } else {
        v
    }
}

/// A side as it stands in a byte: `1` buys, `2` sells.
pub open spec fn side_digit(side: Side) -> u8 {
    if side == Side::Buy {
        49
    } else {
        50
    }
}

/// A side of the book as it stands in a byte: `1` bids, `2` asks.
pub open spec fn book_digit(side: crate::types::Side) -> u8 {
    if side == crate::types::Side::Bid {
        49
    } else {
        50
    }
}

/// What is reported, as it stands in a byte.
pub open spec fn exec_digit(v: ExecType) -> u8 {
    match v {
        ExecType::New => 48,
        ExecType::Canceled => 52,
        ExecType::Replaced => 53,
        ExecType::Rejected => 56,
        ExecType::Trade => 70,
    }
}

/// The state of an order, as it stands in a byte.
pub open spec fn status_digit(v: OrdStatus) -> u8 {
    match v {
        OrdStatus::New => 48,
        OrdStatus::PartialFill => 49,
        OrdStatus::Canceled => 52,
        OrdStatus::Replaced => 53,
        OrdStatus::Rejected => 56,
    }
}

proof fn lemma_symbol_at(buf: Seq<u8>, i: int)
    requires
        0 <= i,
        i + 8 <= buf.len(),
    ensures
        stands_at(buf, i, symbol_of(buf.subrange(i, i + 8))@),
        symbol_of(buf.subrange(i, i + 8))@ == buf.subrange(i, i + 8),
{
    let s = symbol_of(buf.subrange(i, i + 8));
    assert(s@ =~= buf.subrange(i, i + 8));
}

/// A new order has its fields at fixed places behind the header.
pub proof fn lemma_new_order_layout(m: NewOrderSingle)
    ensures
        ({
            let b = new_order_bytes(m);
            &&& b.len() == 37
            &&& has_header(b, 29, 1, 1)
            &&& le32_at(b, 8) == m.user_ref
            &&& stands_at(b, 12, m.symbol@)
            &&& b[20] == side_digit(m.side)
            &&& le64_at(b, 21) == in_two_complement(m.price as int)
            &&& le64_at(b, 29) == m.quantity
        }),
{
    let b = new_order_bytes(m);
    lemma_le_len(29, 2);
    lemma_le_len(1, 2);
    lemma_le_len(1, 2);
    lemma_le_len(0, 2);
    lemma_le_len(m.user_ref as nat, 4);
    lemma_le_len(unsigned64(m.price) as nat, 8);
    lemma_le_len(m.quantity as nat, 8);
    assert(le16_at(b, 0) == 29) by {
        assert(b.subrange(0, 2) =~= le(29, 2));
        lemma_wrote_le16(b, 0, 29);
    }
    assert(le16_at(b, 2) == 1) by {
        assert(b.subrange(2, 4) =~= le(1, 2));
        lemma_wrote_le16(b, 2, 1);
    }
    assert(le16_at(b, 4) == 1) by {
        assert(b.subrange(4, 6) =~= le(1, 2));
        lemma_wrote_le16(b, 4, 1);
    }
    assert(le16_at(b, 6) == 0) by {
        assert(b.subrange(6, 8) =~= le(0, 2));
        lemma_wrote_le16(b, 6, 0);
    }
    assert(le32_at(b, 8) == m.user_ref) by {
        assert(b.subrange(8, 12) =~= le(m.user_ref as nat, 4));
        lemma_wrote_le32(b, 8, m.user_ref as nat);
    }
    assert(le64_at(b, 21) == in_two_complement(m.price as int)) by {
        assert(b.subrange(21, 29) =~= le(unsigned64(m.price) as nat, 8));
        lemma_wrote_le64(b, 21, unsigned64(m.price) as nat);
    }
    assert(le64_at(b, 29) == m.quantity) by {
        assert(b.subrange(29, 37) =~= le(m.quantity as nat, 8));
        lemma_wrote_le64(b, 29, m.quantity as nat);
    }
}

/// A new order is read from those places.
pub proof fn lemma_new_order_read(buf: Seq<u8>)
    requires
        buf.len() >= 37,
    ensures
        ({
            let m = new_order_at(buf);
            &&& m.user_ref == le32_at(buf, 8)
            &&& stands_at(buf, 12, m.symbol@)
            &&& (m.side == Side::Sell) == (buf[20] == 50)
            &&& in_two_complement(m.price as int) == le64_at(buf, 21)
            &&& m.quantity == le64_at(buf, 29)
        }),
{
    lemma_read_le32(buf, 8);
    lemma_symbol_at(buf, 12);
    lemma_read_le64(buf, 21);
    lemma_read_le64(buf, 29);
}

/// A cancel request has its fields at fixed places behind the header.
pub proof fn lemma_cancel_request_layout(m: OrderCancelRequest)
    ensures
        ({
            let b = cancel_request_bytes(m);
            &&& b.len() == 20
            &&& has_header(b, 12, 2, 1)
            &&& le32_at(b, 8) == m.user_ref
            &&& le64_at(b, 12) == m.quantity
        }),
{
    let b = cancel_request_bytes(m);
    lemma_le_len(12, 2);
    lemma_le_len(2, 2);
    lemma_le_len(1, 2);
    lemma_le_len(0, 2);
    lemma_le_len(m.user_ref as nat, 4);
    lemma_le_len(m.quantity as nat, 8);
    assert(le16_at(b, 0) == 12) by {
        assert(b.subrange(0, 2) =~= le(12, 2));
        lemma_wrote_le16(b, 0, 12);
    }
    assert(le16_at(b, 2) == 2) by {
        assert(b.subrange(2, 4) =~= le(2, 2));
        lemma_wrote_le16(b, 2, 2);
    }
    assert(le16_at(b, 4) == 1) by {
        assert(b.subrange(4, 6) =~= le(1, 2));
        lemma_wrote_le16(b, 4, 1);
    }
    assert(le16_at(b, 6) == 0) by {
        assert(b.subrange(6, 8) =~= le(0, 2));
        lemma_wrote_le16(b, 6, 0);
    }
    assert(le32_at(b, 8) == m.user_ref) by {
        assert(b.subrange(8, 12) =~= le(m.user_ref as nat, 4));
        lemma_wrote_le32(b, 8, m.user_ref as nat);
    }
    assert(le64_at(b, 12) == m.quantity) by {
        assert(b.subrange(12, 20) =~= le(m.quantity as nat, 8));
        lemma_wrote_le64(b, 12, m.quantity as nat);
    }
}

/// A cancel request is read from those places.
pub proof fn lemma_cancel_request_read(buf: Seq<u8>)
    requires
        buf.len() >= 20,
    ensures
        ({
            let m = cancel_request_at(buf);
            &&& m.user_ref == le32_at(buf, 8)
            &&& m.quantity == le64_at(buf, 12)
        }),
{
    lemma_read_le32(buf, 8);
    lemma_read_le64(buf, 12);
}

/// A replace request has its fields at fixed places behind the header.
pub proof fn lemma_replace_request_layout(m: OrderCancelReplaceRequest)
    ensures
        ({
            let b = replace_request_bytes(m);
            &&& b.len() == 29
            &&& has_header(b, 21, 3, 1)
            &&& le32_at(b, 8) == m.user_ref
            &&& b[12] == side_digit(m.side)
            &&& le64_at(b, 13) == in_two_complement(m.price as int)
            &&& le64_at(b, 21) == m.quantity
        }),
{
    let b = replace_request_bytes(m);
    lemma_le_len(21, 2);
    lemma_le_len(3, 2);
    lemma_le_len(1, 2);
    lemma_le_len(0, 2);
    lemma_le_len(m.user_ref as nat, 4);
    lemma_le_len(unsigned64(m.price) as nat, 8);
    lemma_le_len(m.quantity as nat, 8);
    assert(le16_at(b, 0) == 21) by {
        assert(b.subrange(0, 2) =~= le(21, 2));
        lemma_wrote_le16(b, 0, 21);
    }
    assert(le16_at(b, 2) == 3) by {
        assert(b.subrange(2, 4) =~= le(3, 2));
        lemma_wrote_le16(b, 2, 3);
    }
    assert(le16_at(b, 4) == 1) by {
        assert(b.subrange(4, 6) =~= le(1, 2));
        lemma_wrote_le16(b, 4, 1);
    }
    assert(le16_at(b, 6) == 0) by {
        assert(b.subrange(6, 8) =~= le(0, 2));
        lemma_wrote_le16(b, 6, 0);
    }
    assert(le32_at(b, 8) == m.user_ref) by {
        assert(b.subrange(8, 12) =~= le(m.user_ref as nat, 4));
        lemma_wrote_le32(b, 8, m.user_ref as nat);
    }
    assert(le64_at(b, 13) == in_two_complement(m.price as int)) by {
        assert(b.subrange(13, 21) =~= le(unsigned64(m.price) as nat, 8));
        lemma_wrote_le64(b, 13, unsigned64(m.price) as nat);
    }
    assert(le64_at(b, 21) == m.quantity) by {
        assert(b.subrange(21, 29) =~= le(m.quantity as nat, 8));
        lemma_wrote_le64(b, 21, m.quantity as nat);
    }
}

/// A replace request is read from those places.
pub proof fn lemma_replace_request_read(buf: Seq<u8>)
    requires
        buf.len() >= 29,
    ensures
        ({
            let m = replace_request_at(buf);
            &&& m.user_ref == le32_at(buf, 8)
            &&& (m.side == Side::Sell) == (buf[12] == 50)
            &&& in_two_complement(m.price as int) == le64_at(buf, 13)
            &&& m.quantity == le64_at(buf, 21)
        }),
{
    lemma_read_le32(buf, 8);
    lemma_read_le64(buf, 13);
    lemma_read_le64(buf, 21);
}

/// A report has its fields at fixed places behind the header.
pub proof fn lemma_report_layout(m: ExecutionReport)
    ensures
        ({
            let b = report_bytes(m);
            &&& b.len() == 71
            &&& has_header(b, 63, 4, 1)
            &&& le32_at(b, 8) == m.user_ref
            &&& le64_at(b, 12) == m.exec_id
            &&& le64_at(b, 20) == m.order_id
            &&& stands_at(b, 28, m.symbol@)
            &&& b[36] == side_digit(m.side)
            &&& b[37] == exec_digit(m.exec_type)
            &&& b[38] == status_digit(m.ord_status)
            &&& le64_at(b, 39) == in_two_complement(m.price as int)
            &&& le64_at(b, 47) == m.quantity
            &&& le64_at(b, 55) == in_two_complement(m.last_px as int)
            &&& le64_at(b, 63) == m.last_qty
        }),
{
    let b = report_bytes(m);
    lemma_le_len(63, 2);
    lemma_le_len(4, 2);
    lemma_le_len(1, 2);
    lemma_le_len(0, 2);
    lemma_le_len(m.user_ref as nat, 4);
    lemma_le_len(m.exec_id as nat, 8);
    lemma_le_len(m.order_id as nat, 8);
    lemma_le_len(unsigned64(m.price) as nat, 8);
    lemma_le_len(m.quantity as nat, 8);
    lemma_le_len(unsigned64(m.last_px) as nat, 8);
    lemma_le_len(m.last_qty as nat, 8);
    assert(le16_at(b, 0) == 63) by {
        assert(b.subrange(0, 2) =~= le(63, 2));
        lemma_wrote_le16(b, 0, 63);
    }
    assert(le16_at(b, 2) == 4) by {
        assert(b.subrange(2, 4) =~= le(4, 2));
        lemma_wrote_le16(b, 2, 4);
    }
    assert(le16_at(b, 4) == 1) by {
        assert(b.subrange(4, 6) =~= le(1, 2));
        lemma_wrote_le16(b, 4, 1);
    }
    assert(le16_at(b, 6) == 0) by {
        assert(b.subrange(6, 8) =~= le(0, 2));
        lemma_wrote_le16(b, 6, 0);
    }
    assert(le32_at(b, 8) == m.user_ref) by {
        assert(b.subrange(8, 12) =~= le(m.user_ref as nat, 4));
        lemma_wrote_le32(b, 8, m.user_ref as nat);
    }
    assert(le64_at(b, 12) == m.exec_id) by {
        assert(b.subrange(12, 20) =~= le(m.exec_id as nat, 8));
        lemma_wrote_le64(b, 12, m.exec_id as nat);
    }
    assert(le64_at(b, 20) == m.order_id) by {
        assert(b.subrange(20, 28) =~= le(m.order_id as nat, 8));
        lemma_wrote_le64(b, 20, m.order_id as nat);
    }
    assert(le64_at(b, 39) == in_two_complement(m.price as int)) by {
        assert(b.subrange(39, 47) =~= le(unsigned64(m.price) as nat, 8));
        lemma_wrote_le64(b, 39, unsigned64(m.price) as nat);
    }
    assert(le64_at(b, 47) == m.quantity) by {
        assert(b.subrange(47, 55) =~= le(m.quantity as nat, 8));
        lemma_wrote_le64(b, 47, m.quantity as nat);
    }
    assert(le64_at(b, 55) == in_two_complement(m.last_px as int)) by {
        assert(b.subrange(55, 63) =~= le(unsigned64(m.last_px) as nat, 8));
        lemma_wrote_le64(b, 55, unsigned64(m.last_px) as nat);
    }
    assert(le64_at(b, 63) == m.last_qty) by {
        assert(b.subrange(63, 71) =~= le(m.last_qty as nat, 8));
        lemma_wrote_le64(b, 63, m.last_qty as nat);
    }
}

/// A report is read from those places.
pub proof fn lemma_report_read(buf: Seq<u8>)
    requires
        buf.len() >= 71,
    ensures
        ({
            let m = report_at(buf);
            &&& m.user_ref == le32_at(buf, 8)
            &&& m.exec_id == le64_at(buf, 12)
            &&& m.order_id == le64_at(buf, 20)
            &&& stands_at(buf, 28, m.symbol@)
            &&& (m.side == Side::Sell) == (buf[36] == 50)
            &&& (m.exec_type == ExecType::Canceled) == (buf[37] == 52)
            &&& (m.exec_type == ExecType::Replaced) == (buf[37] == 53)
            &&& (m.exec_type == ExecType::Rejected) == (buf[37] == 56)
            &&& (m.exec_type == ExecType::Trade) == (buf[37] == 70)
            &&& (m.ord_status == OrdStatus::PartialFill) == (buf[38] == 49)
            &&& (m.ord_status == OrdStatus::Canceled) == (buf[38] == 52)
            &&& (m.ord_status == OrdStatus::Replaced) == (buf[38] == 53)
            &&& (m.ord_status == OrdStatus::Rejected) == (buf[38] == 56)
            &&& in_two_complement(m.price as int) == le64_at(buf, 39)
            &&& m.quantity == le64_at(buf, 47)
            &&& in_two_complement(m.last_px as int) == le64_at(buf, 55)
            &&& m.last_qty == le64_at(buf, 63)
        }),
{
    lemma_read_le32(buf, 8);
    lemma_read_le64(buf, 12);
    lemma_read_le64(buf, 20);
    lemma_symbol_at(buf, 28);
    lemma_read_le64(buf, 39);
    lemma_read_le64(buf, 47);
    lemma_read_le64(buf, 55);
    lemma_read_le64(buf, 63);
}

/// A refusal has its fields at fixed places behind the header.
pub proof fn lemma_reject_layout(m: Reject)
    ensures
        ({
            let b = reject_bytes(m);
            &&& b.len() == 14
            &&& has_header(b, 6, 5, 1)
            &&& le32_at(b, 8) == m.user_ref
            &&& le16_at(b, 12) == m.reason
        }),
{
    let b = reject_bytes(m);
    lemma_le_len(6, 2);
    lemma_le_len(5, 2);
    lemma_le_len(1, 2);
    lemma_le_len(0, 2);
    lemma_le_len(m.user_ref as nat, 4);
    lemma_le_len(m.reason as nat, 2);
    assert(le16_at(b, 0) == 6) by {
        assert(b.subrange(0, 2) =~= le(6, 2));
        lemma_wrote_le16(b, 0, 6);
    }
    assert(le16_at(b, 2) == 5) by {
        assert(b.subrange(2, 4) =~= le(5, 2));
        lemma_wrote_le16(b, 2, 5);
    }
    assert(le16_at(b, 4) == 1) by {
        assert(b.subrange(4, 6) =~= le(1, 2));
        lemma_wrote_le16(b, 4, 1);
    }
    assert(le16_at(b, 6) == 0) by {
        assert(b.subrange(6, 8) =~= le(0, 2));
        lemma_wrote_le16(b, 6, 0);
    }
    assert(le32_at(b, 8) == m.user_ref) by {
        assert(b.subrange(8, 12) =~= le(m.user_ref as nat, 4));
        lemma_wrote_le32(b, 8, m.user_ref as nat);
    }
    assert(le16_at(b, 12) == m.reason) by {
        assert(b.subrange(12, 14) =~= le(m.reason as nat, 2));
        lemma_wrote_le16(b, 12, m.reason as nat);
    }
}

/// A refusal is read from those places.
pub proof fn lemma_reject_read(buf: Seq<u8>)
    requires
        buf.len() >= 14,
    ensures
        ({
            let m = reject_at(buf);
            &&& m.user_ref == le32_at(buf, 8)
            &&& m.reason == le16_at(buf, 12)
        }),
{
    lemma_read_le32(buf, 8);
    lemma_read_le16(buf, 12);
}

/// An order that came to rest has its fields at fixed places behind the header.
pub proof fn lemma_add_order_layout(m: Add)
    ensures
        ({
            let b = add_order_bytes(m);
            &&& b.len() == 41
            &&& has_header(b, 33, 1, 2)
            &&& le64_at(b, 8) == m.order_id
            &&& stands_at(b, 16, m.symbol@)
            &&& b[24] == side_digit(m.side)
            &&& le64_at(b, 25) == in_two_complement(m.price as int)
            &&& le64_at(b, 33) == m.quantity
        }),
{
    let b = add_order_bytes(m);
    lemma_le_len(33, 2);
    lemma_le_len(1, 2);
    lemma_le_len(2, 2);
    lemma_le_len(0, 2);
    lemma_le_len(m.order_id as nat, 8);
    lemma_le_len(unsigned64(m.price) as nat, 8);
    lemma_le_len(m.quantity as nat, 8);
    assert(le16_at(b, 0) == 33) by {
        assert(b.subrange(0, 2) =~= le(33, 2));
        lemma_wrote_le16(b, 0, 33);
    }
    assert(le16_at(b, 2) == 1) by {
        assert(b.subrange(2, 4) =~= le(1, 2));
        lemma_wrote_le16(b, 2, 1);
    }
    assert(le16_at(b, 4) == 2) by {
        assert(b.subrange(4, 6) =~= le(2, 2));
        lemma_wrote_le16(b, 4, 2);
    }
    assert(le16_at(b, 6) == 0) by {
        assert(b.subrange(6, 8) =~= le(0, 2));
        lemma_wrote_le16(b, 6, 0);
    }
    assert(le64_at(b, 8) == m.order_id) by {
        assert(b.subrange(8, 16) =~= le(m.order_id as nat, 8));
        lemma_wrote_le64(b, 8, m.order_id as nat);
    }
    assert(le64_at(b, 25) == in_two_complement(m.price as int)) by {
        assert(b.subrange(25, 33) =~= le(unsigned64(m.price) as nat, 8));
        lemma_wrote_le64(b, 25, unsigned64(m.price) as nat);
    }
    assert(le64_at(b, 33) == m.quantity) by {
        assert(b.subrange(33, 41) =~= le(m.quantity as nat, 8));
        lemma_wrote_le64(b, 33, m.quantity as nat);
    }
}

/// An order that came to rest is read from those places.
pub proof fn lemma_add_order_read(buf: Seq<u8>)
    requires
        buf.len() >= 41,
    ensures
        ({
            let m = add_order_at(buf);
            &&& m.order_id == le64_at(buf, 8)
            &&& stands_at(buf, 16, m.symbol@)
            &&& (m.side == Side::Sell) == (buf[24] == 50)
            &&& in_two_complement(m.price as int) == le64_at(buf, 25)
            &&& m.quantity == le64_at(buf, 33)
        }),
{
    lemma_read_le64(buf, 8);
    lemma_symbol_at(buf, 16);
    lemma_read_le64(buf, 25);
    lemma_read_le64(buf, 33);
}

/// A fill has its fields at fixed places behind the header.
pub proof fn lemma_execute_layout(m: Execute)
    ensures
        ({
            let b = execute_bytes(m);
            &&& b.len() == 32
            &&& has_header(b, 24, 2, 2)
            &&& le64_at(b, 8) == m.order_id
            &&& le64_at(b, 16) == m.match_number
            &&& le64_at(b, 24) == m.quantity
        }),
{
    let b = execute_bytes(m);
    lemma_le_len(24, 2);
    lemma_le_len(2, 2);
    lemma_le_len(2, 2);
    lemma_le_len(0, 2);
    lemma_le_len(m.order_id as nat, 8);
    lemma_le_len(m.match_number as nat, 8);
    lemma_le_len(m.quantity as nat, 8);
    assert(le16_at(b, 0) == 24) by {
        assert(b.subrange(0, 2) =~= le(24, 2));
        lemma_wrote_le16(b, 0, 24);
    }
    assert(le16_at(b, 2) == 2) by {
        assert(b.subrange(2, 4) =~= le(2, 2));
        lemma_wrote_le16(b, 2, 2);
    }
    assert(le16_at(b, 4) == 2) by {
        assert(b.subrange(4, 6) =~= le(2, 2));
        lemma_wrote_le16(b, 4, 2);
    }
    assert(le16_at(b, 6) == 0) by {
        assert(b.subrange(6, 8) =~= le(0, 2));
        lemma_wrote_le16(b, 6, 0);
    }
    assert(le64_at(b, 8) == m.order_id) by {
        assert(b.subrange(8, 16) =~= le(m.order_id as nat, 8));
        lemma_wrote_le64(b, 8, m.order_id as nat);
    }
    assert(le64_at(b, 16) == m.match_number) by {
        assert(b.subrange(16, 24) =~= le(m.match_number as nat, 8));
        lemma_wrote_le64(b, 16, m.match_number as nat);
    }
    assert(le64_at(b, 24) == m.quantity) by {
        assert(b.subrange(24, 32) =~= le(m.quantity as nat, 8));
        lemma_wrote_le64(b, 24, m.quantity as nat);
    }
}

/// A fill is read from those places.
pub proof fn lemma_execute_read(buf: Seq<u8>)
    requires
        buf.len() >= 32,
    ensures
        ({
            let m = execute_at(buf);
            &&& m.order_id == le64_at(buf, 8)
            &&& m.match_number == le64_at(buf, 16)
            &&& m.quantity == le64_at(buf, 24)
        }),
{
    lemma_read_le64(buf, 8);
    lemma_read_le64(buf, 16);
    lemma_read_le64(buf, 24);
}

/// An order that left the book has its fields at fixed places behind the header.
pub proof fn lemma_delete_layout(m: Delete)
    ensures
        ({
            let b = delete_bytes(m);
            &&& b.len() == 16
            &&& has_header(b, 8, 3, 2)
            &&& le64_at(b, 8) == m.order_id
        }),
{
    let b = delete_bytes(m);
    lemma_le_len(8, 2);
    lemma_le_len(3, 2);
    lemma_le_len(2, 2);
    lemma_le_len(0, 2);
    lemma_le_len(m.order_id as nat, 8);
    assert(le16_at(b, 0) == 8) by {
        assert(b.subrange(0, 2) =~= le(8, 2));
        lemma_wrote_le16(b, 0, 8);
    }
    assert(le16_at(b, 2) == 3) by {
        assert(b.subrange(2, 4) =~= le(3, 2));
        lemma_wrote_le16(b, 2, 3);
    }
    assert(le16_at(b, 4) == 2) by {
        assert(b.subrange(4, 6) =~= le(2, 2));
        lemma_wrote_le16(b, 4, 2);
    }
    assert(le16_at(b, 6) == 0) by {
        assert(b.subrange(6, 8) =~= le(0, 2));
        lemma_wrote_le16(b, 6, 0);
    }
    assert(le64_at(b, 8) == m.order_id) by {
        assert(b.subrange(8, 16) =~= le(m.order_id as nat, 8));
        lemma_wrote_le64(b, 8, m.order_id as nat);
    }
}

/// An order that left the book is read from those places.
pub proof fn lemma_delete_read(buf: Seq<u8>)
    requires
        buf.len() >= 16,
    ensures
        ({
            let m = delete_at(buf);
            &&& m.order_id == le64_at(buf, 8)
        }),
{
    lemma_read_le64(buf, 8);
}

/// Whether a message is a report with these fields, of an order of this symbol.
pub open spec fn is_report(
    b: Seq<u8>,
    symbol: [u8; 8],
    user_ref: u32,
    exec_id: u64,
    order_id: u64,
    side: u8,
    exec_type: u8,
    ord_status: u8,
) -> bool {
    &&& b.len() == 71
    &&& has_header(b, 63, 4, 1)
    &&& le32_at(b, 8) == user_ref
    &&& le64_at(b, 12) == exec_id
    &&& le64_at(b, 20) == order_id
    &&& stands_at(b, 28, symbol@)
    &&& b[36] == side
    &&& b[37] == exec_type
    &&& b[38] == ord_status
}

/// The report of an order that was accepted, cancelled or modified names the order by the
/// client's reference and by the exchange's id, says what happened to it, and carries its
/// price and quantity; nothing was traded.
pub proof fn lemma_report_tells_the_order(symbol: [u8; 8], evt: Event, room: nat)
    requires
        evt.client_fd >= 0,
        evt.ty == EventType::OrderAccepted || evt.ty == EventType::OrderCancelled || evt.ty
            == EventType::OrderModified,
    ensures
        ({
            let b = <SbeOe as OrderEntry>::encoded(symbol, evt, room).bytes;
            let code: u8 = if evt.ty == EventType::OrderAccepted {
                48
            } else if evt.ty == EventType::OrderCancelled {
                52
            } else {
                53
            };
            let o = evt.order;
            &&& is_report(
                b,
                symbol,
                o.user_ref,
                o.order_id,
                o.order_id,
                book_digit(o.side),
                code,
                code,
            )
            &&& le64_at(b, 39) == o.price.0
            &&& le64_at(b, 47) == o.quantity
            &&& le64_at(b, 55) == 0
            &&& le64_at(b, 63) == 0
        }),
{
    lemma_report_layout(report_of(symbol, evt));
}

/// The report of a trade names the maker's order by the client's reference and by the
/// exchange's id, carries the match number, the taker's side, and price and quantity of
/// the trade.
pub proof fn lemma_report_tells_the_trade(symbol: [u8; 8], evt: Event, room: nat)
    requires
        evt.client_fd >= 0,
        evt.ty == EventType::TradeExecuted,
    ensures
        ({
            let b = <SbeOe as OrderEntry>::encoded(symbol, evt, room).bytes;
            let t = evt.trade;
            &&& is_report(
                b,
                symbol,
                t.maker_user_ref,
                t.match_number,
                t.maker_exchange_id,
                book_digit(t.taker_side),
                70,
                49,
            )
            &&& le64_at(b, 39) == t.price.0
            &&& le64_at(b, 47) == t.quantity
            &&& le64_at(b, 55) == t.price.0
            &&& le64_at(b, 63) == t.quantity
        }),
{
    lemma_report_layout(report_of(symbol, evt));
}

/// The report of a refused order names it by the client's reference, and nothing else.
pub proof fn lemma_report_tells_the_refusal(symbol: [u8; 8], evt: Event, room: nat)
    requires
        evt.client_fd >= 0,
        evt.ty == EventType::OrderRejected,
    ensures
        ({
            let b = <SbeOe as OrderEntry>::encoded(symbol, evt, room).bytes;
            &&& is_report(b, symbol, evt.reject.user_ref, 0, 0, 49, 56, 56)
            &&& le64_at(b, 39) == 0
            &&& le64_at(b, 47) == 0
            &&& le64_at(b, 55) == 0
            &&& le64_at(b, 63) == 0
        }),
{
    lemma_report_layout(report_of(symbol, evt));
}

/// A reset, and what is for no connection, is not reported; all else is, and changes
/// nothing in the codec.
pub proof fn lemma_only_resets_go_unreported(symbol: [u8; 8], evt: Event, room: nat)
    ensures
        ({
            let e = <SbeOe as OrderEntry>::encoded(symbol, evt, room);
            &&& e.state == symbol
            &&& (e.bytes.len() == 0) == (evt.ty == EventType::BookReset || evt.client_fd < 0)
        }),
{
    lemma_report_layout(report_of(symbol, evt));
}

/// Whether the input starts with a whole message of this schema and this template.
pub open spec fn message_of(buf: Seq<u8>, template: int) -> bool {
    buf.len() >= 8 && buf.len() >= 8 + le16_at(buf, 0) && le16_at(buf, 4) == 1 && le16_at(buf, 2)
        == template
}

proof fn lemma_header_fields(buf: Seq<u8>)
    requires
        buf.len() >= 8,
    ensures
        ({
            let h = crate::codec::sbe::header_at(buf);
            &&& h.block_length == le16_at(buf, 0)
            &&& h.template_id == le16_at(buf, 2)
            &&& h.schema_id == le16_at(buf, 4)
            &&& h.version == le16_at(buf, 6)
        }),
{
    lemma_read_le16(buf, 0);
    lemma_read_le16(buf, 2);
    lemma_read_le16(buf, 4);
    lemma_read_le16(buf, 6);
}

/// A new order of the codec's symbol becomes a new order of the connection with what the
/// client put into the message.
pub proof fn lemma_new_order_becomes_add(
    symbol: [u8; 8],
    buf: Seq<u8>,
    session: SessionId,
    room: nat,
)
    requires
        message_of(buf, 1),
        buf.len() >= 37,
        stands_at(buf, 12, symbol@),
    ensures
        ({
            let p = <SbeOe as OrderEntry>::parsed(symbol, buf, session, room);
            &&& p.outcome matches ParseOutcome::Command { cmd, consumed }
            &&& consumed == 8 + le16_at(buf, 0)
            &&& cmd.ty == CommandType::Add
            &&& cmd.client_fd == session.0
            &&& cmd.user_ref == le32_at(buf, 8)
            &&& cmd.side == (if buf[20] == 50 {
                crate::types::Side::Ask
            } else {
                crate::types::Side::Bid
            })
            &&& cmd.price.0 == le64_at(buf, 21)
            &&& cmd.quantity == le64_at(buf, 29)
            &&& cmd.time_in_force == 0 && cmd.display == 0 && cmd.capacity == 0
            &&& filled_with(cmd.cl_ord_id@, 0, 14, 32)
            &&& p.reply.len() == 0
            &&& p.state == symbol
        }),
{
    lemma_header_fields(buf);
    lemma_new_order_read(buf);
    lemma_symbol_at(buf, 12);
    let m = new_order_at(buf);
    assert(m.symbol@ =~= symbol@) by {
        assert forall|j: int| 0 <= j < 8 implies m.symbol@[j] == symbol@[j] by {
            assert(symbol@[j] == buf[12 + j]);
            assert(m.symbol@[j] == buf[12 + j]);
        }
    }
    lemma_read_le64(buf, 21);
}

/// A new order of another symbol is answered with a refusal that names it by the client's
/// reference, and gives the engine nothing to do.
pub proof fn lemma_other_symbol_is_refused(
    symbol: [u8; 8],
    buf: Seq<u8>,
    session: SessionId,
    room: nat,
)
    requires
        message_of(buf, 1),
        buf.len() >= 37,
        !stands_at(buf, 12, symbol@),
    ensures
        ({
            let p = <SbeOe as OrderEntry>::parsed(symbol, buf, session, room);
            &&& p.outcome == (ParseOutcome::Reply {
                bytes: 14,
                consumed: (8 + le16_at(buf, 0)) as usize,
            })
            &&& p.reply.len() == 14
            &&& has_header(p.reply, 6, 5, 1)
            &&& le32_at(p.reply, 8) == le32_at(buf, 8)
            &&& le16_at(p.reply, 12) == 1
            &&& p.state == symbol
        }),
{
    lemma_header_fields(buf);
    lemma_new_order_read(buf);
    lemma_symbol_at(buf, 12);
    let m = new_order_at(buf);
    assert(m.symbol@ != symbol@) by {
        if m.symbol@ == symbol@ {
            assert(stands_at(buf, 12, symbol@));
        }
    }
    lemma_reject_layout(Reject { user_ref: m.user_ref, reason: 1 });
}

/// A cancel request becomes the cancel of the order that the client names.
pub proof fn lemma_cancel_request_becomes_cancel(
    symbol: [u8; 8],
    buf: Seq<u8>,
    session: SessionId,
    room: nat,
)
    requires
        message_of(buf, 2),
        buf.len() >= 20,
    ensures
        ({
            let p = <SbeOe as OrderEntry>::parsed(symbol, buf, session, room);
            &&& p.outcome matches ParseOutcome::Command { cmd, consumed }
            &&& consumed == 8 + le16_at(buf, 0)
            &&& cmd.ty == CommandType::Cancel
            &&& cmd.client_fd == session.0
            &&& cmd.user_ref == le32_at(buf, 8)
            &&& cmd.quantity == le64_at(buf, 12)
            &&& cmd.side == crate::types::Side::Bid
            &&& cmd.price.0 == 0
            &&& cmd.time_in_force == 0 && cmd.display == 0 && cmd.capacity == 0
            &&& filled_with(cmd.cl_ord_id@, 0, 14, 32)
            &&& p.reply.len() == 0
            &&& p.state == symbol
        }),
{
    lemma_header_fields(buf);
    lemma_cancel_request_read(buf);
}

/// A replace request becomes the modify of the order that the client names, to side, price
/// and quantity of the request.
pub proof fn lemma_replace_request_becomes_modify(
    symbol: [u8; 8],
    buf: Seq<u8>,
    session: SessionId,
    room: nat,
)
    requires
        message_of(buf, 3),
        buf.len() >= 29,
    ensures
        ({
            let p = <SbeOe as OrderEntry>::parsed(symbol, buf, session, room);
            &&& p.outcome matches ParseOutcome::Command { cmd, consumed }
            &&& consumed == 8 + le16_at(buf, 0)
            &&& cmd.ty == CommandType::Modify
            &&& cmd.client_fd == session.0
            &&& cmd.user_ref == le32_at(buf, 8)
            &&& cmd.side == (if buf[12] == 50 {
                crate::types::Side::Ask
            } else {
                crate::types::Side::Bid
            })
            &&& cmd.price.0 == le64_at(buf, 13)
            &&& cmd.quantity == le64_at(buf, 21)
            &&& cmd.time_in_force == 0 && cmd.display == 0 && cmd.capacity == 0
            &&& filled_with(cmd.cl_ord_id@, 0, 14, 32)
            &&& p.reply.len() == 0
            &&& p.state == symbol
        }),
{
    lemma_header_fields(buf);
    lemma_replace_request_read(buf);
    lemma_read_le64(buf, 13);
}

/// Input that is not a whole message waits for the rest; another schema is skipped byte by
/// byte, another template as a whole.
pub proof fn lemma_anything_else_waits_or_is_skipped(
    symbol: [u8; 8],
    buf: Seq<u8>,
    session: SessionId,
    room: nat,
)
    ensures
        ({
            let p = <SbeOe as OrderEntry>::parsed(symbol, buf, session, room);
            let waits = buf.len() < 8 || buf.len() < 8 + le16_at(buf, 0);
            let foreign = !waits && le16_at(buf, 4) != 1;
            let unknown = !waits && !foreign && !(1 <= le16_at(buf, 2) <= 3);
            &&& waits == (p.outcome is NeedMore)
            &&& (foreign || unknown) == (p.outcome is Bad)
            &&& foreign ==> p.outcome == (ParseOutcome::Bad { consumed: 1 })
            &&& unknown ==> p.outcome == (ParseOutcome::Bad {
                consumed: (8 + le16_at(buf, 0)) as usize,
            })
            &&& p.state == symbol
            &&& waits || foreign || unknown ==> p.reply.len() == 0
        }),
{
    if buf.len() >= 8 {
        lemma_header_fields(buf);
    }
}

/// The codec can be called on input exactly when all fields of the message at its front are
/// there, and so is the room for a refusal that it calls for.
pub proof fn lemma_fields_must_be_there(symbol: [u8; 8], buf: Seq<u8>, room: nat)
    ensures
        <SbeOe as OrderEntry>::accepts(symbol, buf, room) == ((message_of(buf, 1) ==> buf.len()
            >= 37 && (stands_at(buf, 12, symbol@) || room >= 14)) && (message_of(buf, 2)
            ==> buf.len() >= 20) && (message_of(buf, 3) ==> buf.len() >= 29)),
{
    if buf.len() >= 8 {
        lemma_header_fields(buf);
    }
    if buf.len() >= 37 {
        lemma_symbol_at(buf, 12);
        let m = new_order_at(buf);
        if stands_at(buf, 12, symbol@) {
            assert(m.symbol@ =~= symbol@) by {
                assert forall|j: int| 0 <= j < 8 implies m.symbol@[j] == symbol@[j] by {
                    assert(symbol@[j] == buf[12 + j]);
                    assert(m.symbol@[j] == buf[12 + j]);
                }
            }
        }
    }
}

/// The codec can be called on an event exactly when there is room for its report, has
/// nothing to say of its own, and remembers nothing of a connection.
pub proof fn lemma_sbe_is_stateless(
    symbol: [u8; 8],
    evt: Event,
    now: u64,
    session: SessionId,
    room: nat,
)
    ensures
        <SbeOe as OrderEntry>::fits(evt, room) == (evt.ty == EventType::BookReset || evt.client_fd
            < 0 || room >= 71),
        <SbeOe as OrderEntry>::idled(symbol, now, session, room).bytes.len() == 0,
        <SbeOe as OrderEntry>::idled(symbol, now, session, room).state == symbol,
        <SbeOe as OrderEntry>::ended(symbol, session) == symbol,
{
}

/// The datagram of an order that came to rest tells its id, symbol, side, price and
/// quantity; that of a fill the maker's id, the match number and the quantity; that of a
/// cancelled order its id. Nothing else has one.
pub proof fn lemma_datagram_tells_the_event(symbol: [u8; 8], evt: Event)
    ensures
        ({
            let (next, took) = <SbeMd as MarketData>::pushed(
                SbeMdView { symbol, pending: Seq::empty() },
                evt,
            );
            let b = next.pending;
            &&& took
            &&& next.symbol == symbol
            &&& match evt.ty {
                EventType::OrderAccepted => {
                    &&& b.len() == 41
                    &&& has_header(b, 33, 1, 2)
                    &&& le64_at(b, 8) == evt.order.order_id
                    &&& stands_at(b, 16, symbol@)
                    &&& b[24] == book_digit(evt.order.side)
                    &&& le64_at(b, 25) == evt.order.price.0
                    &&& le64_at(b, 33) == evt.order.quantity
                },
                EventType::TradeExecuted => {
                    &&& b.len() == 32
                    &&& has_header(b, 24, 2, 2)
                    &&& le64_at(b, 8) == evt.trade.maker_exchange_id
                    &&& le64_at(b, 16) == evt.trade.match_number
                    &&& le64_at(b, 24) == evt.trade.quantity
                },
                EventType::OrderCancelled => {
                    &&& b.len() == 16
                    &&& has_header(b, 8, 3, 2)
                    &&& le64_at(b, 8) == evt.order.order_id
                },
                _ => b.len() == 0,
            }
        }),
{
    lemma_add_order_layout(crate::codec::sbe_md::add_of(symbol, evt));
    lemma_execute_layout(crate::codec::sbe_md::execute_of(evt));
    lemma_delete_layout(crate::codec::sbe_md::delete_of(evt));
}

/// A datagram waits until it is taken: while one waits no event is taken in, and what is
/// taken is what waited.
pub proof fn lemma_datagram_waits_until_taken(s: SbeMdView, evt: Event)
    ensures
        s.pending.len() > 0 ==> <SbeMd as MarketData>::pushed(s, evt) == (s, false),
        (<SbeMd as MarketData>::taken(s).1 is Some) == (s.pending.len() > 0),
        s.pending.len() > 0 ==> <SbeMd as MarketData>::taken(s).1 == Some(s.pending),
        <SbeMd as MarketData>::taken(s).0.pending.len() == 0,
        <SbeMd as MarketData>::taken(s).0.symbol == s.symbol,
        <SbeMd as MarketData>::pushed(<SbeMd as MarketData>::taken(s).0, evt).1,
{
}

/// A symbol is the first eight bytes of a name, filled up with zeros.
pub proof fn lemma_symbol_is_the_name(name: Seq<u8>)
    ensures
        symbol_of(name)@.len() == 8,
        name.len() >= 8 ==> stands_at(name, 0, symbol_of(name)@),
        name.len() < 8 ==> stands_at(symbol_of(name)@, 0, name) && filled_with(
            symbol_of(name)@,
            name.len() as int,
            8 - name.len(),
            0,
        ),
{
}

} // verus!
