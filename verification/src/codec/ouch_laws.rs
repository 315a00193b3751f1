//! What a client finds at the fixed places of an OUCH message, and what it gets by filling
//! them.

use vstd::prelude::*;

use crate::bytes::{be, lemma_be_len};
use crate::codec::{OrderEntry, ParseOutcome, SessionId};
use crate::codec::ouch::{event_bytes, message_at, Ouch};
use crate::types::{CommandType, Event, EventType, Side};
use crate::wire::{
    be16_at, be32_at, be64_at, filled_with, lemma_read_be32, lemma_read_be64, lemma_wrote_be16,
    lemma_wrote_be32, lemma_wrote_be64, stands_at,
};

verus! {

/// An Order Accepted tells the client everything about its order: reference, side,
/// quantity, price, the exchange's id, state and client order id.
pub proof fn lemma_accepted_tells_the_order(evt: Event, room: nat)
    requires
        evt.ty == EventType::OrderAccepted,
        room >= 64,
    ensures
        ({
            let b = <Ouch as OrderEntry>::encoded((), evt, room).bytes;
            &&& b.len() == 64
            &&& b[0] == 65
            &&& filled_with(b, 1, 8, 0)
            &&& be32_at(b, 9) == evt.order.user_ref
            &&& b[13] == (if evt.order.side == Side::Bid {
                66u8
            } else {
                83u8
            })
            &&& be32_at(b, 14) == evt.order.quantity % 0x1_0000_0000
            &&& filled_with(b, 18, 8, 32)
            &&& be64_at(b, 26) == evt.order.price.0
            &&& filled_with(b, 34, 2, 0)
            &&& be64_at(b, 36) == evt.order.order_id
            &&& filled_with(b, 44, 3, 0)
            &&& b[47] == evt.order.order_state
            &&& stands_at(b, 48, evt.order.cl_ord_id@)
            &&& filled_with(b, 62, 2, 0)
        }),
{
    let o = evt.order;
    lemma_be_len(o.user_ref as nat, 4);
    lemma_be_len(o.quantity as nat, 4);
    lemma_be_len(o.price.0 as nat, 8);
    lemma_be_len(o.order_id as nat, 8);
    let b = event_bytes(evt);
    assert(be32_at(b, 9) == (o.user_ref as nat) % 0x1_0000_0000) by {
        assert(b.subrange(9, 13) =~= be(o.user_ref as nat, 4));
        lemma_wrote_be32(b, 9, o.user_ref as nat);
    }
    assert(be32_at(b, 14) == (o.quantity as nat) % 0x1_0000_0000) by {
        assert(b.subrange(14, 18) =~= be(o.quantity as nat, 4));
        lemma_wrote_be32(b, 14, o.quantity as nat);
    }
    assert(be64_at(b, 26) == (o.price.0 as nat) % 0x1_0000_0000_0000_0000) by {
        assert(b.subrange(26, 34) =~= be(o.price.0 as nat, 8));
        lemma_wrote_be64(b, 26, o.price.0 as nat);
    }
    assert(be64_at(b, 36) == (o.order_id as nat) % 0x1_0000_0000_0000_0000) by {
        assert(b.subrange(36, 44) =~= be(o.order_id as nat, 8));
        lemma_wrote_be64(b, 36, o.order_id as nat);
    }
}

/// An Order Canceled tells the client which of its orders is gone, and how much of it,
/// with the reason that it was asked for.
pub proof fn lemma_canceled_tells_the_order(evt: Event, room: nat)
    requires
        evt.ty == EventType::OrderCancelled,
        room >= 20,
    ensures
        ({
            let b = <Ouch as OrderEntry>::encoded((), evt, room).bytes;
            &&& b.len() == 20
            &&& b[0] == 67
            &&& filled_with(b, 1, 8, 0)
            &&& be32_at(b, 9) == evt.order.user_ref
            &&& be32_at(b, 13) == evt.order.quantity % 0x1_0000_0000
            &&& b[17] == 85
            &&& filled_with(b, 18, 2, 0)
        }),
{
    let o = evt.order;
    lemma_be_len(o.user_ref as nat, 4);
    lemma_be_len(o.quantity as nat, 4);
    let b = event_bytes(evt);
    assert(be32_at(b, 9) == (o.user_ref as nat) % 0x1_0000_0000) by {
        assert(b.subrange(9, 13) =~= be(o.user_ref as nat, 4));
        lemma_wrote_be32(b, 9, o.user_ref as nat);
    }
    assert(be32_at(b, 13) == (o.quantity as nat) % 0x1_0000_0000) by {
        assert(b.subrange(13, 17) =~= be(o.quantity as nat, 4));
        lemma_wrote_be32(b, 13, o.quantity as nat);
    }
}

/// An Order Modified tells the client which of its orders changed, its side and its
/// quantity.
pub proof fn lemma_modified_tells_the_order(evt: Event, room: nat)
    requires
        evt.ty == EventType::OrderModified,
        room >= 19,
    ensures
        ({
            let b = <Ouch as OrderEntry>::encoded((), evt, room).bytes;
            &&& b.len() == 19
            &&& b[0] == 77
            &&& filled_with(b, 1, 8, 0)
            &&& be32_at(b, 9) == evt.order.user_ref
            &&& b[13] == (if evt.order.side == Side::Bid {
                66u8
            } else {
                83u8
            })
            &&& be32_at(b, 14) == evt.order.quantity % 0x1_0000_0000
            &&& b[18] == 0
        }),
{
    let o = evt.order;
    lemma_be_len(o.user_ref as nat, 4);
    lemma_be_len(o.quantity as nat, 4);
    let b = event_bytes(evt);
    assert(be32_at(b, 9) == (o.user_ref as nat) % 0x1_0000_0000) by {
        assert(b.subrange(9, 13) =~= be(o.user_ref as nat, 4));
        lemma_wrote_be32(b, 9, o.user_ref as nat);
    }
    assert(be32_at(b, 14) == (o.quantity as nat) % 0x1_0000_0000) by {
        assert(b.subrange(14, 18) =~= be(o.quantity as nat, 4));
        lemma_wrote_be32(b, 14, o.quantity as nat);
    }
}

/// An Order Rejected tells the client which of its orders was turned down, and why.
pub proof fn lemma_rejected_tells_the_reason(evt: Event, room: nat)
    requires
        evt.ty == EventType::OrderRejected,
        room >= 32,
    ensures
        ({
            let b = <Ouch as OrderEntry>::encoded((), evt, room).bytes;
            &&& b.len() == 32
            &&& b[0] == 74
            &&& filled_with(b, 1, 8, 0)
            &&& be32_at(b, 9) == evt.reject.user_ref
            &&& be16_at(b, 13) == evt.reject.reason
            &&& stands_at(b, 15, evt.reject.cl_ord_id@)
            &&& filled_with(b, 29, 3, 0)
        }),
{
    let j = evt.reject;
    lemma_be_len(j.user_ref as nat, 4);
    lemma_be_len(j.reason as nat, 2);
    let b = event_bytes(evt);
    assert(be32_at(b, 9) == (j.user_ref as nat) % 0x1_0000_0000) by {
        assert(b.subrange(9, 13) =~= be(j.user_ref as nat, 4));
        lemma_wrote_be32(b, 9, j.user_ref as nat);
    }
    assert(be16_at(b, 13) == (j.reason as nat) % 0x1_0000) by {
        assert(b.subrange(13, 15) =~= be(j.reason as nat, 2));
        lemma_wrote_be16(b, 13, j.reason as nat);
    }
}

/// An Order Executed tells the client the maker's reference, quantity, price and match
/// number of a trade.
pub proof fn lemma_executed_tells_the_trade(evt: Event, room: nat)
    requires
        evt.ty == EventType::TradeExecuted,
        room >= 38,
    ensures
        ({
            let b = <Ouch as OrderEntry>::encoded((), evt, room).bytes;
            &&& b.len() == 38
            &&& b[0] == 69
            &&& filled_with(b, 1, 8, 0)
            &&& be32_at(b, 9) == evt.trade.maker_user_ref
            &&& be32_at(b, 13) == evt.trade.quantity % 0x1_0000_0000
            &&& be64_at(b, 17) == evt.trade.price.0
            &&& b[25] == 0
            &&& be64_at(b, 26) == evt.trade.match_number
            &&& filled_with(b, 34, 4, 0)
        }),
{
    let t = evt.trade;
    lemma_be_len(t.maker_user_ref as nat, 4);
    lemma_be_len(t.quantity as nat, 4);
    lemma_be_len(t.price.0 as nat, 8);
    lemma_be_len(t.match_number as nat, 8);
    let b = event_bytes(evt);
    assert(be32_at(b, 9) == (t.maker_user_ref as nat) % 0x1_0000_0000) by {
        assert(b.subrange(9, 13) =~= be(t.maker_user_ref as nat, 4));
        lemma_wrote_be32(b, 9, t.maker_user_ref as nat);
    }
    assert(be32_at(b, 13) == (t.quantity as nat) % 0x1_0000_0000) by {
        assert(b.subrange(13, 17) =~= be(t.quantity as nat, 4));
        lemma_wrote_be32(b, 13, t.quantity as nat);
    }
    assert(be64_at(b, 17) == (t.price.0 as nat) % 0x1_0000_0000_0000_0000) by {
        assert(b.subrange(17, 25) =~= be(t.price.0 as nat, 8));
        lemma_wrote_be64(b, 17, t.price.0 as nat);
    }
    assert(be64_at(b, 26) == (t.match_number as nat) % 0x1_0000_0000_0000_0000) by {
        assert(b.subrange(26, 34) =~= be(t.match_number as nat, 8));
        lemma_wrote_be64(b, 26, t.match_number as nat);
    }
}

/// A reset is told to nobody, and what does not fit is not written at all: there are no
/// half messages.
pub proof fn lemma_no_half_messages(evt: Event, room: nat)
    ensures
        ({
            let b = <Ouch as OrderEntry>::encoded((), evt, room).bytes;
            let n: nat = match evt.ty {
                EventType::OrderAccepted => 64,
                EventType::OrderCancelled => 20,
                EventType::OrderModified => 19,
                EventType::OrderRejected => 32,
                EventType::TradeExecuted => 38,
                EventType::BookReset => 0,
            };
            b.len() == (if n <= room {
                n
            } else {
                0
            })
        }),
{
    crate::codec::ouch::lemma_event_lengths(evt);
}

/// An Enter Order becomes a new order of its connection with what the client put into the
/// message, and takes 47 bytes of the input.
pub proof fn lemma_enter_is_a_new_order(buf: Seq<u8>, session: SessionId, room: nat)
    requires
        buf.len() >= 47,
        buf[0] == 79,
    ensures
        ({
            let o = <Ouch as OrderEntry>::parsed((), buf, session, room).outcome;
            &&& o matches ParseOutcome::Command { cmd, consumed }
            &&& consumed == 47
            &&& cmd.ty == CommandType::Add
            &&& cmd.client_fd == session.0
            &&& cmd.user_ref == be32_at(buf, 1)
            &&& cmd.side == (if buf[5] == 66 {
                Side::Bid
            } else {
                Side::Ask
            })
            &&& cmd.quantity == be32_at(buf, 6)
            &&& cmd.price.0 == be64_at(buf, 18)
            &&& cmd.time_in_force == buf[26]
            &&& cmd.display == buf[27]
            &&& cmd.capacity == buf[28]
            &&& stands_at(buf, 31, cmd.cl_ord_id@)
            &&& message_at(buf, session.0) == Some((cmd, consumed))
        }),
{
    lemma_read_be32(buf, 1);
    lemma_read_be32(buf, 6);
    lemma_read_be64(buf, 18);
    let id = crate::types::padded_id(buf.subrange(31, 45));
    assert(id@.len() == 14);
    assert(forall|j: int| 0 <= j < 14 ==> #[trigger] id@[j] == buf[31 + j]);
}

/// A Cancel Order becomes the cancel of the order that the client names, and takes 11
/// bytes of the input.
pub proof fn lemma_cancel_is_a_cancel(buf: Seq<u8>, session: SessionId, room: nat)
    requires
        buf.len() >= 11,
        buf[0] == 88,
    ensures
        ({
            let o = <Ouch as OrderEntry>::parsed((), buf, session, room).outcome;
            &&& o matches ParseOutcome::Command { cmd, consumed }
            &&& consumed == 11
            &&& cmd.ty == CommandType::Cancel
            &&& cmd.client_fd == session.0
            &&& cmd.user_ref == be32_at(buf, 1)
            &&& cmd.quantity == be32_at(buf, 5)
            &&& cmd.side == Side::Bid
            &&& cmd.price.0 == 0
            &&& cmd.time_in_force == 0 && cmd.display == 0 && cmd.capacity == 0
            &&& filled_with(cmd.cl_ord_id@, 0, 14, 32)
            &&& message_at(buf, session.0) == Some((cmd, consumed))
        }),
{
    lemma_read_be32(buf, 1);
    lemma_read_be32(buf, 5);
}

/// A Modify Order becomes the modify of the order that the client names, to the side and
/// quantity that it names, and takes 12 bytes of the input.
pub proof fn lemma_modify_is_a_modify(buf: Seq<u8>, session: SessionId, room: nat)
    requires
        buf.len() >= 12,
        buf[0] == 77,
    ensures
        ({
            let o = <Ouch as OrderEntry>::parsed((), buf, session, room).outcome;
            &&& o matches ParseOutcome::Command { cmd, consumed }
            &&& consumed == 12
            &&& cmd.ty == CommandType::Modify
            &&& cmd.client_fd == session.0
            &&& cmd.user_ref == be32_at(buf, 1)
            &&& cmd.side == (if buf[5] == 66 {
                Side::Bid
            } else {
                Side::Ask
            })
            &&& cmd.quantity == be32_at(buf, 6)
            &&& cmd.price.0 == 0
            &&& cmd.time_in_force == 0 && cmd.display == 0 && cmd.capacity == 0
            &&& filled_with(cmd.cl_ord_id@, 0, 14, 32)
            &&& message_at(buf, session.0) == Some((cmd, consumed))
        }),
{
    lemma_read_be32(buf, 1);
    lemma_read_be32(buf, 6);
}

/// A message that is not all there waits for the rest, and a byte that starts no message
/// is skipped by itself. Neither is answered.
pub proof fn lemma_anything_else_waits_or_is_skipped(buf: Seq<u8>, session: SessionId, room: nat)
    ensures
        ({
            let p = <Ouch as OrderEntry>::parsed((), buf, session, room);
            let waits = buf.len() == 0 || (buf[0] == 79 && buf.len() < 47) || (buf[0] == 88
                && buf.len() < 11) || (buf[0] == 77 && buf.len() < 12);
            let unknown = buf.len() > 0 && buf[0] != 79 && buf[0] != 88 && buf[0] != 77;
            &&& waits == (p.outcome is NeedMore)
            &&& unknown == (p.outcome is Bad)
            &&& unknown ==> p.outcome == (ParseOutcome::Bad { consumed: 1 })
            &&& waits || unknown ==> message_at(buf, session.0) is None
            &&& p.reply.len() == 0
        }),
{
}

/// OUCH can be called on any input and any event, has nothing to say of its own, and
/// remembers nothing.
pub proof fn lemma_ouch_is_stateless(buf: Seq<u8>, evt: Event, now: u64, sid: SessionId, room: nat)
    ensures
        <Ouch as OrderEntry>::accepts((), buf, room),
        <Ouch as OrderEntry>::fits(evt, room),
        <Ouch as OrderEntry>::idled((), now, sid, room).bytes.len() == 0,
{
}

} // verus!
