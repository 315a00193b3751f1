//! What a subscriber finds at the fixed places of the tape's messages and packets.

use vstd::prelude::*;

use crate::bytes::{be, lemma_be_len};
use crate::codec::MarketData;
use crate::codec::itch::{
    add_bytes, block, blocks, delete_bytes, event_bytes, executed_bytes, lemma_message_lengths,
    lemma_packet_holds_events, lemma_receiver_finds_messages, lemma_session_name, messages,
    packet_bytes, pushed_all, split_blocks, Packet, PacketView,
};
use crate::types::{Event, EventType, Side};
use crate::wire::{
    be16_at, be32_at, be64_at, filled_with, lemma_read_be16, lemma_wrote_be16, lemma_wrote_be32,
    lemma_wrote_be64, stands_at,
};

verus! {

/// Whether a message starts as every message of the tape does: its type, the locate code,
/// and zeros for tracking number and time.
pub open spec fn has_head(b: Seq<u8>, ty: u8) -> bool {
    b.len() >= 7 && b[0] == ty && b[1] == 1 && b[2] == 0 && filled_with(b, 3, 4, 0)
}

/// Whether a message is the Add Order of an event's order.
pub open spec fn tells_add(b: Seq<u8>, evt: Event) -> bool {
    &&& b.len() == 36
    &&& has_head(b, 65)
    &&& be64_at(b, 7) == evt.order.order_id
    &&& b[15] == (if evt.order.side == Side::Bid {
        66u8
    } else {
        83u8
    })
    &&& be32_at(b, 16) == evt.order.quantity % 0x1_0000_0000
    &&& filled_with(b, 20, 8, 32)
    &&& be32_at(b, 28) == evt.order.price.0 % 0x1_0000_0000
    &&& filled_with(b, 32, 4, 0)
}

/// Whether a message is the Order Executed of an event's trade.
pub open spec fn tells_execution(b: Seq<u8>, evt: Event) -> bool {
    &&& b.len() == 31
    &&& has_head(b, 69)
    &&& be64_at(b, 7) == evt.trade.maker_exchange_id
    &&& be32_at(b, 15) == evt.trade.quantity % 0x1_0000_0000
    &&& be64_at(b, 19) == evt.trade.match_number
    &&& filled_with(b, 27, 4, 0)
}

/// Whether a message is the Order Delete of an event's order.
pub open spec fn tells_delete(b: Seq<u8>, evt: Event) -> bool {
    &&& b.len() == 19
    &&& has_head(b, 68)
    &&& be64_at(b, 7) == evt.order.order_id
    &&& filled_with(b, 15, 4, 0)
}

proof fn lemma_head(b: Seq<u8>)
    requires
        b.len() >= 3,
        b.subrange(1, 3) == be(0x0100, 2),
    ensures
        b[1] == 1,
        b[2] == 0,
{
    lemma_wrote_be16(b, 1, 0x0100);
}

/// The Add Order of an order carries its id, side, quantity and price.
pub proof fn lemma_add_tells_the_order(evt: Event)
    ensures
        tells_add(add_bytes(evt), evt),
{
    let b = add_bytes(evt);
    let o = evt.order;
    lemma_be_len(0x0100, 2);
    lemma_be_len(o.order_id as nat, 8);
    lemma_be_len(o.quantity as nat, 4);
    lemma_be_len(o.price.0 as nat, 4);
    assert(b.subrange(1, 3) =~= be(0x0100, 2));
    lemma_head(b);
    assert(be64_at(b, 7) == (o.order_id as nat) % 0x1_0000_0000_0000_0000) by {
        assert(b.subrange(7, 15) =~= be(o.order_id as nat, 8));
        lemma_wrote_be64(b, 7, o.order_id as nat);
    }
    assert(be32_at(b, 16) == (o.quantity as nat) % 0x1_0000_0000) by {
        assert(b.subrange(16, 20) =~= be(o.quantity as nat, 4));
        lemma_wrote_be32(b, 16, o.quantity as nat);
    }
    assert(be32_at(b, 28) == (o.price.0 as nat) % 0x1_0000_0000) by {
        assert(b.subrange(28, 32) =~= be(o.price.0 as nat, 4));
        lemma_wrote_be32(b, 28, o.price.0 as nat);
    }
}

/// The Order Executed of a trade carries the id of the maker's order, the quantity and the
/// match number.
pub proof fn lemma_execution_tells_the_trade(evt: Event)
    ensures
        tells_execution(executed_bytes(evt), evt),
{
    let b = executed_bytes(evt);
    let t = evt.trade;
    lemma_be_len(0x0100, 2);
    lemma_be_len(t.maker_exchange_id as nat, 8);
    lemma_be_len(t.quantity as nat, 4);
    lemma_be_len(t.match_number as nat, 8);
    assert(b.subrange(1, 3) =~= be(0x0100, 2));
    lemma_head(b);
    assert(be64_at(b, 7) == (t.maker_exchange_id as nat) % 0x1_0000_0000_0000_0000) by {
        assert(b.subrange(7, 15) =~= be(t.maker_exchange_id as nat, 8));
        lemma_wrote_be64(b, 7, t.maker_exchange_id as nat);
    }
    assert(be32_at(b, 15) == (t.quantity as nat) % 0x1_0000_0000) by {
        assert(b.subrange(15, 19) =~= be(t.quantity as nat, 4));
        lemma_wrote_be32(b, 15, t.quantity as nat);
    }
    assert(be64_at(b, 19) == (t.match_number as nat) % 0x1_0000_0000_0000_0000) by {
        assert(b.subrange(19, 27) =~= be(t.match_number as nat, 8));
        lemma_wrote_be64(b, 19, t.match_number as nat);
    }
}

/// The Order Delete of an order carries its id.
pub proof fn lemma_delete_tells_the_order(evt: Event)
    ensures
        tells_delete(delete_bytes(evt), evt),
{
    let b = delete_bytes(evt);
    let o = evt.order;
    lemma_be_len(0x0100, 2);
    lemma_be_len(o.order_id as nat, 8);
    assert(b.subrange(1, 3) =~= be(0x0100, 2));
    lemma_head(b);
    assert(be64_at(b, 7) == (o.order_id as nat) % 0x1_0000_0000_0000_0000) by {
        assert(b.subrange(7, 15) =~= be(o.order_id as nat, 8));
        lemma_wrote_be64(b, 7, o.order_id as nat);
    }
}

/// Whether a message is what the tape says of an event; nothing, of an event that does not
/// change the public book.
pub open spec fn tells(b: Seq<u8>, evt: Event) -> bool {
    match evt.ty {
        EventType::OrderAccepted => tells_add(b, evt),
        EventType::TradeExecuted => tells_execution(b, evt),
        EventType::OrderCancelled => tells_delete(b, evt),
        _ => b.len() == 0,
    }
}

/// The tape has one message for each event that changes the public book, and it tells the
/// event.
pub proof fn lemma_tape_tells_events(evt: Event)
    ensures
        tells(event_bytes(evt), evt),
{
    lemma_add_tells_the_order(evt);
    lemma_execution_tells_the_trade(evt);
    lemma_delete_tells_the_order(evt);
}

/// A subscriber knows by its id which order is executed or leaves the book: the messages
/// of one order carry the same eight bytes.
pub proof fn lemma_messages_of_an_order_carry_one_id(added: Event, traded: Event, gone: Event)
    requires
        added.ty == EventType::OrderAccepted,
        traded.ty == EventType::TradeExecuted,
        gone.ty == EventType::OrderCancelled,
    ensures
        (be64_at(event_bytes(added), 7) == be64_at(event_bytes(gone), 7)) == (added.order.order_id
            == gone.order.order_id),
        (be64_at(event_bytes(added), 7) == be64_at(event_bytes(traded), 7)) == (
        added.order.order_id == traded.trade.maker_exchange_id),
{
    lemma_tape_tells_events(added);
    lemma_tape_tells_events(traded);
    lemma_tape_tells_events(gone);
}

/// A message stands in a packet behind its length.
pub proof fn lemma_block_is_prefixed(msg: Seq<u8>)
    requires
        msg.len() < 0x1_0000,
    ensures
        block(msg).len() == 2 + msg.len(),
        be16_at(block(msg), 0) == msg.len(),
        stands_at(block(msg), 2, msg),
{
    let b = block(msg);
    lemma_be_len(msg.len(), 2);
    assert(be16_at(b, 0) == (msg.len()) % 0x1_0000) by {
        assert(b.subrange(0, 2) =~= be(msg.len(), 2));
        lemma_wrote_be16(b, 0, msg.len());
    }
}

/// A packet starts with the session's name, the number of its first message and the count
/// of its messages; behind them stand the messages.
pub proof fn lemma_packet_on_the_wire(v: PacketView)
    requires
        v.count < 0x1_0000,
    ensures
        ({
            let b = packet_bytes(v);
            &&& b.len() == 20 + v.body.len()
            &&& b[0] == 79 && b[1] == 66 && b[2] == 95 && b[3] == 83 && b[4] == 69
            &&& b[5] == 83 && b[6] == 83 && b[7] == 73 && b[8] == 79 && b[9] == 78
            &&& be64_at(b, 10) == v.seq
            &&& be16_at(b, 18) == v.count
            &&& stands_at(b, 20, v.body)
        }),
{
    let b = packet_bytes(v);
    lemma_session_name();
    lemma_be_len(v.seq as nat, 8);
    lemma_be_len(v.count, 2);
    assert(be64_at(b, 10) == (v.seq as nat) % 0x1_0000_0000_0000_0000) by {
        assert(b.subrange(10, 18) =~= be(v.seq as nat, 8));
        lemma_wrote_be64(b, 10, v.seq as nat);
    }
    assert(be16_at(b, 18) == (v.count) % 0x1_0000) by {
        assert(b.subrange(18, 20) =~= be(v.count, 2));
        lemma_wrote_be16(b, 18, v.count);
    }
}

/// The events of a list that the tape has a message for.
pub open spec fn public_events(evts: Seq<Event>) -> Seq<Event>
    decreases evts.len(),
{
    if evts.len() == 0 {
        evts
    } else {
        let before = public_events(evts.drop_last());
        match evts.last().ty {
            EventType::OrderAccepted | EventType::TradeExecuted | EventType::OrderCancelled =>
                before.push(evts.last()),
            _ => before,
        }
    }
}

proof fn lemma_messages_tell(evts: Seq<Event>)
    ensures
        messages(evts).len() == public_events(evts).len(),
        forall|i: int|
            0 <= i < messages(evts).len() ==> tells(#[trigger] messages(evts)[i], public_events(
                evts,
            )[i]),
        forall|i: int|
            0 <= i < messages(evts).len() ==> 19 <= (#[trigger] messages(evts)[i]).len() <= 36,
    decreases evts.len(),
{
    if evts.len() > 0 {
        lemma_messages_tell(evts.drop_last());
        lemma_tape_tells_events(evts.last());
        lemma_message_lengths(evts.last());
    }
}

/// A packet that was offered events and had room for them tells a subscriber all of those
/// events that change the public book, in order, numbered from where the packet before it
/// ended; and the packet after it goes on from there.
pub proof fn lemma_subscriber_reads_the_events(seq: u64, evts: Seq<Event>)
    requires
        public_events(evts).len() > 0,
        20 + 38 * public_events(evts).len() <= 1400,
        seq + public_events(evts).len() <= u64::MAX,
    ensures
        ({
            let v = pushed_all(PacketView { seq, count: 0, body: Seq::empty() }, evts);
            let (next, sent) = <Packet as MarketData>::taken(v);
            &&& sent matches Some(b)
            &&& be64_at(b, 10) == seq
            &&& be16_at(b, 18) == public_events(evts).len()
            &&& split_blocks(b.skip(20)).len() == public_events(evts).len()
            &&& forall|i: int|
                0 <= i < public_events(evts).len() ==> tells(
                    #[trigger] split_blocks(b.skip(20))[i],
                    public_events(evts)[i],
                )
            &&& next.seq == seq + public_events(evts).len()
            &&& next.count == 0
            &&& next.body.len() == 0
        }),
{
    let empty = PacketView { seq, count: 0, body: Seq::empty() };
    let msgs = messages(evts);
    lemma_messages_tell(evts);
    lemma_blocks_len(msgs);
    lemma_packet_holds_events(empty, evts);
    let v = pushed_all(empty, evts);
    assert(v.body =~= blocks(msgs));
    lemma_packet_on_the_wire(v);
    lemma_receiver_finds_messages(msgs);
    let b = packet_bytes(v);
    assert(b.skip(20) =~= v.body) by {
        assert forall|i: int| 0 <= i < v.body.len() implies b.skip(20)[i] == v.body[i] by {
            assert(v.body[i] == b[20 + i]);
        }
    }
}

proof fn lemma_blocks_len(msgs: Seq<Seq<u8>>)
    requires
        forall|i: int| 0 <= i < msgs.len() ==> (#[trigger] msgs[i]).len() <= 36,
    ensures
        blocks(msgs).len() <= 38 * msgs.len(),
    decreases msgs.len(),
{
    if msgs.len() > 0 {
        assert(msgs.last().len() <= 36);
        lemma_be_len(msgs.last().len(), 2);
        lemma_blocks_len(msgs.drop_last());
    }
}

/// How a subscriber takes a packet apart: the first two bytes say how long the first
/// message is, and the rest is taken apart in the same way.
pub proof fn lemma_taking_apart(body: Seq<u8>)
    requires
        body.len() >= 2,
        body.len() >= 2 + be16_at(body, 0),
    ensures
        ({
            let n = be16_at(body, 0);
            split_blocks(body) == seq![body.subrange(2, 2 + n)] + split_blocks(body.skip(2 + n))
        }),
{
    lemma_read_be16(body, 0);
    assert(body.take(2) =~= body.subrange(0, 2));
}

/// A packet refuses an event exactly when the packet would outgrow a datagram, and then
/// stays as it is; otherwise the event's message goes behind the others, if it has one.
pub proof fn lemma_packet_refuses_only_when_full(v: PacketView, evt: Event)
    ensures
        ({
            let (next, took) = <Packet as MarketData>::pushed(v, evt);
            let msg = event_bytes(evt);
            &&& took == (msg.len() == 0 || 20 + v.body.len() + 2 + msg.len() <= 1400)
            &&& !took || msg.len() == 0 ==> next == v
            &&& took && msg.len() > 0 ==> next.seq == v.seq && next.count == v.count + 1
                && next.body.len() == v.body.len() + 2 + msg.len() && stands_at(
                next.body,
                0,
                v.body,
            ) && be16_at(next.body, v.body.len() as int) == msg.len() && stands_at(
                next.body,
                v.body.len() as int + 2,
                msg,
            )
        }),
{
    let msg = event_bytes(evt);
    lemma_message_lengths(evt);
    lemma_block_is_prefixed(msg);
    lemma_be_len(msg.len(), 2);
    let (next, took) = <Packet as MarketData>::pushed(v, evt);
    if took && msg.len() > 0 {
        let n = v.body.len() as int;
        assert(next.body[n] == block(msg)[0]);
        assert(next.body[n + 1] == block(msg)[1]);
        assert forall|j: int| 0 <= j < msg.len() implies #[trigger] msg[j] == next.body[n + 2
            + j] by {
            assert(msg[j] == block(msg)[2 + j]);
        }
    }
}

/// A packet without messages is not sent, and stays as it is.
pub proof fn lemma_empty_packet_is_not_sent(v: PacketView)
    ensures
        v.count == 0 ==> <Packet as MarketData>::taken(v) == (v, None::<Seq<u8>>),
        v.count > 0 ==> <Packet as MarketData>::taken(v).1 == Some(packet_bytes(v)),
{
}

} // verus!
