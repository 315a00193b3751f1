//! ITCH 5.0 + MoldUDP64 packing for the public tape.

use vstd::prelude::*;
use vstd::utf8::{encode_utf8, is_ascii_chars_encode_utf8};

use crate::bytes::{
    be, from_be, lemma_be_len, lemma_be_round_trip, lemma_pow256_values, overlay, push_all,
    push_be, push_run, put, put_at, run,
};
use crate::codec::MarketData;
use crate::codec::ouch::{if_room, place, side_byte, side_code};
use crate::types::{Event, EventType, SPACE};

verus! {

pub const LOCATE: u16 = 0x0100;

/// Message types.
pub const ADD: u8 = 65;

pub const EXECUTED: u8 = 69;

pub const DELETE: u8 = 68;

/// How long a packet can get.
pub const MTU: usize = 1400;

/// How long the MoldUDP64 header is: session, sequence number, message count.
pub const MOLD_HEADER: usize = 20;

/// The header that every message has: type, locate, tracking number and time.
pub open spec fn message_head(ty: u8) -> Seq<u8> {
    seq![ty] + be(LOCATE as nat, 2) + run(0, 4)
}

/// Add Order: order id, side, quantity, symbol, price.
pub open spec fn add_bytes(evt: Event) -> Seq<u8> {
    let o = evt.order;
    message_head(ADD) + be(o.order_id as nat, 8) + seq![side_byte(o.side)] + be(
        o.quantity as nat,
        4,
    ) + run(SPACE, 8) + be(o.price.0 as nat, 4) + run(0, 4)
}

/// Order Executed: order id, quantity, match number.
pub open spec fn executed_bytes(evt: Event) -> Seq<u8> {
    let t = evt.trade;
    message_head(EXECUTED) + be(t.maker_exchange_id as nat, 8) + be(t.quantity as nat, 4) + be(
        t.match_number as nat,
        8,
    ) + run(0, 4)
}

/// Order Delete: order id.
pub open spec fn delete_bytes(evt: Event) -> Seq<u8> {
    message_head(DELETE) + be(evt.order.order_id as nat, 8) + run(0, 4)
}

/// The tape's message for an event. Only what changes the public book has one.
pub open spec fn event_bytes(evt: Event) -> Seq<u8> {
    match evt.ty {
        EventType::OrderAccepted => add_bytes(evt),
        EventType::TradeExecuted => executed_bytes(evt),
        EventType::OrderCancelled => delete_bytes(evt),
        _ => Seq::empty(),
    }
}

/// How long the messages are.
pub proof fn lemma_message_lengths(evt: Event)
    ensures
        add_bytes(evt).len() == 36,
        executed_bytes(evt).len() == 31,
        delete_bytes(evt).len() == 19,
        event_bytes(evt).len() > 0 ==> 19 <= event_bytes(evt).len() <= 36,
{
    lemma_be_len(LOCATE as nat, 2);
    lemma_be_len(evt.order.order_id as nat, 8);
    lemma_be_len(evt.order.quantity as nat, 4);
    lemma_be_len(evt.order.price.0 as nat, 4);
    lemma_be_len(evt.trade.maker_exchange_id as nat, 8);
    lemma_be_len(evt.trade.quantity as nat, 4);
    lemma_be_len(evt.trade.match_number as nat, 8);
}

fn head(ty: u8) -> (r: Vec<u8>)
    ensures
        r@ == message_head(ty),
{
    let mut msg: Vec<u8> = Vec::new();
    msg.push(ty);
    push_be(&mut msg, LOCATE as u64, 2);
    push_run(&mut msg, 0, 4);
    assert(msg@ =~= message_head(ty));
    msg
}

fn add_message(evt: &Event) -> (r: Vec<u8>)
    ensures
        r@ == add_bytes(*evt),
{
    let mut msg = head(ADD);
    push_be(&mut msg, evt.order.order_id, 8);
    msg.push(side_code(evt.order.side));
    push_be(&mut msg, evt.order.quantity, 4);
    push_run(&mut msg, SPACE, 8);
    push_be(&mut msg, evt.order.price.0, 4);
    push_run(&mut msg, 0, 4);
    assert(msg@ =~= add_bytes(*evt));
    msg
}

fn executed_message(evt: &Event) -> (r: Vec<u8>)
    ensures
        r@ == executed_bytes(*evt),
{
    let mut msg = head(EXECUTED);
    push_be(&mut msg, evt.trade.maker_exchange_id, 8);
    push_be(&mut msg, evt.trade.quantity, 4);
    push_be(&mut msg, evt.trade.match_number, 8);
    push_run(&mut msg, 0, 4);
    assert(msg@ =~= executed_bytes(*evt));
    msg
}

fn delete_message(evt: &Event) -> (r: Vec<u8>)
    ensures
        r@ == delete_bytes(*evt),
{
    let mut msg = head(DELETE);
    push_be(&mut msg, evt.order.order_id, 8);
    push_run(&mut msg, 0, 4);
    assert(msg@ =~= delete_bytes(*evt));
    msg
}

/// The tape's message for an event.
pub fn encode_itch(evt: &Event) -> (r: Vec<u8>)
    ensures
        r@ == event_bytes(*evt),
{
    match evt.ty {
        EventType::OrderAccepted => add_message(evt),
        EventType::TradeExecuted => executed_message(evt),
        EventType::OrderCancelled => delete_message(evt),
        _ => Vec::new(),
    }
}

/// Writes an Add Order message. Returns bytes written: 0 if it does not fit.
pub fn add(evt: &Event, out: &mut [u8]) -> (r: usize)
    ensures
        r == if_room(add_bytes(*evt), old(out)@.len()).len(),
        final(out)@ == overlay(old(out)@, if_room(add_bytes(*evt), old(out)@.len())),
{
    place(&add_message(evt), out)
}

/// Writes an Order Executed message. Returns bytes written: 0 if it does not fit.
pub fn executed(evt: &Event, out: &mut [u8]) -> (r: usize)
    ensures
        r == if_room(executed_bytes(*evt), old(out)@.len()).len(),
        final(out)@ == overlay(old(out)@, if_room(executed_bytes(*evt), old(out)@.len())),
{
    place(&executed_message(evt), out)
}

/// Writes an Order Delete message. Returns bytes written: 0 if it does not fit.
pub fn delete(evt: &Event, out: &mut [u8]) -> (r: usize)
    ensures
        r == if_room(delete_bytes(*evt), old(out)@.len()).len(),
        final(out)@ == overlay(old(out)@, if_room(delete_bytes(*evt), old(out)@.len())),
{
    place(&delete_message(evt), out)
}

/// What a packet under construction holds.
#[verifier::ext_equal]
pub struct PacketView {
    /// The sequence number of its first message.
    pub seq: u64,
    /// How many messages it holds.
    pub count: nat,
    /// The messages, each behind its length.
    pub body: Seq<u8>,
}

/// The name of the session on the wire.
pub open spec fn session_name() -> Seq<u8> {
    encode_utf8("OB_SESSION"@)
}

/// A message behind its length.
pub open spec fn block(msg: Seq<u8>) -> Seq<u8> {
    be(msg.len(), 2) + msg
}

/// A packet on the wire.
pub open spec fn packet_bytes(v: PacketView) -> Seq<u8> {
    session_name() + be(v.seq as nat, 8) + be(v.count, 2) + v.body
}

/// A packet after an event was offered to it, and whether it had room. What has
/// no message always fits.
pub open spec fn pushed(v: PacketView, evt: Event) -> (PacketView, bool) {
    let msg = event_bytes(evt);
    if msg.len() == 0 {
        (v, true)
    } else if MOLD_HEADER + v.body.len() + 2 + msg.len() > MTU {
        (v, false)
    } else {
        (PacketView { seq: v.seq, count: v.count + 1, body: v.body + block(msg) }, true)
    }
}

/// The next packet, and what the one before it held, if anything.
pub open spec fn taken(v: PacketView) -> (PacketView, Option<Seq<u8>>) {
    if v.count == 0 {
        (v, None)
    } else {
        (
            PacketView {
                seq: ((v.seq + v.count) % 0x1_0000_0000_0000_0000) as u64,
                count: 0,
                body: Seq::empty(),
            },
            Some(packet_bytes(v)),
        )
    }
}

/// A MoldUDP64 packet under construction.
pub struct Packet {
    buf: [u8; 1400],
    off: usize,
    count: u16,
    seq: u64,
}

impl View for Packet {
    type V = PacketView;

    closed spec fn view(&self) -> PacketView {
        PacketView {
            seq: self.seq,
            count: self.count as nat,
            body: self.buf@.subrange(MOLD_HEADER as int, self.off as int),
        }
    }
}

pub proof fn lemma_session_name()
    ensures
        session_name().len() == 10,
        session_name() == seq![79u8, 66u8, 95u8, 83u8, 69u8, 83u8, 83u8, 73u8, 79u8, 78u8],
{
    reveal_strlit("OB_SESSION");
    is_ascii_chars_encode_utf8("OB_SESSION"@);
    assert(session_name() =~= seq![79u8, 66u8, 95u8, 83u8, 69u8, 83u8, 83u8, 73u8, 79u8, 78u8]);
}

impl Packet {
    /// Whether the packet is in order.
    pub closed spec fn inv(&self) -> bool {
        &&& self.buf@.len() == MTU
        &&& MOLD_HEADER + 21 * self.count <= self.off <= MTU
        &&& self.buf@.take(10) == session_name()
        &&& self.count == 0 ==> self.off == MOLD_HEADER
    }

    /// The first packet of a session.
    pub fn new() -> (r: Self)
        ensures
            r.inv(),
            r@ == (PacketView { seq: 1, count: 0, body: Seq::empty() }),
    {
        let mut buf: [u8; 1400] = [0u8; 1400];
        proof {
            lemma_session_name();
        }
        put(&mut buf, "OB_SESSION".as_bytes());
        let p = Self { buf, off: MOLD_HEADER, count: 0, seq: 1 };
        assert(p.buf@.take(10) =~= session_name());
        assert(p@.body =~= Seq::empty());
        p
    }

    /// Whether no message is in the packet.
    pub fn empty(&self) -> (r: bool)
        ensures
            r == (self@.count == 0),
    {
        self.count == 0
    }

    /// Appends the message of an event. `false` if the packet is full.
    pub fn push(&mut self, evt: &Event) -> (r: bool)
        requires
            old(self).inv(),
        ensures
            final(self).inv(),
            final(self)@ == pushed(old(self)@, *evt).0,
            r == pushed(old(self)@, *evt).1,
    {
        let msg = encode_itch(evt);
        proof {
            lemma_message_lengths(*evt);
        }
        if msg.len() == 0 {
            return true;
        }
        let need: usize = 2 + msg.len();
        if self.off + need > MTU {
            return false;
        }
        let mut blk: Vec<u8> = Vec::new();
        push_be(&mut blk, msg.len() as u64, 2);
        push_all(&mut blk, &msg);
        proof {
            lemma_be_len(msg@.len(), 2);
        }
        assert(blk@ =~= block(msg@));
        put_at(&mut self.buf, self.off, &blk);
        assert(self.buf@.take(10) =~= session_name()) by {
            assert(self.buf@.take(10) =~= old(self).buf@.take(10));
        }
        self.off = self.off + need;
        self.count = self.count + 1;
        assert(self@.body =~= old(self)@.body + block(msg@));
        true
    }

    /// Takes the packet if it holds anything, and starts the next one.
    pub fn take(&mut self) -> (r: Option<&[u8]>)
        requires
            old(self).inv(),
        ensures
            final(self).inv(),
            final(self)@ == taken(old(self)@).0,
            match r {
                Some(bytes) => taken(old(self)@).1 == Some(bytes@),
                None => taken(old(self)@).1 is None,
            },
            r matches Some(bytes) ==> MOLD_HEADER < bytes@.len() <= MTU,
    {
        if self.count == 0 {
            return None;
        }
        proof {
            lemma_session_name();
            lemma_be_len(self.seq as nat, 8);
            lemma_be_len(self.count as nat, 2);
        }
        let mut head: Vec<u8> = Vec::new();
        push_be(&mut head, self.seq, 8);
        push_be(&mut head, self.count as u64, 2);
        put_at(&mut self.buf, 10, &head);
        let n: usize = self.off;
        assert(self.buf@.take(10) =~= old(self).buf@.take(10));
        assert(self.buf@.subrange(0, n as int) =~= packet_bytes(old(self)@)) by {
            assert(self.buf@.subrange(0, n as int) =~= self.buf@.take(10) + head@
                + self.buf@.subrange(20, n as int));
            assert(self.buf@.subrange(20, n as int) =~= old(self)@.body);
        }
        self.seq = self.seq.wrapping_add(self.count as u64);
        self.off = MOLD_HEADER;
        self.count = 0;
        assert(self@.body =~= Seq::empty());
        Some(&self.buf[0..n])
    }
}

impl MarketData for Packet {
    type State = PacketView;

    open spec fn state(&self) -> PacketView {
        self@
    }

    open spec fn wf(&self) -> bool {
        self.inv()
    }

    open spec fn pushed(s: PacketView, evt: Event) -> (PacketView, bool) {
        pushed(s, evt)
    }

    open spec fn taken(s: PacketView) -> (PacketView, Option<Seq<u8>>) {
        taken(s)
    }

    fn push(&mut self, evt: &Event) -> (r: bool) {
        Packet::push(self, evt)
    }

    fn take(&mut self) -> (r: Option<&[u8]>) {
        Packet::take(self)
    }
}

/// Once a packet was taken, any event fits into the next one.
pub proof fn lemma_flush_then_push_fits(v: PacketView, evt: Event)
    requires
        v.count > 0,
    ensures
        pushed(taken(v).0, evt).1,
{
    lemma_message_lengths(evt);
}

/// The first message of a packet is numbered behind the last one of the packet
/// before it.
pub proof fn lemma_numbers_are_continuous(v: PacketView)
    requires
        v.seq + v.count < 0x1_0000_0000_0000_0000,
    ensures
        taken(v).0.seq == v.seq + v.count,
        taken(v).0.count == 0,
{
}

/// The messages of a list of events, in order.
pub open spec fn messages(evts: Seq<Event>) -> Seq<Seq<u8>>
    decreases evts.len(),
{
    if evts.len() == 0 {
        Seq::empty()
    } else {
        let msg = event_bytes(evts.last());
        if msg.len() == 0 {
            messages(evts.drop_last())
        } else {
            messages(evts.drop_last()).push(msg)
        }
    }
}

/// Messages one behind the other, each behind its length.
pub open spec fn blocks(msgs: Seq<Seq<u8>>) -> Seq<u8>
    decreases msgs.len(),
{
    if msgs.len() == 0 {
        Seq::empty()
    } else {
        blocks(msgs.drop_last()) + block(msgs.last())
    }
}

/// A packet after a list of events was offered to it.
pub open spec fn pushed_all(v: PacketView, evts: Seq<Event>) -> PacketView
    decreases evts.len(),
{
    if evts.len() == 0 {
        v
    } else {
        pushed(pushed_all(v, evts.drop_last()), evts.last()).0
    }
}

/// As long as they fit, a packet holds the messages of all events it was offered,
/// in order, and counts them.
pub proof fn lemma_packet_holds_events(v: PacketView, evts: Seq<Event>)
    requires
        MOLD_HEADER + v.body.len() + blocks(messages(evts)).len() <= MTU,
    ensures
        pushed_all(v, evts) == (PacketView {
            seq: v.seq,
            count: v.count + messages(evts).len(),
            body: v.body + blocks(messages(evts)),
        }),
    decreases evts.len(),
{
    if evts.len() == 0 {
        assert(v.body + Seq::<u8>::empty() =~= v.body);
    } else {
        let before = messages(evts.drop_last());
        let msg = event_bytes(evts.last());
        if msg.len() > 0 {
            assert(messages(evts).drop_last() =~= before);
            lemma_be_len(msg.len(), 2);
            lemma_packet_holds_events(v, evts.drop_last());
            assert((v.body + blocks(before)) + block(msg) =~= v.body + blocks(messages(evts)));
        } else {
            lemma_packet_holds_events(v, evts.drop_last());
        }
    }
}

/// The messages that a receiver finds in the body of a packet.
pub open spec fn split_blocks(body: Seq<u8>) -> Seq<Seq<u8>>
    decreases body.len(),
{
    if body.len() < 2 || body.len() < 2 + from_be(body.take(2)) {
        Seq::empty()
    } else {
        let n = from_be(body.take(2)) as int;
        seq![body.subrange(2, 2 + n)] + split_blocks(body.skip(2 + n))
    }
}

proof fn lemma_blocks_front(msgs: Seq<Seq<u8>>)
    requires
        msgs.len() > 0,
    ensures
        blocks(msgs) == block(msgs[0]) + blocks(msgs.skip(1)),
    decreases msgs.len(),
{
    if msgs.len() == 1 {
        assert(msgs.drop_last() =~= Seq::<Seq<u8>>::empty());
        assert(msgs.skip(1) =~= Seq::<Seq<u8>>::empty());
        assert(blocks(msgs) =~= block(msgs[0]) + blocks(msgs.skip(1)));
    } else {
        lemma_blocks_front(msgs.drop_last());
        assert(msgs.drop_last().skip(1) =~= msgs.skip(1).drop_last());
        assert(blocks(msgs) =~= block(msgs[0]) + blocks(msgs.skip(1)));
    }
}

/// A receiver finds in the body of a packet the messages that it was made of.
pub proof fn lemma_receiver_finds_messages(msgs: Seq<Seq<u8>>)
    requires
        forall|i: int| 0 <= i < msgs.len() ==> (#[trigger] msgs[i]).len() < 0x1_0000,
    ensures
        split_blocks(blocks(msgs)) == msgs,
    decreases msgs.len(),
{
    if msgs.len() > 0 {
        let body = blocks(msgs);
        let m = msgs[0];
        lemma_blocks_front(msgs);
        lemma_pow256_values();
        lemma_be_round_trip(m.len(), 2);
        assert(body.take(2) =~= be(m.len(), 2));
        assert(body.subrange(2, 2 + m.len() as int) =~= m);
        assert(body.skip(2 + m.len() as int) =~= blocks(msgs.skip(1)));
        assert forall|i: int| 0 <= i < msgs.skip(1).len() implies (#[trigger] msgs.skip(
            1,
        )[i]).len() < 0x1_0000 by {
            assert(msgs.skip(1)[i] == msgs[i + 1]);
        }
        lemma_receiver_finds_messages(msgs.skip(1));
        assert(seq![m] + msgs.skip(1) =~= msgs);
    }
}

} // verus!
