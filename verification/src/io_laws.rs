//! What the reading, answering and publishing threads do, step by step; and what commands
//! and events are made of.

use vstd::prelude::*;

use crate::bytes::{overlay, run, signed64, unsigned64};
use crate::codec::{MarketData, OrderEntry, ParseOutcome, SessionId};

use crate::codec::sbe_md::{SbeMd, SbeMdView};
use crate::egress::{delivered, DeliveryView};
use crate::ingress::{fed, reacted, ActionView, End, ReadEvent};
use crate::md_pub::offered;
use crate::types::{
    blank_command, order_event, padded_id, reject_event, reset_event, signed32, trade_event,
    unsigned32, CommandType, Event, EventOrder, EventReject, EventTrade, EventType, Side,
};

verus! {

/// Whether input was handled as `actions` on its first `n` bytes, and then as the codec in
/// the state `t` handles the rest.
pub open spec fn goes_on<Oe: OrderEntry>(
    s: Oe::State,
    t: Oe::State,
    buf: Seq<u8>,
    session: SessionId,
    room: nat,
    actions: Seq<ActionView>,
    n: int,
) -> bool {
    let f = fed::<Oe>(s, buf, session, room);
    let rest = fed::<Oe>(t, buf.skip(n), session, room);
    &&& f.actions == actions + rest.actions
    &&& f.consumed == n + rest.consumed
    &&& f.end == rest.end
    &&& f.state == rest.state
}

/// Input is handled message by message. A command goes to the engine; an answer, if there
/// is one, is written; garbage is passed over. Each takes the bytes that the codec says,
/// and one if it says none. Input that makes no message yet is left alone.
pub proof fn lemma_input_is_handled_message_by_message<Oe: OrderEntry>(
    s: Oe::State,
    buf: Seq<u8>,
    session: SessionId,
    room: nat,
)
    requires
        buf.len() > 0,
        Oe::accepts(s, buf, room),
    ensures
        ({
            let p = Oe::parsed(s, buf, session, room);
            let f = fed::<Oe>(s, buf, session, room);
            match p.outcome {
                ParseOutcome::Command { cmd, consumed } => {
                    let n: int = if consumed == 0 {
                        1
                    } else {
                        consumed as int
                    };
                    n <= buf.len() ==> goes_on::<Oe>(
                        s,
                        p.state,
                        buf,
                        session,
                        room,
                        seq![ActionView::Push(cmd)],
                        n,
                    )
                },
                ParseOutcome::Reply { consumed, .. } => {
                    let n: int = if consumed == 0 {
                        1
                    } else {
                        consumed as int
                    };
                    n <= buf.len() ==> goes_on::<Oe>(
                        s,
                        p.state,
                        buf,
                        session,
                        room,
                        if p.reply.len() == 0 {
                            Seq::empty()
                        } else {
                            seq![ActionView::Write(p.reply)]
                        },
                        n,
                    )
                },
                ParseOutcome::Bad { consumed } => {
                    let n: int = if consumed == 0 {
                        1
                    } else {
                        consumed as int
                    };
                    n <= buf.len() ==> goes_on::<Oe>(
                        s,
                        p.state,
                        buf,
                        session,
                        room,
                        Seq::empty(),
                        n,
                    )
                },
                ParseOutcome::NeedMore => {
                    &&& f.actions.len() == 0
                    &&& f.consumed == 0
                    &&& f.end == End::Open
                    &&& f.state == p.state
                },
                ParseOutcome::Disconnect { consumed, .. } => {
                    &&& f.actions == (if p.reply.len() == 0 {
                        Seq::empty()
                    } else {
                        seq![ActionView::Write(p.reply)]
                    })
                    &&& f.consumed == (if consumed == 0 {
                        1
                    } else {
                        consumed as nat
                    })
                    &&& f.end == End::Dropped
                    &&& f.state == p.state
                },
            }
        }),
{
}

/// No input is nothing to do, and input that the codec cannot be called on is left where it
/// is, with the connection at fault.
pub proof fn lemma_input_that_is_not_handled<Oe: OrderEntry>(
    s: Oe::State,
    buf: Seq<u8>,
    session: SessionId,
    room: nat,
)
    requires
        buf.len() == 0 || !Oe::accepts(s, buf, room),
    ensures
        ({
            let f = fed::<Oe>(s, buf, session, room);
            &&& f.actions.len() == 0
            &&& f.consumed == 0
            &&& f.state == s
            &&& f.end == (if buf.len() == 0 {
                End::Open
            } else {
                End::Fault
            })
        }),
{
}

/// Bytes that arrive are handled behind those that were left, and what makes no message yet
/// is kept. Where nothing arrives, what the codec has to say is written and the bytes that
/// were left stay.
pub proof fn lemma_bytes_are_kept_until_they_make_a_message<Oe: OrderEntry>(
    s: Oe::State,
    inbox: Seq<u8>,
    session: SessionId,
    now: u64,
    event: ReadEvent,
    room: nat,
)
    ensures
        ({
            let (f, left) = reacted::<Oe>(s, inbox, session, now, event, room);
            match event {
                ReadEvent::Data(bytes) => bytes@.len() > 0 ==> {
                    let g = fed::<Oe>(s, inbox + bytes@, session, room);
                    &&& f.actions == g.actions
                    &&& f.end == g.end
                    &&& left == (inbox + bytes@).skip(g.consumed as int)
                },
                ReadEvent::Idle => {
                    let e = Oe::idled(s, now, session, room);
                    &&& f.actions == (if e.bytes.len() == 0 {
                        Seq::empty()
                    } else {
                        seq![ActionView::Write(e.bytes)]
                    })
                    &&& f.state == e.state
                    &&& f.end == End::Open
                    &&& left == inbox
                },
                ReadEvent::Failed => f.actions.len() == 0 && f.end == End::Dropped && f.state
                    == Oe::ended(s, session),
            }
        }),
{
}

/// An event is written to the connection that it names, as the codec encodes it. What is
/// for nobody, or has no message, is not written; and only what the codec encoded changes
/// the codec.
pub proof fn lemma_events_go_to_their_connection<Oe: OrderEntry>(
    s: Oe::State,
    evt: Event,
    room: nat,
)
    ensures
        ({
            let (t, d) = delivered::<Oe>(s, evt, room);
            let e = Oe::encoded(s, evt, room);
            &&& evt.client_fd < 0 ==> t == s && d is Nothing
            &&& evt.client_fd >= 0 && !Oe::fits(evt, room) ==> t == s && d is Fault
            &&& evt.client_fd >= 0 && Oe::fits(evt, room) ==> {
                &&& t == e.state
                &&& e.bytes.len() == 0 ==> d is Nothing
                &&& e.bytes.len() > 0 ==> d == (DeliveryView::Write {
                    fd: evt.client_fd,
                    bytes: e.bytes,
                })
            }
        }),
{
}

/// An event that a packer takes sends nothing yet; for one that it does not take, what it
/// holds goes out first, and the event is offered again.
pub proof fn lemma_full_packets_go_out_first<Md: MarketData>(s: Md::State, evt: Event)
    ensures
        ({
            let (t, sent) = offered::<Md>(s, evt);
            let (s1, took) = Md::pushed(s, evt);
            &&& took ==> t == s1 && sent is None
            &&& !took ==> sent == Md::taken(s1).1 && t == Md::pushed(Md::taken(s1).0, evt).0
        }),
{
}

/// No datagram of the SBE tape is lost: the one that waits goes out whole before another
/// takes its place.
pub proof fn lemma_waiting_datagram_goes_out(s: SbeMdView, evt: Event)
    ensures
        ({
            let (t, sent) = offered::<SbeMd>(s, evt);
            let fresh = SbeMdView { symbol: s.symbol, pending: Seq::empty() };
            &&& s.pending.len() > 0 ==> sent == Some(s.pending)
            &&& s.pending.len() == 0 ==> sent is None
            &&& t == <SbeMd as MarketData>::pushed(fresh, evt).0
        }),
{
    if s.pending.len() == 0 {
        assert(s.pending =~= Seq::empty());
    }
}

/// Whether an id is blank.
pub open spec fn is_blank(id: [u8; 14]) -> bool {
    forall|i: int| 0 <= i < 14 ==> #[trigger] id@[i] == 32
}

/// A blank command is of its type, for connection one, and otherwise at rest.
pub proof fn lemma_blank_command(ty: CommandType)
    ensures
        ({
            let c = blank_command(ty);
            &&& c.ty == ty
            &&& c.side == Side::Bid
            &&& c.price.0 == 0 && c.quantity == 0 && c.user_ref == 0
            &&& c.client_fd == 1
            &&& is_blank(c.cl_ord_id)
            &&& c.time_in_force == 0 && c.display == 0 && c.capacity == 0
        }),
{
}

/// An id is the first fourteen bytes of a text, filled up with spaces.
pub proof fn lemma_id_is_the_text(text: Seq<u8>, i: int)
    requires
        0 <= i < 14,
    ensures
        padded_id(text)@[i] == (if i < text.len() {
            text[i]
        } else {
            32u8
        }),
{
}

/// An event carries the connection and the order, trade or refusal that it was made of, and
/// nothing besides.
pub proof fn lemma_events_carry_what_they_are_about(
    ty: EventType,
    fd: i32,
    order: EventOrder,
    trade: EventTrade,
    reject: EventReject,
)
    ensures
        ({
            let o = order_event(ty, fd, order);
            let t = trade_event(fd, trade);
            let j = reject_event(fd, reject);
            let r = reset_event();
            &&& o.ty == ty && o.client_fd == fd && o.order == order && o.timestamp == 0
            &&& t.ty == EventType::TradeExecuted && t.client_fd == fd && t.trade == trade
                && t.timestamp == 0
            &&& j.ty == EventType::OrderRejected && j.client_fd == fd && j.reject == reject
                && j.timestamp == 0
            &&& r.ty == EventType::BookReset && r.client_fd == -1 && r.timestamp == 0
            &&& o.trade == r.trade && o.reject == r.reject
            &&& t.order == r.order && t.reject == r.reject
            &&& j.order == r.order && j.trade == r.trade
            &&& r.order.order_id == 0 && r.order.user_ref == 0 && r.order.quantity == 0
            &&& r.order.price.0 == 0 && r.order.order_state == 0 && is_blank(r.order.cl_ord_id)
            &&& r.trade.match_number == 0 && r.trade.maker_exchange_id == 0
            &&& r.trade.maker_user_ref == 0 && r.trade.price.0 == 0 && r.trade.quantity == 0
            &&& r.reject.user_ref == 0 && r.reject.reason == 0 && is_blank(r.reject.cl_ord_id)
        }),
{
}

/// The other side of a bid is an ask, and of an ask a bid.
pub proof fn lemma_sides_face_each_other(side: Side)
    ensures
        side.other() != side,
        side.other().other() == side,
{
}

/// Signed and unsigned readings of a number differ by one whole round where the number is
/// negative, and by nothing where it is not.
pub proof fn lemma_signed_readings(a: i32, b: u64, c: i64)
    ensures
        unsigned32(a) == (if a < 0 {
            a + 0x1_0000_0000
        } else {
            a as int
        }),
        signed32(unsigned32(a)) == a,
        signed64(b) == (if b < 0x8000_0000_0000_0000 {
            b as int
        } else {
            b - 0x1_0000_0000_0000_0000
        }),
        unsigned64(c) == (if c < 0 {
            c + 0x1_0000_0000_0000_0000
        } else {
            c as int
        }),
{
}

/// Bytes written over the front of a buffer stand there, and the rest stays as it was.
pub proof fn lemma_writing_over_the_front(out: Seq<u8>, src: Seq<u8>, i: int)
    requires
        src.len() <= out.len(),
        0 <= i < out.len(),
    ensures
        overlay(out, src).len() == out.len(),
        overlay(out, src)[i] == (if i < src.len() {
            src[i]
        } else {
            out[i]
        }),
        run(src[0], out.len())[i] == src[0],
{
}

/// How much is kept of a connection, how large the log is, how many events are answered at a
/// time, and how long datagrams get.
pub proof fn lemma_how_much()
    ensures
        crate::ingress::READ_BUF == 4096,
        crate::wal::WAL_SIZE == 0x8000_0000,
        crate::wal::FRAME == 64,
        crate::egress::BATCH == 64,
        crate::codec::itch::MTU == 1400,
        crate::codec::sbe_md::CAP == 64,
{
}

} // verus!
