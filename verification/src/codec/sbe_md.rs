//! SBE public tape. One message per datagram.

use vstd::prelude::*;

use crate::bytes::{overlay, signed64, to_signed64};
use crate::codec::MarketData;
use crate::codec::sbe::{symbol, symbol_of, to_wire_side, wire_side};
use crate::codec::sbe::market_data::{
    add_order_at, add_order_bytes, delete_at, delete_bytes, execute_at, execute_bytes,
    lemma_add_order_round_trip, lemma_delete_round_trip, lemma_execute_round_trip, Add, Delete,
    Execute,
};
use crate::types::{Event, EventType};

verus! {

/// How long a datagram can get.
pub const CAP: usize = 64;

/// The datagram of an event. Only what changes the public book has one.
pub open spec fn event_bytes(symbol: [u8; 8], evt: Event) -> Seq<u8> {
    match evt.ty {
        EventType::OrderAccepted => add_order_bytes(add_of(symbol, evt)),
        EventType::TradeExecuted => execute_bytes(execute_of(evt)),
        EventType::OrderCancelled => delete_bytes(delete_of(evt)),
        _ => Seq::empty(),
    }
}

pub open spec fn add_of(symbol: [u8; 8], evt: Event) -> Add {
    Add {
        order_id: evt.order.order_id,
        symbol,
        side: wire_side(evt.order.side),
        price: signed64(evt.order.price.0) as i64,
        quantity: evt.order.quantity,
    }
}

pub open spec fn execute_of(evt: Event) -> Execute {
    Execute {
        order_id: evt.trade.maker_exchange_id,
        match_number: evt.trade.match_number,
        quantity: evt.trade.quantity,
    }
}

pub open spec fn delete_of(evt: Event) -> Delete {
    Delete { order_id: evt.order.order_id }
}

/// What a packer holds.
#[verifier::ext_equal]
pub struct SbeMdView {
    pub symbol: [u8; 8],
    /// The datagram that waits to be taken.
    pub pending: Seq<u8>,
}

/// SBE market-data packer. `push` holds one encoded message until `take`.
pub struct SbeMd {
    symbol: [u8; 8],
    buf: [u8; 64],
    len: usize,
}

impl View for SbeMd {
    type V = SbeMdView;

    closed spec fn view(&self) -> SbeMdView {
        SbeMdView { symbol: self.symbol, pending: self.buf@.take(self.len as int) }
    }
}

impl SbeMd {
    /// Whether the packer is in order.
    pub closed spec fn inv(&self) -> bool {
        self.len <= self.buf@.len()
    }

    /// A packer for one symbol, of which the first eight bytes count.
    pub fn new(name: &[u8]) -> (r: Self)
        ensures
            r.inv(),
            r@ == (SbeMdView { symbol: symbol_of(name@), pending: Seq::empty() }),
    {
        let r = Self { symbol: symbol(name), buf: [0u8; 64], len: 0 };
        assert(r@.pending =~= Seq::empty());
        r
    }

    fn encode(evt: &Event, symbol: [u8; 8], out: &mut [u8]) -> (r: usize)
        requires
            CAP <= old(out)@.len(),
        ensures
            r == event_bytes(symbol, *evt).len(),
            r <= CAP,
            final(out)@ == overlay(old(out)@, event_bytes(symbol, *evt)),
    {
        proof {
            lemma_datagram_lengths(symbol, *evt);
            assert(overlay(out@, Seq::empty()) =~= out@);
        }
        match evt.ty {
            EventType::OrderAccepted => {
                let m = Add {
                    order_id: evt.order.order_id,
                    symbol,
                    side: to_wire_side(evt.order.side),
                    price: to_signed64(evt.order.price.0),
                    quantity: evt.order.quantity,
                };
                m.encode(out)
            },
            EventType::TradeExecuted => {
                let m = Execute {
                    order_id: evt.trade.maker_exchange_id,
                    match_number: evt.trade.match_number,
                    quantity: evt.trade.quantity,
                };
                m.encode(out)
            },
            EventType::OrderCancelled => {
                let m = Delete { order_id: evt.order.order_id };
                m.encode(out)
            },
            _ => 0,
        }
    }
}

impl MarketData for SbeMd {
    type State = SbeMdView;

    open spec fn state(&self) -> SbeMdView {
        self@
    }

    open spec fn wf(&self) -> bool {
        self.inv()
    }

    open spec fn pushed(s: SbeMdView, evt: Event) -> (SbeMdView, bool) {
        if s.pending.len() > 0 {
            (s, false)
        } else {
            (SbeMdView { symbol: s.symbol, pending: event_bytes(s.symbol, evt) }, true)
        }
    }

    open spec fn taken(s: SbeMdView) -> (SbeMdView, Option<Seq<u8>>) {
        if s.pending.len() == 0 {
            (s, None)
        } else {
            (SbeMdView { symbol: s.symbol, pending: Seq::empty() }, Some(s.pending))
        }
    }

    fn push(&mut self, evt: &Event) -> (r: bool) {
        if self.len != 0 {
            return false;
        }
        let n: usize = Self::encode(evt, self.symbol, &mut self.buf);
        self.len = n;
        assert(self@.pending =~= event_bytes(self.symbol, *evt));
        true
    }

    fn take(&mut self) -> (r: Option<&[u8]>) {
        if self.len == 0 {
            return None;
        }
        let n: usize = self.len;
        self.len = 0;
        assert(self@.pending =~= Seq::empty());
        Some(&self.buf[0..n])
    }
}

/// No datagram is longer than the buffer.
pub proof fn lemma_datagram_lengths(symbol: [u8; 8], evt: Event)
    ensures
        add_order_bytes(add_of(symbol, evt)).len() == 41,
        execute_bytes(execute_of(evt)).len() == 32,
        delete_bytes(delete_of(evt)).len() == 16,
        event_bytes(symbol, evt).len() <= CAP,
{
    lemma_add_order_round_trip(add_of(symbol, evt), Seq::empty());
    lemma_execute_round_trip(execute_of(evt), Seq::empty());
    lemma_delete_round_trip(delete_of(evt), Seq::empty());
}

/// What is written for an order that came to rest, a fill or a deletion reads
/// back as what the event says.
pub proof fn lemma_datagram_is_read_back(symbol: [u8; 8], evt: Event, rest: Seq<u8>)
    ensures
        evt.ty == EventType::OrderAccepted ==> add_order_at(event_bytes(symbol, evt) + rest)
            == add_of(symbol, evt),
        evt.ty == EventType::TradeExecuted ==> execute_at(event_bytes(symbol, evt) + rest)
            == execute_of(evt),
        evt.ty == EventType::OrderCancelled ==> delete_at(event_bytes(symbol, evt) + rest)
            == delete_of(evt),
{
    lemma_add_order_round_trip(add_of(symbol, evt), rest);
    lemma_execute_round_trip(execute_of(evt), rest);
    lemma_delete_round_trip(delete_of(evt), rest);
}

} // verus!
