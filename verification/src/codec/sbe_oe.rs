//! SBE order-entry codec. Identity is `userRef` (u32), same as OUCH.

use vstd::prelude::*;

use crate::bytes::{overlay, same, signed64, to_signed64, to_unsigned64, unsigned64};
use crate::codec::{Encoded, OrderEntry, ParseOutcome, Parsed, SessionId};
use crate::codec::sbe::{
    book_side, header_at, lemma_header_round_trip, read_header, symbol, symbol_of, to_book_side,
    to_wire_side, wire_side, HEADER_LEN,
};
use crate::codec::sbe::order_entry::{
    cancel_request_at, cancel_request_bytes, header_of, lemma_cancel_request_round_trip,
    lemma_new_order_round_trip, lemma_reject_round_trip, lemma_replace_request_round_trip,
    lemma_report_round_trip, new_order_at, new_order_bytes, reject_bytes, replace_request_at,
    replace_request_bytes, report_bytes, ExecType, ExecutionReport, NewOrderSingle, OrdStatus,
    OrderCancelReplaceRequest, OrderCancelRequest, Reject, CANCEL_REQUEST_BLOCK,
    CANCEL_REQUEST_TEMPLATE, NEW_ORDER_BLOCK, NEW_ORDER_TEMPLATE, REJECT_BLOCK,
    REPLACE_REQUEST_BLOCK, REPLACE_REQUEST_TEMPLATE, REPORT_BLOCK, SCHEMA_ID,
};
use crate::types::{blank_command, Command, CommandType, Event, EventType, Price, Side};

verus! {

/// Stateless SBE order-entry adapter. `Clone` is a symbol copy.
#[derive(Clone, Copy)]
pub struct SbeOe {
    symbol: [u8; 8],
}

impl View for SbeOe {
    type V = [u8; 8];

    closed spec fn view(&self) -> [u8; 8] {
        self.symbol
    }
}

/// The command that a new order asks for.
pub open spec fn add_command(session: SessionId, m: NewOrderSingle) -> Command {
    Command {
        client_fd: session.0,
        user_ref: m.user_ref,
        side: book_side(m.side),
        price: Price(unsigned64(m.price) as u64),
        quantity: m.quantity,
        ..blank_command(CommandType::Add)
    }
}

/// The command that a cancel asks for.
pub open spec fn cancel_command(session: SessionId, m: OrderCancelRequest) -> Command {
    Command {
        client_fd: session.0,
        user_ref: m.user_ref,
        quantity: m.quantity,
        ..blank_command(CommandType::Cancel)
    }
}

/// The command that a replace asks for.
pub open spec fn modify_command(session: SessionId, m: OrderCancelReplaceRequest) -> Command {
    Command {
        client_fd: session.0,
        user_ref: m.user_ref,
        side: book_side(m.side),
        price: Price(unsigned64(m.price) as u64),
        quantity: m.quantity,
        ..blank_command(CommandType::Modify)
    }
}

/// How much of the input the message at its front takes, by its header.
pub open spec fn message_len(buf: Seq<u8>) -> nat {
    (HEADER_LEN + header_at(buf).block_length) as nat
}

/// Whether the input starts with a whole message of this schema.
pub open spec fn is_message(buf: Seq<u8>) -> bool {
    HEADER_LEN <= buf.len() && message_len(buf) <= buf.len() && header_at(buf).schema_id
        == SCHEMA_ID
}

/// Whether the input holds all fields of the message at its front.
pub open spec fn fields_present(buf: Seq<u8>) -> bool {
    let template = header_at(buf).template_id;
    if template == NEW_ORDER_TEMPLATE {
        HEADER_LEN + NEW_ORDER_BLOCK <= buf.len()
    } else if template == CANCEL_REQUEST_TEMPLATE {
        HEADER_LEN + CANCEL_REQUEST_BLOCK <= buf.len()
    } else if template == REPLACE_REQUEST_TEMPLATE {
        HEADER_LEN + REPLACE_REQUEST_BLOCK <= buf.len()
    } else {
        true
    }
}

/// Whether the message calls for a refusal.
pub open spec fn is_refused(symbol: [u8; 8], buf: Seq<u8>) -> bool {
    header_at(buf).template_id == NEW_ORDER_TEMPLATE && new_order_at(buf).symbol@ != symbol@
}

/// Whether the fields of the message are all there, and so is the room for a
/// refusal that it calls for.
pub open spec fn block_present(symbol: [u8; 8], buf: Seq<u8>, room: nat) -> bool {
    fields_present(buf) && (is_refused(symbol, buf) ==> HEADER_LEN + REJECT_BLOCK <= room)
}

/// What a codec for this symbol does with a whole message.
pub open spec fn taken(symbol: [u8; 8], buf: Seq<u8>, session: SessionId) -> Parsed<[u8; 8]> {
    let template = header_at(buf).template_id;
    let consumed = message_len(buf) as usize;
    if template == NEW_ORDER_TEMPLATE {
        let m = new_order_at(buf);
        if m.symbol@ == symbol@ {
            Parsed {
                state: symbol,
                outcome: ParseOutcome::Command { cmd: add_command(session, m), consumed },
                reply: Seq::empty(),
            }
        } else {
            Parsed {
                state: symbol,
                outcome: ParseOutcome::Reply {
                    bytes: (HEADER_LEN + REJECT_BLOCK) as usize,
                    consumed,
                },
                reply: reject_bytes(Reject { user_ref: m.user_ref, reason: 1 }),
            }
        }
    } else if template == CANCEL_REQUEST_TEMPLATE {
        Parsed {
            state: symbol,
            outcome: ParseOutcome::Command {
                cmd: cancel_command(session, cancel_request_at(buf)),
                consumed,
            },
            reply: Seq::empty(),
        }
    } else if template == REPLACE_REQUEST_TEMPLATE {
        Parsed {
            state: symbol,
            outcome: ParseOutcome::Command {
                cmd: modify_command(session, replace_request_at(buf)),
                consumed,
            },
            reply: Seq::empty(),
        }
    } else {
        Parsed { state: symbol, outcome: ParseOutcome::Bad { consumed }, reply: Seq::empty() }
    }
}

/// The ExecutionReport of an event, but for the symbol.
pub open spec fn report_of(symbol: [u8; 8], evt: Event) -> ExecutionReport {
    let o = evt.order;
    let t = evt.trade;
    let on_order = ExecutionReport {
        user_ref: o.user_ref,
        exec_id: o.order_id,
        order_id: o.order_id,
        symbol,
        side: wire_side(o.side),
        exec_type: ExecType::New,
        ord_status: OrdStatus::New,
        price: signed64(o.price.0) as i64,
        quantity: o.quantity,
        last_px: 0,
        last_qty: 0,
    };
    match evt.ty {
        EventType::OrderAccepted => on_order,
        EventType::OrderCancelled => ExecutionReport {
            exec_type: ExecType::Canceled,
            ord_status: OrdStatus::Canceled,
            ..on_order
        },
        EventType::OrderModified => ExecutionReport {
            exec_type: ExecType::Replaced,
            ord_status: OrdStatus::Replaced,
            ..on_order
        },
        EventType::TradeExecuted => ExecutionReport {
            user_ref: t.maker_user_ref,
            exec_id: t.match_number,
            order_id: t.maker_exchange_id,
            symbol,
            side: wire_side(t.taker_side),
            exec_type: ExecType::Trade,
            ord_status: OrdStatus::PartialFill,
            price: signed64(t.price.0) as i64,
            quantity: t.quantity,
            last_px: signed64(t.price.0) as i64,
            last_qty: t.quantity,
        },
        _ => ExecutionReport {
            user_ref: evt.reject.user_ref,
            exec_id: 0,
            order_id: 0,
            symbol,
            side: crate::codec::sbe::Side::Buy,
            exec_type: ExecType::Rejected,
            ord_status: OrdStatus::Rejected,
            price: 0,
            quantity: 0,
            last_px: 0,
            last_qty: 0,
        },
    }
}

/// Whether an event is reported to a client.
pub open spec fn reportable(evt: Event) -> bool {
    evt.ty != EventType::BookReset && evt.client_fd >= 0
}

impl SbeOe {
    /// A codec for one symbol, of which the first eight bytes count.
    pub fn new(name: &[u8]) -> (r: Self)
        ensures
            r@ == symbol_of(name@),
    {
        Self { symbol: symbol(name) }
    }

    fn reject(user_ref: u32, reason: u16, out: &mut [u8]) -> (r: usize)
        requires
            HEADER_LEN + REJECT_BLOCK <= old(out)@.len(),
        ensures
            r == HEADER_LEN + REJECT_BLOCK,
            final(out)@ == overlay(old(out)@, reject_bytes(Reject { user_ref, reason })),
    {
        let m = Reject { user_ref, reason };
        m.encode(out)
    }

    fn map_add(&self, session: SessionId, buf: &[u8]) -> (r: Result<Command, u32>)
        requires
            HEADER_LEN + NEW_ORDER_BLOCK <= buf@.len(),
        ensures
            match r {
                Ok(cmd) => new_order_at(buf@).symbol@ == self@@ && cmd == add_command(
                    session,
                    new_order_at(buf@),
                ),
                Err(user_ref) => new_order_at(buf@).symbol@ != self@@ && user_ref == new_order_at(
                    buf@,
                ).user_ref,
            },
    {
        let d = NewOrderSingle::decode(buf);
        if !same(&d.symbol, &self.symbol) {
            return Err(d.user_ref);
        }
        let mut cmd = Command::blank(CommandType::Add);
        cmd.client_fd = session.0;
        cmd.user_ref = d.user_ref;
        cmd.side = to_book_side(d.side);
        cmd.price = Price(to_unsigned64(d.price));
        cmd.quantity = d.quantity;
        Ok(cmd)
    }

    fn map_cancel(session: SessionId, buf: &[u8]) -> (r: Command)
        requires
            HEADER_LEN + CANCEL_REQUEST_BLOCK <= buf@.len(),
        ensures
            r == cancel_command(session, cancel_request_at(buf@)),
    {
        let d = OrderCancelRequest::decode(buf);
        let mut cmd = Command::blank(CommandType::Cancel);
        cmd.client_fd = session.0;
        cmd.user_ref = d.user_ref;
        cmd.quantity = d.quantity;
        cmd
    }

    fn map_replace(session: SessionId, buf: &[u8]) -> (r: Command)
        requires
            HEADER_LEN + REPLACE_REQUEST_BLOCK <= buf@.len(),
        ensures
            r == modify_command(session, replace_request_at(buf@)),
    {
        let d = OrderCancelReplaceRequest::decode(buf);
        let mut cmd = Command::blank(CommandType::Modify);
        cmd.client_fd = session.0;
        cmd.user_ref = d.user_ref;
        cmd.side = to_book_side(d.side);
        cmd.price = Price(to_unsigned64(d.price));
        cmd.quantity = d.quantity;
        cmd
    }

    fn report(&self, evt: &Event) -> (r: ExecutionReport)
        ensures
            r == report_of(self@, *evt),
    {
        let mut m = ExecutionReport {
            user_ref: evt.order.user_ref,
            exec_id: evt.order.order_id,
            order_id: evt.order.order_id,
            symbol: self.symbol,
            side: to_wire_side(evt.order.side),
            exec_type: ExecType::New,
            ord_status: OrdStatus::New,
            price: to_signed64(evt.order.price.0),
            quantity: evt.order.quantity,
            last_px: 0,
            last_qty: 0,
        };
        match evt.ty {
            EventType::OrderAccepted => {},
            EventType::OrderCancelled => {
                m.exec_type = ExecType::Canceled;
                m.ord_status = OrdStatus::Canceled;
            },
            EventType::OrderModified => {
                m.exec_type = ExecType::Replaced;
                m.ord_status = OrdStatus::Replaced;
            },
            EventType::TradeExecuted => {
                let px: i64 = to_signed64(evt.trade.price.0);
                m.user_ref = evt.trade.maker_user_ref;
                m.exec_id = evt.trade.match_number;
                m.order_id = evt.trade.maker_exchange_id;
                m.side = to_wire_side(evt.trade.taker_side);
                m.exec_type = ExecType::Trade;
                m.ord_status = OrdStatus::PartialFill;
                m.price = px;
                m.quantity = evt.trade.quantity;
                m.last_px = px;
                m.last_qty = evt.trade.quantity;
            },
            EventType::OrderRejected | EventType::BookReset => {
                m.user_ref = evt.reject.user_ref;
                m.exec_id = 0;
                m.order_id = 0;
                m.side = crate::codec::sbe::Side::Buy;
                m.exec_type = ExecType::Rejected;
                m.ord_status = OrdStatus::Rejected;
                m.price = 0;
                m.quantity = 0;
            },
        }
        m
    }
}

impl OrderEntry for SbeOe {
    type State = [u8; 8];

    open spec fn state(&self) -> [u8; 8] {
        self@
    }

    open spec fn accepts(s: [u8; 8], buf: Seq<u8>, room: nat) -> bool {
        is_message(buf) ==> block_present(s, buf, room)
    }

    open spec fn parsed(s: [u8; 8], buf: Seq<u8>, session: SessionId, room: nat) -> Parsed<
        [u8; 8],
    > {
        if buf.len() < HEADER_LEN || buf.len() < message_len(buf) {
            Parsed { state: s, outcome: ParseOutcome::NeedMore, reply: Seq::empty() }
        } else if header_at(buf).schema_id != SCHEMA_ID {
            Parsed { state: s, outcome: ParseOutcome::Bad { consumed: 1 }, reply: Seq::empty() }
        } else {
            taken(s, buf, session)
        }
    }

    open spec fn fits(evt: Event, room: nat) -> bool {
        reportable(evt) ==> HEADER_LEN + REPORT_BLOCK <= room
    }

    open spec fn encoded(s: [u8; 8], evt: Event, room: nat) -> Encoded<[u8; 8]> {
        Encoded {
            state: s,
            bytes: if reportable(evt) {
                report_bytes(report_of(s, evt))
            } else {
                Seq::empty()
            },
        }
    }

    open spec fn idled(s: [u8; 8], now: u64, session: SessionId, room: nat) -> Encoded<[u8; 8]> {
        Encoded { state: s, bytes: Seq::empty() }
    }

    open spec fn ended(s: [u8; 8], session: SessionId) -> [u8; 8] {
        s
    }

    fn readable(&self, buf: &[u8], room: usize) -> (r: bool) {
        if buf.len() < HEADER_LEN {
            return true;
        }
        let hdr = read_header(buf);
        if buf.len() < HEADER_LEN + hdr.block_length as usize || hdr.schema_id != SCHEMA_ID {
            return true;
        }
        if hdr.template_id == NEW_ORDER_TEMPLATE {
            buf.len() >= HEADER_LEN + NEW_ORDER_BLOCK && (room >= HEADER_LEN + REJECT_BLOCK || same(
                &NewOrderSingle::decode(buf).symbol,
                &self.symbol,
            ))
        } else if hdr.template_id == CANCEL_REQUEST_TEMPLATE {
            buf.len() >= HEADER_LEN + CANCEL_REQUEST_BLOCK
        } else if hdr.template_id == REPLACE_REQUEST_TEMPLATE {
            buf.len() >= HEADER_LEN + REPLACE_REQUEST_BLOCK
        } else {
            true
        }
    }

    fn writable(evt: &Event, room: usize) -> (r: bool) {
        evt.ty == EventType::BookReset || evt.client_fd < 0 || room >= HEADER_LEN + REPORT_BLOCK
    }

    fn parse(&mut self, buf: &[u8], session: SessionId, reply: &mut [u8]) -> (r: ParseOutcome) {
        assert(overlay(reply@, Seq::empty()) =~= reply@);
        if buf.len() < HEADER_LEN {
            return ParseOutcome::NeedMore;
        }
        let hdr = read_header(buf);
        let need: usize = HEADER_LEN + hdr.block_length as usize;
        if buf.len() < need {
            return ParseOutcome::NeedMore;
        }
        if hdr.schema_id != SCHEMA_ID {
            return ParseOutcome::Bad { consumed: 1 };
        }
        if hdr.template_id == NEW_ORDER_TEMPLATE {
            match self.map_add(session, buf) {
                Ok(cmd) => ParseOutcome::Command { cmd, consumed: need },
                Err(user_ref) => {
                    proof {
                        lemma_reject_round_trip(Reject { user_ref, reason: 1 }, Seq::empty());
                    }
                    let bytes: usize = Self::reject(user_ref, 1, reply);
                    ParseOutcome::Reply { bytes, consumed: need }
                },
            }
        } else if hdr.template_id == CANCEL_REQUEST_TEMPLATE {
            ParseOutcome::Command { cmd: Self::map_cancel(session, buf), consumed: need }
        } else if hdr.template_id == REPLACE_REQUEST_TEMPLATE {
            ParseOutcome::Command { cmd: Self::map_replace(session, buf), consumed: need }
        } else {
            ParseOutcome::Bad { consumed: need }
        }
    }

    fn encode_event(&mut self, evt: &Event, out: &mut [u8]) -> (r: usize) {
        assert(overlay(out@, Seq::empty()) =~= out@);
        if evt.ty == EventType::BookReset || evt.client_fd < 0 {
            return 0;
        }
        let m = self.report(evt);
        proof {
            lemma_report_round_trip(m, Seq::empty());
        }
        m.encode(out)
    }

    fn on_idle(&mut self, now: u64, session: SessionId, reply: &mut [u8]) -> (r: usize) {
        assert(overlay(reply@, Seq::empty()) =~= reply@);
        0
    }

    fn on_session_end(&mut self, session: SessionId) {
    }
}

/// A new order that a client wrote for this symbol becomes the command it asks
/// for, and takes exactly the bytes that were written.
pub proof fn lemma_new_order_is_add(
    symbol: [u8; 8],
    m: NewOrderSingle,
    rest: Seq<u8>,
    session: SessionId,
    room: nat,
)
    requires
        m.symbol == symbol,
    ensures
        <SbeOe as OrderEntry>::accepts(symbol, new_order_bytes(m) + rest, room),
        <SbeOe as OrderEntry>::parsed(symbol, new_order_bytes(m) + rest, session, room).outcome == (
        ParseOutcome::Command {
            cmd: add_command(session, m),
            consumed: new_order_bytes(m).len() as usize,
        }),
{
    lemma_new_order_round_trip(m, rest);
    let h = header_of(29, NEW_ORDER_TEMPLATE);
    let block = crate::codec::sbe::order_entry::new_order_block(m);
    assert(new_order_bytes(m) + rest =~= crate::codec::sbe::header_bytes(h) + (block + rest));
    lemma_header_round_trip(h, block + rest);
}

/// A new order for another symbol is answered with a refusal that names it.
pub proof fn lemma_wrong_symbol_is_refused(
    symbol: [u8; 8],
    m: NewOrderSingle,
    rest: Seq<u8>,
    session: SessionId,
    room: nat,
)
    requires
        m.symbol@ != symbol@,
    ensures
        <SbeOe as OrderEntry>::parsed(
            symbol,
            new_order_bytes(m) + rest,
            session,
            room,
        ).outcome is Reply,
        <SbeOe as OrderEntry>::parsed(symbol, new_order_bytes(m) + rest, session, room).reply
            == reject_bytes(Reject { user_ref: m.user_ref, reason: 1 }),
{
    lemma_new_order_round_trip(m, rest);
    let h = header_of(29, NEW_ORDER_TEMPLATE);
    let block = crate::codec::sbe::order_entry::new_order_block(m);
    assert(new_order_bytes(m) + rest =~= crate::codec::sbe::header_bytes(h) + (block + rest));
    lemma_header_round_trip(h, block + rest);
}

/// A cancel that a client wrote becomes the command it asks for.
pub proof fn lemma_cancel_request_is_cancel(
    symbol: [u8; 8],
    m: OrderCancelRequest,
    rest: Seq<u8>,
    session: SessionId,
    room: nat,
)
    ensures
        <SbeOe as OrderEntry>::accepts(symbol, cancel_request_bytes(m) + rest, room),
        <SbeOe as OrderEntry>::parsed(symbol, cancel_request_bytes(m) + rest, session, room).outcome
            == (ParseOutcome::Command {
            cmd: cancel_command(session, m),
            consumed: cancel_request_bytes(m).len() as usize,
        }),
{
    lemma_cancel_request_round_trip(m, rest);
    let h = header_of(12, CANCEL_REQUEST_TEMPLATE);
    let block = crate::codec::sbe::order_entry::cancel_request_block(m);
    assert(cancel_request_bytes(m) + rest =~= crate::codec::sbe::header_bytes(h) + (block + rest));
    lemma_header_round_trip(h, block + rest);
}

/// A replace that a client wrote becomes the command it asks for.
pub proof fn lemma_replace_request_is_modify(
    symbol: [u8; 8],
    m: OrderCancelReplaceRequest,
    rest: Seq<u8>,
    session: SessionId,
    room: nat,
)
    ensures
        <SbeOe as OrderEntry>::accepts(symbol, replace_request_bytes(m) + rest, room),
        <SbeOe as OrderEntry>::parsed(
            symbol,
            replace_request_bytes(m) + rest,
            session,
            room,
        ).outcome == (ParseOutcome::Command {
            cmd: modify_command(session, m),
            consumed: replace_request_bytes(m).len() as usize,
        }),
{
    lemma_replace_request_round_trip(m, rest);
    let h = header_of(21, REPLACE_REQUEST_TEMPLATE);
    let block = crate::codec::sbe::order_entry::replace_request_block(m);
    assert(replace_request_bytes(m) + rest =~= crate::codec::sbe::header_bytes(h) + (block + rest));
    lemma_header_round_trip(h, block + rest);
}

/// What is written for an event reads back as its report.
pub proof fn lemma_report_is_read_back(symbol: [u8; 8], evt: Event, room: nat, rest: Seq<u8>)
    requires
        reportable(evt),
    ensures
        crate::codec::sbe::order_entry::report_at(
            <SbeOe as OrderEntry>::encoded(symbol, evt, room).bytes + rest,
        ) == report_of(symbol, evt),
{
    lemma_report_round_trip(report_of(symbol, evt), rest);
}

/// What comes behind a whole message does not change how it is read.
pub proof fn lemma_message_is_self_delimiting(
    symbol: [u8; 8],
    buf: Seq<u8>,
    rest: Seq<u8>,
    session: SessionId,
    room: nat,
)
    requires
        is_message(buf),
        fields_present(buf),
    ensures
        <SbeOe as OrderEntry>::parsed(symbol, buf + rest, session, room)
            == <SbeOe as OrderEntry>::parsed(symbol, buf, session, room),
        <SbeOe as OrderEntry>::accepts(symbol, buf + rest, room) == <SbeOe as OrderEntry>::accepts(
            symbol,
            buf,
            room,
        ),
{
    let all = buf + rest;
    assert(all.subrange(0, 2) =~= buf.subrange(0, 2));
    assert(all.subrange(2, 4) =~= buf.subrange(2, 4));
    assert(all.subrange(4, 6) =~= buf.subrange(4, 6));
    assert(all.subrange(6, 8) =~= buf.subrange(6, 8));
    assert(header_at(all) == header_at(buf));
    let template = header_at(buf).template_id;
    if template == NEW_ORDER_TEMPLATE {
        assert(all.subrange(8, 12) =~= buf.subrange(8, 12));
        assert(all.subrange(12, 20) =~= buf.subrange(12, 20));
        assert(all.subrange(21, 29) =~= buf.subrange(21, 29));
        assert(all.subrange(29, 37) =~= buf.subrange(29, 37));
        assert(new_order_at(all) == new_order_at(buf));
    } else if template == CANCEL_REQUEST_TEMPLATE {
        assert(all.subrange(8, 12) =~= buf.subrange(8, 12));
        assert(all.subrange(12, 20) =~= buf.subrange(12, 20));
    } else if template == REPLACE_REQUEST_TEMPLATE {
        assert(all.subrange(8, 12) =~= buf.subrange(8, 12));
        assert(all.subrange(13, 21) =~= buf.subrange(13, 21));
        assert(all.subrange(21, 29) =~= buf.subrange(21, 29));
    }
}

} // verus!
