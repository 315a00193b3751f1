//! OUCH 5.0 subset — inbound parse, outbound serialize.

use vstd::prelude::*;

use crate::bytes::{
    be, from_be, lemma_be_len, overlay, push_all, push_be, push_run, put, read_be, read_be32, run,
};
use crate::codec::{Encoded, OrderEntry, ParseOutcome, Parsed, SessionId};
use crate::types::{
    blank_command, pad_id, padded_id, Command, CommandType, Event, EventType, Price, Side, SPACE,
};

verus! {

pub const ENTER: u8 = 79;

pub const CANCEL: u8 = 88;

pub const MODIFY: u8 = 77;

/// Sides.
pub const BUY: u8 = 66;

pub const SELL: u8 = 83;

/// Types of the outbound messages.
pub const ACCEPTED: u8 = 65;

pub const CANCELED: u8 = 67;

pub const MODIFIED: u8 = 77;

pub const REJECTED: u8 = 74;

pub const EXECUTED: u8 = 69;

/// Canceled because the user asked for it.
pub const USER_REQUESTED: u8 = 85;

pub const ENTER_LEN: usize = 47;

pub const CANCEL_LEN: usize = 11;

pub const MODIFY_LEN: usize = 12;

pub const MAX_MSG: usize = ENTER_LEN;

/// The side that a byte stands for: `B` buys, anything else sells.
pub open spec fn side_at(b: u8) -> Side {
    if b == BUY {
        Side::Bid
    } else {
        Side::Ask
    }
}

/// A side on the wire.
pub open spec fn side_byte(side: Side) -> u8 {
    match side {
        Side::Bid => BUY,
        Side::Ask => SELL,
    }
}

fn read_side(b: u8) -> (r: Side)
    ensures
        r == side_at(b),
{
    if b == BUY {
        Side::Bid
    } else {
        Side::Ask
    }
}

pub(crate) fn side_code(side: Side) -> (r: u8)
    ensures
        r == side_byte(side),
{
    match side {
        Side::Bid => BUY,
        Side::Ask => SELL,
    }
}

/// The command that an Enter Order message asks for.
pub open spec fn enter_command(buf: Seq<u8>, fd: i32) -> Command {
    Command {
        ty: CommandType::Add,
        client_fd: fd,
        user_ref: from_be(buf.subrange(1, 5)) as u32,
        side: side_at(buf[5]),
        quantity: from_be(buf.subrange(6, 10)) as u64,
        price: Price(from_be(buf.subrange(18, 26)) as u64),
        time_in_force: buf[26],
        display: buf[27],
        capacity: buf[28],
        cl_ord_id: padded_id(buf.subrange(31, 45)),
    }
}

/// The command that a Cancel Order message asks for.
pub open spec fn cancel_command(buf: Seq<u8>, fd: i32) -> Command {
    Command {
        client_fd: fd,
        user_ref: from_be(buf.subrange(1, 5)) as u32,
        quantity: from_be(buf.subrange(5, 9)) as u64,
        ..blank_command(CommandType::Cancel)
    }
}

/// The command that a Modify Order message asks for.
pub open spec fn modify_command(buf: Seq<u8>, fd: i32) -> Command {
    Command {
        client_fd: fd,
        user_ref: from_be(buf.subrange(1, 5)) as u32,
        side: side_at(buf[5]),
        quantity: from_be(buf.subrange(6, 10)) as u64,
        ..blank_command(CommandType::Modify)
    }
}

/// How long a message of this type is, if the type is known.
pub open spec fn length_of(ty: u8) -> Option<nat> {
    if ty == ENTER {
        Some(ENTER_LEN as nat)
    } else if ty == CANCEL {
        Some(CANCEL_LEN as nat)
    } else if ty == MODIFY {
        Some(MODIFY_LEN as nat)
    } else {
        None
    }
}

/// The message at the front of the input, and its length.
pub open spec fn message_at(buf: Seq<u8>, fd: i32) -> Option<(Command, usize)> {
    if buf.len() == 0 {
        None
    } else {
        match length_of(buf[0]) {
            Some(n) => if buf.len() < n {
                None
            } else if buf[0] == ENTER {
                Some((enter_command(buf, fd), ENTER_LEN))
            } else if buf[0] == CANCEL {
                Some((cancel_command(buf, fd), CANCEL_LEN))
            } else {
                Some((modify_command(buf, fd), MODIFY_LEN))
            },
            None => None,
        }
    }
}

/// Reads the message at the front of the input. `None` if it is not all there or
/// its type is not known.
pub fn parse(buf: &[u8], fd: i32) -> (r: Option<(Command, usize)>)
    ensures
        r == message_at(buf@, fd),
{
    if buf.len() == 0 {
        return None;
    }
    if buf[0] == ENTER && buf.len() >= ENTER_LEN {
        Some((parse_enter(buf, fd), ENTER_LEN))
    } else if buf[0] == CANCEL && buf.len() >= CANCEL_LEN {
        Some((parse_cancel(buf, fd), CANCEL_LEN))
    } else if buf[0] == MODIFY && buf.len() >= MODIFY_LEN {
        Some((parse_modify(buf, fd), MODIFY_LEN))
    } else {
        None
    }
}

fn parse_enter(buf: &[u8], fd: i32) -> (r: Command)
    requires
        buf@.len() >= ENTER_LEN,
    ensures
        r == enter_command(buf@, fd),
{
    Command {
        ty: CommandType::Add,
        client_fd: fd,
        user_ref: read_be32(buf, 1),
        side: read_side(buf[5]),
        quantity: read_be(buf, 6, 4),
        price: Price(read_be(buf, 18, 8)),
        time_in_force: buf[26],
        display: buf[27],
        capacity: buf[28],
        cl_ord_id: pad_id(&buf[31..45]),
    }
}

fn parse_cancel(buf: &[u8], fd: i32) -> (r: Command)
    requires
        buf@.len() >= CANCEL_LEN,
    ensures
        r == cancel_command(buf@, fd),
{
    let mut cmd = Command::blank(CommandType::Cancel);
    cmd.client_fd = fd;
    cmd.user_ref = read_be32(buf, 1);
    cmd.quantity = read_be(buf, 5, 4);
    cmd
}

fn parse_modify(buf: &[u8], fd: i32) -> (r: Command)
    requires
        buf@.len() >= MODIFY_LEN,
    ensures
        r == modify_command(buf@, fd),
{
    let mut cmd = Command::blank(CommandType::Modify);
    cmd.client_fd = fd;
    cmd.user_ref = read_be32(buf, 1);
    cmd.side = read_side(buf[5]);
    cmd.quantity = read_be(buf, 6, 4);
    cmd
}

/// Order Accepted, its fields back to back: type, timestamp, reference, side,
/// quantity, symbol, price, time in force, display, order id, capacity, sweep and
/// cross flags, state, client order id, appendage length.
pub open spec fn accepted_bytes(evt: Event) -> Seq<u8> {
    let o = evt.order;
    seq![ACCEPTED] + run(0, 8) + be(o.user_ref as nat, 4) + seq![side_byte(o.side)] + be(
        o.quantity as nat,
        4,
    ) + run(SPACE, 8) + be(o.price.0 as nat, 8) + run(0, 2) + be(o.order_id as nat, 8) + run(0, 3)
        + seq![o.order_state] + o.cl_ord_id@ + run(0, 2)
}

/// Order Canceled: type, timestamp, reference, quantity, reason.
pub open spec fn canceled_bytes(evt: Event) -> Seq<u8> {
    let o = evt.order;
    seq![CANCELED] + run(0, 8) + be(o.user_ref as nat, 4) + be(o.quantity as nat, 4)
        + seq![USER_REQUESTED] + run(0, 2)
}

/// Order Modified: type, timestamp, reference, side, quantity.
pub open spec fn modified_bytes(evt: Event) -> Seq<u8> {
    let o = evt.order;
    seq![MODIFIED] + run(0, 8) + be(o.user_ref as nat, 4) + seq![side_byte(o.side)] + be(
        o.quantity as nat,
        4,
    ) + run(0, 1)
}

/// Order Rejected: type, timestamp, reference, reason, client order id.
pub open spec fn rejected_bytes(evt: Event) -> Seq<u8> {
    let j = evt.reject;
    seq![REJECTED] + run(0, 8) + be(j.user_ref as nat, 4) + be(j.reason as nat, 2) + j.cl_ord_id@
        + run(0, 3)
}

/// Order Executed: type, timestamp, reference, quantity, price, liquidity flag,
/// match number.
pub open spec fn executed_bytes(evt: Event) -> Seq<u8> {
    let t = evt.trade;
    seq![EXECUTED] + run(0, 8) + be(t.maker_user_ref as nat, 4) + be(t.quantity as nat, 4) + be(
        t.price.0 as nat,
        8,
    ) + run(0, 1) + be(t.match_number as nat, 8) + run(0, 4)
}

/// The outbound message of an event. A reset has none.
pub open spec fn event_bytes(evt: Event) -> Seq<u8> {
    match evt.ty {
        EventType::OrderAccepted => accepted_bytes(evt),
        EventType::OrderCancelled => canceled_bytes(evt),
        EventType::OrderModified => modified_bytes(evt),
        EventType::OrderRejected => rejected_bytes(evt),
        EventType::TradeExecuted => executed_bytes(evt),
        EventType::BookReset => Seq::empty(),
    }
}

/// `bytes` if they fit into `room`, else nothing.
pub open spec fn if_room(bytes: Seq<u8>, room: nat) -> Seq<u8> {
    if bytes.len() <= room {
        bytes
    } else {
        Seq::empty()
    }
}

/// How long the outbound messages are, and which byte tells them apart.
pub proof fn lemma_event_lengths(evt: Event)
    ensures
        accepted_bytes(evt).len() == 64,
        canceled_bytes(evt).len() == 20,
        modified_bytes(evt).len() == 19,
        rejected_bytes(evt).len() == 32,
        executed_bytes(evt).len() == 38,
        accepted_bytes(evt)[0] == ACCEPTED,
        canceled_bytes(evt)[0] == CANCELED,
        modified_bytes(evt)[0] == MODIFIED,
        rejected_bytes(evt)[0] == REJECTED,
        executed_bytes(evt)[0] == EXECUTED,
{
    let o = evt.order;
    let t = evt.trade;
    let j = evt.reject;
    lemma_be_len(o.user_ref as nat, 4);
    lemma_be_len(o.quantity as nat, 4);
    lemma_be_len(o.price.0 as nat, 8);
    lemma_be_len(o.order_id as nat, 8);
    lemma_be_len(j.user_ref as nat, 4);
    lemma_be_len(j.reason as nat, 2);
    lemma_be_len(t.maker_user_ref as nat, 4);
    lemma_be_len(t.quantity as nat, 4);
    lemma_be_len(t.price.0 as nat, 8);
    lemma_be_len(t.match_number as nat, 8);
}

/// Writes `msg` over the first bytes of `out` if it fits. Returns bytes written.
pub(crate) fn place(msg: &Vec<u8>, out: &mut [u8]) -> (r: usize)
    ensures
        r == if_room(msg@, old(out)@.len()).len(),
        final(out)@ == overlay(old(out)@, if_room(msg@, old(out)@.len())),
{
    if out.len() < msg.len() {
        assert(overlay(out@, Seq::empty()) =~= out@);
        return 0;
    }
    put(out, msg);
    msg.len()
}

/// Serialize an engine Event to an outbound OUCH message. Returns bytes written.
pub fn serialize(evt: &Event, out: &mut [u8]) -> (r: usize)
    ensures
        r == if_room(event_bytes(*evt), old(out)@.len()).len(),
        final(out)@ == overlay(old(out)@, if_room(event_bytes(*evt), old(out)@.len())),
{
    match evt.ty {
        EventType::OrderAccepted => write_accepted(evt, out),
        EventType::OrderCancelled => write_canceled(evt, out),
        EventType::OrderModified => write_modified(evt, out),
        EventType::OrderRejected => write_rejected(evt, out),
        EventType::TradeExecuted => write_executed(evt, out),
        EventType::BookReset => {
            assert(overlay(out@, Seq::empty()) =~= out@);
            0
        },
    }
}

fn write_accepted(evt: &Event, out: &mut [u8]) -> (r: usize)
    ensures
        r == if_room(accepted_bytes(*evt), old(out)@.len()).len(),
        final(out)@ == overlay(old(out)@, if_room(accepted_bytes(*evt), old(out)@.len())),
{
    let mut msg: Vec<u8> = Vec::new();
    msg.push(ACCEPTED);
    push_run(&mut msg, 0, 8);
    push_be(&mut msg, evt.order.user_ref as u64, 4);
    msg.push(side_code(evt.order.side));
    push_be(&mut msg, evt.order.quantity, 4);
    push_run(&mut msg, SPACE, 8);
    push_be(&mut msg, evt.order.price.0, 8);
    push_run(&mut msg, 0, 2);
    push_be(&mut msg, evt.order.order_id, 8);
    push_run(&mut msg, 0, 3);
    msg.push(evt.order.order_state);
    push_all(&mut msg, &evt.order.cl_ord_id);
    push_run(&mut msg, 0, 2);
    assert(msg@ =~= accepted_bytes(*evt));
    place(&msg, out)
}

fn write_canceled(evt: &Event, out: &mut [u8]) -> (r: usize)
    ensures
        r == if_room(canceled_bytes(*evt), old(out)@.len()).len(),
        final(out)@ == overlay(old(out)@, if_room(canceled_bytes(*evt), old(out)@.len())),
{
    let mut msg: Vec<u8> = Vec::new();
    msg.push(CANCELED);
    push_run(&mut msg, 0, 8);
    push_be(&mut msg, evt.order.user_ref as u64, 4);
    push_be(&mut msg, evt.order.quantity, 4);
    msg.push(USER_REQUESTED);
    push_run(&mut msg, 0, 2);
    assert(msg@ =~= canceled_bytes(*evt));
    place(&msg, out)
}

fn write_modified(evt: &Event, out: &mut [u8]) -> (r: usize)
    ensures
        r == if_room(modified_bytes(*evt), old(out)@.len()).len(),
        final(out)@ == overlay(old(out)@, if_room(modified_bytes(*evt), old(out)@.len())),
{
    let mut msg: Vec<u8> = Vec::new();
    msg.push(MODIFIED);
    push_run(&mut msg, 0, 8);
    push_be(&mut msg, evt.order.user_ref as u64, 4);
    msg.push(side_code(evt.order.side));
    push_be(&mut msg, evt.order.quantity, 4);
    push_run(&mut msg, 0, 1);
    assert(msg@ =~= modified_bytes(*evt));
    place(&msg, out)
}

fn write_rejected(evt: &Event, out: &mut [u8]) -> (r: usize)
    ensures
        r == if_room(rejected_bytes(*evt), old(out)@.len()).len(),
        final(out)@ == overlay(old(out)@, if_room(rejected_bytes(*evt), old(out)@.len())),
{
    let mut msg: Vec<u8> = Vec::new();
    msg.push(REJECTED);
    push_run(&mut msg, 0, 8);
    push_be(&mut msg, evt.reject.user_ref as u64, 4);
    push_be(&mut msg, evt.reject.reason as u64, 2);
    push_all(&mut msg, &evt.reject.cl_ord_id);
    push_run(&mut msg, 0, 3);
    assert(msg@ =~= rejected_bytes(*evt));
    place(&msg, out)
}

fn write_executed(evt: &Event, out: &mut [u8]) -> (r: usize)
    ensures
        r == if_room(executed_bytes(*evt), old(out)@.len()).len(),
        final(out)@ == overlay(old(out)@, if_room(executed_bytes(*evt), old(out)@.len())),
{
    let mut msg: Vec<u8> = Vec::new();
    msg.push(EXECUTED);
    push_run(&mut msg, 0, 8);
    push_be(&mut msg, evt.trade.maker_user_ref as u64, 4);
    push_be(&mut msg, evt.trade.quantity, 4);
    push_be(&mut msg, evt.trade.price.0, 8);
    push_run(&mut msg, 0, 1);
    push_be(&mut msg, evt.trade.match_number, 8);
    push_run(&mut msg, 0, 4);
    assert(msg@ =~= executed_bytes(*evt));
    place(&msg, out)
}

/// What comes behind a message does not change how it is read.
pub proof fn lemma_message_is_self_delimiting(buf: Seq<u8>, rest: Seq<u8>, fd: i32)
    requires
        message_at(buf, fd) is Some,
    ensures
        message_at(buf + rest, fd) == message_at(buf, fd),
{
    let all = buf + rest;
    assert(all.subrange(1, 5) =~= buf.subrange(1, 5));
    if buf[0] == ENTER {
        assert(all.subrange(6, 10) =~= buf.subrange(6, 10));
        assert(all.subrange(18, 26) =~= buf.subrange(18, 26));
        assert(all.subrange(31, 45) =~= buf.subrange(31, 45));
    } else if buf[0] == CANCEL {
        assert(all.subrange(5, 9) =~= buf.subrange(5, 9));
    } else {
        assert(all.subrange(6, 10) =~= buf.subrange(6, 10));
    }
}

/// Stateless OUCH order-entry adapter.
#[derive(Debug, Clone, Copy)]
pub struct Ouch;

impl OrderEntry for Ouch {
    type State = ();

    open spec fn state(&self) -> () {
        ()
    }

    open spec fn accepts(s: (), buf: Seq<u8>, room: nat) -> bool {
        true
    }

    open spec fn parsed(s: (), buf: Seq<u8>, session: SessionId, room: nat) -> Parsed<()> {
        Parsed {
            state: (),
            outcome: match message_at(buf, session.0) {
                Some((cmd, consumed)) => ParseOutcome::Command { cmd, consumed },
                None => if buf.len() == 0 || length_of(buf[0]) is Some {
                    ParseOutcome::NeedMore
                } else {
                    ParseOutcome::Bad { consumed: 1 }
                },
            },
            reply: Seq::empty(),
        }
    }

    open spec fn fits(evt: Event, room: nat) -> bool {
        true
    }

    open spec fn encoded(s: (), evt: Event, room: nat) -> Encoded<()> {
        Encoded { state: (), bytes: if_room(event_bytes(evt), room) }
    }

    open spec fn idled(s: (), now: u64, session: SessionId, room: nat) -> Encoded<()> {
        Encoded { state: (), bytes: Seq::empty() }
    }

    open spec fn ended(s: (), session: SessionId) -> () {
        ()
    }

    fn readable(&self, buf: &[u8], room: usize) -> (r: bool) {
        true
    }

    fn writable(evt: &Event, room: usize) -> (r: bool) {
        true
    }

    fn parse(&mut self, buf: &[u8], session: SessionId, reply: &mut [u8]) -> (r: ParseOutcome) {
        assert(overlay(reply@, Seq::empty()) =~= reply@);
        match parse(buf, session.0) {
            Some((cmd, consumed)) => ParseOutcome::Command { cmd, consumed },
            None => {
                if buf.len() == 0 || buf[0] == ENTER || buf[0] == CANCEL || buf[0] == MODIFY {
                    ParseOutcome::NeedMore
                } else {
                    ParseOutcome::Bad { consumed: 1 }
                }
            },
        }
    }

    fn encode_event(&mut self, evt: &Event, out: &mut [u8]) -> (r: usize) {
        serialize(evt, out)
    }

    fn on_idle(&mut self, now: u64, session: SessionId, reply: &mut [u8]) -> (r: usize) {
        assert(overlay(reply@, Seq::empty()) =~= reply@);
        0
    }

    fn on_session_end(&mut self, session: SessionId) {
    }
}

} // verus!
