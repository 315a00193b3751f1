//! What a FIX 4.4 acceptor does, as functions of its state and of the message.

use vstd::prelude::*;
use vstd::utf8::{encode_utf8, valid_utf8};

use crate::bytes::{decimal, next64, overlay, signed64, signed_decimal, unsigned};
use crate::codec::{ParseOutcome, Parsed};
use crate::codec::price::price_value;
use crate::codec::tagvalue::{
    decoded, encodable, field_of, framed, reads_back, DecodeFault, MessageView, TAG_MSG_TYPE,
};
use crate::text::{lossy_text, trimmed};
use crate::types::{blank_command, padded_id, Command, CommandType, Event, EventType, Price, Side};

verus! {

/// Message types.
pub const MSG_HEARTBEAT: u8 = 48;

pub const MSG_TEST_REQUEST: u8 = 49;

pub const MSG_REJECT: u8 = 51;

pub const MSG_LOGOUT: u8 = 53;

pub const MSG_REPORT: u8 = 56;

pub const MSG_LOGON: u8 = 65;

pub const MSG_NEW_ORDER: u8 = 68;

pub const MSG_CANCEL: u8 = 70;

pub const MSG_REPLACE: u8 = 71;

pub const MSG_BUSINESS_REJECT: u8 = 106;

/// Sides.
pub const SIDE_BUY: u8 = 49;

pub const SIDE_SELL: u8 = 50;

/// What an ExecutionReport reports, and what state it leaves the order in.
pub const EXEC_NEW: u8 = 48;

pub const EXEC_PARTIAL: u8 = 49;

pub const EXEC_CANCELED: u8 = 52;

pub const EXEC_REPLACED: u8 = 53;

pub const EXEC_REJECTED: u8 = 56;

pub const EXEC_TRADE: u8 = 70;

/// Field tags.
pub const TAG_CLORD: u32 = 11;

pub const TAG_EXEC_ID: u32 = 17;

pub const TAG_LAST_PRICE: u32 = 31;

pub const TAG_LAST_QTY: u32 = 32;

pub const TAG_SEQ: u32 = 34;

pub const TAG_ORDER_ID: u32 = 37;

pub const TAG_QTY: u32 = 38;

pub const TAG_ORD_STATUS: u32 = 39;

pub const TAG_ORIG_CLORD: u32 = 41;

pub const TAG_PRICE: u32 = 44;

pub const TAG_REF_SEQ: u32 = 45;

pub const TAG_SENDER: u32 = 49;

pub const TAG_SIDE: u32 = 54;

pub const TAG_SYMBOL: u32 = 55;

pub const TAG_TARGET: u32 = 56;

pub const TAG_TEXT: u32 = 58;

pub const TAG_TIF: u32 = 59;

pub const TAG_ENCRYPT: u32 = 98;

pub const TAG_REASON: u32 = 103;

pub const TAG_HB: u32 = 108;

pub const TAG_TEST_REQ: u32 = 112;

pub const TAG_EXEC_TYPE: u32 = 150;

/// The state of one connection.
#[derive(Debug, Clone, Copy)]
pub struct Sess {
    pub next_in: u64,
    pub next_out: u64,
    pub next_ref: u32,
    pub logged_on: bool,
    /// When the last message went out, in nanoseconds.
    pub last_out: u64,
    pub hb_secs: u64,
}

/// The order names of one connection.
#[verifier::ext_equal]
pub struct NamesView {
    /// ClOrdID to reference. A replaced order answers to both of its names.
    pub ids: Map<Seq<u8>, u32>,
    /// Reference to the ClOrdID that first named the order.
    pub refs: Map<u32, Seq<u8>>,
    /// The reference that the last accepted request was about.
    pub last_ref: Option<u32>,
}

/// The state of an acceptor.
#[verifier::ext_equal]
pub struct FixView {
    /// This venue's CompID.
    pub us: Seq<u8>,
    /// The client's CompID.
    pub them: Seq<u8>,
    pub symbol: Seq<u8>,
    pub sessions: Map<i32, Sess>,
    /// The names of every connection there could be.
    pub names: Map<i32, NamesView>,
    pub next_exec: u64,
    /// The time, in nanoseconds.
    pub now: u64,
}

/// One step of an acceptor on its input.
pub type Step = Parsed<FixView>;

pub open spec fn no_names() -> NamesView {
    NamesView { ids: Map::empty(), refs: Map::empty(), last_ref: None }
}

/// The version this acceptor speaks.
pub open spec fn begin_bytes() -> Seq<u8> {
    encode_utf8("FIX.4.4"@)
}

/// `v + 1`, staying at the top.
pub open spec fn saturating_next32(v: u32) -> u32 {
    if v == u32::MAX {
        v
    } else {
        (v + 1) as u32
    }
}

/// How a sequence number or a count of seconds stands in a message.
pub open spec fn number_text(v: u64) -> Seq<u8> {
    signed_decimal(signed64(v))
}

/// A message to be sent: sequence number, type, and the fields behind the header.
#[verifier::ext_equal]
pub struct Outgoing {
    pub seq: u64,
    pub kind: u8,
    pub extra: Seq<(u32, Seq<u8>)>,
}

/// All fields of a message to be sent: type, CompIDs, sequence number, then the
/// rest.
pub open spec fn outgoing_fields(s: FixView, o: Outgoing) -> Seq<(u32, Seq<u8>)> {
    seq![
        (TAG_MSG_TYPE, seq![o.kind]),
        (TAG_SENDER, s.us),
        (TAG_TARGET, s.them),
        (TAG_SEQ, number_text(o.seq)),
    ] + o.extra
}

/// The bytes of a message to be sent, or none if it cannot be framed or does not
/// fit into `room` bytes.
pub open spec fn written(s: FixView, o: Outgoing, room: nat) -> Seq<u8> {
    let fields = outgoing_fields(s, o);
    let frame = framed(begin_bytes(), fields);
    if encodable(fields) && frame.len() <= room {
        frame
    } else {
        Seq::empty()
    }
}

/// The bytes of what is to be sent, if anything is.
pub open spec fn written_if(s: FixView, o: Option<Outgoing>, room: nat) -> Seq<u8> {
    match o {
        Some(o) => written(s, o, room),
        None => Seq::empty(),
    }
}

/// Whether a decoder finds in `frame` the message that was to be sent.
pub open spec fn carries(frame: Seq<u8>, s: FixView, o: Outgoing) -> bool {
    reads_back(frame, begin_bytes(), outgoing_fields(s, o))
}

/// Whether a buffer that held `before` now holds `after` because what is to be
/// sent was written to its front, `n` bytes of it, for a decoder to find.
pub open spec fn answered(
    s: FixView,
    o: Option<Outgoing>,
    before: Seq<u8>,
    n: nat,
    after: Seq<u8>,
) -> bool {
    let bytes = written_if(s, o, before.len());
    &&& n == bytes.len()
    &&& n <= before.len()
    &&& after == overlay(before, bytes)
    &&& n > 0 ==> o is Some && carries(after.take(n as int), s, o->0)
}

/// A session-level Reject.
pub open spec fn reject(seq_out: u64, ref_seq: u64, text: Seq<u8>) -> Option<Outgoing> {
    Some(
        Outgoing {
            seq: seq_out,
            kind: MSG_REJECT,
            extra: seq![(TAG_REF_SEQ, number_text(ref_seq)), (TAG_TEXT, text)],
        },
    )
}

/// What becomes of the input and of the session.
pub enum Verdict {
    /// The message is a request to the engine.
    Command(Command),
    /// The message was session traffic.
    Reply,
    /// The session is dead.
    Disconnect,
}

/// What an acceptor does with a message: its next state, what becomes of the
/// input, and what it answers.
#[verifier::ext_equal]
pub struct Handled {
    pub state: FixView,
    pub verdict: Verdict,
    pub reply: Option<Outgoing>,
}

/// The value of the first field with this tag, where it is valid UTF-8.
pub open spec fn text_of(m: MessageView, tag: u32) -> Option<Seq<u8>> {
    match field_of(m.fields, tag) {
        Some(v) => if valid_utf8(v) {
            Some(v)
        } else {
            None
        },
        None => None,
    }
}

pub open spec fn text_or_empty(m: MessageView, tag: u32) -> Seq<u8> {
    match text_of(m, tag) {
        Some(v) => v,
        None => Seq::empty(),
    }
}

pub open spec fn number_of(m: MessageView, tag: u32) -> Option<u64> {
    match text_of(m, tag) {
        Some(v) => unsigned(v),
        None => None,
    }
}

pub open spec fn price_of(m: MessageView) -> Option<u64> {
    match text_of(m, TAG_PRICE) {
        Some(v) => price_value(v),
        None => None,
    }
}

pub open spec fn side_value(text: Seq<u8>) -> Option<Side> {
    if text == seq![SIDE_BUY] {
        Some(Side::Bid)
    } else if text == seq![SIDE_SELL] {
        Some(Side::Ask)
    } else {
        None
    }
}

pub open spec fn side_of(m: MessageView) -> Option<Side> {
    match text_of(m, TAG_SIDE) {
        Some(v) => side_value(v),
        None => None,
    }
}

pub open spec fn side_code(side: Side) -> u8 {
    match side {
        Side::Bid => SIDE_BUY,
        Side::Ask => SIDE_SELL,
    }
}

pub open spec fn with_session(s: FixView, fd: i32, sess: Sess) -> FixView {
    FixView { sessions: s.sessions.insert(fd, sess), ..s }
}

pub open spec fn without_session(s: FixView, fd: i32) -> FixView {
    FixView { sessions: s.sessions.remove(fd), ..s }
}

pub open spec fn with_names(s: FixView, fd: i32, names: NamesView) -> FixView {
    FixView { names: s.names.insert(fd, names), ..s }
}

pub open spec fn disconnect(s: FixView, reply: Option<Outgoing>) -> Handled {
    Handled { state: s, verdict: Verdict::Disconnect, reply }
}

pub open spec fn answer(s: FixView, reply: Option<Outgoing>) -> Handled {
    Handled { state: s, verdict: Verdict::Reply, reply }
}

/// A BusinessMessageReject, which uses up an outgoing sequence number.
pub open spec fn business_reject(s: FixView, fd: i32, text: Seq<u8>) -> Handled {
    let sess = s.sessions[fd];
    answer(
        with_session(s, fd, Sess { next_out: next64(sess.next_out), ..sess }),
        Some(
            Outgoing {
                seq: sess.next_out,
                kind: MSG_BUSINESS_REJECT,
                extra: seq![(TAG_TEXT, text)],
            },
        ),
    )
}

/// The order that a cancel or a replace is about: OrigClOrdID, else ClOrdID.
pub open spec fn original_name(m: MessageView) -> Option<Seq<u8>> {
    match text_of(m, TAG_ORIG_CLORD) {
        Some(v) => Some(v),
        None => text_of(m, TAG_CLORD),
    }
}

/// A request turned into a command, or why it was not.
pub enum Mapped {
    Done { state: FixView, cmd: Command },
    Refused { text: Seq<u8> },
}

/// A NewOrderSingle. A name that was used before keeps its reference.
pub open spec fn mapped_add(s: FixView, fd: i32, m: MessageView) -> Mapped {
    let sess = s.sessions[fd];
    let names = s.names[fd];
    match (text_of(m, TAG_CLORD), side_of(m), number_of(m, TAG_QTY), price_of(m)) {
        (Some(name), Some(side), Some(quantity), Some(price)) => {
            let known = names.ids.contains_key(name);
            let user_ref = if known {
                names.ids[name]
            } else {
                sess.next_ref
            };
            let named = if known {
                s
            } else {
                with_session(s, fd, Sess { next_ref: saturating_next32(sess.next_ref), ..sess })
            };
            let ids = if known {
                names.ids
            } else {
                names.ids.insert(name, user_ref)
            };
            let refs = if known {
                names.refs
            } else {
                names.refs.insert(user_ref, name)
            };
            Mapped::Done {
                state: with_names(named, fd, NamesView { ids, refs, last_ref: Some(user_ref) }),
                cmd: Command {
                    client_fd: fd,
                    side,
                    quantity,
                    price: Price(price),
                    user_ref,
                    cl_ord_id: padded_id(name),
                    time_in_force: match text_of(m, TAG_TIF) {
                        Some(tif) => if tif.len() > 0 {
                            tif[0]
                        } else {
                            0
                        },
                        None => 0,
                    },
                    ..blank_command(CommandType::Add)
                },
            }
        },
        _ => Mapped::Refused { text: encode_utf8("fields"@) },
    }
}

/// An OrderCancelRequest.
pub open spec fn mapped_cancel(s: FixView, fd: i32, m: MessageView) -> Mapped {
    let names = s.names[fd];
    match original_name(m) {
        None => Mapped::Refused { text: encode_utf8("fields"@) },
        Some(name) => if !names.ids.contains_key(name) {
            Mapped::Refused { text: encode_utf8("clordid"@) }
        } else {
            Mapped::Done {
                state: with_names(
                    s,
                    fd,
                    NamesView { last_ref: Some(names.ids[name]), ..names },
                ),
                cmd: Command {
                    client_fd: fd,
                    user_ref: names.ids[name],
                    cl_ord_id: padded_id(name),
                    quantity: match number_of(m, TAG_QTY) {
                        Some(q) => q,
                        None => 0,
                    },
                    ..blank_command(CommandType::Cancel)
                },
            }
        },
    }
}

/// An OrderCancelReplaceRequest. The new name becomes another name of the order.
pub open spec fn mapped_modify(s: FixView, fd: i32, m: MessageView) -> Mapped {
    let names = s.names[fd];
    match original_name(m) {
        None => Mapped::Refused { text: encode_utf8("fields"@) },
        Some(name) => if !names.ids.contains_key(name) {
            Mapped::Refused { text: encode_utf8("clordid"@) }
        } else {
            let user_ref = names.ids[name];
            let ids = match text_of(m, TAG_CLORD) {
                Some(new_name) => if new_name != name {
                    names.ids.insert(new_name, user_ref)
                } else {
                    names.ids
                },
                None => names.ids,
            };
            Mapped::Done {
                state: with_names(
                    s,
                    fd,
                    NamesView { ids, refs: names.refs, last_ref: Some(user_ref) },
                ),
                cmd: Command {
                    client_fd: fd,
                    user_ref,
                    cl_ord_id: padded_id(name),
                    side: match side_of(m) {
                        Some(side) => side,
                        None => Side::Bid,
                    },
                    quantity: match number_of(m, TAG_QTY) {
                        Some(q) => q,
                        None => 0,
                    },
                    price: match price_of(m) {
                        Some(p) => Price(p),
                        None => Price(0),
                    },
                    ..blank_command(CommandType::Modify)
                },
            }
        },
    }
}

pub open spec fn is_request(kind: Seq<u8>) -> bool {
    kind == seq![MSG_NEW_ORDER] || kind == seq![MSG_CANCEL] || kind == seq![MSG_REPLACE]
}

/// A request, by its message type.
pub open spec fn mapped(s: FixView, fd: i32, m: MessageView) -> Mapped {
    if text_or_empty(m, TAG_SYMBOL) != s.symbol {
        Mapped::Refused { text: encode_utf8("symbol"@) }
    } else if m.kind == seq![MSG_NEW_ORDER] {
        mapped_add(s, fd, m)
    } else if m.kind == seq![MSG_CANCEL] {
        mapped_cancel(s, fd, m)
    } else {
        mapped_modify(s, fd, m)
    }
}

/// A request on a live session.
pub open spec fn requested(s: FixView, fd: i32, m: MessageView) -> Handled {
    match mapped(s, fd, m) {
        Mapped::Done { state, cmd } => Handled {
            state,
            verdict: Verdict::Command(cmd),
            reply: None,
        },
        Mapped::Refused { text } => business_reject(s, fd, text),
    }
}

/// The echo of a TestRequest.
pub open spec fn echo_fields(m: MessageView) -> Seq<(u32, Seq<u8>)> {
    let req = text_or_empty(m, TAG_TEST_REQ);
    if req.len() == 0 {
        Seq::empty()
    } else {
        seq![(TAG_TEST_REQ, req)]
    }
}

/// A message on a live session, its sequence number already counted.
pub open spec fn in_session(s: FixView, fd: i32, m: MessageView) -> Handled {
    let sess = s.sessions[fd];
    let sent = Sess { next_out: next64(sess.next_out), last_out: s.now, ..sess };
    if m.kind == seq![MSG_TEST_REQUEST] {
        answer(
            with_session(s, fd, sent),
            Some(Outgoing { seq: sess.next_out, kind: MSG_HEARTBEAT, extra: echo_fields(m) }),
        )
    } else if m.kind == seq![MSG_LOGOUT] {
        answer(
            with_session(s, fd, Sess { logged_on: false, ..sent }),
            Some(Outgoing { seq: sess.next_out, kind: MSG_LOGOUT, extra: Seq::empty() }),
        )
    } else if is_request(m.kind) {
        requested(s, fd, m)
    } else {
        answer(s, None)
    }
}

/// The heartbeat interval that a Logon asks for.
pub open spec fn heartbeat_secs(m: MessageView) -> u64 {
    match number_of(m, TAG_HB) {
        Some(v) => v,
        None => 30,
    }
}

/// A Logon. It starts the sequence numbers over; the names stay.
pub open spec fn logon(s: FixView, fd: i32, m: MessageView, seq: u64) -> Handled {
    if seq != 1 {
        disconnect(s, reject(1, seq, encode_utf8("seq"@)))
    } else {
        let hb_secs = heartbeat_secs(m);
        answer(
            with_session(
                s,
                fd,
                Sess {
                    next_in: 2,
                    next_out: 2,
                    next_ref: 1,
                    logged_on: true,
                    last_out: s.now,
                    hb_secs,
                },
            ),
            Some(
                Outgoing {
                    seq: 1,
                    kind: MSG_LOGON,
                    extra: seq![(TAG_ENCRYPT, number_text(0)), (TAG_HB, number_text(hb_secs))],
                },
            ),
        )
    }
}

/// Whether the CompIDs are those this acceptor expects.
pub open spec fn right_parties(s: FixView, m: MessageView) -> bool {
    text_or_empty(m, TAG_SENDER) == s.them && text_or_empty(m, TAG_TARGET) == s.us
}

/// The number of the next message to go out, also where there is no session yet.
pub open spec fn next_out_or_first(s: FixView, fd: i32) -> u64 {
    if s.sessions.contains_key(fd) {
        s.sessions[fd].next_out
    } else {
        1
    }
}

/// What an acceptor does with a decoded message.
pub open spec fn handled(s: FixView, fd: i32, m: MessageView) -> Handled {
    if m.begin != Some(begin_bytes()) {
        disconnect(s, None)
    } else {
        match number_of(m, TAG_SEQ) {
            None => disconnect(s, None),
            Some(seq) => if !right_parties(s, m) {
                disconnect(s, reject(next_out_or_first(s, fd), seq, encode_utf8("compid"@)))
            } else if m.kind == seq![MSG_LOGON] {
                logon(s, fd, m, seq)
            } else if !s.sessions.contains_key(fd) {
                disconnect(s, None)
            } else {
                let sess = s.sessions[fd];
                if seq != sess.next_in {
                    disconnect(
                        without_session(s, fd),
                        reject(sess.next_out, seq, encode_utf8("seq"@)),
                    )
                } else if !sess.logged_on {
                    disconnect(without_session(s, fd), None)
                } else {
                    in_session(
                        with_session(s, fd, Sess { next_in: next64(sess.next_in), ..sess }),
                        fd,
                        m,
                    )
                }
            },
        }
    }
}

/// What a caller is told of the input.
pub open spec fn outcome_of(verdict: Verdict, bytes: nat, consumed: usize) -> ParseOutcome {
    match verdict {
        Verdict::Command(cmd) => ParseOutcome::Command { cmd, consumed },
        Verdict::Reply => ParseOutcome::Reply { bytes: bytes as usize, consumed },
        Verdict::Disconnect => ParseOutcome::Disconnect { bytes: bytes as usize, consumed },
    }
}

/// A handled message as a step that took `consumed` bytes of the input and had
/// `room` bytes for its reply.
pub open spec fn step_of(s: FixView, h: Handled, consumed: usize, room: nat) -> Step {
    let reply = written_if(s, h.reply, room);
    Parsed { state: h.state, outcome: outcome_of(h.verdict, reply.len(), consumed), reply }
}

/// One-letter message types, as texts, are as different as their letters.
pub proof fn lemma_message_types()
    ensures
        seq![MSG_HEARTBEAT].len() == 1 && seq![MSG_HEARTBEAT][0] == MSG_HEARTBEAT,
        seq![MSG_TEST_REQUEST].len() == 1 && seq![MSG_TEST_REQUEST][0] == MSG_TEST_REQUEST,
        seq![MSG_LOGOUT].len() == 1 && seq![MSG_LOGOUT][0] == MSG_LOGOUT,
        seq![MSG_LOGON].len() == 1 && seq![MSG_LOGON][0] == MSG_LOGON,
        seq![MSG_NEW_ORDER].len() == 1 && seq![MSG_NEW_ORDER][0] == MSG_NEW_ORDER,
        seq![MSG_CANCEL].len() == 1 && seq![MSG_CANCEL][0] == MSG_CANCEL,
        seq![MSG_REPLACE].len() == 1 && seq![MSG_REPLACE][0] == MSG_REPLACE,
{
}

/// `v`, brought into the range from `lo` to `hi`.
pub open spec fn clamped(v: nat, lo: nat, hi: nat) -> nat {
    if v < lo {
        lo
    } else if v > hi {
        hi
    } else {
        v
    }
}

/// What an acceptor does with what a decoder made of `len` bytes of input.
pub open spec fn taken(
    s: FixView,
    fd: i32,
    decoding: Result<MessageView, DecodeFault>,
    len: nat,
    room: nat,
) -> Step {
    match decoding {
        Ok(m) => step_of(s, handled(s, fd, m), m.len as usize, room),
        Err(DecodeFault::Malformed { at }) => Parsed {
            state: s,
            outcome: ParseOutcome::Bad { consumed: clamped(at as nat, 1, len) as usize },
            reply: Seq::empty(),
        },
        Err(_) => Parsed { state: s, outcome: ParseOutcome::NeedMore, reply: Seq::empty() },
    }
}

/// What an acceptor does with its input.
pub open spec fn parsed(s: FixView, buf: Seq<u8>, fd: i32, room: nat) -> Step {
    if buf.len() == 0 {
        Parsed { state: s, outcome: ParseOutcome::NeedMore, reply: Seq::empty() }
    } else {
        taken(s, fd, decoded(buf), buf.len(), room)
    }
}

/// The name an order is reported under: the ClOrdID it came in with, else what
/// the event carries.
pub open spec fn report_name(s: FixView, fd: i32, user_ref: u32, fallback: [u8; 14]) -> Seq<u8> {
    if s.names[fd].refs.contains_key(user_ref) {
        s.names[fd].refs[user_ref]
    } else {
        encode_utf8(trimmed(lossy_text(fallback@)))
    }
}

/// Whether the connection that a trade is reported to is the maker's.
pub open spec fn is_maker(s: FixView, evt: Event) -> bool {
    s.names[evt.client_fd].refs.contains_key(evt.trade.maker_user_ref)
}

/// The order that a trade is reported under: the maker's, else the one that the
/// last request was about.
pub open spec fn trade_ref(s: FixView, evt: Event) -> u32 {
    if is_maker(s, evt) {
        evt.trade.maker_user_ref
    } else {
        match s.names[evt.client_fd].last_ref {
            Some(r) => r,
            None => 0,
        }
    }
}

/// The fields of an ExecutionReport behind the header.
pub open spec fn report_fields(s: FixView, evt: Event, exec_id: u64) -> Seq<(u32, Seq<u8>)> {
    let fd = evt.client_fd;
    let id = decimal(exec_id as nat);
    let o = evt.order;
    let t = evt.trade;
    match evt.ty {
        EventType::OrderAccepted => seq![
            (TAG_CLORD, report_name(s, fd, o.user_ref, o.cl_ord_id)),
            (TAG_EXEC_ID, id),
            (TAG_EXEC_TYPE, seq![EXEC_NEW]),
            (TAG_ORD_STATUS, seq![EXEC_NEW]),
            (TAG_SIDE, seq![side_code(o.side)]),
            (TAG_QTY, decimal(o.quantity as nat)),
            (TAG_PRICE, decimal(o.price.0 as nat)),
            (TAG_ORDER_ID, decimal(o.order_id as nat)),
        ],
        EventType::OrderCancelled => seq![
            (TAG_CLORD, report_name(s, fd, o.user_ref, o.cl_ord_id)),
            (TAG_EXEC_ID, id),
            (TAG_EXEC_TYPE, seq![EXEC_CANCELED]),
            (TAG_ORD_STATUS, seq![EXEC_CANCELED]),
            (TAG_ORDER_ID, decimal(o.order_id as nat)),
            (TAG_SIDE, seq![side_code(o.side)]),
        ],
        EventType::OrderModified => seq![
            (TAG_CLORD, report_name(s, fd, o.user_ref, o.cl_ord_id)),
            (TAG_EXEC_ID, id),
            (TAG_EXEC_TYPE, seq![EXEC_REPLACED]),
            (TAG_ORD_STATUS, seq![EXEC_REPLACED]),
            (TAG_SIDE, seq![side_code(o.side)]),
            (TAG_QTY, decimal(o.quantity as nat)),
            (TAG_PRICE, decimal(o.price.0 as nat)),
            (TAG_ORDER_ID, decimal(o.order_id as nat)),
        ],
        EventType::OrderRejected => seq![
            (TAG_CLORD, report_name(s, fd, evt.reject.user_ref, evt.reject.cl_ord_id)),
            (TAG_EXEC_ID, id),
            (TAG_EXEC_TYPE, seq![EXEC_REJECTED]),
            (TAG_ORD_STATUS, seq![EXEC_REJECTED]),
            (TAG_REASON, decimal(evt.reject.reason as nat)),
        ],
        EventType::TradeExecuted => seq![
            (TAG_CLORD, report_name(s, fd, trade_ref(s, evt), o.cl_ord_id)),
            (TAG_EXEC_ID, id),
            (TAG_EXEC_TYPE, seq![EXEC_TRADE]),
            (TAG_ORD_STATUS, seq![EXEC_PARTIAL]),
            (
                TAG_SIDE,
                seq![
                    side_code(
                        if is_maker(s, evt) {
                            t.taker_side.other()
                        } else {
                            t.taker_side
                        },
                    ),
                ],
            ),
            (TAG_LAST_PRICE, decimal(t.price.0 as nat)),
            (TAG_LAST_QTY, decimal(t.quantity as nat)),
            (TAG_ORDER_ID, decimal(t.maker_exchange_id as nat)),
        ],
        EventType::BookReset => Seq::empty(),
    }
}

/// Whether an event is reported to a client: it names a connection that is
/// logged on.
pub open spec fn reportable(s: FixView, evt: Event) -> bool {
    evt.ty != EventType::BookReset && evt.client_fd >= 0 && s.sessions.contains_key(evt.client_fd)
        && s.sessions[evt.client_fd].logged_on
}

/// The state after an event was reported. Both numbers are used up even if the
/// report could not be written.
pub open spec fn after_report(s: FixView, evt: Event) -> FixView {
    if reportable(s, evt) {
        let sess = s.sessions[evt.client_fd];
        FixView {
            next_exec: next64(s.next_exec),
            ..with_session(
                s,
                evt.client_fd,
                Sess { next_out: next64(sess.next_out), last_out: s.now, ..sess },
            )
        }
    } else {
        s
    }
}

/// The ExecutionReport of an event.
pub open spec fn report_of(s: FixView, evt: Event) -> Option<Outgoing> {
    if reportable(s, evt) {
        Some(
            Outgoing {
                seq: s.sessions[evt.client_fd].next_out,
                kind: MSG_REPORT,
                extra: report_fields(s, evt, s.next_exec),
            },
        )
    } else {
        None
    }
}

/// Whether a connection has been silent for a whole heartbeat interval.
pub open spec fn heartbeat_due(s: FixView, now: u64, fd: i32) -> bool {
    s.sessions.contains_key(fd) && {
        let sess = s.sessions[fd];
        let silent: int = if now > sess.last_out {
            now - sess.last_out
        } else {
            0
        };
        sess.logged_on && sess.hb_secs > 0 && silent >= sess.hb_secs * 1_000_000_000
    }
}

/// The state after the read loop was idle.
pub open spec fn after_idle(s: FixView, now: u64, fd: i32) -> FixView {
    if heartbeat_due(s, now, fd) {
        let sess = s.sessions[fd];
        with_session(s, fd, Sess { next_out: next64(sess.next_out), last_out: now, ..sess })
    } else {
        s
    }
}

/// The heartbeat that goes out when the read loop is idle.
pub open spec fn idle_message(s: FixView, now: u64, fd: i32) -> Option<Outgoing> {
    if heartbeat_due(s, now, fd) {
        Some(Outgoing { seq: s.sessions[fd].next_out, kind: MSG_HEARTBEAT, extra: Seq::empty() })
    } else {
        None
    }
}

/// The state after a connection ended: nothing of it is kept.
pub open spec fn after_end(s: FixView, fd: i32) -> FixView {
    with_names(without_session(s, fd), fd, no_names())
}

} // verus!
