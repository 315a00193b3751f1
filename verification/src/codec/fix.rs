//! FIX 4.4 order-entry codec.

use std::collections::HashMap;

use vstd::prelude::*;
use vstd::utf8::{encode_utf8, is_ascii_chars_encode_utf8};

use crate::bytes::{
    bump, decimal, decimal_text, overlay, parse_u64, push_decimal, put, same, to_signed64, to_vec,
};
use crate::codec::{fix_model, reply_len, Encoded, OrderEntry, ParseOutcome, Parsed, SessionId};
use crate::codec::fix_model::{
    after_end, after_idle, after_report, answered, begin_bytes, business_reject, clamped,
    echo_fields, handled, idle_message, in_session, is_request, lemma_message_types, logon,
    mapped_add, mapped_cancel, mapped_modify, no_names, number_of, number_text, original_name,
    outcome_of, outgoing_fields, reject, report_fields, report_name, report_of, requested,
    side_code, side_value, text_of, text_or_empty, trade_ref, with_names, with_session,
    without_session, written_if, FixView, Mapped, NamesView, Outgoing, Sess, EXEC_CANCELED,
    EXEC_NEW, EXEC_PARTIAL, EXEC_REJECTED, EXEC_REPLACED, EXEC_TRADE, MSG_BUSINESS_REJECT,
    MSG_CANCEL, MSG_HEARTBEAT, MSG_LOGON, MSG_LOGOUT, MSG_NEW_ORDER, MSG_REJECT, MSG_REPLACE,
    MSG_REPORT, MSG_TEST_REQUEST, SIDE_BUY, SIDE_SELL, TAG_CLORD, TAG_ENCRYPT, TAG_EXEC_ID,
    TAG_EXEC_TYPE, TAG_HB, TAG_LAST_PRICE, TAG_LAST_QTY, TAG_ORDER_ID, TAG_ORD_STATUS,
    TAG_ORIG_CLORD, TAG_PRICE, TAG_QTY, TAG_REASON, TAG_REF_SEQ, TAG_SENDER, TAG_SEQ, TAG_SIDE,
    TAG_SYMBOL, TAG_TARGET, TAG_TEST_REQ, TAG_TEXT, TAG_TIF,
};
use crate::codec::names::Names;
use crate::codec::price::parse_price;
use crate::codec::tagvalue::{
    decode, decoded, encoder_fields, encoder_finish, encoder_new, encoder_put_int, encoder_put_raw,
    field_views, is_code, plain_tag, DecodeFault, Field, Message, EQUALS, TAG_MSG_TYPE,
};
use crate::text::{from_utf8, from_utf8_lossy, trim};
use crate::types::{pad_id, Command, CommandType, Event, EventType, Price, Side};

verus! {

broadcast use vstd::std_specs::hash::group_hash_axioms;

/// FIX 4.4 acceptor: the session table and the order names.
pub struct Fix {
    us: Vec<u8>,
    them: Vec<u8>,
    symbol: Vec<u8>,
    sessions: HashMap<i32, Sess>,
    names: HashMap<i32, Names>,
    next_exec: u64,
    now: u64,
}

/// The names of every connection, where those that are not in the table have
/// none.
pub open spec fn all_names(names: Map<i32, Names>) -> Map<i32, NamesView> {
    Map::total(
        |fd: i32|
            if names.contains_key(fd) {
                names[fd]@
            } else {
                no_names()
            },
    )
}

impl View for Fix {
    type V = FixView;

    closed spec fn view(&self) -> FixView {
        FixView {
            us: self.us@,
            them: self.them@,
            symbol: self.symbol@,
            sessions: self.sessions@,
            names: all_names(self.names@),
            next_exec: self.next_exec,
            now: self.now,
        }
    }
}

proof fn lemma_begin_is_code()
    ensures
        is_code(begin_bytes()),
        begin_bytes() == seq![70u8, 73u8, 88u8, 46u8, 52u8, 46u8, 52u8],
{
    reveal_strlit("FIX.4.4");
    is_ascii_chars_encode_utf8("FIX.4.4"@);
    assert(begin_bytes() =~= seq![70u8, 73u8, 88u8, 46u8, 52u8, 46u8, 52u8]);
}

/// How a sequence number or a count of seconds stands in a message.
fn number_bytes(v: u64) -> (r: Vec<u8>)
    ensures
        r@ == number_text(v),
{
    let mut out: Vec<u8> = Vec::new();
    if v > i64::MAX as u64 {
        out.push(45);
        push_decimal(&mut out, (u64::MAX - v) + 1);
    } else {
        push_decimal(&mut out, v);
    }
    assert(out@ =~= number_text(v));
    out
}

fn text_field(tag: u32, value: &[u8]) -> (r: Field)
    ensures
        r@ == (tag, value@),
{
    Field { tag, value: to_vec(value) }
}

fn byte_field(tag: u32, value: u8) -> (r: Field)
    ensures
        r@ == (tag, seq![value]),
{
    let mut v: Vec<u8> = Vec::new();
    v.push(value);
    assert(v@ =~= seq![value]);
    Field { tag, value: v }
}

fn decimal_field(tag: u32, value: u64) -> (r: Field)
    ensures
        r@ == (tag, decimal(value as nat)),
{
    Field { tag, value: decimal_text(value) }
}

/// Whether these fields may follow the header.
spec fn are_extra(fields: Seq<Field>) -> bool {
    forall|i: int|
        0 <= i < fields.len() ==> plain_tag((#[trigger] fields[i]).tag) && fields[i].tag
            != TAG_MSG_TYPE
}

/// A message to be sent, made of these fields.
spec fn message(seq: u64, kind: u8, extra: Seq<Field>) -> Outgoing {
    Outgoing { seq, kind, extra: field_views(extra) }
}

impl Fix {
    /// `us` is this venue's CompID; `them` is the expected client CompID.
    pub fn new(us: &str, them: &str, symbol: &str) -> (r: Self)
        ensures
            r@ == (FixView {
                us: encode_utf8(us@),
                them: encode_utf8(them@),
                symbol: encode_utf8(symbol@),
                sessions: Map::empty(),
                names: Map::total(|fd: i32| no_names()),
                next_exec: 1,
                now: 0,
            }),
    {
        let r = Self {
            us: to_vec(us.as_bytes()),
            them: to_vec(them.as_bytes()),
            symbol: to_vec(symbol.as_bytes()),
            sessions: HashMap::new(),
            names: HashMap::new(),
            next_exec: 1,
            now: 0,
        };
        assert(r@.names =~= Map::total(|fd: i32| no_names()));
        r
    }

    /// Sets the clock, which counts nanoseconds.
    pub fn tick(&mut self, now: u64)
        ensures
            final(self)@ == (FixView { now, ..old(self)@ }),
    {
        self.now = now;
    }

    /// Frames a message and writes it to the front of `out`. Returns its length,
    /// or 0 if it cannot be framed or does not fit.
    fn frame(&self, seq: u64, kind: u8, extra: &Vec<Field>, out: &mut [u8]) -> (r: usize)
        requires
            33 <= kind <= 126,
            kind != EQUALS,
            are_extra(extra@),
        ensures
            answered(self@, Some(message(seq, kind, extra@)), old(out)@, r as nat, final(out)@),
    {
        proof {
            lemma_begin_is_code();
        }
        let ghost want = outgoing_fields(self@, message(seq, kind, extra@));
        let mut enc = encoder_new("FIX.4.4");
        let mut code: Vec<u8> = Vec::new();
        code.push(kind);
        assert(code@ =~= seq![kind]);
        encoder_put_raw(&mut enc, TAG_MSG_TYPE, &code);
        encoder_put_raw(&mut enc, TAG_SENDER, &self.us);
        encoder_put_raw(&mut enc, TAG_TARGET, &self.them);
        encoder_put_int(&mut enc, TAG_SEQ, to_signed64(seq));
        let ghost head = encoder_fields(enc);
        assert(head =~= want.take(4));
        let mut i: usize = 0;
        assert(head + field_views(extra@).take(0) =~= head);
        while i < extra.len()
            invariant
                i <= extra@.len(),
                are_extra(extra@),
                crate::codec::tagvalue::encoder_begin(enc) == begin_bytes(),
                encoder_fields(enc) == head + field_views(extra@).take(i as int),
            decreases extra@.len() - i,
        {
            encoder_put_raw(&mut enc, extra[i].tag, &extra[i].value);
            assert(head + field_views(extra@).take(i + 1) =~= (head + field_views(extra@).take(
                i as int,
            )).push(extra@[i as int]@));
            i = i + 1;
        }
        assert(encoder_fields(enc) =~= want);
        match encoder_finish(enc) {
            Some(frame) => {
                if frame.len() <= out.len() {
                    put(out, &frame);
                    assert(out@.take(frame@.len() as int) =~= frame@);
                    frame.len()
                } else {
                    assert(overlay(out@, Seq::empty()) =~= out@);
                    0
                }
            },
            None => {
                assert(overlay(out@, Seq::empty()) =~= out@);
                0
            },
        }
    }

    fn set_session(&mut self, fd: i32, sess: Sess)
        ensures
            final(self)@ == with_session(old(self)@, fd, sess),
    {
        self.sessions.insert(fd, sess);
    }

    fn drop_session(&mut self, fd: i32)
        ensures
            final(self)@ == without_session(old(self)@, fd),
    {
        self.sessions.remove(&fd);
    }

    fn session(&self, fd: i32) -> (r: Option<Sess>)
        ensures
            match r {
                Some(sess) => self@.sessions.contains_key(fd) && self@.sessions[fd] == sess,
                None => !self@.sessions.contains_key(fd),
            },
    {
        match self.sessions.get(&fd) {
            Some(sess) => Some(*sess),
            None => None,
        }
    }

    fn take_names(&mut self, fd: i32) -> (r: Names)
        ensures
            r@ == old(self)@.names[fd],
            final(self)@ == with_names(old(self)@, fd, no_names()),
    {
        let names = match self.names.remove(&fd) {
            Some(names) => names,
            None => Names::new(),
        };
        assert(self@.names =~= old(self)@.names.insert(fd, no_names()));
        names
    }

    fn put_names(&mut self, fd: i32, names: Names)
        ensures
            final(self)@ == with_names(old(self)@, fd, names@),
    {
        self.names.insert(fd, names);
        assert(self@.names =~= old(self)@.names.insert(fd, names@));
    }

    fn user_ref(&self, fd: i32, text: &[u8]) -> (r: Option<u32>)
        ensures
            match r {
                Some(user_ref) => self@.names[fd].ids.contains_key(text@)
                    && self@.names[fd].ids[text@] == user_ref,
                None => !self@.names[fd].ids.contains_key(text@),
            },
    {
        match self.names.get(&fd) {
            Some(names) => names.lookup(text),
            None => None,
        }
    }

    /// The ClOrdID that first named the order `user_ref` of this session.
    pub fn clord_for(&self, session: SessionId, user_ref: u32) -> (r: Option<Vec<u8>>)
        ensures
            match r {
                Some(text) => self@.names[session.0].refs.contains_key(user_ref)
                    && self@.names[session.0].refs[user_ref] == text@,
                None => !self@.names[session.0].refs.contains_key(user_ref),
            },
    {
        match self.names.get(&session.0) {
            Some(names) => match names.name(user_ref) {
                Some(text) => Some(to_vec(text)),
                None => None,
            },
            None => None,
        }
    }

    fn clord_of(&self, session: SessionId, user_ref: u32, fallback: &[u8; 14]) -> (r: Vec<u8>)
        ensures
            r@ == report_name(self@, session.0, user_ref, *fallback),
    {
        match self.clord_for(session, user_ref) {
            Some(text) => text,
            None => {
                let text = from_utf8_lossy(fallback);
                to_vec(trim(text.as_str()).as_bytes())
            },
        }
    }

    fn knows(&self, session: SessionId, user_ref: u32) -> (r: bool)
        ensures
            r == self@.names[session.0].refs.contains_key(user_ref),
    {
        match self.names.get(&session.0) {
            Some(names) => names.name(user_ref).is_some(),
            None => false,
        }
    }

    fn trade_uref(&self, evt: &Event) -> (r: u32)
        ensures
            r == trade_ref(self@, *evt),
    {
        if self.knows(SessionId(evt.client_fd), evt.trade.maker_user_ref) {
            evt.trade.maker_user_ref
        } else {
            match self.names.get(&evt.client_fd) {
                Some(names) => match names.last() {
                    Some(user_ref) => user_ref,
                    None => 0,
                },
                None => 0,
            }
        }
    }
}

/// `v`, brought into the range from `lo` to `hi`.
fn clamp(v: usize, lo: usize, hi: usize) -> (r: usize)
    ensures
        r == clamped(v as nat, lo as nat, hi as nat),
{
    if v < lo {
        lo
    } else if v > hi {
        hi
    } else {
        v
    }
}

/// The value of the first field with this tag, where it is valid UTF-8.
fn text(msg: &Message, tag: u32) -> (r: Option<&Vec<u8>>)
    ensures
        match r {
            Some(v) => text_of(msg@, tag) == Some(v@),
            None => text_of(msg@, tag) is None,
        },
{
    match msg.field(tag) {
        Some(v) => if from_utf8(v).is_some() {
            Some(v)
        } else {
            None
        },
        None => None,
    }
}

/// Whether the text under this tag, or no text at all, is `want`.
fn text_is(msg: &Message, tag: u32, want: &[u8]) -> (r: bool)
    ensures
        r == (text_or_empty(msg@, tag) == want@),
{
    match text(msg, tag) {
        Some(v) => same(v, want),
        None => {
            if want.len() == 0 {
                assert(want@ =~= Seq::<u8>::empty());
                true
            } else {
                false
            }
        },
    }
}

fn number(msg: &Message, tag: u32) -> (r: Option<u64>)
    ensures
        r == number_of(msg@, tag),
{
    match text(msg, tag) {
        Some(v) => parse_u64(v),
        None => None,
    }
}

/// The one byte that `s` is made of.
fn only_byte(s: &[u8]) -> (r: Option<u8>)
    ensures
        match r {
            Some(b) => s@ == seq![b],
            None => s@.len() != 1,
        },
{
    if s.len() == 1 {
        assert(s@ =~= seq![s@[0]]);
        Some(s[0])
    } else {
        None
    }
}

fn parse_side(s: &[u8]) -> (r: Option<Side>)
    ensures
        r == side_value(s@),
{
    let b = only_byte(s);
    proof {
        assert(seq![SIDE_BUY].len() == 1 && seq![SIDE_SELL].len() == 1);
        assert(seq![SIDE_BUY][0] == SIDE_BUY && seq![SIDE_SELL][0] == SIDE_SELL);
        if let Some(c) = b {
            assert(seq![c][0] == c);
        }
    }
    match b {
        Some(SIDE_BUY) => Some(Side::Bid),
        Some(SIDE_SELL) => Some(Side::Ask),
        _ => None,
    }
}

fn side_fix(side: Side) -> (r: u8)
    ensures
        r == side_code(side),
{
    match side {
        Side::Bid => SIDE_BUY,
        Side::Ask => SIDE_SELL,
    }
}

impl Fix {
    fn cmd_add(&mut self, session: SessionId, msg: &Message) -> (r: Option<Command>)
        requires
            old(self)@.sessions.contains_key(session.0),
        ensures
            match r {
                Some(cmd) => mapped_add(old(self)@, session.0, msg@) == (Mapped::Done {
                    state: final(self)@,
                    cmd,
                }),
                None => final(self)@ == old(self)@ && mapped_add(old(self)@, session.0, msg@)
                    == (Mapped::Refused { text: encode_utf8("fields"@) }),
            },
    {
        let fd: i32 = session.0;
        let cl = match text(msg, TAG_CLORD) {
            Some(v) => v,
            None => return None,
        };
        let side = match text(msg, TAG_SIDE) {
            Some(v) => match parse_side(v) {
                Some(side) => side,
                None => return None,
            },
            None => return None,
        };
        let quantity: u64 = match number(msg, TAG_QTY) {
            Some(v) => v,
            None => return None,
        };
        let price: u64 = match text(msg, TAG_PRICE) {
            Some(v) => match parse_price(v) {
                Some(price) => price,
                None => return None,
            },
            None => return None,
        };
        let user_ref: u32 = match self.user_ref(fd, cl) {
            Some(id) => id,
            None => {
                let mut sess = match self.session(fd) {
                    Some(sess) => sess,
                    None => return None,
                };
                let id: u32 = sess.next_ref;
                sess.next_ref = sess.next_ref.saturating_add(1);
                self.set_session(fd, sess);
                let mut names = self.take_names(fd);
                names.alias(cl, id);
                names.remember(cl, id);
                self.put_names(fd, names);
                id
            },
        };
        let mut names = self.take_names(fd);
        names.touch(user_ref);
        self.put_names(fd, names);
        let mut cmd = Command::blank(CommandType::Add);
        cmd.client_fd = fd;
        cmd.side = side;
        cmd.quantity = quantity;
        cmd.price = Price(price);
        cmd.user_ref = user_ref;
        cmd.cl_ord_id = pad_id(cl);
        if let Some(tif) = text(msg, TAG_TIF) {
            if tif.len() > 0 {
                cmd.time_in_force = tif[0];
            }
        }
        proof {
            if let Mapped::Done { state, cmd: c } = mapped_add(old(self)@, fd, msg@) {
                assert(self@ =~~= state);
            }
        }
        Some(cmd)
    }

    fn cmd_cancel(&mut self, session: SessionId, msg: &Message) -> (r: Result<
        Command,
        &'static str,
    >)
        ensures
            match r {
                Ok(cmd) => mapped_cancel(old(self)@, session.0, msg@) == (Mapped::Done {
                    state: final(self)@,
                    cmd,
                }),
                Err(why) => final(self)@ == old(self)@ && mapped_cancel(
                    old(self)@,
                    session.0,
                    msg@,
                ) == (Mapped::Refused { text: encode_utf8(why@) }),
            },
    {
        let fd: i32 = session.0;
        let orig = match original(msg) {
            Some(v) => v,
            None => return Err("fields"),
        };
        let user_ref: u32 = match self.user_ref(fd, orig) {
            Some(id) => id,
            None => return Err("clordid"),
        };
        let mut cmd = Command::blank(CommandType::Cancel);
        cmd.client_fd = fd;
        cmd.user_ref = user_ref;
        cmd.cl_ord_id = pad_id(orig);
        if let Some(q) = number(msg, TAG_QTY) {
            cmd.quantity = q;
        }
        let mut names = self.take_names(fd);
        names.touch(user_ref);
        self.put_names(fd, names);
        proof {
            if let Mapped::Done { state, cmd: c } = mapped_cancel(old(self)@, fd, msg@) {
                assert(self@ =~~= state);
            }
        }
        Ok(cmd)
    }

    fn cmd_modify(&mut self, session: SessionId, msg: &Message) -> (r: Result<
        Command,
        &'static str,
    >)
        ensures
            match r {
                Ok(cmd) => mapped_modify(old(self)@, session.0, msg@) == (Mapped::Done {
                    state: final(self)@,
                    cmd,
                }),
                Err(why) => final(self)@ == old(self)@ && mapped_modify(
                    old(self)@,
                    session.0,
                    msg@,
                ) == (Mapped::Refused { text: encode_utf8(why@) }),
            },
    {
        let fd: i32 = session.0;
        let orig = match original(msg) {
            Some(v) => v,
            None => return Err("fields"),
        };
        let user_ref: u32 = match self.user_ref(fd, orig) {
            Some(id) => id,
            None => return Err("clordid"),
        };
        let mut names = self.take_names(fd);
        if let Some(cl) = text(msg, TAG_CLORD) {
            if !same(cl, orig) {
                names.alias(cl, user_ref);
            }
        }
        names.touch(user_ref);
        self.put_names(fd, names);
        let mut cmd = Command::blank(CommandType::Modify);
        cmd.client_fd = fd;
        cmd.user_ref = user_ref;
        cmd.cl_ord_id = pad_id(orig);
        if let Some(v) = text(msg, TAG_SIDE) {
            if let Some(side) = parse_side(v) {
                cmd.side = side;
            }
        }
        if let Some(q) = number(msg, TAG_QTY) {
            cmd.quantity = q;
        }
        if let Some(v) = text(msg, TAG_PRICE) {
            if let Some(price) = parse_price(v) {
                cmd.price = Price(price);
            }
        }
        proof {
            if let Mapped::Done { state, cmd: c } = mapped_modify(old(self)@, fd, msg@) {
                assert(self@ =~~= state);
            }
        }
        Ok(cmd)
    }

    /// Answers with a session-level Reject.
    fn reject(&self, seq_out: u64, ref_seq: u64, why: &str, out: &mut [u8]) -> (r: usize)
        ensures
            answered(
                self@,
                reject(seq_out, ref_seq, encode_utf8(why@)),
                old(out)@,
                r as nat,
                final(out)@,
            ),
    {
        let mut extra: Vec<Field> = Vec::new();
        extra.push(Field { tag: TAG_REF_SEQ, value: number_bytes(ref_seq) });
        extra.push(text_field(TAG_TEXT, why.as_bytes()));
        assert(message(seq_out, MSG_REJECT, extra@) =~~= reject(
            seq_out,
            ref_seq,
            encode_utf8(why@),
        )->0);
        self.frame(seq_out, MSG_REJECT, &extra, out)
    }

    /// Refuses a request. The refusal uses up an outgoing sequence number.
    fn biz_reject(&mut self, session: SessionId, why: &str, out: &mut [u8]) -> (r: usize)
        requires
            old(self)@.sessions.contains_key(session.0),
        ensures
            final(self)@ == business_reject(
                old(self)@,
                session.0,
                encode_utf8(why@),
            ).state,
            answered(
                old(self)@,
                business_reject(old(self)@, session.0, encode_utf8(why@)).reply,
                old(out)@,
                r as nat,
                final(out)@,
            ),
    {
        let mut sess = match self.session(session.0) {
            Some(sess) => sess,
            None => return 0,
        };
        let mut extra: Vec<Field> = Vec::new();
        extra.push(text_field(TAG_TEXT, why.as_bytes()));
        assert(message(sess.next_out, MSG_BUSINESS_REJECT, extra@) =~~= business_reject(
            self@,
            session.0,
            encode_utf8(why@),
        ).reply->0);
        let n: usize = self.frame(sess.next_out, MSG_BUSINESS_REJECT, &extra, out);
        sess.next_out = bump(sess.next_out);
        self.set_session(session.0, sess);
        n
    }
}

/// The order that a cancel or a replace is about: OrigClOrdID, else ClOrdID.
fn original(msg: &Message) -> (r: Option<&Vec<u8>>)
    ensures
        match r {
            Some(v) => original_name(msg@) == Some(v@),
            None => original_name(msg@) is None,
        },
{
    match text(msg, TAG_ORIG_CLORD) {
        Some(v) => Some(v),
        None => text(msg, TAG_CLORD),
    }
}

impl Fix {
    /// Maps a request to a command, or refuses it.
    fn map_app(
        &mut self,
        session: SessionId,
        msg: &Message,
        consumed: usize,
        reply: &mut [u8],
    ) -> (r: ParseOutcome)
        requires
            old(self)@.sessions.contains_key(session.0),
            is_request(msg@.kind),
        ensures
            final(self)@ == requested(old(self)@, session.0, msg@).state,
            r == outcome_of(
                requested(old(self)@, session.0, msg@).verdict,
                reply_len(r),
                consumed,
            ),
            answered(
                old(self)@,
                requested(old(self)@, session.0, msg@).reply,
                old(reply)@,
                reply_len(r),
                final(reply)@,
            ),
    {
        proof {
            lemma_message_types();
            assert(overlay(reply@, Seq::empty()) =~= reply@);
        }
        let cmd: Result<Command, &'static str> = if !text_is(msg, TAG_SYMBOL, &self.symbol) {
            Err("symbol")
        } else if msg.kind[0] == MSG_NEW_ORDER {
            match self.cmd_add(session, msg) {
                Some(cmd) => Ok(cmd),
                None => Err("fields"),
            }
        } else if msg.kind[0] == MSG_CANCEL {
            self.cmd_cancel(session, msg)
        } else {
            self.cmd_modify(session, msg)
        };
        match cmd {
            Ok(cmd) => ParseOutcome::Command { cmd, consumed },
            Err(why) => {
                let bytes: usize = self.biz_reject(session, why, reply);
                ParseOutcome::Reply { bytes, consumed }
            },
        }
    }

    /// Handles a message of a live session, its sequence number already counted.
    fn handle_in_session(
        &mut self,
        session: SessionId,
        msg: &Message,
        consumed: usize,
        reply: &mut [u8],
    ) -> (r: ParseOutcome)
        requires
            old(self)@.sessions.contains_key(session.0),
        ensures
            final(self)@ == in_session(old(self)@, session.0, msg@).state,
            r == outcome_of(
                in_session(old(self)@, session.0, msg@).verdict,
                reply_len(r),
                consumed,
            ),
            answered(
                old(self)@,
                in_session(old(self)@, session.0, msg@).reply,
                old(reply)@,
                reply_len(r),
                final(reply)@,
            ),
    {
        let fd: i32 = session.0;
        let mut sess = match self.session(fd) {
            Some(sess) => sess,
            None => return ParseOutcome::NeedMore,
        };
        let code = only_byte(&msg.kind);
        proof {
            assert(overlay(reply@, Seq::empty()) =~= reply@);
            lemma_message_types();
            if let Some(c) = code {
                assert(seq![c][0] == c);
            }
        }
        match code {
            Some(MSG_TEST_REQUEST) => {
                let mut extra: Vec<Field> = Vec::new();
                if let Some(req) = text(msg, TAG_TEST_REQ) {
                    if req.len() > 0 {
                        extra.push(text_field(TAG_TEST_REQ, req));
                    }
                }
                assert(field_views(extra@) =~= echo_fields(msg@));
                let bytes: usize = self.frame(sess.next_out, MSG_HEARTBEAT, &extra, reply);
                sess.next_out = bump(sess.next_out);
                sess.last_out = self.now;
                self.set_session(fd, sess);
                ParseOutcome::Reply { bytes, consumed }
            },
            Some(MSG_LOGOUT) => {
                let extra: Vec<Field> = Vec::new();
                assert(field_views(extra@) =~= Seq::empty());
                let bytes: usize = self.frame(sess.next_out, MSG_LOGOUT, &extra, reply);
                sess.next_out = bump(sess.next_out);
                sess.logged_on = false;
                sess.last_out = self.now;
                self.set_session(fd, sess);
                ParseOutcome::Reply { bytes, consumed }
            },
            Some(MSG_NEW_ORDER) | Some(MSG_CANCEL) | Some(MSG_REPLACE) => self.map_app(
                session,
                msg,
                consumed,
                reply,
            ),
            _ => ParseOutcome::Reply { bytes: 0, consumed },
        }
    }

    /// Handles a decoded message. `consumed` is handed through to the outcome.
    pub fn handle(
        &mut self,
        session: SessionId,
        msg: &Message,
        consumed: usize,
        reply: &mut [u8],
    ) -> (r: ParseOutcome)
        ensures
            final(self)@ == handled(old(self)@, session.0, msg@).state,
            r == outcome_of(
                handled(old(self)@, session.0, msg@).verdict,
                reply_len(r),
                consumed,
            ),
            answered(
                old(self)@,
                handled(old(self)@, session.0, msg@).reply,
                old(reply)@,
                reply_len(r),
                final(reply)@,
            ),
    {
        let fd: i32 = session.0;
        proof {
            assert(overlay(reply@, Seq::empty()) =~= reply@);
            lemma_message_types();
        }
        let known_version: bool = match &msg.begin {
            Some(begin) => same(begin, "FIX.4.4".as_bytes()),
            None => false,
        };
        if !known_version {
            return ParseOutcome::Disconnect { bytes: 0, consumed };
        }
        let inbound_seq: u64 = match number(msg, TAG_SEQ) {
            Some(n) => n,
            None => return ParseOutcome::Disconnect { bytes: 0, consumed },
        };
        if !text_is(msg, TAG_SENDER, &self.them) || !text_is(msg, TAG_TARGET, &self.us) {
            let seq_out: u64 = match self.session(fd) {
                Some(sess) => sess.next_out,
                None => 1,
            };
            let bytes: usize = self.reject(seq_out, inbound_seq, "compid", reply);
            return ParseOutcome::Disconnect { bytes, consumed };
        }
        let code = only_byte(&msg.kind);
        proof {
            if let Some(c) = code {
                assert(seq![c][0] == c);
            }
        }
        if let Some(MSG_LOGON) = code {
            return self.handle_logon(session, msg, inbound_seq, consumed, reply);
        }
        let mut sess = match self.session(fd) {
            Some(sess) => sess,
            None => return ParseOutcome::Disconnect { bytes: 0, consumed },
        };
        if inbound_seq != sess.next_in {
            let bytes: usize = self.reject(sess.next_out, inbound_seq, "seq", reply);
            self.drop_session(fd);
            return ParseOutcome::Disconnect { bytes, consumed };
        }
        if !sess.logged_on {
            self.drop_session(fd);
            return ParseOutcome::Disconnect { bytes: 0, consumed };
        }
        sess.next_in = bump(sess.next_in);
        self.set_session(fd, sess);
        self.handle_in_session(session, msg, consumed, reply)
    }

    /// Handles a Logon.
    fn handle_logon(
        &mut self,
        session: SessionId,
        msg: &Message,
        inbound_seq: u64,
        consumed: usize,
        reply: &mut [u8],
    ) -> (r: ParseOutcome)
        ensures
            final(self)@ == logon(old(self)@, session.0, msg@, inbound_seq).state,
            r == outcome_of(
                logon(old(self)@, session.0, msg@, inbound_seq).verdict,
                reply_len(r),
                consumed,
            ),
            answered(
                old(self)@,
                logon(old(self)@, session.0, msg@, inbound_seq).reply,
                old(reply)@,
                reply_len(r),
                final(reply)@,
            ),
    {
        if inbound_seq != 1 {
            let bytes: usize = self.reject(1, inbound_seq, "seq", reply);
            return ParseOutcome::Disconnect { bytes, consumed };
        }
        let hb_secs: u64 = match number(msg, TAG_HB) {
            Some(v) => v,
            None => 30,
        };
        let mut extra: Vec<Field> = Vec::new();
        extra.push(Field { tag: TAG_ENCRYPT, value: number_bytes(0) });
        extra.push(Field { tag: TAG_HB, value: number_bytes(hb_secs) });
        assert(field_views(extra@) =~= seq![
            (TAG_ENCRYPT, number_text(0)),
            (TAG_HB, number_text(hb_secs)),
        ]);
        let bytes: usize = self.frame(1, MSG_LOGON, &extra, reply);
        self.set_session(
            session.0,
            Sess {
                next_in: 2,
                next_out: 2,
                next_ref: 1,
                logged_on: true,
                last_out: self.now,
                hb_secs,
            },
        );
        ParseOutcome::Reply { bytes, consumed }
    }

    /// Writes the ExecutionReport of an event. Returns its length, or 0 if there is none.
    pub fn write_exec(&mut self, evt: &Event, out: &mut [u8]) -> (r: usize)
        ensures
            final(self)@ == after_report(old(self)@, *evt),
            answered(
                old(self)@,
                report_of(old(self)@, *evt),
                old(out)@,
                r as nat,
                final(out)@,
            ),
    {
        proof {
            assert(overlay(out@, Seq::empty()) =~= out@);
        }
        if evt.ty == EventType::BookReset || evt.client_fd < 0 {
            return 0;
        }
        let fd: i32 = evt.client_fd;
        let mut sess = match self.session(fd) {
            Some(sess) => sess,
            None => return 0,
        };
        if !sess.logged_on {
            return 0;
        }
        let extra: Vec<Field> = self.report(evt);
        let bytes: usize = self.frame(sess.next_out, MSG_REPORT, &extra, out);
        sess.next_out = bump(sess.next_out);
        sess.last_out = self.now;
        self.set_session(fd, sess);
        self.next_exec = bump(self.next_exec);
        bytes
    }

    /// The fields of an ExecutionReport behind the header.
    fn report(&self, evt: &Event) -> (r: Vec<Field>)
        ensures
            field_views(r@) == report_fields(self@, *evt, self@.next_exec),
            are_extra(r@),
    {
        let sid = SessionId(evt.client_fd);
        let exec_id: u64 = self.next_exec;
        let mut extra: Vec<Field> = Vec::new();
        match evt.ty {
            EventType::OrderAccepted => {
                let cl = self.clord_of(sid, evt.order.user_ref, &evt.order.cl_ord_id);
                extra.push(Field { tag: TAG_CLORD, value: cl });
                extra.push(decimal_field(TAG_EXEC_ID, exec_id));
                extra.push(byte_field(TAG_EXEC_TYPE, EXEC_NEW));
                extra.push(byte_field(TAG_ORD_STATUS, EXEC_NEW));
                extra.push(byte_field(TAG_SIDE, side_fix(evt.order.side)));
                extra.push(decimal_field(TAG_QTY, evt.order.quantity));
                extra.push(decimal_field(TAG_PRICE, evt.order.price.0));
                extra.push(decimal_field(TAG_ORDER_ID, evt.order.order_id));
            },
            EventType::OrderCancelled => {
                let cl = self.clord_of(sid, evt.order.user_ref, &evt.order.cl_ord_id);
                extra.push(Field { tag: TAG_CLORD, value: cl });
                extra.push(decimal_field(TAG_EXEC_ID, exec_id));
                extra.push(byte_field(TAG_EXEC_TYPE, EXEC_CANCELED));
                extra.push(byte_field(TAG_ORD_STATUS, EXEC_CANCELED));
                extra.push(decimal_field(TAG_ORDER_ID, evt.order.order_id));
                extra.push(byte_field(TAG_SIDE, side_fix(evt.order.side)));
            },
            EventType::OrderModified => {
                let cl = self.clord_of(sid, evt.order.user_ref, &evt.order.cl_ord_id);
                extra.push(Field { tag: TAG_CLORD, value: cl });
                extra.push(decimal_field(TAG_EXEC_ID, exec_id));
                extra.push(byte_field(TAG_EXEC_TYPE, EXEC_REPLACED));
                extra.push(byte_field(TAG_ORD_STATUS, EXEC_REPLACED));
                extra.push(byte_field(TAG_SIDE, side_fix(evt.order.side)));
                extra.push(decimal_field(TAG_QTY, evt.order.quantity));
                extra.push(decimal_field(TAG_PRICE, evt.order.price.0));
                extra.push(decimal_field(TAG_ORDER_ID, evt.order.order_id));
            },
            EventType::OrderRejected => {
                let cl = self.clord_of(sid, evt.reject.user_ref, &evt.reject.cl_ord_id);
                extra.push(Field { tag: TAG_CLORD, value: cl });
                extra.push(decimal_field(TAG_EXEC_ID, exec_id));
                extra.push(byte_field(TAG_EXEC_TYPE, EXEC_REJECTED));
                extra.push(byte_field(TAG_ORD_STATUS, EXEC_REJECTED));
                extra.push(decimal_field(TAG_REASON, evt.reject.reason as u64));
            },
            EventType::TradeExecuted => {
                let user_ref: u32 = self.trade_uref(evt);
                let cl = self.clord_of(sid, user_ref, &evt.order.cl_ord_id);
                let side = if self.knows(sid, evt.trade.maker_user_ref) {
                    evt.trade.taker_side.opposite()
                } else {
                    evt.trade.taker_side
                };
                extra.push(Field { tag: TAG_CLORD, value: cl });
                extra.push(decimal_field(TAG_EXEC_ID, exec_id));
                extra.push(byte_field(TAG_EXEC_TYPE, EXEC_TRADE));
                extra.push(byte_field(TAG_ORD_STATUS, EXEC_PARTIAL));
                extra.push(byte_field(TAG_SIDE, side_fix(side)));
                extra.push(decimal_field(TAG_LAST_PRICE, evt.trade.price.0));
                extra.push(decimal_field(TAG_LAST_QTY, evt.trade.quantity));
                extra.push(decimal_field(TAG_ORDER_ID, evt.trade.maker_exchange_id));
            },
            EventType::BookReset => {},
        }
        assert(field_views(extra@) =~= report_fields(self@, *evt, self@.next_exec));
        assert forall|i: int| 0 <= i < extra@.len() implies plain_tag((#[trigger] extra@[i]).tag)
            && extra@[i].tag != TAG_MSG_TYPE by {
            assert(field_views(extra@)[i] == extra@[i]@);
        }
        extra
    }
}

impl OrderEntry for Fix {
    const MAX_OUT: usize = 1024;

    type State = FixView;

    open spec fn state(&self) -> FixView {
        self@
    }

    open spec fn accepts(s: FixView, buf: Seq<u8>, room: nat) -> bool {
        true
    }

    open spec fn parsed(s: FixView, buf: Seq<u8>, session: SessionId, room: nat) -> Parsed<
        FixView,
    > {
        fix_model::parsed(s, buf, session.0, room)
    }

    open spec fn fits(evt: Event, room: nat) -> bool {
        true
    }

    open spec fn encoded(s: FixView, evt: Event, room: nat) -> Encoded<FixView> {
        Encoded {
            state: after_report(s, evt),
            bytes: written_if(s, report_of(s, evt), room),
        }
    }

    open spec fn idled(s: FixView, now: u64, session: SessionId, room: nat) -> Encoded<FixView> {
        Encoded {
            state: after_idle(s, now, session.0),
            bytes: written_if(s, idle_message(s, now, session.0), room),
        }
    }

    open spec fn ended(s: FixView, session: SessionId) -> FixView {
        after_end(s, session.0)
    }

    fn readable(&self, buf: &[u8], room: usize) -> (r: bool) {
        true
    }

    fn writable(evt: &Event, room: usize) -> (r: bool) {
        true
    }

    fn parse(&mut self, buf: &[u8], session: SessionId, reply: &mut [u8]) -> (r: ParseOutcome)
        ensures
            buf@.len() > 0 ==> (decoded(buf@) matches Ok(m) ==> answered(
                old(self)@,
                handled(old(self)@, session.0, m).reply,
                old(reply)@,
                reply_len(r),
                final(reply)@,
            )),
    {
        assert(overlay(reply@, Seq::empty()) =~= reply@);
        if buf.len() == 0 {
            return ParseOutcome::NeedMore;
        }
        match decode(buf) {
            Ok(msg) => self.handle(session, &msg, msg.len, reply),
            Err(DecodeFault::Incomplete) => ParseOutcome::NeedMore,
            Err(DecodeFault::Unterminated) => ParseOutcome::NeedMore,
            Err(DecodeFault::Malformed { at }) => {
                ParseOutcome::Bad { consumed: clamp(at, 1, buf.len()) }
            },
        }
    }

    fn encode_event(&mut self, evt: &Event, out: &mut [u8]) -> (r: usize)
        ensures
            answered(
                old(self)@,
                report_of(old(self)@, *evt),
                old(out)@,
                r as nat,
                final(out)@,
            ),
    {
        self.write_exec(evt, out)
    }

    fn on_idle(&mut self, now: u64, session: SessionId, reply: &mut [u8]) -> (r: usize)
        ensures
            answered(
                old(self)@,
                idle_message(old(self)@, now, session.0),
                old(reply)@,
                r as nat,
                final(reply)@,
            ),
    {
        let fd: i32 = session.0;
        proof {
            assert(overlay(reply@, Seq::empty()) =~= reply@);
        }
        let mut sess = match self.session(fd) {
            Some(sess) => sess,
            None => return 0,
        };
        if !sess.logged_on || sess.hb_secs == 0 {
            return 0;
        }
        let silent: u64 = now.saturating_sub(sess.last_out);
        if (silent as u128) < sess.hb_secs as u128 * 1_000_000_000 {
            return 0;
        }
        let extra: Vec<Field> = Vec::new();
        assert(field_views(extra@) =~= Seq::empty());
        let bytes: usize = self.frame(sess.next_out, MSG_HEARTBEAT, &extra, reply);
        sess.next_out = bump(sess.next_out);
        sess.last_out = now;
        self.set_session(fd, sess);
        bytes
    }

    fn on_session_end(&mut self, session: SessionId) {
        self.drop_session(session.0);
        let _names = self.take_names(session.0);
    }
}

} // verus!
