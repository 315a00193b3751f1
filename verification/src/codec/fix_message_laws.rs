//! What each FIX message does and says, told by tags and texts.

use vstd::prelude::*;
use vstd::utf8::{encode_utf8, is_ascii_chars_encode_utf8, valid_utf8};

use crate::bytes::{decimal, lemma_decimal_digits, lemma_decimal_round_trip, unsigned};
use crate::codec::{OrderEntry, ParseOutcome, SessionId};
use crate::codec::fix::Fix;
use crate::codec::fix_model::{
    begin_bytes, handled, idle_message, lemma_message_types, outgoing_fields, report_of, text_of,
    written_if, FixView, Outgoing, Sess, Verdict,
};
use crate::codec::fix_wire_laws::lemma_field_at;
use crate::codec::price::price_value;
use crate::codec::tagvalue::{decoded, encodable, field_of, framed, DecodeFault, MessageView};
use crate::text::{lossy_text, trimmed};
use crate::types::{Command, CommandType, Event, EventType, Side};

verus! {

/// Whether the first field with this tag stands at `i`.
pub open spec fn first_at(fields: Seq<(u32, Seq<u8>)>, tag: u32, i: int) -> bool {
    0 <= i < fields.len() && fields[i].0 == tag && forall|j: int|
        0 <= j < i ==> (#[trigger] fields[j]).0 != tag
}

/// Whether a message says `v` under this tag, and `v` is text.
pub open spec fn says(m: MessageView, tag: u32, v: Seq<u8>) -> bool {
    valid_utf8(v) && exists|i: int| #[trigger] first_at(m.fields, tag, i) && m.fields[i].1 == v
}

/// Whether a message says nothing under this tag: there is no field, or it holds no text.
pub open spec fn lacks(m: MessageView, tag: u32) -> bool {
    forall|i: int| #[trigger] first_at(m.fields, tag, i) ==> !valid_utf8(m.fields[i].1)
}

pub proof fn lemma_says(m: MessageView, tag: u32, v: Seq<u8>)
    requires
        says(m, tag, v),
    ensures
        text_of(m, tag) == Some(v),
{
    let i = choose|i: int| #[trigger] first_at(m.fields, tag, i) && m.fields[i].1 == v;
    lemma_field_at(m.fields, i, tag);
}

pub proof fn lemma_lacks(m: MessageView, tag: u32)
    requires
        lacks(m, tag),
    ensures
        text_of(m, tag) is None,
{
    lemma_first_field(m.fields, tag);
}

proof fn lemma_first_field(fields: Seq<(u32, Seq<u8>)>, tag: u32)
    ensures
        match field_of(fields, tag) {
            Some(v) => exists|i: int| #[trigger] first_at(fields, tag, i) && fields[i].1 == v,
            None => forall|i: int| 0 <= i < fields.len() ==> (#[trigger] fields[i]).0 != tag,
        },
    decreases fields.len(),
{
    if fields.len() > 0 {
        let rest = fields.skip(1);
        if fields[0].0 == tag {
            assert(first_at(fields, tag, 0));
        } else {
            lemma_first_field(rest, tag);
            match field_of(rest, tag) {
                Some(v) => {
                    let i = choose|i: int| #[trigger] first_at(rest, tag, i) && rest[i].1 == v;
                    assert forall|j: int| 0 <= j < i + 1 implies (#[trigger] fields[j]).0
                        != tag by {
                        if j > 0 {
                            assert(rest[j - 1] == fields[j]);
                        }
                    }
                    assert(rest[i] == fields[i + 1]);
                    assert(first_at(fields, tag, i + 1));
                },
                None => {
                    assert forall|i: int| 0 <= i < fields.len() implies (#[trigger] fields[i]).0
                        != tag by {
                        if i > 0 {
                            assert(rest[i - 1] == fields[i]);
                        }
                    }
                },
            }
        }
    }
}

/// `FIX.4.4`
pub open spec fn version() -> Seq<u8> {
    seq![70u8, 73u8, 88u8, 46u8, 52u8, 46u8, 52u8]
}

pub proof fn lemma_version()
    ensures
        begin_bytes() == version(),
{
    reveal_strlit("FIX.4.4");
    is_ascii_chars_encode_utf8("FIX.4.4"@);
    assert(begin_bytes() =~= version());
}

proof fn lemma_reasons()
    ensures
        encode_utf8("seq"@) == seq![115u8, 101u8, 113u8],
        encode_utf8("compid"@) == seq![99u8, 111u8, 109u8, 112u8, 105u8, 100u8],
        encode_utf8("symbol"@) == seq![115u8, 121u8, 109u8, 98u8, 111u8, 108u8],
        encode_utf8("fields"@) == seq![102u8, 105u8, 101u8, 108u8, 100u8, 115u8],
        encode_utf8("clordid"@) == seq![99u8, 108u8, 111u8, 114u8, 100u8, 105u8, 100u8],
{
    reveal_strlit("seq");
    reveal_strlit("compid");
    reveal_strlit("symbol");
    reveal_strlit("fields");
    reveal_strlit("clordid");
    is_ascii_chars_encode_utf8("seq"@);
    is_ascii_chars_encode_utf8("compid"@);
    is_ascii_chars_encode_utf8("symbol"@);
    is_ascii_chars_encode_utf8("fields"@);
    is_ascii_chars_encode_utf8("clordid"@);
    assert(encode_utf8("seq"@) =~= seq![115u8, 101u8, 113u8]);
    assert(encode_utf8("compid"@) =~= seq![99u8, 111u8, 109u8, 112u8, 105u8, 100u8]);
    assert(encode_utf8("symbol"@) =~= seq![115u8, 121u8, 109u8, 98u8, 111u8, 108u8]);
    assert(encode_utf8("fields"@) =~= seq![102u8, 105u8, 101u8, 108u8, 100u8, 115u8]);
    assert(encode_utf8("clordid"@) =~= seq![99u8, 108u8, 111u8, 114u8, 100u8, 105u8, 100u8]);
}

/// Whether a message is addressed to this venue by its client, and carries this sequence
/// number.
pub open spec fn addressed(s: FixView, m: MessageView, seq: u64) -> bool {
    &&& m.begin == Some(version())
    &&& says(m, 49, s.them)
    &&& says(m, 56, s.us)
    &&& says(m, 34, decimal(seq as nat))
}

/// Whether a message comes next on a session that is logged on.
pub open spec fn in_turn(s: FixView, fd: i32, m: MessageView) -> bool {
    &&& s.sessions.contains_key(fd)
    &&& s.sessions[fd].logged_on
    &&& addressed(s, m, s.sessions[fd].next_in)
}

/// Whether a message of this type comes next on a session that is logged on.
pub open spec fn arrives(s: FixView, fd: i32, m: MessageView, kind: u8) -> bool {
    in_turn(s, fd, m) && m.kind == seq![kind]
}

proof fn lemma_kind(m: MessageView, kind: u8)
    requires
        m.kind == seq![kind],
    ensures
        m.kind.len() == 1 && m.kind[0] == kind,
{
}

proof fn lemma_addressed(s: FixView, m: MessageView, seq: u64)
    requires
        addressed(s, m, seq),
    ensures
        m.begin == Some(begin_bytes()),
        crate::codec::fix_model::right_parties(s, m),
        crate::codec::fix_model::number_of(m, 34) == Some(seq),
{
    lemma_version();
    lemma_says(m, 49, s.them);
    lemma_says(m, 56, s.us);
    lemma_says(m, 34, decimal(seq as nat));
    lemma_decimal_round_trip(seq);
}

/// Whether an id is a name, cut or filled up with spaces to fourteen bytes.
pub open spec fn is_padded(id: [u8; 14], name: Seq<u8>) -> bool {
    forall|i: int|
        0 <= i < 14 ==> #[trigger] id@[i] == (if i < name.len() {
            name[i]
        } else {
            32u8
        })
}

/// `v + 1`, and zero behind the largest.
pub open spec fn up(v: u64) -> u64 {
    if v == u64::MAX {
        0
    } else {
        (v + 1) as u64
    }
}

/// Whether the session went on by one message from the client.
pub open spec fn counted(s: FixView, t: FixView, fd: i32) -> bool {
    &&& t.sessions.contains_key(fd)
    &&& t.sessions[fd].next_in == up(s.sessions[fd].next_in)
    &&& t.sessions[fd].logged_on
    &&& t.sessions[fd].hb_secs == s.sessions[fd].hb_secs
    &&& t.sessions[fd].last_out == s.sessions[fd].last_out
    &&& t == (FixView { sessions: t.sessions, names: t.names, ..s })
}

/// `1` for a buyer, `2` for a seller.
pub open spec fn side_text(side: Side) -> Seq<u8> {
    if side == Side::Bid {
        seq![49u8]
    } else {
        seq![50u8]
    }
}

proof fn lemma_side(m: MessageView, side: Side)
    requires
        says(m, 54, side_text(side)),
    ensures
        crate::codec::fix_model::side_of(m) == Some(side),
{
    lemma_says(m, 54, side_text(side));
    assert(seq![49u8][0] == 49 && seq![50u8][0] == 50);
}

/// A NewOrderSingle (`35=D`) on a live session becomes a new order with the side, quantity,
/// price and time in force that it says, under the reference of its name: the one the name
/// had, or the next one there is. It is not answered, and the name is remembered.
pub proof fn lemma_new_order_single(
    s: FixView,
    fd: i32,
    m: MessageView,
    name: Seq<u8>,
    side: Side,
    quantity: u64,
    price: Seq<u8>,
)
    requires
        arrives(s, fd, m, 68),
        says(m, 55, s.symbol),
        says(m, 11, name),
        says(m, 54, side_text(side)),
        says(m, 38, decimal(quantity as nat)),
        says(m, 44, price),
        price_value(price) is Some,
    ensures
        ({
            let h = handled(s, fd, m);
            let t = h.state;
            let known = s.names[fd].ids.contains_key(name);
            &&& h.reply is None
            &&& h.verdict matches Verdict::Command(cmd)
            &&& cmd.ty == CommandType::Add
            &&& cmd.client_fd == fd
            &&& cmd.side == side
            &&& cmd.quantity == quantity
            &&& cmd.price.0 == price_value(price)->0
            &&& cmd.user_ref == (if known {
                s.names[fd].ids[name]
            } else {
                s.sessions[fd].next_ref
            })
            &&& is_padded(cmd.cl_ord_id, name)
            &&& lacks(m, 59) ==> cmd.time_in_force == 0
            &&& forall|tif: Seq<u8>|
                tif.len() > 0 && #[trigger] says(m, 59, tif) ==> cmd.time_in_force == tif[0]
            &&& cmd.display == 0 && cmd.capacity == 0
            &&& counted(s, t, fd)
            &&& t.sessions[fd].next_out == s.sessions[fd].next_out
            &&& t.sessions[fd].next_ref == (if known || s.sessions[fd].next_ref == u32::MAX {
                s.sessions[fd].next_ref
            } else {
                (s.sessions[fd].next_ref + 1) as u32
            })
            &&& t.names[fd].ids == s.names[fd].ids.insert(name, cmd.user_ref)
            &&& t.names[fd].refs == (if known {
                s.names[fd].refs
            } else {
                s.names[fd].refs.insert(cmd.user_ref, name)
            })
            &&& t.names[fd].last_ref == Some(cmd.user_ref)
        }),
{
    lemma_addressed(s, m, s.sessions[fd].next_in);
    lemma_kind(m, 68);
    lemma_message_types();
    lemma_says(m, 55, s.symbol);
    lemma_says(m, 11, name);
    lemma_side(m, side);
    lemma_says(m, 38, decimal(quantity as nat));
    lemma_decimal_round_trip(quantity);
    lemma_says(m, 44, price);
    if lacks(m, 59) {
        lemma_lacks(m, 59);
    }
    assert forall|tif: Seq<u8>| tif.len() > 0 && #[trigger] says(m, 59, tif) implies text_of(m, 59)
        == Some(tif) by {
        lemma_says(m, 59, tif);
    }
    assert(s.names[fd].ids.contains_key(name) ==> s.names[fd].ids.insert(
        name,
        s.names[fd].ids[name],
    ) =~= s.names[fd].ids);
}

/// Whether a request is about the order of this name: the name stands under OrigClOrdID,
/// or under ClOrdID where there is no other.
pub open spec fn is_about(m: MessageView, name: Seq<u8>) -> bool {
    says(m, 41, name) || (lacks(m, 41) && says(m, 11, name))
}

proof fn lemma_is_about(m: MessageView, name: Seq<u8>)
    requires
        is_about(m, name),
    ensures
        crate::codec::fix_model::original_name(m) == Some(name),
{
    if says(m, 41, name) {
        lemma_says(m, 41, name);
    } else {
        lemma_lacks(m, 41);
        lemma_says(m, 11, name);
    }
}

/// An OrderCancelRequest (`35=F`) on a live session, about an order whose name is known,
/// becomes the cancel of that order. It is not answered, and changes no name.
pub proof fn lemma_order_cancel_request(s: FixView, fd: i32, m: MessageView, name: Seq<u8>)
    requires
        arrives(s, fd, m, 70),
        says(m, 55, s.symbol),
        is_about(m, name),
        s.names[fd].ids.contains_key(name),
    ensures
        ({
            let h = handled(s, fd, m);
            let t = h.state;
            &&& h.reply is None
            &&& h.verdict matches Verdict::Command(cmd)
            &&& cmd.ty == CommandType::Cancel
            &&& cmd.client_fd == fd
            &&& cmd.user_ref == s.names[fd].ids[name]
            &&& is_padded(cmd.cl_ord_id, name)
            &&& lacks(m, 38) ==> cmd.quantity == 0
            &&& forall|q: u64| #[trigger]
                says(m, 38, decimal(q as nat)) ==> cmd.quantity == q
            &&& cmd.side == Side::Bid && cmd.price.0 == 0
            &&& cmd.time_in_force == 0 && cmd.display == 0 && cmd.capacity == 0
            &&& counted(s, t, fd)
            &&& t.sessions[fd].next_out == s.sessions[fd].next_out
            &&& t.sessions[fd].next_ref == s.sessions[fd].next_ref
            &&& t.names[fd].ids == s.names[fd].ids
            &&& t.names[fd].refs == s.names[fd].refs
            &&& t.names[fd].last_ref == Some(cmd.user_ref)
        }),
{
    lemma_addressed(s, m, s.sessions[fd].next_in);
    lemma_kind(m, 70);
    lemma_message_types();
    lemma_says(m, 55, s.symbol);
    lemma_is_about(m, name);
    if lacks(m, 38) {
        lemma_lacks(m, 38);
    }
    assert forall|q: u64| #[trigger]
        says(m, 38, decimal(q as nat)) implies crate::codec::fix_model::number_of(m, 38)
        == Some(q) by {
        lemma_says(m, 38, decimal(q as nat));
        lemma_decimal_round_trip(q);
    }
}

/// An OrderCancelReplaceRequest (`35=G`) on a live session, about an order whose name is
/// known, becomes the modify of that order to the side, quantity and price that it says. It
/// is not answered, and the new name becomes another name of the order.
pub proof fn lemma_order_cancel_replace_request(
    s: FixView,
    fd: i32,
    m: MessageView,
    name: Seq<u8>,
    new_name: Seq<u8>,
    side: Side,
    quantity: u64,
    price: Seq<u8>,
)
    requires
        arrives(s, fd, m, 71),
        says(m, 55, s.symbol),
        is_about(m, name),
        s.names[fd].ids.contains_key(name),
        says(m, 11, new_name),
        says(m, 54, side_text(side)),
        says(m, 38, decimal(quantity as nat)),
        says(m, 44, price),
        price_value(price) is Some,
    ensures
        ({
            let h = handled(s, fd, m);
            let t = h.state;
            &&& h.reply is None
            &&& h.verdict matches Verdict::Command(cmd)
            &&& cmd.ty == CommandType::Modify
            &&& cmd.client_fd == fd
            &&& cmd.user_ref == s.names[fd].ids[name]
            &&& cmd.side == side
            &&& cmd.quantity == quantity
            &&& cmd.price.0 == price_value(price)->0
            &&& is_padded(cmd.cl_ord_id, name)
            &&& cmd.time_in_force == 0 && cmd.display == 0 && cmd.capacity == 0
            &&& counted(s, t, fd)
            &&& t.sessions[fd].next_out == s.sessions[fd].next_out
            &&& t.sessions[fd].next_ref == s.sessions[fd].next_ref
            &&& t.names[fd].ids == s.names[fd].ids.insert(new_name, cmd.user_ref)
            &&& t.names[fd].refs == s.names[fd].refs
            &&& t.names[fd].last_ref == Some(cmd.user_ref)
        }),
{
    lemma_addressed(s, m, s.sessions[fd].next_in);
    lemma_kind(m, 71);
    lemma_message_types();
    lemma_says(m, 55, s.symbol);
    lemma_is_about(m, name);
    lemma_says(m, 11, new_name);
    lemma_side(m, side);
    lemma_says(m, 38, decimal(quantity as nat));
    lemma_decimal_round_trip(quantity);
    lemma_says(m, 44, price);
    if new_name == name {
        assert(s.names[fd].ids.insert(name, s.names[fd].ids[name]) =~= s.names[fd].ids);
    }
}

/// Whether a message says under this tag neither a buyer's nor a seller's side.
pub open spec fn no_side(m: MessageView, text: Seq<u8>) -> bool {
    lacks(m, 54) || (says(m, 54, text) && text != seq![49u8] && text != seq![50u8])
}

/// Whether a message says no number under this tag.
pub open spec fn no_number(m: MessageView, tag: u32, text: Seq<u8>) -> bool {
    lacks(m, tag) || (says(m, tag, text) && unsigned(text) is None)
}

/// Whether a message says no price.
pub open spec fn no_price(m: MessageView, text: Seq<u8>) -> bool {
    lacks(m, 44) || (says(m, 44, text) && price_value(text) is None)
}

/// A cancel or a replace whose quantity cannot be read asks for none; a replace whose side
/// or price cannot be read for a bid, and for a price of zero. A replace without a new name
/// leaves the names as they are.
pub proof fn lemma_requests_without_fields(
    s: FixView,
    fd: i32,
    m: MessageView,
    kind: u8,
    name: Seq<u8>,
    text: Seq<u8>,
)
    requires
        kind == 70 || kind == 71,
        arrives(s, fd, m, kind),
        says(m, 55, s.symbol),
        is_about(m, name),
        s.names[fd].ids.contains_key(name),
    ensures
        ({
            let h = handled(s, fd, m);
            &&& h.verdict matches Verdict::Command(cmd)
            &&& cmd.user_ref == s.names[fd].ids[name]
            &&& no_side(m, text) ==> cmd.side == Side::Bid
            &&& no_number(m, 38, text) ==> cmd.quantity == 0
            &&& no_price(m, text) ==> cmd.price.0 == 0
            &&& lacks(m, 11) ==> h.state.names[fd].ids == s.names[fd].ids
        }),
{
    lemma_addressed(s, m, s.sessions[fd].next_in);
    lemma_kind(m, kind);
    lemma_message_types();
    lemma_says(m, 55, s.symbol);
    lemma_is_about(m, name);
    lemma_readings(m, text);
    if lacks(m, 11) {
        lemma_lacks(m, 11);
    }
}

proof fn lemma_readings(m: MessageView, text: Seq<u8>)
    ensures
        no_side(m, text) ==> crate::codec::fix_model::side_of(m) is None,
        no_number(m, 38, text) ==> crate::codec::fix_model::number_of(m, 38) is None,
        no_number(m, 108, text) ==> crate::codec::fix_model::number_of(m, 108) is None,
        no_price(m, text) ==> crate::codec::fix_model::price_of(m) is None,
{
    if lacks(m, 54) {
        lemma_lacks(m, 54);
    } else if says(m, 54, text) {
        lemma_says(m, 54, text);
    }
    if lacks(m, 38) {
        lemma_lacks(m, 38);
    } else if says(m, 38, text) {
        lemma_says(m, 38, text);
    }
    if lacks(m, 108) {
        lemma_lacks(m, 108);
    } else if says(m, 108, text) {
        lemma_says(m, 108, text);
    }
    if lacks(m, 44) {
        lemma_lacks(m, 44);
    } else if says(m, 44, text) {
        lemma_says(m, 44, text);
    }
}

/// Whether a message goes out, under the number that was due and with these fields behind
/// its header.
pub open spec fn sends(
    h: Option<Outgoing>,
    seq: u64,
    kind: u8,
    extra: Seq<(u32, Seq<u8>)>,
) -> bool {
    h matches Some(o) && o.seq == seq && o.kind == kind && o.extra == extra
}

/// Whether a request was turned down: a BusinessMessageReject with this text goes out
/// under the next number, and no name changes.
pub open spec fn turned_down(s: FixView, fd: i32, m: MessageView, text: Seq<u8>) -> bool {
    let h = handled(s, fd, m);
    let sess = s.sessions[fd];
    &&& h.verdict is Reply
    &&& sends(h.reply, sess.next_out, 106, seq![(58u32, text)])
    &&& counted(s, h.state, fd)
    &&& h.state.sessions[fd].next_out == up(sess.next_out)
    &&& h.state.sessions[fd].next_ref == sess.next_ref
    &&& h.state.names == s.names
}

/// A request for another symbol, one about a name that is not known, and one without the
/// fields that it needs are turned down, each with its reason.
pub proof fn lemma_requests_are_turned_down(
    s: FixView,
    fd: i32,
    m: MessageView,
    kind: u8,
    symbol: Seq<u8>,
    name: Seq<u8>,
)
    requires
        kind == 68 || kind == 70 || kind == 71,
        arrives(s, fd, m, kind),
        says(m, 55, symbol),
    ensures
        symbol != s.symbol ==> turned_down(
            s,
            fd,
            m,
            seq![115u8, 121u8, 109u8, 98u8, 111u8, 108u8],
        ),
        symbol == s.symbol && kind != 68 && is_about(m, name) && !s.names[fd].ids.contains_key(name)
            ==> turned_down(s, fd, m, seq![99u8, 108u8, 111u8, 114u8, 100u8, 105u8, 100u8]),
        symbol == s.symbol && kind != 68 && lacks(m, 41) && lacks(m, 11) ==> turned_down(
            s,
            fd,
            m,
            seq![102u8, 105u8, 101u8, 108u8, 100u8, 115u8],
        ),
        symbol == s.symbol && kind == 68 && (lacks(m, 11) || lacks(m, 54) || lacks(m, 38) || lacks(
            m,
            44,
        )) ==> turned_down(s, fd, m, seq![102u8, 105u8, 101u8, 108u8, 100u8, 115u8]),
{
    lemma_addressed(s, m, s.sessions[fd].next_in);
    lemma_kind(m, kind);
    lemma_message_types();
    lemma_reasons();
    lemma_says(m, 55, symbol);
    if is_about(m, name) {
        lemma_is_about(m, name);
    }
    if lacks(m, 41) {
        lemma_lacks(m, 41);
    }
    if lacks(m, 11) {
        lemma_lacks(m, 11);
    }
    if lacks(m, 54) {
        lemma_lacks(m, 54);
    }
    if lacks(m, 38) {
        lemma_lacks(m, 38);
    }
    if lacks(m, 44) {
        lemma_lacks(m, 44);
    }
}

/// A Logon (`35=A`) with the number one starts a session over: both numbers go on from two,
/// references start at one, and the answer is a Logon that repeats the heartbeat interval,
/// thirty seconds where none can be read.
pub proof fn lemma_logon_starts_a_session(
    s: FixView,
    fd: i32,
    m: MessageView,
    secs: u64,
    text: Seq<u8>,
)
    requires
        addressed(s, m, 1),
        m.kind == seq![65u8],
        says(m, 108, decimal(secs as nat)) || (no_number(m, 108, text) && secs == 30),
        secs <= i64::MAX,
    ensures
        ({
            let h = handled(s, fd, m);
            &&& h.verdict is Reply
            &&& sends(
                h.reply,
                1,
                65,
                seq![(98u32, seq![48u8]), (108u32, decimal(secs as nat))],
            )
            &&& h.state.sessions == s.sessions.insert(
                fd,
                Sess {
                    next_in: 2,
                    next_out: 2,
                    next_ref: 1,
                    logged_on: true,
                    last_out: s.now,
                    hb_secs: secs,
                },
            )
            &&& h.state.names == s.names
        }),
{
    lemma_addressed(s, m, 1);
    lemma_kind(m, 65);
    lemma_message_types();
    lemma_readings(m, text);
    if says(m, 108, decimal(secs as nat)) {
        lemma_says(m, 108, decimal(secs as nat));
        lemma_decimal_round_trip(secs);
    }
    assert(decimal(0) =~= seq![48u8]);
    let h = handled(s, fd, m);
    assert(h.reply->0.extra =~= seq![(98u32, seq![48u8]), (108u32, decimal(secs as nat))]);
}

/// Whether the connection is to be dropped, behind a Reject with this text that names the
/// number of the message it is about.
pub open spec fn dropped_with_reject(
    s: FixView,
    fd: i32,
    m: MessageView,
    seq_out: u64,
    seq_in: u64,
    text: Seq<u8>,
) -> bool {
    let h = handled(s, fd, m);
    &&& h.verdict is Disconnect
    &&& sends(h.reply, seq_out, 51, seq![(45u32, decimal(seq_in as nat)), (58u32, text)])
}

/// A Logon with another number than one, a message out of sequence, and one from or to
/// somebody else end the session with a Reject; a message in another version, and any but
/// a Logon where nobody is logged on, end it without a word.
pub proof fn lemma_what_ends_a_session(
    s: FixView,
    fd: i32,
    m: MessageView,
    seq: u64,
    them: Seq<u8>,
    us: Seq<u8>,
)
    requires
        says(m, 49, them),
        says(m, 56, us),
        says(m, 34, decimal(seq as nat)),
        seq <= i64::MAX,
    ensures
        ({
            let h = handled(s, fd, m);
            let live = s.sessions.contains_key(fd);
            let ours = m.begin == Some(version());
            let logon = m.kind == seq![65u8];
            let right = them == s.them && us == s.us;
            let out = if live {
                s.sessions[fd].next_out
            } else {
                1
            };
            &&& !ours ==> h.verdict is Disconnect && h.reply is None && h.state == s
            &&& ours && !right ==> dropped_with_reject(
                s,
                fd,
                m,
                out,
                seq,
                seq![99u8, 111u8, 109u8, 112u8, 105u8, 100u8],
            ) && h.state == s
            &&& ours && right && logon && seq != 1 ==> dropped_with_reject(
                s,
                fd,
                m,
                1,
                seq,
                seq![115u8, 101u8, 113u8],
            ) && h.state == s
            &&& ours && right && !logon && !live ==> h.verdict is Disconnect && h.reply is None
                && h.state == s
            &&& ours && right && !logon && live && seq != s.sessions[fd].next_in
                ==> dropped_with_reject(s, fd, m, out, seq, seq![115u8, 101u8, 113u8])
                && h.state.sessions == s.sessions.remove(fd) && h.state.names == s.names
            &&& ours && right && !logon && live && seq == s.sessions[fd].next_in
                && !s.sessions[fd].logged_on ==> h.verdict is Disconnect && h.reply is None
                && h.state.sessions == s.sessions.remove(fd) && h.state.names == s.names
        }),
{
    lemma_version();
    lemma_reasons();
    lemma_message_types();
    lemma_says(m, 49, them);
    lemma_says(m, 56, us);
    lemma_says(m, 34, decimal(seq as nat));
    lemma_decimal_round_trip(seq);
}

/// A message in another version ends the session without a word, whatever it says.
pub proof fn lemma_other_version_ends_the_session(s: FixView, fd: i32, m: MessageView)
    requires
        m.begin != Some(version()),
    ensures
        handled(s, fd, m).verdict is Disconnect,
        handled(s, fd, m).reply is None,
        handled(s, fd, m).state == s,
{
    lemma_version();
}

/// A message without a sequence number ends the session without a word.
pub proof fn lemma_message_without_a_number(s: FixView, fd: i32, m: MessageView, text: Seq<u8>)
    requires
        lacks(m, 34) || (says(m, 34, text) && unsigned(text) is None),
    ensures
        handled(s, fd, m).verdict is Disconnect,
        handled(s, fd, m).reply is None,
        handled(s, fd, m).state == s,
{
    if lacks(m, 34) {
        lemma_lacks(m, 34);
    } else {
        lemma_says(m, 34, text);
    }
}

/// A new order without a name, or whose side, quantity or price cannot be read, and any
/// request without a symbol, is turned down.
pub proof fn lemma_unreadable_request_is_turned_down(
    s: FixView,
    fd: i32,
    m: MessageView,
    kind: u8,
    text: Seq<u8>,
)
    requires
        kind == 68 || kind == 70 || kind == 71,
        arrives(s, fd, m, kind),
        s.symbol.len() > 0,
    ensures
        kind == 68 && says(m, 55, s.symbol) && (lacks(m, 11) || no_side(m, text) || no_number(
            m,
            38,
            text,
        ) || no_price(m, text)) ==> turned_down(
            s,
            fd,
            m,
            seq![102u8, 105u8, 101u8, 108u8, 100u8, 115u8],
        ),
        lacks(m, 55) ==> turned_down(s, fd, m, seq![115u8, 121u8, 109u8, 98u8, 111u8, 108u8]),
{
    lemma_addressed(s, m, s.sessions[fd].next_in);
    lemma_kind(m, kind);
    lemma_message_types();
    lemma_reasons();
    lemma_readings(m, text);
    if lacks(m, 11) {
        lemma_lacks(m, 11);
    }
    if lacks(m, 55) {
        lemma_lacks(m, 55);
    } else if says(m, 55, s.symbol) {
        lemma_says(m, 55, s.symbol);
    }
}

/// A message that does not say who sent it, or to whom, ends the session with a Reject.
pub proof fn lemma_message_without_parties(s: FixView, fd: i32, m: MessageView, seq: u64)
    requires
        m.begin == Some(version()),
        says(m, 34, decimal(seq as nat)),
        seq <= i64::MAX,
        (lacks(m, 49) && s.them.len() > 0) || (lacks(m, 56) && s.us.len() > 0),
    ensures
        dropped_with_reject(
            s,
            fd,
            m,
            if s.sessions.contains_key(fd) {
                s.sessions[fd].next_out
            } else {
                1
            },
            seq,
            seq![99u8, 111u8, 109u8, 112u8, 105u8, 100u8],
        ),
        handled(s, fd, m).state == s,
{
    lemma_version();
    lemma_reasons();
    lemma_says(m, 34, decimal(seq as nat));
    lemma_decimal_round_trip(seq);
    if lacks(m, 49) {
        lemma_lacks(m, 49);
    }
    if lacks(m, 56) {
        lemma_lacks(m, 56);
    }
}

/// An acceptor can be called on any input and any event.
pub proof fn lemma_acceptor_takes_everything(s: FixView, buf: Seq<u8>, evt: Event, room: nat)
    ensures
        <Fix as OrderEntry>::accepts(s, buf, room),
        <Fix as OrderEntry>::fits(evt, room),
{
}

/// A TestRequest (`35=1`) is answered with a Heartbeat that repeats its id, a Logout
/// (`35=5`) with a Logout that ends the session, and any other session message with
/// nothing.
pub proof fn lemma_session_messages(s: FixView, fd: i32, m: MessageView, id: Seq<u8>)
    requires
        in_turn(s, fd, m),
        m.kind != seq![65u8],
        m.kind != seq![68u8],
        m.kind != seq![70u8],
        m.kind != seq![71u8],
        (says(m, 112, id) && id.len() > 0) || lacks(m, 112),
    ensures
        ({
            let h = handled(s, fd, m);
            let t = h.state;
            let sess = s.sessions[fd];
            let test = m.kind == seq![49u8];
            let logout = m.kind == seq![53u8];
            &&& h.verdict is Reply
            &&& t == (FixView { sessions: t.sessions, ..s })
            &&& t.sessions.contains_key(fd)
            &&& t.sessions[fd].next_in == up(sess.next_in)
            &&& t.sessions[fd].next_ref == sess.next_ref
            &&& t.sessions[fd].hb_secs == sess.hb_secs
            &&& t.sessions[fd].logged_on == !logout
            &&& test ==> sends(
                h.reply,
                sess.next_out,
                48,
                if lacks(m, 112) {
                    Seq::empty()
                } else {
                    seq![(112u32, id)]
                },
            )
            &&& logout ==> sends(h.reply, sess.next_out, 53, Seq::empty())
            &&& test || logout ==> t.sessions[fd].next_out == up(sess.next_out)
                && t.sessions[fd].last_out == s.now
            &&& !test && !logout ==> h.reply is None && t.sessions[fd].next_out
                == sess.next_out && t.sessions[fd].last_out == sess.last_out
        }),
{
    lemma_addressed(s, m, s.sessions[fd].next_in);
    lemma_message_types();
    if lacks(m, 112) {
        lemma_lacks(m, 112);
    } else {
        lemma_says(m, 112, id);
    }
}

/// What an acceptor does with a decoded message is what its caller sees: the command, or
/// how much to write, and how much of the input is done. What cannot be a message is
/// skipped, at least one byte and at most all of it; what is not all there is waited for.
pub proof fn lemma_caller_sees_what_was_handled(
    s: FixView,
    buf: Seq<u8>,
    session: SessionId,
    room: nat,
)
    ensures
        ({
            let p = <Fix as OrderEntry>::parsed(s, buf, session, room);
            if buf.len() == 0 {
                p.outcome is NeedMore && p.state == s && p.reply.len() == 0
            } else {
                match decoded(buf) {
                    Ok(m) => {
                        let h = handled(s, session.0, m);
                        &&& p.state == h.state
                        &&& p.reply == written_if(s, h.reply, room)
                        &&& match h.verdict {
                            Verdict::Command(cmd) => p.outcome == (ParseOutcome::Command {
                                cmd,
                                consumed: m.len as usize,
                            }),
                            Verdict::Reply => p.outcome == (ParseOutcome::Reply {
                                bytes: p.reply.len() as usize,
                                consumed: m.len as usize,
                            }),
                            Verdict::Disconnect => p.outcome == (ParseOutcome::Disconnect {
                                bytes: p.reply.len() as usize,
                                consumed: m.len as usize,
                            }),
                        }
                    },
                    Err(DecodeFault::Malformed { at }) => {
                        &&& p.state == s
                        &&& p.reply.len() == 0
                        &&& p.outcome == (ParseOutcome::Bad {
                            consumed: if at < 1 {
                                1
                            } else if at > buf.len() {
                                buf.len() as usize
                            } else {
                                at
                            },
                        })
                    },
                    Err(_) => p.outcome is NeedMore && p.state == s && p.reply.len() == 0,
                }
            }
        }),
{
}

/// A message goes out as one frame of this version with type, both parties and number in
/// front of its own fields; or, where it cannot be framed or does not fit, not at all.
pub proof fn lemma_message_on_the_wire(s: FixView, o: Outgoing, room: nat)
    requires
        o.seq <= i64::MAX,
    ensures
        ({
            let fields = seq![
                (35u32, seq![o.kind]),
                (49u32, s.us),
                (56u32, s.them),
                (34u32, decimal(o.seq as nat)),
            ] + o.extra;
            let frame = framed(version(), fields);
            written_if(s, Some(o), room) == (if encodable(fields) && frame.len() <= room {
                frame
            } else {
                Seq::empty()
            })
        }),
        written_if(s, None, room).len() == 0,
{
    lemma_version();
    let fields = seq![
        (35u32, seq![o.kind]),
        (49u32, s.us),
        (56u32, s.them),
        (34u32, decimal(o.seq as nat)),
    ] + o.extra;
    assert(outgoing_fields(s, o) =~= fields);
}

/// Whether an event goes to a connection that is logged on.
pub open spec fn concerns(s: FixView, evt: Event) -> bool {
    evt.ty != EventType::BookReset && evt.client_fd >= 0 && s.sessions.contains_key(evt.client_fd)
        && s.sessions[evt.client_fd].logged_on
}

/// The name that a client knows an order by: the one it came in under, else the id that the
/// event carries, without the spaces round it.
pub open spec fn known_as(s: FixView, fd: i32, user_ref: u32, id: [u8; 14]) -> Seq<u8> {
    if s.names[fd].refs.contains_key(user_ref) {
        s.names[fd].refs[user_ref]
    } else {
        encode_utf8(trimmed(lossy_text(id@)))
    }
}

/// An ExecutionReport (`35=8`) goes out under the next number and the next execution id,
/// and tells the order: its name, what happened to it, the exchange's id, and, unless it is
/// gone, side, quantity and price.
pub proof fn lemma_report_of_an_order(s: FixView, evt: Event)
    requires
        concerns(s, evt),
        evt.ty == EventType::OrderAccepted || evt.ty == EventType::OrderModified || evt.ty
            == EventType::OrderCancelled,
    ensures
        ({
            let o = evt.order;
            let code: Seq<u8> = if evt.ty == EventType::OrderAccepted {
                seq![48u8]
            } else if evt.ty == EventType::OrderModified {
                seq![53u8]
            } else {
                seq![52u8]
            };
            let name = known_as(s, evt.client_fd, o.user_ref, o.cl_ord_id);
            let id = decimal(s.next_exec as nat);
            sends(
                report_of(s, evt),
                s.sessions[evt.client_fd].next_out,
                56,
                if evt.ty == EventType::OrderCancelled {
                    seq![
                        (11u32, name),
                        (17u32, id),
                        (150u32, code),
                        (39u32, code),
                        (37u32, decimal(o.order_id as nat)),
                        (54u32, side_text(o.side)),
                    ]
                } else {
                    seq![
                        (11u32, name),
                        (17u32, id),
                        (150u32, code),
                        (39u32, code),
                        (54u32, side_text(o.side)),
                        (38u32, decimal(o.quantity as nat)),
                        (44u32, decimal(o.price.0 as nat)),
                        (37u32, decimal(o.order_id as nat)),
                    ]
                },
            )
        }),
{
}

/// The report of a refused order tells its name and the reason.
pub proof fn lemma_report_of_a_refusal(s: FixView, evt: Event)
    requires
        concerns(s, evt),
        evt.ty == EventType::OrderRejected,
    ensures
        sends(
            report_of(s, evt),
            s.sessions[evt.client_fd].next_out,
            56,
            seq![
                (
                    11u32,
                    known_as(s, evt.client_fd, evt.reject.user_ref, evt.reject.cl_ord_id),
                ),
                (17u32, decimal(s.next_exec as nat)),
                (150u32, seq![56u8]),
                (39u32, seq![56u8]),
                (103u32, decimal(evt.reject.reason as nat)),
            ],
        ),
{
}

/// The report of a trade tells the client its own order and its own side of the trade: the
/// maker the order that rested and the side that the taker traded against, the taker the
/// order of its last request and the taker's side; and price, quantity and the exchange's
/// id of the maker's order.
pub proof fn lemma_report_of_a_trade(s: FixView, evt: Event)
    requires
        concerns(s, evt),
        evt.ty == EventType::TradeExecuted,
    ensures
        ({
            let fd = evt.client_fd;
            let t = evt.trade;
            let maker = s.names[fd].refs.contains_key(t.maker_user_ref);
            let own = if maker {
                t.maker_user_ref
            } else if s.names[fd].last_ref is Some {
                s.names[fd].last_ref->0
            } else {
                0
            };
            let buys = if maker {
                t.taker_side == Side::Ask
            } else {
                t.taker_side == Side::Bid
            };
            sends(
                report_of(s, evt),
                s.sessions[fd].next_out,
                56,
                seq![
                    (11u32, known_as(s, fd, own, evt.order.cl_ord_id)),
                    (17u32, decimal(s.next_exec as nat)),
                    (150u32, seq![70u8]),
                    (39u32, seq![49u8]),
                    (
                        54u32,
                        if buys {
                            seq![49u8]
                        } else {
                            seq![50u8]
                        },
                    ),
                    (31u32, decimal(t.price.0 as nat)),
                    (32u32, decimal(t.quantity as nat)),
                    (37u32, decimal(t.maker_exchange_id as nat)),
                ],
            )
        }),
{
}

/// A report uses up the connection's next number and the next execution id, and counts as
/// a sign of life; nothing else changes. What concerns nobody changes nothing and is not
/// reported.
pub proof fn lemma_reports_use_up_numbers(s: FixView, evt: Event, room: nat)
    ensures
        ({
            let e = <Fix as OrderEntry>::encoded(s, evt, room);
            let fd = evt.client_fd;
            let sess = s.sessions[fd];
            &&& e.bytes == written_if(s, report_of(s, evt), room)
            &&& (report_of(s, evt) is Some) == concerns(s, evt)
            &&& !concerns(s, evt) ==> e.state == s && e.bytes.len() == 0
            &&& concerns(s, evt) ==> {
                &&& e.state.next_exec == up(s.next_exec)
                &&& e.state.names == s.names
                &&& e.state.us == s.us && e.state.them == s.them && e.state.symbol == s.symbol
                &&& e.state.sessions == s.sessions.insert(
                    fd,
                    Sess { next_out: up(sess.next_out), last_out: s.now, ..sess },
                )
            }
        }),
{
}

/// A Heartbeat goes out exactly when nothing went out to a connection that is logged on for
/// its whole interval, and an interval was agreed; it counts as a sign of life.
pub proof fn lemma_heartbeats_keep_the_interval(
    s: FixView,
    now: u64,
    session: SessionId,
    room: nat,
)
    ensures
        ({
            let fd = session.0;
            let sess = s.sessions[fd];
            let due = s.sessions.contains_key(fd) && sess.logged_on && sess.hb_secs > 0 && now
                - sess.last_out >= sess.hb_secs * 1_000_000_000;
            let e = <Fix as OrderEntry>::idled(s, now, session, room);
            &&& (idle_message(s, now, fd) is Some) == due
            &&& e.bytes == written_if(s, idle_message(s, now, fd), room)
            &&& due ==> sends(idle_message(s, now, fd), sess.next_out, 48, Seq::empty())
            &&& due ==> e.state == (FixView {
                sessions: s.sessions.insert(
                    fd,
                    Sess { next_out: up(sess.next_out), last_out: now, ..sess },
                ),
                ..s
            })
            &&& !due ==> e.state == s && e.bytes.len() == 0
        }),
{
}

/// When a connection ends, its session and all of its names are forgotten.
pub proof fn lemma_ended_connection_is_forgotten(s: FixView, session: SessionId)
    ensures
        ({
            let t = <Fix as OrderEntry>::ended(s, session);
            &&& t.sessions == s.sessions.remove(session.0)
            &&& t.names[session.0].ids.dom() == Set::<Seq<u8>>::empty()
            &&& t.names[session.0].refs.dom() == Set::<u32>::empty()
            &&& t.names[session.0].last_ref is None
            &&& t.next_exec == s.next_exec && t.us == s.us && t.them == s.them && t.symbol
                == s.symbol && t.now == s.now
        }),
{
    let t = <Fix as OrderEntry>::ended(s, session);
    assert(t.names[session.0].ids.dom() =~= Set::<Seq<u8>>::empty());
    assert(t.names[session.0].refs.dom() =~= Set::<u32>::empty());
}

/// A number stands in a message digit by digit, most significant first, without leading
/// zeros.
pub proof fn lemma_numbers_in_messages(v: nat)
    ensures
        decimal(v).last() == 48 + v % 10,
        v >= 10 ==> decimal(v).drop_last() == decimal(v / 10),
        v < 10 ==> decimal(v).len() == 1,
        v > 0 ==> decimal(v)[0] != 48,
    decreases v,
{
    if v >= 10 {
        lemma_numbers_in_messages(v / 10);
        lemma_decimal_digits(v / 10);
        assert(decimal(v).drop_last() =~= decimal(v / 10));
        assert(decimal(v)[0] == decimal(v / 10)[0]);
    }
}

} // verus!
