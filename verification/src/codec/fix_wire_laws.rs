//! What becomes of the messages that a client puts on the wire.

use vstd::prelude::*;
use vstd::utf8::{encode_utf8_valid_utf8, is_ascii_chars, is_ascii_chars_encode_utf8, valid_utf8};

use crate::bytes::{decimal, lemma_decimal_digits, lemma_decimal_round_trip};

use crate::codec::fix_model::{
    begin_bytes, handled, lemma_message_types, parsed, side_code, side_of, step_of, FixView,
    Verdict, MSG_CANCEL, MSG_NEW_ORDER, SIDE_SELL, TAG_CLORD, TAG_ORIG_CLORD, TAG_PRICE, TAG_QTY,
    TAG_SENDER, TAG_SEQ, TAG_SIDE, TAG_SYMBOL, TAG_TARGET, TAG_TIF,
};
use crate::codec::price::price_value;
use crate::codec::tagvalue::{field_of, framed, reads_back, written_message, TAG_MSG_TYPE};
use crate::types::{blank_command, padded_id, Command, CommandType, Price, Side};

verus! {

/// The fields of a client's message: type, CompIDs, sequence number, then the rest.
pub open spec fn client_fields(
    s: FixView,
    kind: u8,
    seq: u64,
    extra: Seq<(u32, Seq<u8>)>,
) -> Seq<(u32, Seq<u8>)> {
    seq![
        (TAG_MSG_TYPE, seq![kind]),
        (TAG_SENDER, s.them),
        (TAG_TARGET, s.us),
        (TAG_SEQ, decimal(seq as nat)),
    ] + extra
}

/// The fields of a NewOrderSingle behind the header.
pub open spec fn new_order_fields(
    s: FixView,
    name: Seq<u8>,
    side: Side,
    quantity: u64,
    price: Seq<u8>,
) -> Seq<(u32, Seq<u8>)> {
    seq![
        (TAG_CLORD, name),
        (TAG_SYMBOL, s.symbol),
        (TAG_SIDE, seq![side_code(side)]),
        (TAG_QTY, decimal(quantity as nat)),
        (TAG_PRICE, price),
    ]
}

/// The fields of an OrderCancelRequest behind the header.
pub open spec fn cancel_fields(s: FixView, name: Seq<u8>) -> Seq<(u32, Seq<u8>)> {
    seq![(TAG_ORIG_CLORD, name), (TAG_SYMBOL, s.symbol)]
}

pub proof fn lemma_field_at(fields: Seq<(u32, Seq<u8>)>, i: int, tag: u32)
    requires
        0 <= i < fields.len(),
        fields[i].0 == tag,
        forall|j: int| 0 <= j < i ==> (#[trigger] fields[j]).0 != tag,
    ensures
        field_of(fields, tag) == Some(fields[i].1),
    decreases i,
{
    if i > 0 {
        assert(fields[0].0 != tag);
        assert forall|j: int| 0 <= j < i - 1 implies (#[trigger] fields.skip(1)[j]).0 != tag by {
            assert(fields.skip(1)[j] == fields[j + 1]);
        }
        lemma_field_at(fields.skip(1), i - 1, tag);
    }
}

proof fn lemma_no_field(fields: Seq<(u32, Seq<u8>)>, tag: u32)
    requires
        forall|j: int| 0 <= j < fields.len() ==> (#[trigger] fields[j]).0 != tag,
    ensures
        field_of(fields, tag) is None,
    decreases fields.len(),
{
    if fields.len() > 0 {
        assert(fields[0].0 != tag);
        assert forall|j: int| 0 <= j < fields.skip(1).len() implies (#[trigger] fields.skip(
            1,
        )[j]).0 != tag by {
            assert(fields.skip(1)[j] == fields[j + 1]);
        }
        lemma_no_field(fields.skip(1), tag);
    }
}

proof fn lemma_ascii_is_text(s: Seq<u8>)
    requires
        forall|i: int| 0 <= i < s.len() ==> #[trigger] s[i] < 128,
    ensures
        valid_utf8(s),
{
    let chars = Seq::new(s.len(), |i: int| s[i] as char);
    assert(is_ascii_chars(chars));
    is_ascii_chars_encode_utf8(chars);
    encode_utf8_valid_utf8(chars);
    assert(vstd::utf8::encode_utf8(chars) =~= s);
}

proof fn lemma_decimal_is_text(v: nat)
    ensures
        valid_utf8(decimal(v)),
{
    lemma_decimal_digits(v);
    lemma_ascii_is_text(decimal(v));
}

/// A frame that a decoder reads back is handled as the message that was written,
/// and takes exactly its own bytes.
pub proof fn lemma_frame_is_handled_as_written(
    s: FixView,
    fields: Seq<(u32, Seq<u8>)>,
    fd: i32,
    room: nat,
)
    requires
        fields.len() > 0,
        framed(begin_bytes(), fields).len() < 1_000_000_000,
        reads_back(framed(begin_bytes(), fields), begin_bytes(), fields),
    ensures
        parsed(s, framed(begin_bytes(), fields), fd, room) == step_of(
            s,
            handled(s, fd, written_message(begin_bytes(), fields)),
            framed(begin_bytes(), fields).len() as usize,
            room,
        ),
{
    assert(framed(begin_bytes(), fields).len() > 0);
}

/// A NewOrderSingle that is next in sequence on a live session becomes the new order
/// that it describes, at what its price comes to. Its name keeps its reference, or gets the
/// next one.
pub proof fn lemma_new_order_is_add(
    s: FixView,
    fd: i32,
    name: Seq<u8>,
    side: Side,
    quantity: u64,
    price: Seq<u8>,
)
    requires
        s.sessions.contains_key(fd),
        s.sessions[fd].logged_on,
        valid_utf8(s.us),
        valid_utf8(s.them),
        valid_utf8(s.symbol),
        valid_utf8(name),
        valid_utf8(price),
        price_value(price) is Some,
    ensures
        handled(
            s,
            fd,
            written_message(
                begin_bytes(),
                client_fields(
                    s,
                    MSG_NEW_ORDER,
                    s.sessions[fd].next_in,
                    new_order_fields(s, name, side, quantity, price),
                ),
            ),
        ).verdict == Verdict::Command(
            Command {
                client_fd: fd,
                side,
                quantity,
                price: Price(price_value(price)->0),
                user_ref: if s.names[fd].ids.contains_key(name) {
                    s.names[fd].ids[name]
                } else {
                    s.sessions[fd].next_ref
                },
                cl_ord_id: padded_id(name),
                ..blank_command(CommandType::Add)
            },
        ),
{
    let seq = s.sessions[fd].next_in;
    let extra = new_order_fields(s, name, side, quantity, price);
    let own = client_fields(s, MSG_NEW_ORDER, seq, extra);
    let m = written_message(begin_bytes(), own);
    let all = m.fields;
    assert(all.len() == 11);
    assert(all[2] == own[0] && all[3] == own[1] && all[4] == own[2] && all[5] == own[3]);
    assert(all[6] == extra[0] && all[7] == extra[1] && all[8] == extra[2] && all[9] == extra[3]
        && all[10] == extra[4]);
    lemma_field_at(all, 3, TAG_SENDER);
    lemma_field_at(all, 4, TAG_TARGET);
    lemma_field_at(all, 5, TAG_SEQ);
    lemma_field_at(all, 6, TAG_CLORD);
    lemma_field_at(all, 7, TAG_SYMBOL);
    lemma_field_at(all, 8, TAG_SIDE);
    lemma_field_at(all, 9, TAG_QTY);
    lemma_field_at(all, 10, TAG_PRICE);
    lemma_no_field(all, TAG_TIF);
    lemma_decimal_is_text(seq as nat);
    lemma_decimal_is_text(quantity as nat);
    lemma_ascii_is_text(seq![side_code(side)]);
    lemma_decimal_round_trip(seq);
    lemma_decimal_round_trip(quantity);
    assert(m.kind == seq![MSG_NEW_ORDER]);
    lemma_message_types();
    assert(seq![SIDE_SELL][0] == 50);
    assert(side_of(m) == Some(side));
}

/// An OrderCancelRequest that is next in sequence on a live session, for a name that
/// is known, becomes the cancel of that name's order.
pub proof fn lemma_cancel_request_is_cancel(s: FixView, fd: i32, name: Seq<u8>)
    requires
        s.sessions.contains_key(fd),
        s.sessions[fd].logged_on,
        valid_utf8(s.us),
        valid_utf8(s.them),
        valid_utf8(s.symbol),
        valid_utf8(name),
        s.names[fd].ids.contains_key(name),
    ensures
        handled(
            s,
            fd,
            written_message(
                begin_bytes(),
                client_fields(s, MSG_CANCEL, s.sessions[fd].next_in, cancel_fields(s, name)),
            ),
        ).verdict == Verdict::Command(
            Command {
                client_fd: fd,
                user_ref: s.names[fd].ids[name],
                cl_ord_id: padded_id(name),
                ..blank_command(CommandType::Cancel)
            },
        ),
{
    let seq = s.sessions[fd].next_in;
    let extra = cancel_fields(s, name);
    let own = client_fields(s, MSG_CANCEL, seq, extra);
    let m = written_message(begin_bytes(), own);
    let all = m.fields;
    assert(all.len() == 8);
    assert(all[2] == own[0] && all[3] == own[1] && all[4] == own[2] && all[5] == own[3]);
    assert(all[6] == extra[0] && all[7] == extra[1]);
    lemma_field_at(all, 3, TAG_SENDER);
    lemma_field_at(all, 4, TAG_TARGET);
    lemma_field_at(all, 5, TAG_SEQ);
    lemma_field_at(all, 6, TAG_ORIG_CLORD);
    lemma_field_at(all, 7, TAG_SYMBOL);
    lemma_no_field(all, TAG_QTY);
    lemma_decimal_is_text(seq as nat);
    lemma_decimal_round_trip(seq);
    assert(m.kind == seq![MSG_CANCEL]);
    lemma_message_types();
}

} // verus!
