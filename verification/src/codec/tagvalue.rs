//! Tag-value framing: the bridge to the `ironfix` encoder and decoder.
//!
//! A message is a sequence of `tag=value` fields, each ended by a SOH byte. The
//! encoder stamps BeginString (8), BodyLength (9) and CheckSum (10) round the
//! fields it was given; the decoder checks all three.

use ironfix_core::error::DecodeError;
use ironfix_tagvalue::{Decoder, Encoder};
use vstd::prelude::*;
use vstd::utf8::encode_utf8;

use crate::bytes::{decimal, signed_decimal};

verus! {

/// The byte that ends every field.
pub const SOH: u8 = 1;

/// The byte between tag and value.
pub const EQUALS: u8 = 61;

/// The field that carries the message type.
pub const TAG_MSG_TYPE: u32 = 35;

/// A tag and its value.
pub struct Field {
    pub tag: u32,
    pub value: Vec<u8>,
}

impl View for Field {
    type V = (u32, Seq<u8>);

    open spec fn view(&self) -> (u32, Seq<u8>) {
        (self.tag, self.value@)
    }
}

/// A decoded message.
pub struct Message {
    /// The BeginString, where it is valid UTF-8.
    pub begin: Option<Vec<u8>>,
    /// The message type code.
    pub kind: Vec<u8>,
    /// Every field but the CheckSum, in wire order.
    pub fields: Vec<Field>,
    /// How many bytes of the input the message took.
    pub len: usize,
}

/// What a decoded message holds.
pub struct MessageView {
    pub begin: Option<Seq<u8>>,
    pub kind: Seq<u8>,
    pub fields: Seq<(u32, Seq<u8>)>,
    pub len: nat,
}

pub open spec fn opt_bytes(o: Option<Vec<u8>>) -> Option<Seq<u8>> {
    match o {
        Some(v) => Some(v@),
        None => None,
    }
}

pub open spec fn field_views(fields: Seq<Field>) -> Seq<(u32, Seq<u8>)> {
    Seq::new(fields.len(), |i: int| fields[i]@)
}

impl View for Message {
    type V = MessageView;

    open spec fn view(&self) -> MessageView {
        MessageView {
            begin: opt_bytes(self.begin),
            kind: self.kind@,
            fields: field_views(self.fields@),
            len: self.len as nat,
        }
    }
}

/// Why no message could be decoded.
#[derive(Debug, Clone, Copy, PartialEq, Eq, Structural)]
pub enum DecodeFault {
    /// The buffer ends before the message does.
    Incomplete,
    /// The buffer ends inside a field.
    Unterminated,
    /// The bytes are no message; the decoder had read up to `at`.
    Malformed { at: usize },
}

/// The view of a decoding.
pub open spec fn decoding_view(r: Result<Message, DecodeFault>) -> Result<
    MessageView,
    DecodeFault,
> {
    match r {
        Ok(m) => Ok(m@),
        Err(e) => Err(e),
    }
}

/// The value of the first field with this tag.
pub open spec fn field_of(fields: Seq<(u32, Seq<u8>)>, tag: u32) -> Option<Seq<u8>>
    decreases fields.len(),
{
    if fields.len() == 0 {
        None
    } else if fields[0].0 == tag {
        Some(fields[0].1)
    } else {
        field_of(fields.skip(1), tag)
    }
}

impl Message {
    /// The value of the first field with this tag.
    pub fn field(&self, tag: u32) -> (r: Option<&Vec<u8>>)
        ensures
            match r {
                Some(v) => field_of(self@.fields, tag) == Some(v@),
                None => field_of(self@.fields, tag) is None,
            },
    {
        let ghost all = self@.fields;
        let mut i: usize = 0;
        assert(all.skip(0) =~= all);
        while i < self.fields.len()
            invariant
                i <= self.fields@.len(),
                all == field_views(self.fields@),
                field_of(all, tag) == field_of(all.skip(i as int), tag),
            decreases self.fields@.len() - i,
        {
            assert(all.skip(i as int)[0] == all[i as int]);
            assert(all.skip(i as int).skip(1) =~= all.skip(i + 1));
            if self.fields[i].tag == tag {
                return Some(&self.fields[i].value);
            }
            i = i + 1;
        }
        None
    }
}

/// One field on the wire.
pub open spec fn field_bytes(f: (u32, Seq<u8>)) -> Seq<u8> {
    decimal(f.0 as nat) + seq![EQUALS] + f.1 + seq![SOH]
}

/// The fields on the wire, in order.
pub open spec fn body_bytes(fields: Seq<(u32, Seq<u8>)>) -> Seq<u8>
    decreases fields.len(),
{
    if fields.len() == 0 {
        Seq::empty()
    } else {
        body_bytes(fields.drop_last()) + field_bytes(fields.last())
    }
}

/// The sum of all bytes.
pub open spec fn byte_sum(s: Seq<u8>) -> nat
    decreases s.len(),
{
    if s.len() == 0 {
        0
    } else {
        byte_sum(s.drop_last()) + s.last() as nat
    }
}

/// `n` in three decimal digits.
pub open spec fn three_digits(n: nat) -> Seq<u8> {
    seq![(48 + n / 100) as u8, (48 + (n / 10) % 10) as u8, (48 + n % 10) as u8]
}

/// BeginString, BodyLength and body.
pub open spec fn frame_prefix(begin: Seq<u8>, fields: Seq<(u32, Seq<u8>)>) -> Seq<u8> {
    field_bytes((8, begin)) + field_bytes((9, decimal(body_bytes(fields).len()))) + body_bytes(
        fields,
    )
}

/// A whole message on the wire.
pub open spec fn framed(begin: Seq<u8>, fields: Seq<(u32, Seq<u8>)>) -> Seq<u8> {
    let prefix = frame_prefix(begin, fields);
    prefix + field_bytes((10, three_digits(byte_sum(prefix) % 256)))
}

/// Whether a value can stand in a field: not empty, and free of the byte that
/// would end it early.
pub open spec fn value_fits(v: Seq<u8>) -> bool {
    v.len() > 0 && !v.contains(SOH)
}

/// Whether the encoder makes a frame of these fields.
pub open spec fn encodable(fields: Seq<(u32, Seq<u8>)>) -> bool {
    fields.len() > 0 && fields[0].0 == TAG_MSG_TYPE && forall|i: int|
        0 <= i < fields.len() ==> value_fits(#[trigger] fields[i].1)
}

/// Whether a tag can be written as an ordinary field: not a framing field, and
/// below or between the fields that come in length-and-data pairs.
pub open spec fn plain_tag(tag: u32) -> bool {
    0 < tag < 8 || 10 < tag < 89 || 96 < tag < 212
}

/// Whether a value can be a BeginString or a message type: short, printable,
/// without the separator.
pub open spec fn is_code(v: Seq<u8>) -> bool {
    0 < v.len() <= 8 && forall|i: int|
        0 <= i < v.len() ==> 33 <= #[trigger] v[i] <= 126 && v[i] != EQUALS
}

/// The encoder of `ironfix-tagvalue`.
#[verifier::external_type_specification]
#[verifier::external_body]
pub struct ExEncoder(Encoder);

/// The BeginString that an encoder was made with.
pub uninterp spec fn encoder_begin(e: Encoder) -> Seq<u8>;

/// The fields that were put into an encoder, in order.
pub uninterp spec fn encoder_fields(e: Encoder) -> Seq<(u32, Seq<u8>)>;

/// What the decoder makes of a buffer.
pub uninterp spec fn decoded(buf: Seq<u8>) -> Result<MessageView, DecodeFault>;

/// `ironfix_tagvalue::Encoder::new`: an encoder with no field yet. It keeps a
/// printable BeginString of at most eight bytes as it is.
#[verifier::external_body]
pub(crate) fn encoder_new(begin: &str) -> (r: Encoder)
    requires
        is_code(encode_utf8(begin@)),
    ensures
        encoder_begin(r) == encode_utf8(begin@),
        encoder_fields(r) == Seq::<(u32, Seq<u8>)>::empty(),
{
    Encoder::new(begin)
}

/// `ironfix_tagvalue::Encoder::put_raw`: adds a field. A value that cannot stand
/// in a field is remembered and makes the encoder refuse the frame.
#[verifier::external_body]
pub(crate) fn encoder_put_raw(enc: &mut Encoder, tag: u32, value: &[u8])
    requires
        plain_tag(tag),
        tag == TAG_MSG_TYPE ==> is_code(value@),
    ensures
        encoder_begin(*final(enc)) == encoder_begin(*old(enc)),
        encoder_fields(*final(enc)) == encoder_fields(*old(enc)).push((tag, value@)),
{
    enc.put_raw(tag, value)
}

/// `ironfix_tagvalue::Encoder::put_int`: adds a field whose value is a decimal
/// number.
#[verifier::external_body]
pub(crate) fn encoder_put_int(enc: &mut Encoder, tag: u32, value: i64)
    requires
        plain_tag(tag),
        tag != TAG_MSG_TYPE,
    ensures
        encoder_begin(*final(enc)) == encoder_begin(*old(enc)),
        encoder_fields(*final(enc)) == encoder_fields(*old(enc)).push(
            (tag, signed_decimal(value as int)),
        ),
{
    enc.put_int(tag, value)
}

/// `ironfix_tagvalue::Encoder::finish`: the frame, unless a field was refused or
/// the first one is not the message type. The decoder reads such a frame back
/// as the fields that were put in, as long as its BodyLength has no more digits
/// than the decoder takes.
#[verifier::external_body]
pub(crate) fn encoder_finish(enc: Encoder) -> (r: Option<Vec<u8>>)
    ensures
        r is Some <==> encodable(encoder_fields(enc)),
        r matches Some(f) ==> f@ == framed(encoder_begin(enc), encoder_fields(enc)),
        r matches Some(f) ==> reads_back(f@, encoder_begin(enc), encoder_fields(enc)),
{
    let mut enc = enc;
    enc.finish().ok().map(|frame| frame.to_vec())
}

/// What a decoder finds in the frame of these fields.
pub open spec fn written_message(begin: Seq<u8>, fields: Seq<(u32, Seq<u8>)>) -> MessageView {
    MessageView {
        begin: Some(begin),
        kind: fields[0].1,
        fields: seq![(8u32, begin), (9u32, decimal(body_bytes(fields).len()))] + fields,
        len: framed(begin, fields).len(),
    }
}

/// Whether the decoder finds in `frame` the fields it was made of.
pub open spec fn reads_back(frame: Seq<u8>, begin: Seq<u8>, fields: Seq<(u32, Seq<u8>)>) -> bool {
    frame.len() < 1_000_000_000 ==> decoded(frame) == Ok::<MessageView, DecodeFault>(
        written_message(begin, fields),
    )
}

/// `ironfix_tagvalue::Decoder::decode` with checksum validation: the first
/// message of the buffer. A message takes at least one byte and no more than
/// there are, and the decoder never reads past the end of the buffer.
#[verifier::external_body]
pub(crate) fn decode(buf: &[u8]) -> (r: Result<Message, DecodeFault>)
    ensures
        decoding_view(r) == decoded(buf@),
        r matches Ok(m) ==> 0 < m.len <= buf@.len(),
        r matches Err(DecodeFault::Malformed { at }) ==> at <= buf@.len(),
{
    let mut dec = Decoder::new(buf).with_checksum_validation(true);
    match dec.decode() {
        Ok(m) => Ok(Message {
            begin: m.begin_string().ok().map(|s| s.as_bytes().to_vec()),
            kind: m.msg_type().as_str().as_bytes().to_vec(),
            fields: m.fields().map(|f| Field { tag: f.tag, value: f.value.to_vec() }).collect(),
            len: m.len(),
        }),
        Err(DecodeError::Incomplete) => Err(DecodeFault::Incomplete),
        Err(DecodeError::UnterminatedField { .. }) => Err(DecodeFault::Unterminated),
        Err(_) => Err(DecodeFault::Malformed { at: dec.offset() }),
    }
}

} // verus!
