//! Public market data: pack events, flush full packets.

use vstd::prelude::*;

use crate::bytes::to_vec;
use crate::codec::MarketData;
use crate::codec::itch::{
    block, event_bytes, lemma_flush_then_push_fits, lemma_message_lengths, packet_bytes, pushed,
    Packet, PacketView,
};
use crate::codec::tagvalue::opt_bytes;
use crate::types::Event;

verus! {

/// The packer after an event was offered to it, and the packet that had to go out
/// first. A full packet is flushed, and the event tried once more.
pub open spec fn offered<Md: MarketData>(s: Md::State, evt: Event) -> (
    Md::State,
    Option<Seq<u8>>,
) {
    let (s1, fits) = Md::pushed(s, evt);
    if fits {
        (s1, None)
    } else {
        let (s2, packet) = Md::taken(s1);
        (Md::pushed(s2, evt).0, packet)
    }
}

/// Offers an event to a packer. Returns the packet that is to be sent first.
pub fn offer<Md: MarketData>(md: &mut Md, evt: &Event) -> (r: Option<Vec<u8>>)
    requires
        old(md).wf(),
    ensures
        final(md).wf(),
        (final(md).state(), opt_bytes(r)) == offered::<Md>(old(md).state(), *evt),
{
    if md.push(evt) {
        return None;
    }
    let packet = flush(md);
    let _ = md.push(evt);
    packet
}

/// Takes the packet that is to be sent, if there is one.
pub fn flush<Md: MarketData>(md: &mut Md) -> (r: Option<Vec<u8>>)
    requires
        old(md).wf(),
    ensures
        final(md).wf(),
        (final(md).state(), opt_bytes(r)) == Md::taken(old(md).state()),
{
    match md.take() {
        Some(bytes) => Some(to_vec(bytes)),
        None => None,
    }
}

/// A packet that is offered an event holds its message afterwards, at the end, and
/// what had to make way for it goes out whole.
pub proof fn lemma_offer_loses_nothing(v: PacketView, evt: Event)
    requires
        v.count == 0 ==> v.body.len() == 0,
        event_bytes(evt).len() > 0,
    ensures
        ({
            let (after, packet) = offered::<Packet>(v, evt);
            match packet {
                Some(bytes) => bytes == packet_bytes(v) && after.body == block(event_bytes(evt))
                    && after.count == 1,
                None => after.body == v.body + block(event_bytes(evt)) && after.count == v.count
                    + 1,
            }
        }),
{
    lemma_message_lengths(evt);
    if !pushed(v, evt).1 {
        lemma_flush_then_push_fits(v, evt);
        assert(Seq::<u8>::empty() + block(event_bytes(evt)) =~= block(event_bytes(evt)));
    }
}

} // verus!
