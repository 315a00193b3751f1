//! Private order-entry replies.

use vstd::prelude::*;

use crate::bytes::to_vec;
use crate::codec::OrderEntry;
use crate::types::Event;

verus! {

/// How many events are sent before the thread looks up.
pub const BATCH: usize = 64;

/// What is to be done about an event.
pub enum Delivery {
    /// Nobody is told.
    Nothing,
    /// These bytes go to this connection.
    Write { fd: i32, bytes: Vec<u8> },
    /// The scratch space is too small for the codec to be called.
    Fault,
}

/// The view of a delivery.
pub enum DeliveryView {
    Nothing,
    Write { fd: i32, bytes: Seq<u8> },
    Fault,
}

impl View for Delivery {
    type V = DeliveryView;

    open spec fn view(&self) -> DeliveryView {
        match self {
            Delivery::Nothing => DeliveryView::Nothing,
            Delivery::Write { fd, bytes } => DeliveryView::Write { fd: *fd, bytes: bytes@ },
            Delivery::Fault => DeliveryView::Fault,
        }
    }
}

/// The codec's next state and what is to be done about an event. An event without
/// a connection, or one that the codec has no message for, is passed over.
pub open spec fn delivered<Oe: OrderEntry>(s: Oe::State, evt: Event, room: nat) -> (
    Oe::State,
    DeliveryView,
) {
    if evt.client_fd < 0 {
        (s, DeliveryView::Nothing)
    } else if !Oe::fits(evt, room) {
        (s, DeliveryView::Fault)
    } else {
        let e = Oe::encoded(s, evt, room);
        if e.bytes.len() == 0 {
            (e.state, DeliveryView::Nothing)
        } else {
            (e.state, DeliveryView::Write { fd: evt.client_fd, bytes: e.bytes })
        }
    }
}

/// Encodes an event for the connection it is about. `scratch` is where.
pub fn send<Oe: OrderEntry>(oe: &mut Oe, evt: &Event, scratch: &mut [u8]) -> (r: Delivery)
    ensures
        (final(oe).state(), r@) == delivered::<Oe>(
            old(oe).state(),
            *evt,
            old(scratch)@.len(),
        ),
        final(scratch)@.len() == old(scratch)@.len(),
{
    if evt.client_fd < 0 {
        return Delivery::Nothing;
    }
    if !Oe::writable(evt, scratch.len()) {
        return Delivery::Fault;
    }
    let len: usize = oe.encode_event(evt, scratch);
    if len == 0 {
        return Delivery::Nothing;
    }
    let bytes = to_vec(&scratch[0..len]);
    assert(bytes@ =~= Oe::encoded(old(oe).state(), *evt, old(scratch)@.len()).bytes);
    Delivery::Write { fd: evt.client_fd, bytes }
}

} // verus!
