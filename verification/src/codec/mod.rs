//! Wire codecs (maps bytes to `Command`/`Event`).

use vstd::prelude::*;

use crate::bytes::overlay;
use crate::types::{Command, Event};

pub mod fix;
pub mod fix_history;
pub mod fix_laws;
pub mod fix_message_laws;
pub mod fix_model;
pub mod fix_wire_laws;
pub mod itch;
pub mod itch_laws;
pub mod names;
pub mod ouch;
pub mod ouch_laws;
pub mod price;
pub mod sbe;
pub mod sbe_laws;
pub mod sbe_md;
pub mod sbe_oe;
pub mod script;
pub mod tagvalue;
pub mod text_map;

verus! {

/// Connection identity. Today this is the accepted TCP `client_fd`.
#[derive(Debug, Clone, Copy, PartialEq, Eq, Hash)]
pub struct SessionId(pub i32);

/// Result of feeding inbound bytes to an order-entry codec.
#[derive(Debug, Clone, Copy)]
pub enum ParseOutcome {
    /// Application message → engine. `consumed` bytes of the input are done.
    Command { cmd: Command, consumed: usize },
    /// Session traffic that must go back on the same TCP (Logon, Heartbeat, Reject).
    /// `bytes` were written into the `reply` buffer; `consumed` input bytes are done.
    Reply { bytes: usize, consumed: usize },
    /// Not enough data for a complete message.
    NeedMore,
    /// Malformed bytes. Skip `consumed` (often 1) and keep scanning.
    Bad { consumed: usize },
    /// Session is dead. Write `reply[..bytes]` if nonzero, then drop the connection.
    Disconnect { bytes: usize, consumed: usize },
}

/// One step of a codec on its input: its next state, what it says of the input,
/// and the bytes it puts at the front of the reply buffer.
#[verifier::ext_equal]
pub struct Parsed<S> {
    pub state: S,
    pub outcome: ParseOutcome,
    pub reply: Seq<u8>,
}

/// One step of a codec on its output: its next state, and the bytes it puts at
/// the front of the output buffer.
#[verifier::ext_equal]
pub struct Encoded<S> {
    pub state: S,
    pub bytes: Seq<u8>,
}

/// Whether an outcome speaks of no more input and no more reply than there is.
pub open spec fn outcome_fits(o: ParseOutcome, len: nat, room: nat) -> bool {
    match o {
        ParseOutcome::Command { consumed, .. } => consumed <= len,
        ParseOutcome::Reply { bytes, consumed } => bytes <= room && consumed <= len,
        ParseOutcome::NeedMore => true,
        ParseOutcome::Bad { consumed } => consumed <= len,
        ParseOutcome::Disconnect { bytes, consumed } => bytes <= room && consumed <= len,
    }
}

/// How much of the reply buffer an outcome tells the caller to write.
pub open spec fn reply_len(o: ParseOutcome) -> nat {
    match o {
        ParseOutcome::Reply { bytes, .. } => bytes as nat,
        ParseOutcome::Disconnect { bytes, .. } => bytes as nat,
        _ => 0,
    }
}

/// Private order-entry protocol: inbound parse, outbound acks, optional session idle.
pub trait OrderEntry: Sized {
    /// Scratch for `parse` replies and `encode_event`. OUCH fits in 128; FIX does not.
    const MAX_OUT: usize = 128;

    /// What the codec remembers between calls.
    type State;

    spec fn state(&self) -> Self::State;

    /// Whether `parse` can be called on this input with this much reply room.
    spec fn accepts(s: Self::State, buf: Seq<u8>, room: nat) -> bool;

    /// What `parse` does.
    spec fn parsed(s: Self::State, buf: Seq<u8>, session: SessionId, room: nat) -> Parsed<
        Self::State,
    >;

    /// Whether `encode_event` can be called with this much room.
    spec fn fits(evt: Event, room: nat) -> bool;

    /// What `encode_event` does.
    spec fn encoded(s: Self::State, evt: Event, room: nat) -> Encoded<Self::State>;

    /// What `on_idle` does.
    spec fn idled(s: Self::State, now: u64, session: SessionId, room: nat) -> Encoded<Self::State>;

    /// What `on_session_end` does.
    spec fn ended(s: Self::State, session: SessionId) -> Self::State;

    /// Whether `parse` can be called on this input with this much reply room.
    fn readable(&self, buf: &[u8], room: usize) -> (r: bool)
        ensures
            r == Self::accepts(self.state(), buf@, room as nat),
    ;

    /// Whether `encode_event` can be called with this much room.
    fn writable(evt: &Event, room: usize) -> (r: bool)
        ensures
            r == Self::fits(*evt, room as nat),
    ;

    fn parse(&mut self, buf: &[u8], session: SessionId, reply: &mut [u8]) -> (r: ParseOutcome)
        requires
            Self::accepts(old(self).state(), buf@, old(reply)@.len()),
        ensures
            final(self).state() == Self::parsed(
                old(self).state(),
                buf@,
                session,
                old(reply)@.len(),
            ).state,
            r == Self::parsed(old(self).state(), buf@, session, old(reply)@.len()).outcome,
            final(reply)@ == overlay(
                old(reply)@,
                Self::parsed(old(self).state(), buf@, session, old(reply)@.len()).reply,
            ),
            reply_len(r) == Self::parsed(
                old(self).state(),
                buf@,
                session,
                old(reply)@.len(),
            ).reply.len(),
            outcome_fits(r, buf@.len(), old(reply)@.len()),
    ;

    /// Serialize an engine `Event` into `out`. Returns bytes written, or 0 to skip.
    fn encode_event(&mut self, evt: &Event, out: &mut [u8]) -> (r: usize)
        requires
            Self::fits(*evt, old(out)@.len()),
        ensures
            final(self).state() == Self::encoded(
                old(self).state(),
                *evt,
                old(out)@.len(),
            ).state,
            final(out)@ == overlay(
                old(out)@,
                Self::encoded(old(self).state(), *evt, old(out)@.len()).bytes,
            ),
            r == Self::encoded(old(self).state(), *evt, old(out)@.len()).bytes.len(),
            r <= old(out)@.len(),
    ;

    /// Called when the read loop is idle for `session`. FIX heartbeats; OUCH/SBE no-op.
    /// `now` is in nanoseconds.
    fn on_idle(&mut self, now: u64, session: SessionId, reply: &mut [u8]) -> (r: usize)
        ensures
            final(self).state() == Self::idled(
                old(self).state(),
                now,
                session,
                old(reply)@.len(),
            ).state,
            final(reply)@ == overlay(
                old(reply)@,
                Self::idled(old(self).state(), now, session, old(reply)@.len()).bytes,
            ),
            r == Self::idled(old(self).state(), now, session, old(reply)@.len()).bytes.len(),
            r <= old(reply)@.len(),
    ;

    /// Called when the connection is gone.
    fn on_session_end(&mut self, session: SessionId)
        ensures
            final(self).state() == Self::ended(old(self).state(), session),
    ;
}

/// Public market-data protocol: pack events, flush datagrams.
pub trait MarketData: Sized {
    /// What the packer remembers between calls.
    type State;

    spec fn state(&self) -> Self::State;

    /// Whether the packer is in order.
    spec fn wf(&self) -> bool;

    /// What `push` does: the next state, and whether there was room.
    spec fn pushed(s: Self::State, evt: Event) -> (Self::State, bool);

    /// What `take` does: the next state, and the packet if there was one.
    spec fn taken(s: Self::State) -> (Self::State, Option<Seq<u8>>);

    /// Append `evt`. `false` means the packet is full: caller flushes and retries.
    fn push(&mut self, evt: &Event) -> (r: bool)
        requires
            old(self).wf(),
        ensures
            final(self).wf(),
            final(self).state() == Self::pushed(old(self).state(), *evt).0,
            r == Self::pushed(old(self).state(), *evt).1,
    ;

    /// Take the current packet if it has anything. Buffer is borrowed from `self`.
    fn take(&mut self) -> (r: Option<&[u8]>)
        requires
            old(self).wf(),
        ensures
            final(self).wf(),
            final(self).state() == Self::taken(old(self).state()).0,
            match r {
                Some(bytes) => Self::taken(old(self).state()).1 == Some(bytes@),
                None => Self::taken(old(self).state()).1 is None,
            },
    ;
}

} // verus!
