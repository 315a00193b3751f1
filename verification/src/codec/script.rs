//! A codec that says what it was told to say, to rehearse what a connection does.

use vstd::prelude::*;

use crate::bytes::{overlay, push_run, put, run};
use crate::codec::{outcome_fits, reply_len, Encoded, OrderEntry, ParseOutcome, Parsed, SessionId};
use crate::types::Event;

verus! {

/// What an answer is made of.
pub const ANSWER: u8 = 90;

/// What it says when nothing arrives.
pub const IDLE: u8 = 73;

/// The lines still to be said, how much to say when nothing arrives, and the
/// connections that have ended.
pub struct Script {
    pub steps: Vec<ParseOutcome>,
    pub idle: usize,
    pub ended: Vec<i32>,
}

/// The state of a script.
#[verifier::ext_equal]
pub struct ScriptView {
    pub steps: Seq<ParseOutcome>,
    pub idle: nat,
    pub ended: Seq<i32>,
}

impl View for Script {
    type V = ScriptView;

    open spec fn view(&self) -> ScriptView {
        ScriptView { steps: self.steps@, idle: self.idle as nat, ended: self.ended@ }
    }
}

impl Script {
    /// Nothing to say.
    pub fn new() -> (r: Self)
        ensures
            r@ == (ScriptView { steps: Seq::empty(), idle: 0, ended: Seq::empty() }),
    {
        let r = Self { steps: Vec::new(), idle: 0, ended: Vec::new() };
        assert(r@ =~= (ScriptView { steps: Seq::empty(), idle: 0, ended: Seq::empty() }));
        r
    }
}

/// Whether an outcome speaks of no more input and no more reply than there is.
fn fits_in(o: ParseOutcome, len: usize, room: usize) -> (r: bool)
    ensures
        r == outcome_fits(o, len as nat, room as nat),
{
    match o {
        ParseOutcome::Command { consumed, .. } => consumed <= len,
        ParseOutcome::Reply { bytes, consumed } => bytes <= room && consumed <= len,
        ParseOutcome::NeedMore => true,
        ParseOutcome::Bad { consumed } => consumed <= len,
        ParseOutcome::Disconnect { bytes, consumed } => bytes <= room && consumed <= len,
    }
}

/// Fills the front of `out` with `n` bytes `b`.
fn fill(out: &mut [u8], b: u8, n: usize)
    requires
        n <= old(out)@.len(),
    ensures
        final(out)@ == overlay(old(out)@, run(b, n as nat)),
{
    let mut bytes: Vec<u8> = Vec::new();
    push_run(&mut bytes, b, n);
    assert(bytes@ =~= run(b, n as nat));
    put(out, &bytes);
}

impl OrderEntry for Script {
    const MAX_OUT: usize = 32;

    type State = ScriptView;

    open spec fn state(&self) -> ScriptView {
        self@
    }

    open spec fn accepts(s: ScriptView, buf: Seq<u8>, room: nat) -> bool {
        s.steps.len() > 0 ==> outcome_fits(s.steps[0], buf.len(), room)
    }

    open spec fn parsed(s: ScriptView, buf: Seq<u8>, session: SessionId, room: nat) -> Parsed<
        ScriptView,
    > {
        if s.steps.len() == 0 {
            Parsed { state: s, outcome: ParseOutcome::NeedMore, reply: Seq::empty() }
        } else {
            Parsed {
                state: ScriptView { steps: s.steps.skip(1), ..s },
                outcome: s.steps[0],
                reply: run(ANSWER, reply_len(s.steps[0])),
            }
        }
    }

    open spec fn fits(evt: Event, room: nat) -> bool {
        true
    }

    open spec fn encoded(s: ScriptView, evt: Event, room: nat) -> Encoded<ScriptView> {
        Encoded { state: s, bytes: Seq::empty() }
    }

    open spec fn idled(s: ScriptView, now: u64, session: SessionId, room: nat) -> Encoded<
        ScriptView,
    > {
        Encoded {
            state: s,
            bytes: run(
                IDLE,
                if s.idle <= room {
                    s.idle
                } else {
                    0
                },
            ),
        }
    }

    open spec fn ended(s: ScriptView, session: SessionId) -> ScriptView {
        ScriptView { ended: s.ended.push(session.0), ..s }
    }

    fn readable(&self, buf: &[u8], room: usize) -> (r: bool) {
        self.steps.len() == 0 || fits_in(self.steps[0], buf.len(), room)
    }

    fn writable(evt: &Event, room: usize) -> (r: bool) {
        true
    }

    fn parse(&mut self, buf: &[u8], session: SessionId, reply: &mut [u8]) -> (r: ParseOutcome) {
        assert(overlay(reply@, Seq::empty()) =~= reply@);
        if self.steps.len() == 0 {
            return ParseOutcome::NeedMore;
        }
        let next = self.steps.remove(0);
        let bytes: usize = match next {
            ParseOutcome::Reply { bytes, .. } => bytes,
            ParseOutcome::Disconnect { bytes, .. } => bytes,
            _ => 0,
        };
        fill(reply, ANSWER, bytes);
        assert(self@.steps =~= old(self)@.steps.skip(1));
        next
    }

    fn encode_event(&mut self, evt: &Event, out: &mut [u8]) -> (r: usize) {
        assert(overlay(out@, Seq::empty()) =~= out@);
        0
    }

    fn on_idle(&mut self, now: u64, session: SessionId, reply: &mut [u8]) -> (r: usize) {
        let n: usize = if self.idle <= reply.len() {
            self.idle
        } else {
            0
        };
        fill(reply, IDLE, n);
        n
    }

    fn on_session_end(&mut self, session: SessionId) {
        self.ended.push(session.0);
    }
}

} // verus!
