//! What the reading thread does with what a connection sends: parse order entry,
//! push Commands, answer, drop.

use vstd::prelude::*;

use crate::bytes::{push_all, to_vec};
use crate::codec::{ouch, sbe_oe, OrderEntry, ParseOutcome, SessionId};
use crate::codec::fix::Fix;
use crate::codec::fix_model::FixView;
use crate::codec::ouch::{message_at, Ouch};
use crate::codec::sbe::HEADER_LEN;
use crate::codec::sbe_oe::{is_message, SbeOe};
use crate::types::Command;

verus! {

/// How many bytes of a connection are kept until they make a message.
pub const READ_BUF: usize = 4096;

/// Something to do on behalf of a connection.
pub enum Action {
    /// Hand a command to the engine.
    Push(Command),
    /// Write to the connection.
    Write(Vec<u8>),
}

/// The view of an action.
pub enum ActionView {
    Push(Command),
    Write(Seq<u8>),
}

impl View for Action {
    type V = ActionView;

    open spec fn view(&self) -> ActionView {
        match self {
            Action::Push(cmd) => ActionView::Push(*cmd),
            Action::Write(bytes) => ActionView::Write(bytes@),
        }
    }
}

pub open spec fn action_views(actions: Seq<Action>) -> Seq<ActionView> {
    Seq::new(actions.len(), |i: int| actions[i]@)
}

/// What becomes of a connection.
#[derive(Debug, Clone, Copy, PartialEq, Eq, Structural)]
pub enum End {
    /// It stays open.
    Open,
    /// It is to be dropped.
    Dropped,
    /// It sent what the codec cannot be called on.
    Fault,
}

/// What came of some input: the codec's next state, what to do, how much of the
/// input is done, and what becomes of the connection.
#[verifier::ext_equal]
pub struct Fed<S> {
    pub state: S,
    pub actions: Seq<ActionView>,
    pub consumed: nat,
    pub end: End,
}

/// What to do, in order, how much of the input is done, and what becomes of the
/// connection.
pub struct Feed {
    pub actions: Vec<Action>,
    pub consumed: usize,
    pub end: End,
}

impl Feed {
    /// Whether this is what came of some input.
    pub open spec fn is<S>(&self, fed: Fed<S>) -> bool {
        &&& action_views(self.actions@) == fed.actions
        &&& self.consumed == fed.consumed
        &&& self.end == fed.end
    }
}

/// How far a step goes on. Every step goes on.
pub open spec fn advance(consumed: usize) -> nat {
    if consumed == 0 {
        1
    } else {
        consumed as nat
    }
}

/// The actions that an outcome calls for.
pub open spec fn actions_of(outcome: ParseOutcome, reply: Seq<u8>) -> Seq<ActionView> {
    match outcome {
        ParseOutcome::Command { cmd, .. } => seq![ActionView::Push(cmd)],
        ParseOutcome::Reply { .. } | ParseOutcome::Disconnect { .. } => if reply.len() == 0 {
            Seq::empty()
        } else {
            seq![ActionView::Write(reply)]
        },
        _ => Seq::empty(),
    }
}

/// How far an outcome goes on, or nothing if it waits for more input.
pub open spec fn advance_of(outcome: ParseOutcome) -> Option<nat> {
    match outcome {
        ParseOutcome::Command { consumed, .. } => Some(advance(consumed)),
        ParseOutcome::Reply { consumed, .. } => Some(advance(consumed)),
        ParseOutcome::NeedMore => None,
        ParseOutcome::Bad { consumed } => Some(advance(consumed)),
        ParseOutcome::Disconnect { consumed, .. } => Some(advance(consumed)),
    }
}

/// What comes of `rest` behind earlier actions on `n` bytes of input.
pub open spec fn after<S>(actions: Seq<ActionView>, n: nat, rest: Fed<S>) -> Fed<S> {
    Fed {
        state: rest.state,
        actions: actions + rest.actions,
        consumed: n + rest.consumed,
        end: rest.end,
    }
}

/// What comes of input: message after message, until the input is used up, waits
/// for more, or ends the session.
pub open spec fn fed<Oe: OrderEntry>(
    s: Oe::State,
    buf: Seq<u8>,
    session: SessionId,
    room: nat,
) -> Fed<Oe::State>
    decreases buf.len(),
{
    if buf.len() == 0 {
        Fed { state: s, actions: Seq::empty(), consumed: 0, end: End::Open }
    } else if !Oe::accepts(s, buf, room) {
        Fed { state: s, actions: Seq::empty(), consumed: 0, end: End::Fault }
    } else {
        let p = Oe::parsed(s, buf, session, room);
        let actions = actions_of(p.outcome, p.reply);
        match advance_of(p.outcome) {
            None => Fed { state: p.state, actions: Seq::empty(), consumed: 0, end: End::Open },
            Some(n) => if p.outcome is Disconnect {
                Fed { state: p.state, actions, consumed: n, end: End::Dropped }
            } else if n > buf.len() {
                Fed { state: p.state, actions, consumed: n, end: End::Open }
            } else {
                after(actions, n, fed::<Oe>(p.state, buf.skip(n as int), session, room))
            },
        }
    }
}

proof fn lemma_after_after<S>(
    a: Seq<ActionView>,
    n: nat,
    b: Seq<ActionView>,
    m: nat,
    rest: Fed<S>,
)
    ensures
        after(a, n, after(b, m, rest)) == after(a + b, n + m, rest),
{
    assert((a + b) + rest.actions =~= a + (b + rest.actions));
}

/// Feeds input to a codec. `reply` is its scratch space.
pub fn feed<Oe: OrderEntry>(
    oe: &mut Oe,
    buf: &[u8],
    session: SessionId,
    reply: &mut [u8],
) -> (r: Feed)
    ensures
        r.is(fed::<Oe>(old(oe).state(), buf@, session, old(reply)@.len())),
        final(oe).state() == fed::<Oe>(
            old(oe).state(),
            buf@,
            session,
            old(reply)@.len(),
        ).state,
        final(reply)@.len() == old(reply)@.len(),
        r.consumed <= buf@.len(),
{
    let ghost room = reply@.len();
    let ghost whole = fed::<Oe>(oe.state(), buf@, session, room);
    let mut actions: Vec<Action> = Vec::new();
    let mut off: usize = 0;
    proof {
        assert(buf@.skip(0) =~= buf@);
        assert(action_views(actions@) =~= Seq::empty());
        assert(after(Seq::empty(), 0, whole) =~= whole);
    }
    while off < buf.len()
        invariant
            off <= buf@.len(),
            reply@.len() == room,
            room == old(reply)@.len(),
            whole == fed::<Oe>(old(oe).state(), buf@, session, room),
            whole == after(
                action_views(actions@),
                off as nat,
                fed::<Oe>(oe.state(), buf@.skip(off as int), session, room),
            ),
        decreases buf@.len() - off,
    {
        let rest = &buf[off..buf.len()];
        assert(rest@ =~= buf@.skip(off as int));
        let ghost s = oe.state();
        let ghost before = action_views(actions@);
        if !oe.readable(rest, reply.len()) {
            assert(before + Seq::<ActionView>::empty() =~= before);
            return Feed { actions, consumed: off, end: End::Fault };
        }
        let outcome = oe.parse(rest, session, reply);
        let ghost p = Oe::parsed(s, rest@, session, room);
        match outcome {
            ParseOutcome::Command { cmd, consumed } => {
                actions.push(Action::Push(cmd));
                let n: usize = if consumed == 0 {
                    1
                } else {
                    consumed
                };
                proof {
                    lemma_step::<Oe>(s, buf@, off as int, session, room, before);
                    assert(action_views(actions@) =~= before + seq![ActionView::Push(cmd)]);
                }
                off = off + n;
            },
            ParseOutcome::Reply { bytes, consumed } => {
                if bytes > 0 {
                    actions.push(Action::Write(to_vec(&reply[0..bytes])));
                }
                let n: usize = if consumed == 0 {
                    1
                } else {
                    consumed
                };
                proof {
                    lemma_step::<Oe>(s, buf@, off as int, session, room, before);
                    assert(reply@.subrange(0, bytes as int) =~= p.reply);
                    assert(action_views(actions@) =~= before + actions_of(outcome, p.reply));
                }
                off = off + n;
            },
            ParseOutcome::NeedMore => {
                assert(before + Seq::<ActionView>::empty() =~= before);
                return Feed { actions, consumed: off, end: End::Open };
            },
            ParseOutcome::Bad { consumed } => {
                let n: usize = if consumed == 0 {
                    1
                } else {
                    consumed
                };
                proof {
                    lemma_step::<Oe>(s, buf@, off as int, session, room, before);
                    assert(action_views(actions@) =~= before + actions_of(outcome, p.reply));
                }
                off = off + n;
            },
            ParseOutcome::Disconnect { bytes, consumed } => {
                if bytes > 0 {
                    actions.push(Action::Write(to_vec(&reply[0..bytes])));
                }
                let n: usize = if consumed == 0 {
                    1
                } else {
                    consumed
                };
                proof {
                    assert(reply@.subrange(0, bytes as int) =~= p.reply);
                    assert(action_views(actions@) =~= before + actions_of(outcome, p.reply));
                }
                return Feed { actions, consumed: off + n, end: End::Dropped };
            },
        }
    }
    proof {
        assert(buf@.skip(off as int) =~= Seq::empty());
        assert(action_views(actions@) + Seq::<ActionView>::empty() =~= action_views(actions@));
    }
    Feed { actions, consumed: off, end: End::Open }
}

proof fn lemma_step<Oe: OrderEntry>(
    s: Oe::State,
    buf: Seq<u8>,
    off: int,
    session: SessionId,
    room: nat,
    before: Seq<ActionView>,
)
    requires
        0 <= off < buf.len(),
        Oe::accepts(s, buf.skip(off), room),
        !(Oe::parsed(s, buf.skip(off), session, room).outcome is Disconnect),
        advance_of(Oe::parsed(s, buf.skip(off), session, room).outcome) matches Some(n) && n
            <= buf.len() - off,
    ensures
        ({
            let p = Oe::parsed(s, buf.skip(off), session, room);
            let n = advance_of(p.outcome)->0;
            after(before, off as nat, fed::<Oe>(s, buf.skip(off), session, room)) == after(
                before + actions_of(p.outcome, p.reply),
                (off + n) as nat,
                fed::<Oe>(p.state, buf.skip(off + n), session, room),
            )
        }),
{
    let p = Oe::parsed(s, buf.skip(off), session, room);
    let n = advance_of(p.outcome)->0;
    assert(buf.skip(off).skip(n as int) =~= buf.skip(off + n));
    lemma_after_after(
        before,
        off as nat,
        actions_of(p.outcome, p.reply),
        n,
        fed::<Oe>(p.state, buf.skip(off + n), session, room),
    );
}

/// The bytes of a connection that do not make a message yet.
pub struct Inbox {
    buf: Vec<u8>,
}

impl View for Inbox {
    type V = Seq<u8>;

    closed spec fn view(&self) -> Seq<u8> {
        self.buf@
    }
}

/// What a read from a connection came to.
pub enum ReadEvent {
    /// Bytes arrived; none if the other side closed, or if there was no room left
    /// to read into.
    Data(Vec<u8>),
    /// Nothing arrived.
    Idle,
    /// The read failed.
    Failed,
}

/// What came of some input once a connection that is to be dropped is closed: its
/// session is ended in the codec.
pub open spec fn closed<Oe: OrderEntry>(f: Fed<Oe::State>, session: SessionId) -> Fed<Oe::State> {
    if f.end == End::Dropped {
        Fed { state: Oe::ended(f.state, session), ..f }
    } else {
        f
    }
}

/// What comes of a read: what the codec made of it, and what is left of the input. A
/// connection that is to be dropped has its session ended.
pub open spec fn reacted<Oe: OrderEntry>(
    s: Oe::State,
    inbox: Seq<u8>,
    session: SessionId,
    now: u64,
    event: ReadEvent,
    room: nat,
) -> (Fed<Oe::State>, Seq<u8>) {
    match event {
        ReadEvent::Data(bytes) => if bytes@.len() == 0 {
            (
                closed::<Oe>(
                    Fed { state: s, actions: Seq::empty(), consumed: 0, end: End::Dropped },
                    session,
                ),
                inbox,
            )
        } else {
            let f = fed::<Oe>(s, inbox + bytes@, session, room);
            (closed::<Oe>(f, session), (inbox + bytes@).skip(f.consumed as int))
        },
        ReadEvent::Idle => {
            let e = Oe::idled(s, now, session, room);
            (
                Fed {
                    state: e.state,
                    actions: if e.bytes.len() == 0 {
                        Seq::empty()
                    } else {
                        seq![ActionView::Write(e.bytes)]
                    },
                    consumed: 0,
                    end: End::Open,
                },
                inbox,
            )
        },
        ReadEvent::Failed => (
            closed::<Oe>(
                Fed { state: s, actions: Seq::empty(), consumed: 0, end: End::Dropped },
                session,
            ),
            inbox,
        ),
    }
}

impl Inbox {
    /// Nothing yet.
    pub fn new() -> (r: Self)
        ensures
            r@ == Seq::<u8>::empty(),
    {
        let r = Self { buf: Vec::new() };
        assert(r@ =~= Seq::<u8>::empty());
        r
    }

    /// The bytes so far.
    pub fn bytes(&self) -> (r: &[u8])
        ensures
            r@ == self@,
    {
        self.buf.as_slice()
    }

    /// How many more bytes can be read.
    pub fn room(&self) -> (r: usize)
        ensures
            r == (if self@.len() < READ_BUF {
                READ_BUF - self@.len()
            } else {
                0
            }),
    {
        if self.buf.len() < READ_BUF {
            READ_BUF - self.buf.len()
        } else {
            0
        }
    }

    /// Reacts to a read: feeds what arrived to the codec behind what was left, or
    /// lets it speak if nothing arrived. If the connection is to be dropped, its
    /// session is ended in the codec. `reply` is the codec's scratch space.
    pub fn on_read<Oe: OrderEntry>(
        &mut self,
        oe: &mut Oe,
        session: SessionId,
        now: u64,
        event: ReadEvent,
        reply: &mut [u8],
    ) -> (r: Feed)
        ensures
            r.is(
                reacted::<Oe>(
                    old(oe).state(),
                    old(self)@,
                    session,
                    now,
                    event,
                    old(reply)@.len(),
                ).0,
            ),
            final(oe).state() == reacted::<Oe>(
                old(oe).state(),
                old(self)@,
                session,
                now,
                event,
                old(reply)@.len(),
            ).0.state,
            final(self)@ == reacted::<Oe>(
                old(oe).state(),
                old(self)@,
                session,
                now,
                event,
                old(reply)@.len(),
            ).1,
            final(reply)@.len() == old(reply)@.len(),
    {
        match event {
            ReadEvent::Data(bytes) => {
                if bytes.len() == 0 {
                    let actions: Vec<Action> = Vec::new();
                    assert(action_views(actions@) =~= Seq::empty());
                    oe.on_session_end(session);
                    return Feed { actions, consumed: 0, end: End::Dropped };
                }
                push_all(&mut self.buf, &bytes);
                let got = feed(oe, &self.buf, session, reply);
                let rest = to_vec(&self.buf[got.consumed..self.buf.len()]);
                assert(rest@ =~= (old(self)@ + bytes@).skip(got.consumed as int));
                self.buf = rest;
                if got.end == End::Dropped {
                    oe.on_session_end(session);
                }
                got
            },
            ReadEvent::Idle => {
                let n: usize = oe.on_idle(now, session, reply);
                let mut actions: Vec<Action> = Vec::new();
                if n > 0 {
                    actions.push(Action::Write(to_vec(&reply[0..n])));
                }
                proof {
                    let e = Oe::idled(old(oe).state(), now, session, old(reply)@.len());
                    assert(reply@.subrange(0, n as int) =~= e.bytes);
                    assert(action_views(actions@) =~= (if e.bytes.len() == 0 {
                        Seq::empty()
                    } else {
                        seq![ActionView::Write(e.bytes)]
                    }));
                }
                Feed { actions, consumed: 0, end: End::Open }
            },
            ReadEvent::Failed => {
                let actions: Vec<Action> = Vec::new();
                assert(action_views(actions@) =~= Seq::empty());
                oe.on_session_end(session);
                Feed { actions, consumed: 0, end: End::Dropped }
            },
        }
    }
}

/// Whether a step of a codec stands, whatever comes behind its input: it goes no further
/// than the input, it takes the same step on more input, and if it waits for more it
/// remembers nothing.
pub open spec fn step_stands<Oe: OrderEntry>(
    s: Oe::State,
    a: Seq<u8>,
    b: Seq<u8>,
    session: SessionId,
    room: nat,
) -> bool {
    a.len() > 0 && Oe::accepts(s, a, room) ==> {
        let p = Oe::parsed(s, a, session, room);
        match advance_of(p.outcome) {
            Some(n) => n <= a.len() && Oe::accepts(s, a + b, room) && Oe::parsed(
                s,
                a + b,
                session,
                room,
            ) == p,
            None => p.state == s,
        }
    }
}

/// How the input of a codec whose steps stand is cut into reads makes no difference:
/// feeding the first part and then the rest, behind what was left, comes to the same as
/// feeding both at once. Where the first part ends the session, the rest is not looked at.
proof fn lemma_cut<Oe: OrderEntry>(
    s: Oe::State,
    a: Seq<u8>,
    b: Seq<u8>,
    session: SessionId,
    room: nat,
)
    requires
        forall|t: Oe::State, x: Seq<u8>| #[trigger] step_stands::<Oe>(t, x, b, session, room),
        fed::<Oe>(s, a, session, room).end != End::Fault,
    ensures
        ({
            let first = fed::<Oe>(s, a, session, room);
            let left = a.skip(first.consumed as int) + b;
            &&& first.consumed <= a.len()
            &&& fed::<Oe>(s, a + b, session, room) == (if first.end == End::Dropped {
                first
            } else {
                after(
                    first.actions,
                    first.consumed,
                    fed::<Oe>(first.state, left, session, room),
                )
            })
        }),
    decreases a.len(),
{
    let first = fed::<Oe>(s, a, session, room);
    let both = fed::<Oe>(s, a + b, session, room);
    assert(step_stands::<Oe>(s, a, b, session, room));
    if a.len() == 0 || advance_of(Oe::parsed(s, a, session, room).outcome) is None {
        assert(first.actions =~= Seq::empty());
        assert(a.skip(0) + b =~= a + b);
        assert(after(Seq::empty(), 0, both) =~= both);
    } else {
        let p = Oe::parsed(s, a, session, room);
        let n = advance_of(p.outcome)->0;
        assert((a + b).skip(n as int) =~= a.skip(n as int) + b);
        if !(p.outcome is Disconnect) {
            let rest = a.skip(n as int);
            let then = fed::<Oe>(p.state, rest, session, room);
            let actions = actions_of(p.outcome, p.reply);
            lemma_cut::<Oe>(p.state, rest, b, session, room);
            assert(rest.skip(then.consumed as int) =~= a.skip((n + then.consumed) as int));
            lemma_after_after(
                actions,
                n,
                then.actions,
                then.consumed,
                fed::<Oe>(then.state, rest.skip(then.consumed as int) + b, session, room),
            );
        }
    }
}

proof fn lemma_ouch_step_stands(a: Seq<u8>, b: Seq<u8>, session: SessionId, room: nat)
    ensures
        step_stands::<Ouch>((), a, b, session, room),
{
    if a.len() > 0 {
        assert((a + b)[0] == a[0]);
        if message_at(a, session.0) is Some {
            ouch::lemma_message_is_self_delimiting(a, b, session.0);
        }
    }
}

/// How a stream of OUCH messages is cut into reads makes no difference: feeding the
/// first part and then the rest, behind what was left, comes to the same as feeding
/// both at once.
pub proof fn lemma_reads_can_be_cut_anywhere(
    a: Seq<u8>,
    b: Seq<u8>,
    session: SessionId,
    room: nat,
)
    ensures
        fed::<Ouch>((), a + b, session, room) == ({
            let first = fed::<Ouch>((), a, session, room);
            after(
                first.actions,
                first.consumed,
                fed::<Ouch>((), a.skip(first.consumed as int) + b, session, room),
            )
        }),
{
    assert forall|t: (), x: Seq<u8>| #[trigger]
        step_stands::<Ouch>(t, x, b, session, room) by {
        lemma_ouch_step_stands(x, b, session, room);
    }
    lemma_ouch_stays_open(a, session, room);
    lemma_cut::<Ouch>((), a, b, session, room);
}

/// OUCH input keeps a connection open, whatever it is.
pub proof fn lemma_ouch_stays_open(a: Seq<u8>, session: SessionId, room: nat)
    ensures
        fed::<Ouch>((), a, session, room).end == End::Open,
    decreases a.len(),
{
    if a.len() > 0 {
        let p = <Ouch as OrderEntry>::parsed((), a, session, room);
        if let Some(n) = advance_of(p.outcome) {
            lemma_ouch_stays_open(a.skip(n as int), session, room);
        }
    }
}

proof fn lemma_sbe_step_stands(
    symbol: [u8; 8],
    a: Seq<u8>,
    b: Seq<u8>,
    session: SessionId,
    room: nat,
)
    ensures
        step_stands::<SbeOe>(symbol, a, b, session, room),
{
    if a.len() > 0 && <SbeOe as OrderEntry>::accepts(symbol, a, room) {
        if is_message(a) {
            sbe_oe::lemma_message_is_self_delimiting(symbol, a, b, session, room);
        } else if HEADER_LEN <= a.len() {
            let all = a + b;
            assert(all.subrange(0, 2) =~= a.subrange(0, 2));
            assert(all.subrange(4, 6) =~= a.subrange(4, 6));
        }
    }
}

/// How a stream of SBE messages is cut into reads makes no difference, where the first
/// part holds all fields of its messages and there is room for the refusals that they
/// call for: feeding the first part and then the rest, behind what was left, comes to
/// the same as feeding both at once.
pub proof fn lemma_sbe_reads_can_be_cut_anywhere(
    symbol: [u8; 8],
    a: Seq<u8>,
    b: Seq<u8>,
    session: SessionId,
    room: nat,
)
    requires
        fed::<SbeOe>(symbol, a, session, room).end != End::Fault,
    ensures
        fed::<SbeOe>(symbol, a + b, session, room) == ({
            let first = fed::<SbeOe>(symbol, a, session, room);
            after(
                first.actions,
                first.consumed,
                fed::<SbeOe>(symbol, a.skip(first.consumed as int) + b, session, room),
            )
        }),
{
    assert forall|t: [u8; 8], x: Seq<u8>| #[trigger]
        step_stands::<SbeOe>(t, x, b, session, room) by {
        lemma_sbe_step_stands(t, x, b, session, room);
    }
    lemma_sbe_keeps_its_symbol(symbol, a, session, room);
    lemma_cut::<SbeOe>(symbol, a, b, session, room);
}

/// SBE input never ends a session, and leaves the codec as it was.
pub proof fn lemma_sbe_keeps_its_symbol(
    symbol: [u8; 8],
    a: Seq<u8>,
    session: SessionId,
    room: nat,
)
    ensures
        fed::<SbeOe>(symbol, a, session, room).state == symbol,
        fed::<SbeOe>(symbol, a, session, room).end != End::Dropped,
    decreases a.len(),
{
    if a.len() > 0 && <SbeOe as OrderEntry>::accepts(symbol, a, room) {
        let p = <SbeOe as OrderEntry>::parsed(symbol, a, session, room);
        if let Some(n) = advance_of(p.outcome) {
            lemma_sbe_keeps_its_symbol(symbol, a.skip(n as int), session, room);
        }
    }
}

/// A connection is dropped exactly when a read brings nothing or fails, or when the
/// codec ends the session. Then, and only then, its session is ended in the codec.
pub proof fn lemma_dropped_connection_is_ended<Oe: OrderEntry>(
    s: Oe::State,
    inbox: Seq<u8>,
    session: SessionId,
    now: u64,
    event: ReadEvent,
    room: nat,
)
    ensures
        ({
            let f = reacted::<Oe>(s, inbox, session, now, event, room).0;
            match event {
                ReadEvent::Data(bytes) => if bytes@.len() == 0 {
                    f.end == End::Dropped && f.state == Oe::ended(s, session)
                } else {
                    let g = fed::<Oe>(s, inbox + bytes@, session, room);
                    f.end == g.end && f.actions == g.actions && f.state == (if g.end
                        == End::Dropped {
                        Oe::ended(g.state, session)
                    } else {
                        g.state
                    })
                },
                ReadEvent::Idle => f.end == End::Open && f.state == Oe::idled(
                    s,
                    now,
                    session,
                    room,
                ).state,
                ReadEvent::Failed => f.end == End::Dropped && f.state == Oe::ended(s, session),
            }
        }),
{
}

/// Once the codec ends a session, no more of the input is parsed: the last action is
/// its answer, if it has one.
pub proof fn lemma_disconnect_stops_the_input<Oe: OrderEntry>(
    s: Oe::State,
    buf: Seq<u8>,
    session: SessionId,
    room: nat,
)
    requires
        buf.len() > 0,
        Oe::accepts(s, buf, room),
        Oe::parsed(s, buf, session, room).outcome is Disconnect,
    ensures
        ({
            let p = Oe::parsed(s, buf, session, room);
            let f = fed::<Oe>(s, buf, session, room);
            &&& f.end == End::Dropped
            &&& f.state == p.state
            &&& f.actions == (if p.reply.len() == 0 {
                Seq::empty()
            } else {
                seq![ActionView::Write(p.reply)]
            })
        }),
{
}

/// Whether what is to be done for a connection hands the engine no command that is on
/// behalf of another.
pub open spec fn on_behalf_of(action: ActionView, session: SessionId) -> bool {
    action matches ActionView::Push(cmd) ==> cmd.client_fd == session.0
}

/// Whether a command that a codec makes of input is on behalf of the connection.
pub open spec fn step_is_own<Oe: OrderEntry>(
    s: Oe::State,
    a: Seq<u8>,
    session: SessionId,
    room: nat,
) -> bool {
    Oe::parsed(s, a, session, room).outcome matches ParseOutcome::Command { cmd, .. }
        ==> cmd.client_fd == session.0
}

proof fn lemma_own_commands<Oe: OrderEntry>(
    s: Oe::State,
    a: Seq<u8>,
    session: SessionId,
    room: nat,
    i: int,
)
    requires
        forall|t: Oe::State, x: Seq<u8>| #[trigger] step_is_own::<Oe>(t, x, session, room),
        0 <= i < fed::<Oe>(s, a, session, room).actions.len(),
    ensures
        on_behalf_of(fed::<Oe>(s, a, session, room).actions[i], session),
    decreases a.len(),
{
    let p = Oe::parsed(s, a, session, room);
    assert(step_is_own::<Oe>(s, a, session, room));
    let actions = actions_of(p.outcome, p.reply);
    if i >= actions.len() {
        let n = advance_of(p.outcome)->0;
        lemma_own_commands::<Oe>(p.state, a.skip(n as int), session, room, i - actions.len());
    }
}

/// All that comes of a connection's OUCH messages is commands on behalf of that
/// connection.
pub proof fn lemma_commands_carry_their_connection(a: Seq<u8>, session: SessionId, room: nat)
    ensures
        forall|i: int|
            0 <= i < fed::<Ouch>((), a, session, room).actions.len() ==> (#[trigger] fed::<Ouch>(
                (),
                a,
                session,
                room,
            ).actions[i] matches ActionView::Push(cmd) && cmd.client_fd == session.0),
    decreases a.len(),
{
    if a.len() > 0 {
        let p = <Ouch as OrderEntry>::parsed((), a, session, room);
        if let Some(n) = advance_of(p.outcome) {
            lemma_commands_carry_their_connection(a.skip(n as int), session, room);
        }
    }
}

/// Every command that comes of a connection's SBE messages is on behalf of that
/// connection.
pub proof fn lemma_sbe_commands_carry_their_connection(
    symbol: [u8; 8],
    a: Seq<u8>,
    session: SessionId,
    room: nat,
    i: int,
)
    requires
        0 <= i < fed::<SbeOe>(symbol, a, session, room).actions.len(),
    ensures
        on_behalf_of(fed::<SbeOe>(symbol, a, session, room).actions[i], session),
{
    assert(forall|t: [u8; 8], x: Seq<u8>| #[trigger]
        step_is_own::<SbeOe>(t, x, session, room));
    lemma_own_commands::<SbeOe>(symbol, a, session, room, i);
}

/// Every command that comes of a connection's FIX messages is on behalf of that
/// connection.
pub proof fn lemma_fix_commands_carry_their_connection(
    s: FixView,
    a: Seq<u8>,
    session: SessionId,
    room: nat,
    i: int,
)
    requires
        0 <= i < fed::<Fix>(s, a, session, room).actions.len(),
    ensures
        on_behalf_of(fed::<Fix>(s, a, session, room).actions[i], session),
{
    assert(forall|t: FixView, x: Seq<u8>| #[trigger] step_is_own::<Fix>(t, x, session, room));
    lemma_own_commands::<Fix>(s, a, session, room, i);
}

} // verus!
