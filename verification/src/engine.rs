//! Matching engine hot loop: pop Command → WAL → book → push Events.
//!
//! The book itself is not in here: `apply` says what to ask of it, and `settle`
//! takes its answer.

use std::collections::HashMap;

use vstd::prelude::*;

use crate::bytes::{bump, next64};
use crate::types::{
    client_key, order_event, reject_event, reset_event, trade_event, Command, CommandType, Event,
    EventOrder, EventReject, EventTrade, EventType, Price, Side,
};
use crate::wal::{
    commands, frame_count, recovered, written, written_image, Wal, WalError, WalView, WAL_SIZE,
};

verus! {

broadcast use vstd::std_specs::hash::group_hash_axioms;

/// The state of an order that rests.
pub const LIVE: u8 = 76;

/// The state of an order that is gone.
pub const DEAD: u8 = 68;

/// An order that rests in the book, as the engine knows it.
#[derive(Debug, Clone, Copy)]
pub struct Live {
    pub handle: u64,
    pub price: Price,
    pub qty: u64,
    pub side: Side,
    pub cl_ord_id: [u8; 14],
    pub client_fd: i32,
    pub user_ref: u32,
}

/// A fill that the book reports: how much of which resting order.
#[derive(Debug, Clone, Copy)]
pub struct Fill {
    pub resting_id: u64,
    pub quantity: u64,
}

/// Why the book did not take an order.
#[derive(Debug, Clone, Copy, PartialEq, Eq, Structural)]
pub enum BookError {
    SlabFull,
    Other,
}

/// An order to be matched.
#[derive(Debug, Clone, Copy)]
pub struct Submit {
    pub side: Side,
    pub price: Price,
    pub quantity: u64,
}

/// What the engine asks of the book, in this order.
#[derive(Debug, Clone, Copy)]
pub struct BookRequest {
    /// Start over with an empty book of so many slots.
    pub rebuild: Option<usize>,
    /// Take a resting order out.
    pub cancel: Option<u64>,
    /// Match an order. The answer goes to `settle`.
    pub submit: Option<Submit>,
}

/// The state of an engine.
#[verifier::ext_equal]
pub struct EngineView {
    /// The resting orders, by connection and client reference.
    pub by_client: Map<u64, Live>,
    /// The same keys, by the book's handle.
    pub by_handle: Map<u64, u64>,
    pub next_match: u64,
    /// Whether events are published at all.
    pub publish: bool,
    pub wal_enabled: bool,
    pub slab: usize,
    pub wal: WalView,
    /// Private events not yet taken.
    pub ouch: Seq<Event>,
    /// Public events not yet taken.
    pub itch: Seq<Event>,
    /// The order that the book was asked to match.
    pub pending: Option<Command>,
}

/// Whether an event goes on the public tape.
pub open spec fn is_public(evt: Event) -> bool {
    evt.ty != EventType::OrderRejected && evt.ty != EventType::BookReset
}

/// The engine after it published an event: privately, and on the tape if the
/// tape is for it.
pub open spec fn emitted(s: EngineView, evt: Event) -> EngineView {
    if !s.publish {
        s
    } else if is_public(evt) {
        EngineView { ouch: s.ouch.push(evt), itch: s.itch.push(evt), ..s }
    } else {
        EngineView { ouch: s.ouch.push(evt), ..s }
    }
}

/// The engine after it published a fill: both counterparties are told, and the
/// tape gets one print.
pub open spec fn fill_emitted(
    s: EngineView,
    taker_fd: i32,
    maker_fd: i32,
    trade: EventTrade,
) -> EngineView {
    if !s.publish {
        s
    } else {
        let tape = trade_event(taker_fd, trade);
        EngineView {
            ouch: if maker_fd == taker_fd {
                s.ouch.push(tape)
            } else {
                s.ouch.push(tape).push(trade_event(maker_fd, trade))
            },
            itch: s.itch.push(tape),
            ..s
        }
    }
}

/// The event that tells of a refused command.
pub open spec fn refusal(cmd: Command, reason: u16) -> Event {
    reject_event(
        cmd.client_fd,
        EventReject { user_ref: cmd.user_ref, reason, cl_ord_id: cmd.cl_ord_id },
    )
}

/// The event that tells of an order that came to rest.
pub open spec fn acceptance(cmd: Command, handle: u64, quantity: u64) -> Event {
    order_event(
        EventType::OrderAccepted,
        cmd.client_fd,
        EventOrder {
            order_id: handle,
            user_ref: cmd.user_ref,
            price: cmd.price,
            quantity,
            side: cmd.side,
            order_state: LIVE,
            cl_ord_id: cmd.cl_ord_id,
        },
    )
}

/// The event that tells of a cancelled order.
pub open spec fn cancellation(live: Live) -> Event {
    order_event(
        EventType::OrderCancelled,
        live.client_fd,
        EventOrder {
            order_id: live.handle,
            user_ref: live.user_ref,
            price: live.price,
            quantity: live.qty,
            side: live.side,
            order_state: DEAD,
            cl_ord_id: live.cl_ord_id,
        },
    )
}

/// `a - b`, or zero.
pub open spec fn less(a: u64, b: u64) -> u64 {
    if a > b {
        (a - b) as u64
    } else {
        0
    }
}

/// Whether the engine knows the order that a fill is about.
pub open spec fn tracks(s: EngineView, fill: Fill) -> bool {
    s.by_handle.contains_key(fill.resting_id) && s.by_client.contains_key(
        s.by_handle[fill.resting_id],
    )
}

/// The trade that a fill comes to: at the maker's resting price, or at the
/// taker's if the maker is not known.
pub open spec fn trade_of(s: EngineView, taker: Command, fill: Fill) -> EventTrade {
    let maker = s.by_client[s.by_handle[fill.resting_id]];
    let known = tracks(s, fill);
    EventTrade {
        match_number: s.next_match,
        maker_exchange_id: if known {
            maker.handle
        } else {
            fill.resting_id
        },
        maker_user_ref: if known {
            maker.user_ref
        } else {
            0
        },
        price: if known {
            maker.price
        } else {
            taker.price
        },
        quantity: fill.quantity,
        taker_side: taker.side,
    }
}

/// The engine after the maker's side of a fill was booked: what is left of the
/// order rests on, and an order with nothing left is forgotten.
pub open spec fn booked(s: EngineView, fill: Fill) -> EngineView {
    if !tracks(s, fill) {
        s
    } else {
        let key = s.by_handle[fill.resting_id];
        let maker = s.by_client[key];
        let left = less(maker.qty, fill.quantity);
        if left == 0 {
            EngineView {
                by_client: s.by_client.remove(key),
                by_handle: s.by_handle.remove(fill.resting_id),
                ..s
            }
        } else {
            EngineView { by_client: s.by_client.insert(key, Live { qty: left, ..maker }), ..s }
        }
    }
}

/// The engine after one fill.
pub open spec fn filled(s: EngineView, taker: Command, fill: Fill) -> EngineView {
    let maker_fd = if tracks(s, fill) {
        s.by_client[s.by_handle[fill.resting_id]].client_fd
    } else {
        taker.client_fd
    };
    fill_emitted(
        EngineView { next_match: next64(s.next_match), ..booked(s, fill) },
        taker.client_fd,
        maker_fd,
        trade_of(s, taker, fill),
    )
}

/// The engine after a list of fills.
pub open spec fn filled_all(s: EngineView, taker: Command, fills: Seq<Fill>) -> EngineView
    decreases fills.len(),
{
    if fills.len() == 0 {
        s
    } else {
        filled(filled_all(s, taker, fills.drop_last()), taker, fills.last())
    }
}

/// How much a list of fills comes to.
pub open spec fn total(fills: Seq<Fill>) -> nat
    decreases fills.len(),
{
    if fills.len() == 0 {
        0
    } else {
        total(fills.drop_last()) + fills.last().quantity as nat
    }
}

/// The total as a 64-bit number.
pub open spec fn total64(fills: Seq<Fill>) -> u64 {
    (total(fills) % 0x1_0000_0000_0000_0000) as u64
}

pub open spec fn no_request() -> BookRequest {
    BookRequest { rebuild: None, cancel: None, submit: None }
}

/// The engine and its request after a new order: a key that is in use is refused,
/// anything else goes to the book.
pub open spec fn added(s: EngineView, cmd: Command) -> (EngineView, BookRequest) {
    if s.by_client.contains_key(client_key(cmd.client_fd, cmd.user_ref)) {
        (emitted(s, refusal(cmd, 0)), no_request())
    } else {
        (
            EngineView { pending: Some(cmd), ..s },
            BookRequest {
                submit: Some(
                    Submit { side: cmd.side, price: cmd.price, quantity: cmd.quantity },
                ),
                ..no_request()
            },
        )
    }
}

/// The engine and its request after a cancel. An unknown order is passed over.
pub open spec fn cancelled(s: EngineView, cmd: Command) -> (EngineView, BookRequest) {
    let key = client_key(cmd.client_fd, cmd.user_ref);
    if !s.by_client.contains_key(key) {
        (s, no_request())
    } else {
        let live = s.by_client[key];
        (
            emitted(
                EngineView {
                    by_client: s.by_client.remove(key),
                    by_handle: s.by_handle.remove(live.handle),
                    ..s
                },
                cancellation(live),
            ),
            BookRequest { cancel: Some(live.handle), ..no_request() },
        )
    }
}

/// The engine and its request after a modify: a cancel, then a new order that
/// loses its priority.
pub open spec fn modified(s: EngineView, cmd: Command) -> (EngineView, BookRequest) {
    let (s1, req1) = cancelled(s, cmd);
    let (s2, req2) = added(s1, Command { ty: CommandType::Add, ..cmd });
    (s2, BookRequest { cancel: req1.cancel, ..req2 })
}

/// The engine and its request after a reset.
pub open spec fn was_reset(s: EngineView) -> (EngineView, BookRequest) {
    (
        emitted(
            EngineView { by_client: Map::empty(), by_handle: Map::empty(), next_match: 1, ..s },
            reset_event(),
        ),
        BookRequest { rebuild: Some(s.slab), ..no_request() },
    )
}

/// The engine and its request after a command.
pub open spec fn applied(s: EngineView, cmd: Command) -> (EngineView, BookRequest) {
    let s = EngineView { pending: None, ..s };
    match cmd.ty {
        CommandType::Add => added(s, cmd),
        CommandType::Cancel => cancelled(s, cmd),
        CommandType::Modify => modified(s, cmd),
        CommandType::Reset => was_reset(s),
        CommandType::Poison => (s, no_request()),
    }
}

/// The engine after an order came to rest.
pub open spec fn rested(s: EngineView, cmd: Command, handle: u64, remaining: u64) -> EngineView {
    let key = client_key(cmd.client_fd, cmd.user_ref);
    emitted(
        EngineView {
            by_handle: s.by_handle.insert(handle, key),
            by_client: s.by_client.insert(
                key,
                Live {
                    handle,
                    price: cmd.price,
                    qty: remaining,
                    side: cmd.side,
                    cl_ord_id: cmd.cl_ord_id,
                    client_fd: cmd.client_fd,
                    user_ref: cmd.user_ref,
                },
            ),
            ..s
        },
        acceptance(cmd, handle, remaining),
    )
}

/// The engine after the book answered for the order `cmd`.
pub open spec fn settled(
    s: EngineView,
    cmd: Command,
    placed: Result<Option<u64>, BookError>,
    fills: Seq<Fill>,
) -> EngineView {
    let s = EngineView { pending: None, ..s };
    match placed {
        Ok(resting) => {
            let s1 = filled_all(s, cmd, fills);
            match resting {
                Some(handle) => rested(s1, cmd, handle, less(cmd.quantity, total64(fills))),
                None => s1,
            }
        },
        Err(e) => emitted(
            s,
            refusal(
                cmd,
                if e == BookError::SlabFull {
                    1
                } else {
                    0
                },
            ),
        ),
    }
}

/// An engine that nothing has happened to yet.
pub open spec fn idle_engine(slab: usize, wal: WalView) -> EngineView {
    EngineView {
        by_client: Map::empty(),
        by_handle: Map::empty(),
        next_match: 1,
        publish: false,
        wal_enabled: true,
        slab,
        wal,
        ouch: Seq::empty(),
        itch: Seq::empty(),
        pending: None,
    }
}

/// Whether the log takes a command.
pub open spec fn is_logged(s: EngineView, cmd: Command) -> bool {
    s.wal_enabled && cmd.ty != CommandType::Poison
}

/// The engine's own bookkeeping: which client's order is which resting order.
pub struct MatchingEngine {
    pub by_client: HashMap<u64, Live>,
    pub by_handle: HashMap<u64, u64>,
    pub next_match: u64,
    pub publish: bool,
    pub wal_enabled: bool,
    pub slab: usize,
    pub wal: Wal,
    pub ouch: Vec<Event>,
    pub itch: Vec<Event>,
    pub pending: Option<Command>,
}

impl View for MatchingEngine {
    type V = EngineView;

    open spec fn view(&self) -> EngineView {
        EngineView {
            by_client: self.by_client@,
            by_handle: self.by_handle@,
            next_match: self.next_match,
            publish: self.publish,
            wal_enabled: self.wal_enabled,
            slab: self.slab,
            wal: self.wal@,
            ouch: self.ouch@,
            itch: self.itch@,
            pending: self.pending,
        }
    }
}

impl MatchingEngine {
    /// An engine over an image of the default size.
    pub fn new(slab: usize, image: &[u8]) -> (r: Result<(Self, Vec<Command>), WalError>)
        requires
            image@.len() == WAL_SIZE,
        ensures
            r matches Ok((engine, replay)) && engine.wal.wf() && engine@ == idle_engine(
                slab,
                recovered(
                    WalView { len: WAL_SIZE as nat, seq: 0, offset: 0 },
                    image@,
                ),
            ) && replay@ == commands(image@, frame_count(image@)),
    {
        Self::with_wal_size(slab, WAL_SIZE, image)
    }

    /// An engine over an image of `wal_size` bytes, and the commands that were in
    /// it. They are to be applied in order before `go_live`.
    pub fn with_wal_size(slab: usize, wal_size: usize, image: &[u8]) -> (r: Result<
        (Self, Vec<Command>),
        WalError,
    >)
        requires
            image@.len() == wal_size,
        ensures
            match r {
                Ok((engine, replay)) => {
                    &&& wal_size > 0
                    &&& engine.wal.wf()
                    &&& engine@ == idle_engine(
                        slab,
                        recovered(
                            WalView { len: wal_size as nat, seq: 0, offset: 0 },
                            image@,
                        ),
                    )
                    &&& replay@ == commands(image@, frame_count(image@))
                },
                Err(e) => wal_size == 0 && e == WalError::Empty,
            },
    {
        let mut wal = match Wal::open_sized(wal_size) {
            Ok(wal) => wal,
            Err(e) => return Err(e),
        };
        let replay = wal.recover(image);
        let engine = Self {
            by_client: HashMap::new(),
            by_handle: HashMap::new(),
            next_match: 1,
            publish: false,
            wal_enabled: true,
            slab,
            wal,
            ouch: Vec::new(),
            itch: Vec::new(),
            pending: None,
        };
        Ok((engine, replay))
    }

    /// From now on events are published.
    pub fn go_live(&mut self)
        ensures
            final(self)@ == (EngineView { publish: true, ..old(self)@ }),
            final(self).wal == old(self).wal,
    {
        self.publish = true;
    }

    /// One engine beat: optional WAL, then apply.
    pub fn step(&mut self, image: &mut [u8], cmd: &Command) -> (r: BookRequest)
        requires
            old(self).wal.wf(),
            old(image)@.len() == old(self)@.wal.len,
        ensures
            final(self).wal.wf(),
            is_logged(old(self)@, *cmd) ==> final(image)@ == written_image(
                old(self)@.wal,
                old(image)@,
                *cmd,
            ) && (final(self)@, r) == applied(
                EngineView { wal: written(old(self)@.wal), ..old(self)@ },
                *cmd,
            ),
            !is_logged(old(self)@, *cmd) ==> final(image)@ == old(image)@ && (final(self)@, r)
                == applied(old(self)@, *cmd),
            final(image)@.len() == old(image)@.len(),
    {
        if self.wal_enabled && cmd.ty != CommandType::Poison {
            self.wal.write(image, cmd);
        }
        self.apply(cmd)
    }

    /// Switches the log on or off.
    pub fn set_wal(&mut self, on: bool)
        ensures
            final(self)@ == (EngineView { wal_enabled: on, ..old(self)@ }),
            final(self).wal == old(self).wal,
    {
        self.wal_enabled = on;
    }

    /// Throws away all events not yet taken, and counts them.
    pub fn drain_events(&mut self) -> (r: usize)
        requires
            old(self)@.ouch.len() + old(self)@.itch.len() <= usize::MAX,
        ensures
            r == old(self)@.ouch.len() + old(self)@.itch.len(),
            final(self)@ == (EngineView {
                ouch: Seq::empty(),
                itch: Seq::empty(),
                ..old(self)@
            }),
            final(self).wal == old(self).wal,
    {
        let n: usize = self.ouch.len() + self.itch.len();
        self.ouch.clear();
        self.itch.clear();
        n
    }

    /// Takes the private events.
    pub fn take_private(&mut self) -> (r: Vec<Event>)
        ensures
            r@ == old(self)@.ouch,
            final(self)@ == (EngineView { ouch: Seq::empty(), ..old(self)@ }),
            final(self).wal == old(self).wal,
    {
        let mut taken: Vec<Event> = Vec::new();
        taken.append(&mut self.ouch);
        assert(taken@ =~= old(self)@.ouch);
        taken
    }

    /// Takes the public events.
    pub fn take_public(&mut self) -> (r: Vec<Event>)
        ensures
            r@ == old(self)@.itch,
            final(self)@ == (EngineView { itch: Seq::empty(), ..old(self)@ }),
            final(self).wal == old(self).wal,
    {
        let mut taken: Vec<Event> = Vec::new();
        taken.append(&mut self.itch);
        assert(taken@ =~= old(self)@.itch);
        taken
    }

    /// Does what a command says, as far as the book is not needed, and says what
    /// to ask of the book.
    pub fn apply(&mut self, cmd: &Command) -> (r: BookRequest)
        ensures
            (final(self)@, r) == applied(old(self)@, *cmd),
            final(self).wal == old(self).wal,
    {
        self.pending = None;
        match cmd.ty {
            CommandType::Add => self.add_order(cmd),
            CommandType::Cancel => self.cancel(cmd),
            CommandType::Modify => self.modify(cmd),
            CommandType::Reset => self.reset(),
            CommandType::Poison => BookRequest { rebuild: None, cancel: None, submit: None },
        }
    }

    fn add_order(&mut self, cmd: &Command) -> (r: BookRequest)
        ensures
            (final(self)@, r) == added(old(self)@, *cmd),
            final(self).wal == old(self).wal,
    {
        let key: u64 = cmd.composite_key();
        if self.by_client.contains_key(&key) {
            self.reject(cmd, 0);
            return BookRequest { rebuild: None, cancel: None, submit: None };
        }
        self.pending = Some(*cmd);
        BookRequest {
            rebuild: None,
            cancel: None,
            submit: Some(Submit { side: cmd.side, price: cmd.price, quantity: cmd.quantity }),
        }
    }

    fn cancel(&mut self, cmd: &Command) -> (r: BookRequest)
        ensures
            (final(self)@, r) == cancelled(old(self)@, *cmd),
            final(self).wal == old(self).wal,
    {
        let key: u64 = cmd.composite_key();
        let live = match self.by_client.remove(&key) {
            Some(live) => live,
            None => {
                assert(self@.by_client =~= old(self)@.by_client);
                return BookRequest { rebuild: None, cancel: None, submit: None };
            },
        };
        self.by_handle.remove(&live.handle);
        self.emit_cancelled(&live);
        BookRequest { rebuild: None, cancel: Some(live.handle), submit: None }
    }

    fn modify(&mut self, cmd: &Command) -> (r: BookRequest)
        ensures
            (final(self)@, r) == modified(old(self)@, *cmd),
            final(self).wal == old(self).wal,
    {
        let first = self.cancel(cmd);
        let mut new = *cmd;
        new.ty = CommandType::Add;
        let mut req = self.add_order(&new);
        req.cancel = first.cancel;
        req
    }

    fn reset(&mut self) -> (r: BookRequest)
        ensures
            (final(self)@, r) == was_reset(old(self)@),
            final(self).wal == old(self).wal,
    {
        self.by_client.clear();
        self.by_handle.clear();
        self.next_match = 1;
        self.emit(Event::reset());
        BookRequest { rebuild: Some(self.slab), cancel: None, submit: None }
    }

    /// Takes the book's answer for the order that it was asked to match: the
    /// handle under which the rest of it came to rest, if any, and the fills.
    pub fn settle(&mut self, placed: Result<Option<u64>, BookError>, fills: &Vec<Fill>)
        ensures
            match old(self)@.pending {
                Some(cmd) => final(self)@ == settled(old(self)@, cmd, placed, fills@),
                None => final(self)@ == old(self)@,
            },
            final(self).wal == old(self).wal,
    {
        let cmd = match self.pending {
            Some(cmd) => cmd,
            None => return,
        };
        self.pending = None;
        match placed {
            Ok(resting) => {
                let filled: u64 = self.publish_fills(&cmd, fills);
                if let Some(handle) = resting {
                    let remaining: u64 = cmd.quantity.saturating_sub(filled);
                    let key: u64 = cmd.composite_key();
                    let live = Live {
                        handle,
                        price: cmd.price,
                        qty: remaining,
                        side: cmd.side,
                        cl_ord_id: cmd.cl_ord_id,
                        client_fd: cmd.client_fd,
                        user_ref: cmd.user_ref,
                    };
                    self.by_handle.insert(handle, key);
                    self.by_client.insert(key, live);
                    self.accept(&cmd, handle, remaining);
                }
            },
            Err(e) => {
                let reason: u16 = if e == BookError::SlabFull {
                    1
                } else {
                    0
                };
                self.reject(&cmd, reason);
            },
        }
    }

    /// Books the fills of `taker` and publishes them. Returns how much they come
    /// to.
    pub fn publish_fills(&mut self, taker: &Command, fills: &Vec<Fill>) -> (r: u64)
        ensures
            final(self)@ == filled_all(old(self)@, *taker, fills@),
            final(self).wal == old(self).wal,
            r == total64(fills@),
    {
        let mut sum: u64 = 0;
        let mut i: usize = 0;
        assert(fills@.take(0) =~= Seq::<Fill>::empty());
        while i < fills.len()
            invariant
                i <= fills@.len(),
                self@ == filled_all(old(self)@, *taker, fills@.take(i as int)),
                self.wal == old(self).wal,
                sum == total64(fills@.take(i as int)),
            decreases fills@.len() - i,
        {
            let fill = fills[i];
            assert(fills@.take(i + 1).drop_last() =~= fills@.take(i as int));
            assert(fills@.take(i + 1).last() == fill);
            sum = sum.wrapping_add(fill.quantity);
            self.book_fill(taker, fill);
            i = i + 1;
        }
        assert(fills@.take(i as int) =~= fills@);
        sum
    }

    fn book_fill(&mut self, taker: &Command, fill: Fill)
        ensures
            final(self)@ == filled(old(self)@, *taker, fill),
            final(self).wal == old(self).wal,
    {
        let match_no: u64 = self.next_match;
        if let Some(key) = self.key_of(fill.resting_id) {
            if let Some(maker) = self.live(key) {
                let left: u64 = maker.qty.saturating_sub(fill.quantity);
                if left == 0 {
                    self.by_client.remove(&key);
                    self.by_handle.remove(&fill.resting_id);
                } else {
                    let mut rest = maker;
                    rest.qty = left;
                    self.by_client.insert(key, rest);
                }
                self.next_match = bump(match_no);
                self.emit_fill(
                    taker.client_fd,
                    maker.client_fd,
                    EventTrade {
                        match_number: match_no,
                        maker_exchange_id: maker.handle,
                        maker_user_ref: maker.user_ref,
                        price: maker.price,
                        quantity: fill.quantity,
                        taker_side: taker.side,
                    },
                );
                return;
            }
        }
        self.next_match = bump(match_no);
        self.emit_fill(
            taker.client_fd,
            taker.client_fd,
            EventTrade {
                match_number: match_no,
                maker_exchange_id: fill.resting_id,
                maker_user_ref: 0,
                price: taker.price,
                quantity: fill.quantity,
                taker_side: taker.side,
            },
        );
    }

    fn key_of(&self, handle: u64) -> (r: Option<u64>)
        ensures
            match r {
                Some(key) => self@.by_handle.contains_key(handle) && self@.by_handle[handle] == key,
                None => !self@.by_handle.contains_key(handle),
            },
    {
        match self.by_handle.get(&handle) {
            Some(key) => Some(*key),
            None => None,
        }
    }

    fn live(&self, key: u64) -> (r: Option<Live>)
        ensures
            match r {
                Some(live) => self@.by_client.contains_key(key) && self@.by_client[key] == live,
                None => !self@.by_client.contains_key(key),
            },
    {
        match self.by_client.get(&key) {
            Some(live) => Some(*live),
            None => None,
        }
    }

    fn accept(&mut self, cmd: &Command, handle: u64, quantity: u64)
        ensures
            final(self)@ == emitted(old(self)@, acceptance(*cmd, handle, quantity)),
            final(self).wal == old(self).wal,
    {
        self.emit(
            Event::accepted(
                cmd.client_fd,
                EventOrder {
                    order_id: handle,
                    user_ref: cmd.user_ref,
                    price: cmd.price,
                    quantity,
                    side: cmd.side,
                    order_state: LIVE,
                    cl_ord_id: cmd.cl_ord_id,
                },
            ),
        );
    }

    fn reject(&mut self, cmd: &Command, reason: u16)
        ensures
            final(self)@ == emitted(old(self)@, refusal(*cmd, reason)),
            final(self).wal == old(self).wal,
    {
        self.emit(
            Event::rejected(
                cmd.client_fd,
                EventReject { user_ref: cmd.user_ref, reason, cl_ord_id: cmd.cl_ord_id },
            ),
        );
    }

    fn emit_cancelled(&mut self, live: &Live)
        ensures
            final(self)@ == emitted(old(self)@, cancellation(*live)),
            final(self).wal == old(self).wal,
    {
        self.emit(
            Event::cancelled(
                live.client_fd,
                EventOrder {
                    order_id: live.handle,
                    user_ref: live.user_ref,
                    price: live.price,
                    quantity: live.qty,
                    side: live.side,
                    order_state: DEAD,
                    cl_ord_id: live.cl_ord_id,
                },
            ),
        );
    }

    /// Publishes an event.
    pub fn emit(&mut self, evt: Event)
        ensures
            final(self)@ == emitted(old(self)@, evt),
            final(self).wal == old(self).wal,
    {
        if !self.publish {
            return;
        }
        match evt.ty {
            EventType::OrderRejected | EventType::BookReset => {
                self.ouch.push(evt);
            },
            _ => {
                self.ouch.push(evt);
                self.itch.push(evt);
            },
        }
    }

    /// Private acks go to both counterparties; the public tape gets one print.
    pub fn emit_fill(&mut self, taker_fd: i32, maker_fd: i32, trade: EventTrade)
        ensures
            final(self)@ == fill_emitted(old(self)@, taker_fd, maker_fd, trade),
            final(self).wal == old(self).wal,
    {
        if !self.publish {
            return;
        }
        let tape = Event::trade(taker_fd, trade);
        self.ouch.push(tape);
        self.itch.push(tape);
        if maker_fd != taker_fd {
            self.ouch.push(Event::trade(maker_fd, trade));
        }
    }
}

} // verus!
