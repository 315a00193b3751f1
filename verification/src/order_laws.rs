//! What the engine does with an order, told by the order's own fields: what it asks of the
//! book, what it remembers, and what it tells.

use vstd::prelude::*;

use crate::engine::{
    applied, emitted, fill_emitted, filled, filled_all, idle_engine, is_logged, settled, total,
    total64, BookError, EngineView, Fill, Live, Submit,
};
use crate::engine_laws::{beat, Answer, Beat};
use crate::types::{client_key, Command, CommandType, Event, EventTrade, EventType, Price, Side};
use crate::wal::WalView;

verus! {

/// The key of an order is the connection's number in the high half and the client's
/// reference in the low half.
pub proof fn lemma_key_is_connection_and_reference(fd: i32, user_ref: u32)
    ensures
        client_key(fd, user_ref) == (if fd < 0 {
            fd + 0x1_0000_0000
        } else {
            fd as int
        }) * 0x1_0000_0000 + user_ref,
{
}

/// Whether an event is about an order as the engine knows it.
pub open spec fn tells_live(evt: Event, ty: EventType, live: Live, state: u8) -> bool {
    &&& evt.ty == ty
    &&& evt.client_fd == live.client_fd
    &&& evt.order.order_id == live.handle
    &&& evt.order.user_ref == live.user_ref
    &&& evt.order.price == live.price
    &&& evt.order.quantity == live.qty
    &&& evt.order.side == live.side
    &&& evt.order.order_state == state
    &&& evt.order.cl_ord_id == live.cl_ord_id
}

/// Whether an event turns a command down.
pub open spec fn tells_refusal(evt: Event, cmd: Command, reason: u16) -> bool {
    &&& evt.ty == EventType::OrderRejected
    &&& evt.client_fd == cmd.client_fd
    &&& evt.reject.user_ref == cmd.user_ref
    &&& evt.reject.reason == reason
    &&& evt.reject.cl_ord_id == cmd.cl_ord_id
}

/// Whether nothing was told.
pub open spec fn silent(s: EngineView, t: EngineView) -> bool {
    t.ouch == s.ouch && t.itch == s.itch
}

/// Whether one event was told: to its connection, and on the tape if `public`. An engine
/// that does not publish tells nothing.
pub open spec fn told_one(s: EngineView, t: EngineView, public: bool) -> bool {
    if s.publish {
        &&& t.ouch.len() == s.ouch.len() + 1
        &&& t.ouch.drop_last() == s.ouch
        &&& public ==> t.itch == s.itch.push(t.ouch.last())
        &&& !public ==> t.itch == s.itch
    } else {
        silent(s, t)
    }
}

/// Whether switches, log and book size are as they were.
pub open spec fn same_setting(s: EngineView, t: EngineView) -> bool {
    &&& t.publish == s.publish
    &&& t.wal_enabled == s.wal_enabled
    &&& t.slab == s.slab
    &&& t.wal == s.wal
}

/// Cancelling an order that rests takes it out of the book, whichever side it is on:
/// the book is handed the order's own handle and nothing else is asked of it. The engine
/// forgets that order and no other, and tells its client what was left of it.
pub proof fn lemma_cancel_takes_the_order_out_of_the_book(s: EngineView, cmd: Command)
    requires
        cmd.ty == CommandType::Cancel,
        s.by_client.contains_key(client_key(cmd.client_fd, cmd.user_ref)),
    ensures
        ({
            let key = client_key(cmd.client_fd, cmd.user_ref);
            let live = s.by_client[key];
            let (t, req) = applied(s, cmd);
            &&& req.cancel == Some(live.handle)
            &&& req.submit is None
            &&& req.rebuild is None
            &&& t.by_client == s.by_client.remove(key)
            &&& t.by_handle == s.by_handle.remove(live.handle)
            &&& t.next_match == s.next_match
            &&& t.pending is None
            &&& same_setting(s, t)
            &&& told_one(s, t, true)
            &&& s.publish ==> tells_live(t.ouch.last(), EventType::OrderCancelled, live, 68)
        }),
{
    let t = applied(s, cmd).0;
    if s.publish {
        assert(t.ouch.drop_last() =~= s.ouch);
    }
}

/// Replacing an order that rests takes it out of the book in the same way, and then asks
/// the book to match an order with side, price and quantity of the command.
pub proof fn lemma_modify_takes_the_order_out_of_the_book(s: EngineView, cmd: Command)
    requires
        cmd.ty == CommandType::Modify,
        s.by_client.contains_key(client_key(cmd.client_fd, cmd.user_ref)),
    ensures
        ({
            let key = client_key(cmd.client_fd, cmd.user_ref);
            let live = s.by_client[key];
            let (t, req) = applied(s, cmd);
            &&& req.cancel == Some(live.handle)
            &&& req.submit matches Some(order)
            &&& order.side == cmd.side
            &&& order.price == cmd.price
            &&& order.quantity == cmd.quantity
            &&& req.rebuild is None
            &&& t.by_client == s.by_client.remove(key)
            &&& t.by_handle == s.by_handle.remove(live.handle)
            &&& t.next_match == s.next_match
            &&& t.pending == Some(Command { ty: CommandType::Add, ..cmd })
            &&& same_setting(s, t)
            &&& told_one(s, t, true)
            &&& s.publish ==> tells_live(t.ouch.last(), EventType::OrderCancelled, live, 68)
        }),
{
    let t = applied(s, cmd).0;
    if s.publish {
        assert(t.ouch.drop_last() =~= s.ouch);
    }
}

/// Replacing an order that is not known is a new order.
pub proof fn lemma_modify_of_an_unknown_order_is_new(s: EngineView, cmd: Command)
    requires
        cmd.ty == CommandType::Modify,
        !s.by_client.contains_key(client_key(cmd.client_fd, cmd.user_ref)),
    ensures
        applied(s, cmd) == applied(s, Command { ty: CommandType::Add, ..cmd }),
{
}

/// An order leaves what the engine remembers, by a command alone, exactly when its handle
/// is handed to the book for removal or the whole book is emptied.
pub proof fn lemma_orders_leave_engine_and_book_together(s: EngineView, cmd: Command, k: u64)
    requires
        s.by_client.contains_key(k),
    ensures
        ({
            let (t, req) = applied(s, cmd);
            let named = k == client_key(cmd.client_fd, cmd.user_ref) && (cmd.ty
                == CommandType::Cancel || cmd.ty == CommandType::Modify);
            &&& t.by_client.contains_key(k) == !(named || cmd.ty == CommandType::Reset)
            &&& named ==> req.cancel == Some(s.by_client[k].handle)
            &&& t.by_client.contains_key(k) ==> t.by_client[k] == s.by_client[k]
            &&& (req.rebuild is Some) == (cmd.ty == CommandType::Reset)
        }),
{
}

/// The book is asked to remove an order only by a cancel or a replace of an order that the
/// engine knows, and then that order.
pub proof fn lemma_book_removes_only_what_is_named(s: EngineView, cmd: Command)
    ensures
        ({
            let key = client_key(cmd.client_fd, cmd.user_ref);
            let req = applied(s, cmd).1;
            req.cancel == (if (cmd.ty == CommandType::Cancel || cmd.ty == CommandType::Modify)
                && s.by_client.contains_key(key) {
                Some(s.by_client[key].handle)
            } else {
                None
            })
        }),
{
}

/// A new order under a fresh key goes to the book with its own side, price and quantity;
/// until the book answers, the engine remembers and tells nothing more.
pub proof fn lemma_new_order_goes_to_the_book(s: EngineView, cmd: Command)
    requires
        cmd.ty == CommandType::Add,
        !s.by_client.contains_key(client_key(cmd.client_fd, cmd.user_ref)),
    ensures
        ({
            let (t, req) = applied(s, cmd);
            &&& req.submit == Some(
                Submit { side: cmd.side, price: cmd.price, quantity: cmd.quantity },
            )
            &&& req.cancel is None
            &&& req.rebuild is None
            &&& t.pending == Some(cmd)
            &&& t.by_client == s.by_client
            &&& t.by_handle == s.by_handle
            &&& t.next_match == s.next_match
            &&& same_setting(s, t)
            &&& silent(s, t)
        }),
{
}

/// A new order under a key that is in use is turned down with reason zero, privately, and
/// the order that rests under the key stays as it is.
pub proof fn lemma_new_order_under_a_used_key(s: EngineView, cmd: Command)
    requires
        cmd.ty == CommandType::Add,
        s.by_client.contains_key(client_key(cmd.client_fd, cmd.user_ref)),
    ensures
        ({
            let (t, req) = applied(s, cmd);
            &&& req.submit is None && req.cancel is None && req.rebuild is None
            &&& t.pending is None
            &&& t.by_client == s.by_client
            &&& t.by_handle == s.by_handle
            &&& t.next_match == s.next_match
            &&& same_setting(s, t)
            &&& told_one(s, t, false)
            &&& s.publish ==> tells_refusal(t.ouch.last(), cmd, 0)
        }),
{
    let t = applied(s, cmd).0;
    if s.publish {
        assert(t.ouch.drop_last() =~= s.ouch);
    }
}

/// A cancel of an order that is not known, and a stop, change nothing.
pub proof fn lemma_nothing_to_do(s: EngineView, cmd: Command)
    requires
        cmd.ty == CommandType::Poison || (cmd.ty == CommandType::Cancel
            && !s.by_client.contains_key(client_key(cmd.client_fd, cmd.user_ref))),
    ensures
        ({
            let (t, req) = applied(s, cmd);
            &&& req.submit is None && req.cancel is None && req.rebuild is None
            &&& t.pending is None
            &&& t.by_client == s.by_client
            &&& t.by_handle == s.by_handle
            &&& t.next_match == s.next_match
            &&& same_setting(s, t)
            &&& silent(s, t)
        }),
{
}

/// A reset empties engine and book, numbers matches from one again, and is told, privately,
/// to no connection in particular.
pub proof fn lemma_reset_empties_engine_and_book(s: EngineView, cmd: Command)
    requires
        cmd.ty == CommandType::Reset,
    ensures
        ({
            let (t, req) = applied(s, cmd);
            &&& req.rebuild == Some(s.slab)
            &&& req.submit is None && req.cancel is None
            &&& t.pending is None
            &&& t.by_client.dom() == Set::<u64>::empty()
            &&& t.by_handle.dom() == Set::<u64>::empty()
            &&& t.next_match == 1
            &&& same_setting(s, t)
            &&& told_one(s, t, false)
            &&& s.publish ==> t.ouch.last().ty == EventType::BookReset && t.ouch.last().client_fd
                == -1
        }),
{
    let t = applied(s, cmd).0;
    if s.publish {
        assert(t.ouch.drop_last() =~= s.ouch);
    }
    assert(t.by_client.dom() =~= Set::<u64>::empty());
    assert(t.by_handle.dom() =~= Set::<u64>::empty());
}

/// The quantity of a list of fills is the sum of their quantities.
pub proof fn lemma_fills_add_up(fills: Seq<Fill>, fill: Fill)
    ensures
        total(Seq::<Fill>::empty()) == 0,
        total(fills.push(fill)) == total(fills) + fill.quantity,
        total(fills) <= u64::MAX ==> total64(fills) == total(fills),
{
    assert(fills.push(fill).drop_last() =~= fills);
}

/// An order that comes to rest is remembered under its key with the book's handle, with
/// what was not filled, and with everything else as the client sent it; and its client
/// and the tape are told so.
pub proof fn lemma_resting_order_is_remembered(
    s: EngineView,
    cmd: Command,
    handle: u64,
    fills: Seq<Fill>,
)
    requires
        total(fills) <= u64::MAX,
    ensures
        ({
            let before = filled_all(EngineView { pending: None, ..s }, cmd, fills);
            let t = settled(s, cmd, Ok(Some(handle)), fills);
            let key = client_key(cmd.client_fd, cmd.user_ref);
            let live = t.by_client[key];
            let left: int = if total(fills) < cmd.quantity {
                cmd.quantity - total(fills)
            } else {
                0
            };
            &&& t.by_client == before.by_client.insert(key, live)
            &&& t.by_handle == before.by_handle.insert(handle, key)
            &&& live.handle == handle
            &&& live.price == cmd.price
            &&& live.qty == left
            &&& live.side == cmd.side
            &&& live.cl_ord_id == cmd.cl_ord_id
            &&& live.client_fd == cmd.client_fd
            &&& live.user_ref == cmd.user_ref
            &&& t.next_match == before.next_match
            &&& t.pending is None
            &&& same_setting(before, t)
            &&& told_one(before, t, true)
            &&& before.publish ==> tells_live(t.ouch.last(), EventType::OrderAccepted, live, 76)
        }),
{
    let before = filled_all(EngineView { pending: None, ..s }, cmd, fills);
    let t = settled(s, cmd, Ok(Some(handle)), fills);
    lemma_filled_all_keeps(EngineView { pending: None, ..s }, cmd, fills);
    if before.publish {
        assert(t.ouch.drop_last() =~= before.ouch);
    }
}

/// An order that is filled at once is not remembered, and nothing but its fills is told.
pub proof fn lemma_filled_order_is_not_remembered(s: EngineView, cmd: Command, fills: Seq<Fill>)
    ensures
        settled(s, cmd, Ok(None), fills) == filled_all(
            EngineView { pending: None, ..s },
            cmd,
            fills,
        ),
{
}

/// An order that the book does not take is turned down, privately: with reason one if the
/// book is full, else with reason zero. Nothing else changes.
pub proof fn lemma_order_that_the_book_refuses(
    s: EngineView,
    cmd: Command,
    err: BookError,
    fills: Seq<Fill>,
)
    ensures
        ({
            let t = settled(s, cmd, Err(err), fills);
            &&& t.by_client == s.by_client
            &&& t.by_handle == s.by_handle
            &&& t.next_match == s.next_match
            &&& t.pending is None
            &&& same_setting(s, t)
            &&& told_one(s, t, false)
            &&& s.publish ==> tells_refusal(
                t.ouch.last(),
                cmd,
                if err == BookError::SlabFull {
                    1
                } else {
                    0
                },
            )
        }),
{
    let t = settled(s, cmd, Err(err), fills);
    if s.publish {
        assert(t.ouch.drop_last() =~= s.ouch);
    }
}

/// Whether an event tells of a trade.
pub open spec fn tells_trade(
    evt: Event,
    fd: i32,
    number: u64,
    id: u64,
    user_ref: u32,
    price: Price,
    quantity: u64,
    taker_side: Side,
) -> bool {
    &&& evt.ty == EventType::TradeExecuted
    &&& evt.client_fd == fd
    &&& evt.trade.match_number == number
    &&& evt.trade.maker_exchange_id == id
    &&& evt.trade.maker_user_ref == user_ref
    &&& evt.trade.price == price
    &&& evt.trade.quantity == quantity
    &&& evt.trade.taker_side == taker_side
}

/// A fill of an order that the engine knows: the trade is at that order's price, under the
/// next match number, with the maker's id and reference and the taker's side. It goes to
/// the taker, to the maker if that is another connection, and once on the tape. The maker's
/// order loses the quantity, and is forgotten when nothing is left.
pub proof fn lemma_fill_of_a_known_order(s: EngineView, taker: Command, fill: Fill)
    requires
        s.by_handle.contains_key(fill.resting_id),
        s.by_client.contains_key(s.by_handle[fill.resting_id]),
    ensures
        ({
            let key = s.by_handle[fill.resting_id];
            let maker = s.by_client[key];
            let t = filled(s, taker, fill);
            let gone = fill.quantity >= maker.qty;
            let both = maker.client_fd != taker.client_fd;
            let told = |evt: Event, fd: i32|
                tells_trade(
                    evt,
                    fd,
                    s.next_match,
                    maker.handle,
                    maker.user_ref,
                    maker.price,
                    fill.quantity,
                    taker.side,
                );
            &&& gone ==> t.by_client == s.by_client.remove(key) && t.by_handle
                == s.by_handle.remove(fill.resting_id)
            &&& !gone ==> t.by_client == s.by_client.insert(
                key,
                Live { qty: (maker.qty - fill.quantity) as u64, ..maker },
            ) && t.by_handle == s.by_handle
            &&& t.next_match == (if s.next_match == u64::MAX {
                0
            } else {
                (s.next_match + 1) as u64
            })
            &&& t.pending == s.pending
            &&& same_setting(s, t)
            &&& !s.publish ==> silent(s, t)
            &&& s.publish ==> {
                let n = s.ouch.len() as int;
                &&& t.itch.len() == s.itch.len() + 1
                &&& t.itch.drop_last() == s.itch
                &&& told(t.itch.last(), taker.client_fd)
                &&& t.ouch.len() == n + (if both {
                    2int
                } else {
                    1int
                })
                &&& t.ouch.take(n) == s.ouch
                &&& told(t.ouch[n], taker.client_fd)
                &&& both ==> told(t.ouch[n + 1], maker.client_fd)
            }
        }),
{
    let t = filled(s, taker, fill);
    if s.publish {
        let n = s.ouch.len() as int;
        assert(t.itch.drop_last() =~= s.itch);
        assert(t.ouch.take(n) =~= s.ouch);
    }
}

/// A fill of an order that the engine does not know: the trade is at the taker's price and
/// goes to the taker and on the tape; no order changes.
pub proof fn lemma_fill_of_an_unknown_order(s: EngineView, taker: Command, fill: Fill)
    requires
        !(s.by_handle.contains_key(fill.resting_id) && s.by_client.contains_key(
            s.by_handle[fill.resting_id],
        )),
    ensures
        ({
            let t = filled(s, taker, fill);
            &&& t.by_client == s.by_client
            &&& t.by_handle == s.by_handle
            &&& t.next_match == (if s.next_match == u64::MAX {
                0
            } else {
                (s.next_match + 1) as u64
            })
            &&& t.pending == s.pending
            &&& same_setting(s, t)
            &&& told_one(s, t, true)
            &&& s.publish ==> tells_trade(
                t.ouch.last(),
                taker.client_fd,
                s.next_match,
                fill.resting_id,
                0,
                taker.price,
                fill.quantity,
                taker.side,
            )
        }),
{
    let t = filled(s, taker, fill);
    if s.publish {
        assert(t.ouch.drop_last() =~= s.ouch);
    }
}

proof fn lemma_filled_all_keeps(s: EngineView, taker: Command, fills: Seq<Fill>)
    ensures
        filled_all(s, taker, fills).pending == s.pending,
        same_setting(s, filled_all(s, taker, fills)),
    decreases fills.len(),
{
    if fills.len() > 0 {
        lemma_filled_all_keeps(s, taker, fills.drop_last());
    }
}

/// Fills are booked one after the other, in the book's order.
pub proof fn lemma_fills_are_booked_in_order(
    s: EngineView,
    taker: Command,
    fills: Seq<Fill>,
    fill: Fill,
)
    ensures
        filled_all(s, taker, Seq::<Fill>::empty()) == s,
        filled_all(s, taker, fills.push(fill)) == filled(filled_all(s, taker, fills), taker, fill),
{
    assert(fills.push(fill).drop_last() =~= fills);
}

/// The tape gets one print for each fill, in order, with the fill's quantity and the next
/// match number.
pub proof fn lemma_tape_prints_every_fill(
    s: EngineView,
    taker: Command,
    fills: Seq<Fill>,
    i: int,
)
    requires
        s.publish,
        0 <= i < fills.len(),
        s.next_match + fills.len() <= u64::MAX,
    ensures
        ({
            let t = filled_all(s, taker, fills);
            &&& t.itch.len() == s.itch.len() + fills.len()
            &&& t.next_match == s.next_match + fills.len()
            &&& t.itch.take(s.itch.len() as int) == s.itch
            &&& t.itch[s.itch.len() + i].ty == EventType::TradeExecuted
            &&& t.itch[s.itch.len() + i].client_fd == taker.client_fd
            &&& t.itch[s.itch.len() + i].trade.quantity == fills[i].quantity
            &&& t.itch[s.itch.len() + i].trade.match_number == s.next_match + i
            &&& t.itch[s.itch.len() + i].trade.taker_side == taker.side
        }),
    decreases fills.len(),
{
    let before = fills.drop_last();
    let b = filled_all(s, taker, before);
    let t = filled_all(s, taker, fills);
    let last = fills.last();
    lemma_filled_all_keeps(s, taker, before);
    if before.len() > 0 {
        let j = if i < before.len() {
            i
        } else {
            0
        };
        lemma_tape_prints_every_fill(s, taker, before, j);
    } else {
        assert(s.itch.take(s.itch.len() as int) =~= s.itch);
    }
    assert(b.publish);
    if b.by_handle.contains_key(last.resting_id) && b.by_client.contains_key(
        b.by_handle[last.resting_id],
    ) {
        lemma_fill_of_a_known_order(b, taker, last);
    } else {
        lemma_fill_of_an_unknown_order(b, taker, last);
    }
    assert(t.itch.drop_last() =~= b.itch);
    assert(t.itch.take(s.itch.len() as int) =~= b.itch.take(s.itch.len() as int));
    if i < before.len() {
        assert(t.itch[s.itch.len() + i] == b.itch[s.itch.len() + i]);
    }
}

/// Whoever publishes an event tells it privately; on the tape as well unless it is a
/// refusal or a reset; and an engine that does not publish tells nothing.
pub proof fn lemma_events_are_told(s: EngineView, evt: Event)
    ensures
        ({
            let t = emitted(s, evt);
            let public = evt.ty != EventType::OrderRejected && evt.ty != EventType::BookReset;
            &&& told_one(s, t, public)
            &&& s.publish ==> t.ouch.last() == evt
            &&& t.by_client == s.by_client && t.by_handle == s.by_handle
            &&& t.next_match == s.next_match && t.pending == s.pending
            &&& same_setting(s, t)
        }),
{
    let t = emitted(s, evt);
    if s.publish {
        assert(t.ouch.drop_last() =~= s.ouch);
    }
}

/// The log takes every command but a stop, as long as it is switched on.
pub proof fn lemma_every_command_is_logged(s: EngineView, cmd: Command)
    ensures
        is_logged(s, cmd) == (s.wal_enabled && (cmd.ty == CommandType::Add || cmd.ty
            == CommandType::Modify || cmd.ty == CommandType::Cancel || cmd.ty
            == CommandType::Reset)),
{
}

/// Once an order was cancelled its key is free for a new one, and cancelling it again asks
/// nothing of the book.
pub proof fn lemma_cancelled_key_is_free(s: EngineView, cancel: Command, add: Command)
    requires
        cancel.ty == CommandType::Cancel,
        add.ty == CommandType::Add,
        add.client_fd == cancel.client_fd,
        add.user_ref == cancel.user_ref,
    ensures
        applied(applied(s, cancel).0, add).1.submit is Some,
        applied(applied(applied(s, cancel).0, cancel).0, cancel).1.cancel is None,
{
}

/// A new order that comes to rest and is then cancelled leaves the engine's memory as it
/// was, and the book is handed the very handle that it gave.
pub proof fn lemma_add_then_cancel_undoes_itself(
    s: EngineView,
    add: Command,
    cancel: Command,
    handle: u64,
)
    requires
        add.ty == CommandType::Add,
        cancel.ty == CommandType::Cancel,
        cancel.client_fd == add.client_fd,
        cancel.user_ref == add.user_ref,
        !s.by_client.contains_key(client_key(add.client_fd, add.user_ref)),
        !s.by_handle.contains_key(handle),
    ensures
        ({
            let b = Beat {
                cmd: add,
                answer: Answer { placed: Ok(Some(handle)), fills: Seq::empty() },
            };
            let t = beat(s, b);
            let (u, req) = applied(t, cancel);
            &&& req.cancel == Some(handle)
            &&& u.by_client == s.by_client
            &&& u.by_handle == s.by_handle
            &&& u.next_match == s.next_match
        }),
{
    let b = Beat {
        cmd: add,
        answer: Answer { placed: Ok(Some(handle)), fills: Seq::empty() },
    };
    let t = beat(s, b);
    let u = applied(t, cancel).0;
    assert(u.by_client =~= s.by_client);
    assert(u.by_handle =~= s.by_handle);
}

/// A fresh engine knows no order, numbers matches from one, logs, and does not publish yet.
pub proof fn lemma_fresh_engine(slab: usize, wal: WalView)
    ensures
        ({
            let s = idle_engine(slab, wal);
            &&& s.by_client.dom() == Set::<u64>::empty()
            &&& s.by_handle.dom() == Set::<u64>::empty()
            &&& s.next_match == 1
            &&& !s.publish
            &&& s.wal_enabled
            &&& s.slab == slab
            &&& s.wal == wal
            &&& s.ouch.len() == 0 && s.itch.len() == 0
            &&& s.pending is None
        }),
{
    let s = idle_engine(slab, wal);
    assert(s.by_client.dom() =~= Set::<u64>::empty());
    assert(s.by_handle.dom() =~= Set::<u64>::empty());
}

/// A trade is told to the taker first, then to the maker if that is another connection, and
/// printed once, under the taker's connection.
pub proof fn lemma_trade_is_told(s: EngineView, taker_fd: i32, maker_fd: i32, trade: EventTrade)
    ensures
        ({
            let t = fill_emitted(s, taker_fd, maker_fd, trade);
            let n = s.ouch.len() as int;
            let both = taker_fd != maker_fd;
            &&& !s.publish ==> silent(s, t)
            &&& s.publish ==> {
                &&& t.itch.len() == s.itch.len() + 1
                &&& t.itch.drop_last() == s.itch
                &&& t.itch.last() == t.ouch[n]
                &&& t.ouch.len() == n + (if both {
                    2int
                } else {
                    1int
                })
                &&& t.ouch.take(n) == s.ouch
                &&& t.ouch[n].ty == EventType::TradeExecuted
                &&& t.ouch[n].client_fd == taker_fd && t.ouch[n].trade == trade
                &&& both ==> t.ouch[n + 1].ty == EventType::TradeExecuted && t.ouch[n
                    + 1].client_fd == maker_fd && t.ouch[n + 1].trade == trade
            }
            &&& t.by_client == s.by_client && t.by_handle == s.by_handle
            &&& t.next_match == s.next_match && t.pending == s.pending
            &&& same_setting(s, t)
        }),
{
    let t = fill_emitted(s, taker_fd, maker_fd, trade);
    if s.publish {
        assert(t.itch.drop_last() =~= s.itch);
        assert(t.ouch.take(s.ouch.len() as int) =~= s.ouch);
    }
}

} // verus!
