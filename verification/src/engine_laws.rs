//! What holds of every engine, whatever it is told and whatever the book answers.

use vstd::prelude::*;

use crate::bytes::run;
use crate::engine::{
    acceptance, added, applied, cancellation, cancelled, emitted, filled, filled_all, idle_engine,
    is_logged, is_public, less, no_request, refusal, rested, settled, total, total64, tracks,
    trade_of, BookError, EngineView, Fill, Live,
};
use crate::types::{
    client_key, lemma_client_key_injective, reset_event, trade_event, Command, CommandType, Event,
    EventType,
};
use crate::wal::{commands, frame_count, recovered, written, written_image, WalView};
use crate::wal_laws::{
    kept, kept_all, lemma_recovery_gives_back_what_was_written, lemma_zeroed_image_is_blank,
    written_all,
};

verus! {

/// What the book answers when it is asked to match an order.
pub struct Answer {
    pub placed: Result<Option<u64>, BookError>,
    pub fills: Seq<Fill>,
}

/// A command, and what the book answered if it was asked.
pub struct Beat {
    pub cmd: Command,
    pub answer: Answer,
}

/// The engine after a command and, if the book was asked, its answer.
pub open spec fn beat(s: EngineView, b: Beat) -> EngineView {
    let s1 = applied(s, b.cmd).0;
    match s1.pending {
        Some(cmd) => settled(s1, cmd, b.answer.placed, b.answer.fills),
        None => s1,
    }
}

/// The engine after a run of beats.
pub open spec fn played(s: EngineView, beats: Seq<Beat>) -> EngineView
    decreases beats.len(),
{
    if beats.len() == 0 {
        s
    } else {
        beat(played(s, beats.drop_last()), beats.last())
    }
}

/// What the log keeps of a beat's command.
pub open spec fn logged(b: Beat) -> Beat {
    Beat { cmd: kept(b.cmd), answer: b.answer }
}

pub open spec fn kept_pending(p: Option<Command>) -> Option<Command> {
    match p {
        Some(cmd) => Some(kept(cmd)),
        None => None,
    }
}

/// Whether two engines know the same of the book.
pub open spec fn same_book(a: EngineView, b: EngineView) -> bool {
    &&& a.by_client == b.by_client
    &&& a.by_handle == b.by_handle
    &&& a.next_match == b.next_match
    &&& a.slab == b.slab
    &&& kept_pending(a.pending) == kept_pending(b.pending)
}

proof fn lemma_same_book_filled_all(a: EngineView, b: EngineView, taker: Command, fills: Seq<Fill>)
    requires
        same_book(a, b),
    ensures
        same_book(filled_all(a, taker, fills), filled_all(b, kept(taker), fills)),
        filled_all(a, taker, fills).pending == a.pending,
        filled_all(b, kept(taker), fills).pending == b.pending,
    decreases fills.len(),
{
    if fills.len() > 0 {
        lemma_same_book_filled_all(a, b, taker, fills.drop_last());
    }
}

/// Two engines that know the same of the book do the same with a command, and
/// know the same afterwards, whether they publish or not, and with or without
/// what the log does not keep.
pub proof fn lemma_publishing_changes_no_state(a: EngineView, b: EngineView, bt: Beat)
    requires
        same_book(a, b),
    ensures
        applied(a, bt.cmd).1 == applied(b, kept(bt.cmd)).1,
        same_book(beat(a, bt), beat(b, logged(bt))),
{
    let a1 = applied(a, bt.cmd).0;
    let b1 = applied(b, kept(bt.cmd)).0;
    assert(same_book(a1, b1));
    if let Some(cmd) = a1.pending {
        let a2 = EngineView { pending: None, ..a1 };
        let b2 = EngineView { pending: None, ..b1 };
        lemma_same_book_filled_all(a2, b2, cmd, bt.answer.fills);
    }
}

/// Replaying the log of a run, with the same answers from the book, brings a fresh
/// engine to where the run left the first one.
pub proof fn lemma_replay_restores_the_engine(a: EngineView, b: EngineView, beats: Seq<Beat>)
    requires
        same_book(a, b),
    ensures
        same_book(played(a, beats), played(b, beats.map_values(|bt: Beat| logged(bt)))),
    decreases beats.len(),
{
    let log = beats.map_values(|bt: Beat| logged(bt));
    if beats.len() > 0 {
        lemma_replay_restores_the_engine(a, b, beats.drop_last());
        assert(log.drop_last() =~= beats.drop_last().map_values(|bt: Beat| logged(bt)));
        lemma_publishing_changes_no_state(
            played(a, beats.drop_last()),
            played(b, log.drop_last()),
            beats.last(),
        );
    }
}

/// Whether a tape goes on from another with nothing but public events.
pub open spec fn tape_goes_on(a: Seq<Event>, b: Seq<Event>) -> bool {
    &&& a.len() <= b.len()
    &&& b.take(a.len() as int) == a
    &&& forall|i: int| a.len() <= i < b.len() ==> is_public(#[trigger] b[i])
}

proof fn lemma_tape_transitive(a: Seq<Event>, b: Seq<Event>, c: Seq<Event>)
    requires
        tape_goes_on(a, b),
        tape_goes_on(b, c),
    ensures
        tape_goes_on(a, c),
{
    let n = a.len() as int;
    assert(c.take(n) =~= c.take(b.len() as int).take(n));
    assert forall|i: int| n <= i < c.len() implies is_public(#[trigger] c[i]) by {
        if i < b.len() {
            assert(c.take(b.len() as int)[i] == c[i]);
            assert(b[i] == c[i]);
        }
    }
}

proof fn lemma_tape_same(a: Seq<Event>)
    ensures
        tape_goes_on(a, a),
{
    assert(a.take(a.len() as int) =~= a);
}

proof fn lemma_tape_push(a: Seq<Event>, evt: Event)
    requires
        is_public(evt),
    ensures
        tape_goes_on(a, a.push(evt)),
{
    assert(a.push(evt).take(a.len() as int) =~= a);
}

proof fn lemma_emitted_tape(s: EngineView, evt: Event)
    ensures
        tape_goes_on(s.itch, emitted(s, evt).itch),
{
    lemma_tape_same(s.itch);
    if is_public(evt) {
        lemma_tape_push(s.itch, evt);
    }
}

proof fn lemma_filled_all_events(s: EngineView, taker: Command, fills: Seq<Fill>)
    ensures
        filled_all(s, taker, fills).publish == s.publish,
        !s.publish ==> filled_all(s, taker, fills).ouch == s.ouch && filled_all(
            s,
            taker,
            fills,
        ).itch == s.itch,
        tape_goes_on(s.itch, filled_all(s, taker, fills).itch),
    decreases fills.len(),
{
    lemma_tape_same(s.itch);
    if fills.len() > 0 {
        let t = filled_all(s, taker, fills.drop_last());
        lemma_filled_all_events(s, taker, fills.drop_last());
        lemma_tape_same(t.itch);
        lemma_tape_push(
            t.itch,
            trade_event(taker.client_fd, trade_of(t, taker, fills.last())),
        );
        lemma_tape_transitive(s.itch, t.itch, filled_all(s, taker, fills).itch);
    }
}

/// An engine that does not publish adds no event, public or private.
pub proof fn lemma_quiet_engine_prints_nothing(s: EngineView, b: Beat)
    requires
        !s.publish,
    ensures
        beat(s, b).ouch == s.ouch,
        beat(s, b).itch == s.itch,
        !beat(s, b).publish,
{
    let s1 = applied(s, b.cmd).0;
    if let Some(cmd) = s1.pending {
        lemma_filled_all_events(EngineView { pending: None, ..s1 }, cmd, b.answer.fills);
    }
}

proof fn lemma_applied_tape(s: EngineView, cmd: Command)
    ensures
        tape_goes_on(s.itch, applied(s, cmd).0.itch),
{
    let s0 = EngineView { pending: None, ..s };
    lemma_tape_same(s.itch);
    lemma_emitted_tape(s0, refusal(cmd, 0));
    let key = client_key(cmd.client_fd, cmd.user_ref);
    let live = s.by_client[key];
    let gone = EngineView {
        by_client: s.by_client.remove(key),
        by_handle: s.by_handle.remove(live.handle),
        ..s0
    };
    lemma_emitted_tape(gone, cancellation(live));
    let s1 = cancelled(s0, cmd).0;
    lemma_emitted_tape(s1, refusal(Command { ty: CommandType::Add, ..cmd }, 0));
    lemma_tape_same(s1.itch);
    lemma_tape_transitive(
        s.itch,
        s1.itch,
        added(s1, Command { ty: CommandType::Add, ..cmd }).0.itch,
    );
}

/// No refusal and no reset goes on the public tape, and what is on it stays.
pub proof fn lemma_tape_is_public(s: EngineView, b: Beat)
    ensures
        tape_goes_on(s.itch, beat(s, b).itch),
{
    let s1 = applied(s, b.cmd).0;
    lemma_applied_tape(s, b.cmd);
    if let Some(cmd) = s1.pending {
        let s2 = EngineView { pending: None, ..s1 };
        lemma_filled_all_events(s2, cmd, b.answer.fills);
        let s3 = filled_all(s2, cmd, b.answer.fills);
        lemma_tape_same(s2.itch);
        match b.answer.placed {
            Ok(Some(handle)) => {
                let remaining = less(cmd.quantity, total64(b.answer.fills));
                let t = rested(s3, cmd, handle, remaining);
                let before = EngineView {
                    by_client: t.by_client,
                    by_handle: t.by_handle,
                    ..s3
                };
                lemma_emitted_tape(before, acceptance(cmd, handle, remaining));
                lemma_tape_transitive(s2.itch, s3.itch, t.itch);
            },
            Ok(None) => {},
            Err(e) => {
                lemma_emitted_tape(s2, refusal(cmd, 1));
                lemma_emitted_tape(s2, refusal(cmd, 0));
            },
        }
        lemma_tape_transitive(s.itch, s2.itch, beat(s, b).itch);
    }
}

/// A fill is printed once on the tape, and told to the taker and, if it is another
/// connection, to the maker: the same trade to both, at the maker's resting price.
pub proof fn lemma_fill_acks_both_and_prints_once(s: EngineView, taker: Command, fill: Fill)
    requires
        s.publish,
        tracks(s, fill),
    ensures
        ({
            let maker = s.by_client[s.by_handle[fill.resting_id]];
            let trade = trade_of(s, taker, fill);
            let print = trade_event(taker.client_fd, trade);
            &&& trade.price == maker.price
            &&& trade.maker_user_ref == maker.user_ref
            &&& trade.quantity == fill.quantity
            &&& filled(s, taker, fill).itch == s.itch.push(print)
            &&& filled(s, taker, fill).ouch == (if maker.client_fd == taker.client_fd {
                s.ouch.push(print)
            } else {
                s.ouch.push(print).push(trade_event(maker.client_fd, trade))
            })
        }),
{
}

/// A fill takes its quantity off the maker's order, which is forgotten exactly when
/// nothing is left of it; every other order stays as it is.
pub proof fn lemma_fill_reduces_the_maker(s: EngineView, taker: Command, fill: Fill, other: u64)
    requires
        tracks(s, fill),
        other != s.by_handle[fill.resting_id],
    ensures
        ({
            let key = s.by_handle[fill.resting_id];
            let maker = s.by_client[key];
            let t = filled(s, taker, fill);
            &&& t.by_client.contains_key(key) == (fill.quantity < maker.qty)
            &&& fill.quantity < maker.qty ==> t.by_client[key] == (Live {
                qty: (maker.qty - fill.quantity) as u64,
                ..maker
            })
            &&& t.by_client.contains_key(other) == s.by_client.contains_key(other)
            &&& s.by_client.contains_key(other) ==> t.by_client[other] == s.by_client[other]
        }),
{
}

/// Match numbers count the fills, without a gap.
pub proof fn lemma_match_numbers_count_fills(s: EngineView, taker: Command, fills: Seq<Fill>)
    requires
        s.next_match + fills.len() <= u64::MAX,
    ensures
        filled_all(s, taker, fills).next_match == s.next_match + fills.len(),
    decreases fills.len(),
{
    if fills.len() > 0 {
        lemma_match_numbers_count_fills(s, taker, fills.drop_last());
    }
}

/// A modify is a cancel followed by a new order.
pub proof fn lemma_modify_is_cancel_then_add(s: EngineView, cmd: Command)
    requires
        cmd.ty == CommandType::Modify,
    ensures
        applied(s, cmd).0 == applied(
            applied(s, Command { ty: CommandType::Cancel, ..cmd }).0,
            Command { ty: CommandType::Add, ..cmd },
        ).0,
        applied(s, cmd).1.cancel == applied(s, Command { ty: CommandType::Cancel, ..cmd }).1.cancel,
        applied(s, cmd).1.submit == applied(
            applied(s, Command { ty: CommandType::Cancel, ..cmd }).0,
            Command { ty: CommandType::Add, ..cmd },
        ).1.submit,
        applied(s, cmd).1.submit is Some,
{
}

/// A new order under a key that is in use is refused with reason zero, and the
/// book is not asked.
pub proof fn lemma_duplicate_key_is_refused(s: EngineView, cmd: Command)
    requires
        cmd.ty == CommandType::Add,
        s.by_client.contains_key(client_key(cmd.client_fd, cmd.user_ref)),
    ensures
        applied(s, cmd).1 == no_request(),
        applied(s, cmd).0.by_client == s.by_client,
        applied(s, cmd).0.by_handle == s.by_handle,
        s.publish ==> applied(s, cmd).0.ouch == s.ouch.push(refusal(cmd, 0)),
        applied(s, cmd).0.itch == s.itch,
{
}

/// A cancel of an order that the engine does not know changes nothing, tells
/// nobody and asks nothing of the book.
pub proof fn lemma_unknown_cancel_is_silent(s: EngineView, cmd: Command)
    requires
        cmd.ty == CommandType::Cancel,
        !s.by_client.contains_key(client_key(cmd.client_fd, cmd.user_ref)),
    ensures
        applied(s, cmd) == (EngineView { pending: None, ..s }, no_request()),
{
}

/// After a reset the engine knows no order, numbers matches from one, and asks for
/// an empty book.
pub proof fn lemma_reset_forgets(s: EngineView, cmd: Command)
    requires
        cmd.ty == CommandType::Reset,
    ensures
        applied(s, cmd).0.by_client == Map::<u64, Live>::empty(),
        applied(s, cmd).0.by_handle == Map::<u64, u64>::empty(),
        applied(s, cmd).0.next_match == 1,
        applied(s, cmd).1.rebuild == Some(s.slab),
{
}

/// Whether the order under a key is found by its handle, and stands under the key of
/// its connection and reference.
pub open spec fn order_is_found(s: EngineView, k: u64) -> bool {
    let live = s.by_client[k];
    &&& s.by_handle.contains_key(live.handle)
    &&& s.by_handle[live.handle] == k
    &&& client_key(live.client_fd, live.user_ref) == k
}

/// Whether a handle leads to its order.
pub open spec fn handle_is_found(s: EngineView, h: u64) -> bool {
    s.by_client.contains_key(s.by_handle[h]) && s.by_client[s.by_handle[h]].handle == h
}

/// Whether both maps of an engine tell the same, and no order that waits for the
/// book is known already.
pub open spec fn consistent(s: EngineView) -> bool {
    &&& forall|k: u64| #[trigger] s.by_client.contains_key(k) ==> order_is_found(s, k)
    &&& forall|h: u64| #[trigger] s.by_handle.contains_key(h) ==> handle_is_found(s, h)
    &&& s.pending matches Some(cmd) ==> !s.by_client.contains_key(
        client_key(cmd.client_fd, cmd.user_ref),
    )
}

/// A fresh engine is consistent.
pub proof fn lemma_idle_is_consistent(slab: usize, wal: WalView)
    ensures
        consistent(idle_engine(slab, wal)),
{
}

proof fn lemma_filled_is_consistent(s: EngineView, taker: Command, fill: Fill)
    requires
        consistent(s),
    ensures
        consistent(filled(s, taker, fill)),
        forall|k: u64| #[trigger]
            filled(s, taker, fill).by_client.contains_key(k) ==> s.by_client.contains_key(k),
        filled(s, taker, fill).pending == s.pending,
{
    let t = filled(s, taker, fill);
    if tracks(s, fill) {
        let key = s.by_handle[fill.resting_id];
        assert forall|k: u64| #[trigger] t.by_client.contains_key(k) implies order_is_found(
            t,
            k,
        ) by {
            assert(s.by_client.contains_key(k));
        }
        assert forall|h: u64| #[trigger] t.by_handle.contains_key(h) implies handle_is_found(
            t,
            h,
        ) by {
            assert(s.by_handle.contains_key(h));
        }
    }
}

proof fn lemma_filled_all_is_consistent(s: EngineView, taker: Command, fills: Seq<Fill>)
    requires
        consistent(s),
    ensures
        consistent(filled_all(s, taker, fills)),
        forall|k: u64| #[trigger]
            filled_all(s, taker, fills).by_client.contains_key(k) ==> s.by_client.contains_key(k),
        filled_all(s, taker, fills).pending == s.pending,
    decreases fills.len(),
{
    if fills.len() > 0 {
        lemma_filled_all_is_consistent(s, taker, fills.drop_last());
        lemma_filled_is_consistent(
            filled_all(s, taker, fills.drop_last()),
            taker,
            fills.last(),
        );
    }
}

proof fn lemma_cancelled_is_consistent(s: EngineView, cmd: Command)
    requires
        consistent(s),
        s.pending is None,
    ensures
        consistent(cancelled(s, cmd).0),
        !cancelled(s, cmd).0.by_client.contains_key(client_key(cmd.client_fd, cmd.user_ref)),
        cancelled(s, cmd).0.pending is None,
{
    let t = cancelled(s, cmd).0;
    assert forall|k: u64| #[trigger] t.by_client.contains_key(k) implies order_is_found(
            t,
            k,
        ) by {
        assert(s.by_client.contains_key(k));
    }
    assert forall|h: u64| #[trigger] t.by_handle.contains_key(h) implies handle_is_found(
            t,
            h,
        ) by {
        assert(s.by_handle.contains_key(h));
    }
}

/// A command keeps the engine consistent.
pub proof fn lemma_apply_is_consistent(s: EngineView, cmd: Command)
    requires
        consistent(s),
    ensures
        consistent(applied(s, cmd).0),
{
    let s0 = EngineView { pending: None, ..s };
    assert(consistent(s0)) by {
        assert(s0.by_client == s.by_client && s0.by_handle == s.by_handle);
        assert forall|k: u64| #[trigger] s0.by_client.contains_key(k) implies order_is_found(
            s0,
            k,
        ) by {
            assert(s.by_client.contains_key(k));
        }
        assert forall|h: u64| #[trigger] s0.by_handle.contains_key(h) implies handle_is_found(
            s0,
            h,
        ) by {
            assert(s.by_handle.contains_key(h));
        }
    }
    lemma_cancelled_is_consistent(s0, cmd);
}

/// An answer of the book keeps the engine consistent, as long as it brings no
/// order to rest under a handle that is in use.
pub proof fn lemma_settle_is_consistent(
    s: EngineView,
    cmd: Command,
    placed: Result<Option<u64>, BookError>,
    fills: Seq<Fill>,
)
    requires
        consistent(s),
        s.pending == Some(cmd),
        placed matches Ok(Some(handle)) ==> !filled_all(
            EngineView { pending: None, ..s },
            cmd,
            fills,
        ).by_handle.contains_key(handle),
    ensures
        consistent(settled(s, cmd, placed, fills)),
        placed matches Ok(Some(handle)) ==> settled(s, cmd, placed, fills).by_client.contains_key(
            client_key(cmd.client_fd, cmd.user_ref),
        ),
{
    let s0 = EngineView { pending: None, ..s };
    assert(consistent(s0)) by {
        assert forall|k: u64| #[trigger] s0.by_client.contains_key(k) implies order_is_found(
            s0,
            k,
        ) by {
            assert(s.by_client.contains_key(k));
        }
        assert forall|h: u64| #[trigger] s0.by_handle.contains_key(h) implies handle_is_found(
            s0,
            h,
        ) by {
            assert(s.by_handle.contains_key(h));
        }
    }
    lemma_filled_all_is_consistent(s0, cmd, fills);
    let s1 = filled_all(s0, cmd, fills);
    if let Ok(Some(handle)) = placed {
        let key = client_key(cmd.client_fd, cmd.user_ref);
        assert(!s1.by_client.contains_key(key));
        let t = settled(s, cmd, placed, fills);
        assert forall|k: u64| #[trigger] t.by_client.contains_key(k) implies order_is_found(
            t,
            k,
        ) by {
            if k != key {
                assert(s1.by_client.contains_key(k));
            }
        }
        assert forall|h: u64| #[trigger] t.by_handle.contains_key(h) implies handle_is_found(
            t,
            h,
        ) by {
            if h != handle {
                assert(s1.by_handle.contains_key(h));
            }
        }
    }
}

/// What rests of an order is what was not filled.
pub proof fn lemma_remainder_rests(
    s: EngineView,
    cmd: Command,
    handle: u64,
    fills: Seq<Fill>,
)
    requires
        total(fills) <= cmd.quantity,
    ensures
        settled(s, cmd, Ok(Some(handle)), fills).by_client[client_key(
            cmd.client_fd,
            cmd.user_ref,
        )].qty == cmd.quantity - total(fills),
{
}

/// The engine and its log after a command was logged, applied and answered.
pub open spec fn stepped(s: EngineView, image: Seq<u8>, b: Beat) -> (EngineView, Seq<u8>) {
    if is_logged(s, b.cmd) {
        (
            beat(EngineView { wal: written(s.wal), ..s }, b),
            written_image(s.wal, image, b.cmd),
        )
    } else {
        (beat(s, b), image)
    }
}

/// The engine and its log after a run of beats.
pub open spec fn ran(s: EngineView, image: Seq<u8>, beats: Seq<Beat>) -> (EngineView, Seq<u8>)
    decreases beats.len(),
{
    if beats.len() == 0 {
        (s, image)
    } else {
        let (s1, image1) = ran(s, image, beats.drop_last());
        stepped(s1, image1, beats.last())
    }
}

/// The commands of a run.
pub open spec fn commands_of(beats: Seq<Beat>) -> Seq<Command> {
    beats.map_values(|b: Beat| b.cmd)
}

proof fn lemma_filled_all_keeps_log(s: EngineView, taker: Command, fills: Seq<Fill>)
    ensures
        filled_all(s, taker, fills).wal == s.wal,
        filled_all(s, taker, fills).wal_enabled == s.wal_enabled,
    decreases fills.len(),
{
    if fills.len() > 0 {
        lemma_filled_all_keeps_log(s, taker, fills.drop_last());
    }
}

proof fn lemma_beat_keeps_log(s: EngineView, b: Beat)
    ensures
        beat(s, b).wal == s.wal,
        beat(s, b).wal_enabled == s.wal_enabled,
{
    let s1 = applied(s, b.cmd).0;
    if let Some(cmd) = s1.pending {
        lemma_filled_all_keeps_log(EngineView { pending: None, ..s1 }, cmd, b.answer.fills);
    }
}

/// The beats of a run whose commands the log takes: all but those that stop the engine.
pub open spec fn lasting(beats: Seq<Beat>) -> Seq<Beat>
    decreases beats.len(),
{
    if beats.len() == 0 {
        beats
    } else if beats.last().cmd.ty == CommandType::Poison {
        lasting(beats.drop_last())
    } else {
        lasting(beats.drop_last()).push(beats.last())
    }
}

/// A command that stops the engine is not logged, and changes nothing.
pub proof fn lemma_stop_changes_nothing(s: EngineView, image: Seq<u8>, b: Beat)
    requires
        b.cmd.ty == CommandType::Poison,
        s.pending is None,
    ensures
        stepped(s, image, b) == (s, image),
        applied(s, b.cmd).1 == no_request(),
{
}

proof fn lemma_beat_leaves_nothing_pending(s: EngineView, b: Beat)
    ensures
        beat(s, b).pending is None,
{
    let s1 = applied(s, b.cmd).0;
    if let Some(cmd) = s1.pending {
        let s2 = EngineView { pending: None, ..s1 };
        lemma_same_book_filled_all(s2, s2, cmd, b.answer.fills);
    }
}

proof fn lemma_ran(s: EngineView, t: EngineView, image: Seq<u8>, beats: Seq<Beat>)
    requires
        s.wal_enabled,
        s.pending is None,
        same_book(s, t),
    ensures
        ran(s, image, beats).0.wal_enabled,
        ran(s, image, beats).0.pending is None,
        ran(s, image, beats).0.wal == written_all(s.wal, image, commands_of(lasting(beats))).0,
        ran(s, image, beats).1 == written_all(s.wal, image, commands_of(lasting(beats))).1,
        same_book(
            ran(s, image, beats).0,
            played(t, lasting(beats).map_values(|bt: Beat| logged(bt))),
        ),
    decreases beats.len(),
{
    if beats.len() > 0 {
        let before = beats.drop_last();
        lemma_ran(s, t, image, before);
        let (s1, image1) = ran(s, image, before);
        let b = beats.last();
        if b.cmd.ty == CommandType::Poison {
            lemma_stop_changes_nothing(s1, image1, b);
        } else {
            let log = lasting(beats).map_values(|bt: Beat| logged(bt));
            assert(lasting(beats).drop_last() =~= lasting(before));
            assert(commands_of(lasting(beats)).drop_last() =~= commands_of(lasting(before)));
            assert(log.drop_last() =~= lasting(before).map_values(|bt: Beat| logged(bt)));
            let s2 = EngineView { wal: written(s1.wal), ..s1 };
            lemma_beat_keeps_log(s2, b);
            lemma_beat_leaves_nothing_pending(s2, b);
            lemma_publishing_changes_no_state(s2, played(t, log.drop_last()), b);
        }
    }
}

/// After a run whose logged commands fit into an empty log, recovery hands out those
/// commands in order, puts the log where the run left it, and replaying them, with the
/// same answers from the book, brings a fresh engine to where the run left the first one.
pub proof fn lemma_recovery_restores_the_engine(slab: usize, len: nat, beats: Seq<Beat>)
    requires
        64 * lasting(beats).len() <= len,
    ensures
        ({
            let fresh = WalView { len, seq: 0, offset: 0 };
            let live = EngineView { publish: true, ..idle_engine(slab, fresh) };
            let (s, image) = ran(live, run(0, len), beats);
            let again = idle_engine(slab, recovered(fresh, image));
            &&& commands(image, frame_count(image)) == kept_all(commands_of(lasting(beats)))
            &&& again.wal == s.wal
            &&& same_book(s, played(again, lasting(beats).map_values(|bt: Beat| logged(bt))))
        }),
{
    let fresh = WalView { len, seq: 0, offset: 0 };
    let live = EngineView { publish: true, ..idle_engine(slab, fresh) };
    let zeros = run(0, len);
    let (s, image) = ran(live, zeros, beats);
    let again = idle_engine(slab, recovered(fresh, image));
    let cmds = commands_of(lasting(beats));
    lemma_zeroed_image_is_blank(len);
    lemma_ran(live, again, zeros, beats);
    lemma_recovery_gives_back_what_was_written(fresh, zeros, cmds);
    assert(commands(zeros, 0) + kept_all(cmds) =~= kept_all(cmds));
}

/// Whether a list of private events goes on from another with acks for this
/// connection: what is no trade and no reset names it.
pub open spec fn acks_go_on(a: Seq<Event>, b: Seq<Event>, fd: i32) -> bool {
    &&& a.len() <= b.len()
    &&& b.take(a.len() as int) == a
    &&& forall|i: int|
        a.len() <= i < b.len() ==> (#[trigger] b[i]).client_fd == fd || b[i].ty
            == EventType::TradeExecuted || b[i].ty == EventType::BookReset
}

proof fn lemma_acks_same(a: Seq<Event>, fd: i32)
    ensures
        acks_go_on(a, a, fd),
{
    assert(a.take(a.len() as int) =~= a);
}

proof fn lemma_acks_push(a: Seq<Event>, b: Seq<Event>, evt: Event, fd: i32)
    requires
        acks_go_on(a, b, fd),
        evt.client_fd == fd || evt.ty == EventType::TradeExecuted || evt.ty
            == EventType::BookReset,
    ensures
        acks_go_on(a, b.push(evt), fd),
{
    assert(b.push(evt).take(a.len() as int) =~= b.take(a.len() as int));
}

proof fn lemma_acks_filled_all(
    a: Seq<Event>,
    s: EngineView,
    taker: Command,
    fills: Seq<Fill>,
    fd: i32,
)
    requires
        acks_go_on(a, s.ouch, fd),
    ensures
        acks_go_on(a, filled_all(s, taker, fills).ouch, fd),
    decreases fills.len(),
{
    if fills.len() > 0 {
        let t = filled_all(s, taker, fills.drop_last());
        let fill = fills.last();
        lemma_acks_filled_all(a, s, taker, fills.drop_last(), fd);
        let trade = trade_of(t, taker, fill);
        let print = trade_event(taker.client_fd, trade);
        lemma_acks_push(a, t.ouch, print, fd);
        let maker_fd = t.by_client[t.by_handle[fill.resting_id]].client_fd;
        lemma_acks_push(a, t.ouch.push(print), trade_event(maker_fd, trade), fd);
    }
}

/// Private acks, refusals and cancellations go to whoever sent the command.
pub proof fn lemma_acks_go_to_the_sender(s: EngineView, b: Beat)
    requires
        consistent(s),
    ensures
        acks_go_on(s.ouch, beat(s, b).ouch, b.cmd.client_fd),
{
    let fd = b.cmd.client_fd;
    let cmd = b.cmd;
    let key = client_key(fd, cmd.user_ref);
    let s0 = EngineView { pending: None, ..s };
    lemma_acks_same(s.ouch, fd);
    if s.by_client.contains_key(key) {
        let live = s.by_client[key];
        lemma_client_key_injective(live.client_fd, live.user_ref, fd, cmd.user_ref);
        lemma_acks_push(s.ouch, s.ouch, cancellation(live), fd);
    }
    lemma_acks_push(s.ouch, s.ouch, refusal(cmd, 0), fd);
    lemma_acks_push(s.ouch, s.ouch, reset_event(), fd);
    let after_cancel = cancelled(s0, cmd).0;
    assert(acks_go_on(s.ouch, after_cancel.ouch, fd));
    lemma_acks_push(
        s.ouch,
        after_cancel.ouch,
        refusal(Command { ty: CommandType::Add, ..cmd }, 0),
        fd,
    );
    let s1 = applied(s, cmd).0;
    assert(acks_go_on(s.ouch, s1.ouch, fd));
    if let Some(p) = s1.pending {
        assert(p.client_fd == fd);
        let s2 = EngineView { pending: None, ..s1 };
        lemma_acks_filled_all(s.ouch, s2, p, b.answer.fills, fd);
        let s3 = filled_all(s2, p, b.answer.fills);
        if let Ok(Some(handle)) = b.answer.placed {
            let remaining = less(p.quantity, total64(b.answer.fills));
            lemma_acks_push(s.ouch, s3.ouch, acceptance(p, handle, remaining), fd);
        }
        lemma_acks_push(s.ouch, s2.ouch, refusal(p, 0), fd);
        lemma_acks_push(s.ouch, s2.ouch, refusal(p, 1), fd);
    }
}

} // verus!
