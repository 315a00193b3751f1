//! What holds of a FIX acceptor over everything that happens to it.

use vstd::prelude::*;

use crate::bytes::{decimal, next64};
use crate::codec::fix_laws::{
    in_sequence, lemma_commands_come_from_live_sessions, lemma_connections_are_apart,
};
use crate::codec::fix_model::{
    after_end, after_idle, after_report, begin_bytes, handled, idle_message, lemma_message_types,
    no_names, number_of, original_name, outgoing_fields, price_of, report_of, right_parties,
    side_of, text_of, FixView, Outgoing, Verdict, MSG_BUSINESS_REJECT, MSG_LOGON, MSG_LOGOUT,
    MSG_NEW_ORDER, MSG_REPLACE, TAG_CLORD, TAG_EXEC_ID, TAG_QTY, TAG_SEQ,
};
use crate::codec::tagvalue::MessageView;
use crate::types::Event;

verus! {

/// Something that happens to an acceptor.
pub enum Deed {
    /// A message comes in on a connection.
    Message { fd: i32, m: MessageView },
    /// The engine reports an event.
    Report { evt: Event },
    /// The read loop is idle for a connection.
    Idle { now: u64, fd: i32 },
    /// A connection ends.
    End { fd: i32 },
    /// The clock is set.
    Tick { now: u64 },
}

/// The acceptor after a deed.
pub open spec fn acted(s: FixView, d: Deed) -> FixView {
    match d {
        Deed::Message { fd, m } => handled(s, fd, m).state,
        Deed::Report { evt } => after_report(s, evt),
        Deed::Idle { now, fd } => after_idle(s, now, fd),
        Deed::End { fd } => after_end(s, fd),
        Deed::Tick { now } => FixView { now, ..s },
    }
}

/// The acceptor after a run of deeds.
pub open spec fn acted_all(s: FixView, deeds: Seq<Deed>) -> FixView
    decreases deeds.len(),
{
    if deeds.len() == 0 {
        s
    } else {
        acted(acted_all(s, deeds.drop_last()), deeds.last())
    }
}

/// Whether a deed is a Logon that is taken on this connection.
pub open spec fn logs_on(s: FixView, d: Deed, fd: i32) -> bool {
    d matches Deed::Message { fd: on, m } && on == fd && m.kind == seq![MSG_LOGON] && handled(
        s,
        fd,
        m,
    ).verdict is Reply
}

/// Whether no Logon is taken on this connection in a run of deeds.
pub open spec fn no_logon(s: FixView, deeds: Seq<Deed>, fd: i32) -> bool
    decreases deeds.len(),
{
    deeds.len() > 0 ==> no_logon(s, deeds.drop_last(), fd) && !logs_on(
        acted_all(s, deeds.drop_last()),
        deeds.last(),
        fd,
    )
}

/// Who an acceptor is does not change.
proof fn lemma_parties_stay(s: FixView, deeds: Seq<Deed>)
    ensures
        acted_all(s, deeds).us == s.us,
        acted_all(s, deeds).them == s.them,
        acted_all(s, deeds).symbol == s.symbol,
    decreases deeds.len(),
{
    if deeds.len() > 0 {
        lemma_parties_stay(s, deeds.drop_last());
    }
}

/// Whether a deed is a message on this connection.
pub open spec fn is_message_on(d: Deed, fd: i32) -> bool {
    d matches Deed::Message { fd: on, .. } && on == fd
}

/// Whether a deed leaves the session of this connection going: it does not end the
/// connection, and if it is a message on it, it is neither Logon nor Logout and is not
/// answered by a disconnect.
pub open spec fn keeps_going(s: FixView, d: Deed, fd: i32) -> bool {
    match d {
        Deed::Message { fd: on, m } => on == fd ==> m.kind != seq![MSG_LOGON] && m.kind
            != seq![MSG_LOGOUT] && !(handled(s, fd, m).verdict is Disconnect),
        Deed::End { fd: on } => on != fd,
        _ => true,
    }
}

/// Whether a run of deeds leaves the session of this connection going throughout.
pub open spec fn goes_on(s: FixView, deeds: Seq<Deed>, fd: i32) -> bool
    decreases deeds.len(),
{
    deeds.len() > 0 ==> goes_on(s, deeds.drop_last(), fd) && keeps_going(
        acted_all(s, deeds.drop_last()),
        deeds.last(),
        fd,
    )
}

/// How many of a run of deeds are messages on this connection.
pub open spec fn message_count(deeds: Seq<Deed>, fd: i32) -> nat
    decreases deeds.len(),
{
    if deeds.len() == 0 {
        0
    } else {
        message_count(deeds.drop_last(), fd) + (if is_message_on(deeds.last(), fd) {
            1nat
        } else {
            0
        })
    }
}

proof fn lemma_inbound_number(s: FixView, deeds: Seq<Deed>, fd: i32)
    requires
        s.sessions.contains_key(fd),
        s.sessions[fd].logged_on,
        s.sessions[fd].next_in == 2,
        goes_on(s, deeds, fd),
        message_count(deeds, fd) + 2 <= u64::MAX,
    ensures
        acted_all(s, deeds).sessions.contains_key(fd),
        acted_all(s, deeds).sessions[fd].logged_on,
        acted_all(s, deeds).sessions[fd].next_in == message_count(deeds, fd) + 2,
    decreases deeds.len(),
{
    if deeds.len() > 0 {
        let t = acted_all(s, deeds.drop_last());
        lemma_inbound_number(s, deeds.drop_last(), fd);
        lemma_message_types();
        if let Deed::Message { fd: on, m } = deeds.last() {
            if on != fd {
                lemma_connections_are_apart(t, on, m, fd);
            }
        }
    }
}

/// Whether a message has the right version and the right CompIDs, and is no Logon.
pub open spec fn well_addressed(s: FixView, m: MessageView) -> bool {
    m.begin == Some(begin_bytes()) && right_parties(s, m) && m.kind != seq![MSG_LOGON]
}

/// After a Logon and `k` messages on its session, neither Logon nor Logout among them
/// and none answered by a disconnect, exactly the number `k + 2` is taken. Any other
/// number ends the session, and what comes behind it is dropped without an answer.
pub proof fn lemma_inbound_numbers(
    s: FixView,
    fd: i32,
    logon: MessageView,
    deeds: Seq<Deed>,
    m: MessageView,
    n: u64,
    next: MessageView,
)
    requires
        logon.kind == seq![MSG_LOGON],
        handled(s, fd, logon).verdict is Reply,
        goes_on(handled(s, fd, logon).state, deeds, fd),
        message_count(deeds, fd) + 2 <= u64::MAX,
        well_addressed(s, m),
        number_of(m, TAG_SEQ) == Some(n),
        well_addressed(s, next),
    ensures
        ({
            let t = acted_all(handled(s, fd, logon).state, deeds);
            let h = handled(t, fd, m);
            &&& h.verdict is Disconnect <==> n != message_count(deeds, fd) + 2
            &&& h.verdict is Disconnect ==> !h.state.sessions.contains_key(fd) && handled(
                h.state,
                fd,
                next,
            ).verdict is Disconnect && handled(h.state, fd, next).reply is None
        }),
{
    lemma_message_types();
    let s1 = handled(s, fd, logon).state;
    lemma_inbound_number(s1, deeds, fd);
    lemma_parties_stay(s1, deeds);
}

/// What a deed sends on this connection. What goes with a disconnect is no part of the
/// session any more.
pub open spec fn sent(s: FixView, d: Deed, fd: i32) -> Seq<Outgoing> {
    let o = match d {
        Deed::Message { fd: on, m } => if on == fd && !(handled(s, fd, m).verdict is Disconnect) {
            handled(s, fd, m).reply
        } else {
            None
        },
        Deed::Report { evt } => if evt.client_fd == fd {
            report_of(s, evt)
        } else {
            None
        },
        Deed::Idle { now, fd: on } => if on == fd {
            idle_message(s, now, fd)
        } else {
            None
        },
        _ => None,
    };
    match o {
        Some(o) => seq![o],
        None => Seq::empty(),
    }
}

/// What a run of deeds sends on this connection, in order.
pub open spec fn sent_all(s: FixView, deeds: Seq<Deed>, fd: i32) -> Seq<Outgoing>
    decreases deeds.len(),
{
    if deeds.len() == 0 {
        Seq::empty()
    } else {
        sent_all(s, deeds.drop_last(), fd) + sent(
            acted_all(s, deeds.drop_last()),
            deeds.last(),
            fd,
        )
    }
}

/// One deed other than a Logon sends at most one message, under the number that is due,
/// and moves the number on by what it sends.
proof fn lemma_sent_is_due(t: FixView, d: Deed, fd: i32)
    requires
        !logs_on(t, d, fd),
    ensures
        sent(t, d, fd).len() <= 1,
        sent(t, d, fd).len() > 0 ==> t.sessions.contains_key(fd) && sent(t, d, fd)[0].seq
            == t.sessions[fd].next_out && acted(t, d).sessions.contains_key(fd),
        acted(t, d).sessions.contains_key(fd) ==> t.sessions.contains_key(fd) && acted(
            t,
            d,
        ).sessions[fd].next_out == (if sent(t, d, fd).len() > 0 {
            next64(t.sessions[fd].next_out)
        } else {
            t.sessions[fd].next_out
        }),
{
    lemma_message_types();
    if let Deed::Message { fd: on, m } = d {
        if on != fd {
            lemma_connections_are_apart(t, on, m, fd);
        }
    }
}

proof fn lemma_sent_numbers(s: FixView, deeds: Seq<Deed>, fd: i32)
    requires
        s.sessions.contains_key(fd),
        s.sessions[fd].next_out == 2,
        no_logon(s, deeds, fd),
        sent_all(s, deeds, fd).len() + 2 <= u64::MAX,
    ensures
        forall|i: int|
            0 <= i < sent_all(s, deeds, fd).len() ==> (#[trigger] sent_all(s, deeds, fd)[i]).seq
                == i + 2,
        acted_all(s, deeds).sessions.contains_key(fd) ==> acted_all(s, deeds).sessions[fd].next_out
            == sent_all(s, deeds, fd).len() + 2,
    decreases deeds.len(),
{
    if deeds.len() > 0 {
        let before = deeds.drop_last();
        let t = acted_all(s, before);
        lemma_sent_is_due(t, deeds.last(), fd);
        lemma_sent_numbers(s, before, fd);
    }
}

/// What goes out on a session, from the answer to its Logon on, in order.
pub open spec fn session_messages(
    s: FixView,
    fd: i32,
    logon: MessageView,
    deeds: Seq<Deed>,
) -> Seq<Outgoing> {
    seq![handled(s, fd, logon).reply->0] + sent_all(handled(s, fd, logon).state, deeds, fd)
}

/// As long as no other Logon is taken on the connection, the messages of a session are
/// numbered from one on, without a gap and without a repeat: the answer to the Logon,
/// heartbeats, refusals and reports alike.
pub proof fn lemma_outbound_numbers(
    s: FixView,
    fd: i32,
    logon: MessageView,
    deeds: Seq<Deed>,
    k: int,
)
    requires
        logon.kind == seq![MSG_LOGON],
        handled(s, fd, logon).verdict is Reply,
        no_logon(handled(s, fd, logon).state, deeds, fd),
        session_messages(s, fd, logon, deeds).len() <= i64::MAX,
        1 <= k <= session_messages(s, fd, logon, deeds).len(),
    ensures
        handled(s, fd, logon).reply is Some,
        session_messages(s, fd, logon, deeds)[k - 1].seq == k,
        outgoing_fields(s, session_messages(s, fd, logon, deeds)[k - 1])[3] == (
            TAG_SEQ,
            decimal(k as nat),
        ),
{
    lemma_message_types();
    let s1 = handled(s, fd, logon).state;
    lemma_sent_numbers(s1, deeds, fd);
    let frames = session_messages(s, fd, logon, deeds);
    if k > 1 {
        assert(frames[k - 1] == sent_all(s1, deeds, fd)[k - 2]);
    }
}

/// The report that a deed makes.
pub open spec fn reported(s: FixView, d: Deed) -> Seq<Outgoing> {
    match d {
        Deed::Report { evt } => match report_of(s, evt) {
            Some(o) => seq![o],
            None => Seq::empty(),
        },
        _ => Seq::empty(),
    }
}

/// The reports that a run of deeds makes, on all connections, in order.
pub open spec fn reported_all(s: FixView, deeds: Seq<Deed>) -> Seq<Outgoing>
    decreases deeds.len(),
{
    if deeds.len() == 0 {
        Seq::empty()
    } else {
        reported_all(s, deeds.drop_last()) + reported(
            acted_all(s, deeds.drop_last()),
            deeds.last(),
        )
    }
}

#[verifier::rlimit(30)]
proof fn lemma_reported_numbers(s: FixView, deeds: Seq<Deed>)
    requires
        s.next_exec == 1,
        reported_all(s, deeds).len() + 1 <= u64::MAX,
    ensures
        forall|i: int|
            0 <= i < reported_all(s, deeds).len() ==> (#[trigger] reported_all(
                s,
                deeds,
            )[i]).extra[1]
                == (TAG_EXEC_ID, decimal((i + 1) as nat)),
        acted_all(s, deeds).next_exec == reported_all(s, deeds).len() + 1,
    decreases deeds.len(),
{
    if deeds.len() > 0 {
        lemma_reported_numbers(s, deeds.drop_last());
    }
}

/// The `j`-th report that an acceptor makes, over all of its connections, carries the
/// execution id `j`.
pub proof fn lemma_execution_ids(s: FixView, deeds: Seq<Deed>, j: int)
    requires
        s.next_exec == 1,
        reported_all(s, deeds).len() < u64::MAX,
        1 <= j <= reported_all(s, deeds).len(),
    ensures
        reported_all(s, deeds)[j - 1].extra[1] == (TAG_EXEC_ID, decimal(j as nat)),
{
    lemma_reported_numbers(s, deeds);
}

/// Whether a deed is a NewOrderSingle on this connection that becomes a command, under
/// this name and reference.
pub open spec fn orders(s: FixView, d: Deed, fd: i32, name: Seq<u8>, user_ref: u32) -> bool {
    d matches Deed::Message { fd: on, m } && on == fd && m.kind == seq![MSG_NEW_ORDER] && text_of(
        m,
        TAG_CLORD,
    ) == Some(name) && (handled(s, fd, m).verdict matches Verdict::Command(cmd) && cmd.user_ref
        == user_ref)
}

/// Whether a deed is a NewOrderSingle on this connection that becomes a command.
pub open spec fn is_order(s: FixView, d: Deed, fd: i32) -> bool {
    d matches Deed::Message { fd: on, m } && on == fd && m.kind == seq![MSG_NEW_ORDER] && handled(
        s,
        fd,
        m,
    ).verdict is Command
}

/// How many new orders on this connection become commands in a run of deeds.
pub open spec fn order_count(s: FixView, deeds: Seq<Deed>, fd: i32) -> nat
    decreases deeds.len(),
{
    if deeds.len() == 0 {
        0
    } else {
        order_count(s, deeds.drop_last(), fd) + (if is_order(
            acted_all(s, deeds.drop_last()),
            deeds.last(),
            fd,
        ) {
            1nat
        } else {
            0
        })
    }
}

/// Whether a deed is an OrderCancelReplaceRequest on this connection that brings this
/// name in as the new one.
pub open spec fn renames_to(d: Deed, fd: i32, name: Seq<u8>) -> bool {
    d matches Deed::Message { fd: on, m } && on == fd && m.kind == seq![MSG_REPLACE] && text_of(
        m,
        TAG_CLORD,
    ) == Some(name)
}

/// Whether a deed ends this connection.
pub open spec fn ends(d: Deed, fd: i32) -> bool {
    d matches Deed::End { fd: on } && on == fd
}

/// Whether a run of deeds neither logs this connection on again, nor ends it, nor brings
/// this name in by a replace.
pub open spec fn keeps_name(s: FixView, deeds: Seq<Deed>, fd: i32, name: Seq<u8>) -> bool {
    no_logon(s, deeds, fd) && forall|i: int|
        0 <= i < deeds.len() ==> !ends(#[trigger] deeds[i], fd) && !renames_to(
            deeds[i],
            fd,
            name,
        )
}

/// What the references of a connection look like after `n` new orders: all of them lie
/// below the next one, which is at most `n + 1`.
spec fn references_bounded(t: FixView, fd: i32, n: nat) -> bool {
    &&& forall|name: Seq<u8>| #[trigger]
        t.names[fd].ids.contains_key(name) ==> t.names[fd].ids[name] <= n
            && (t.sessions.contains_key(fd) ==> t.names[fd].ids[name] < t.sessions[fd].next_ref)
    &&& t.sessions.contains_key(fd) ==> 1 <= t.sessions[fd].next_ref <= n + 1
    &&& n == 0 ==> t.names[fd].ids == Map::<Seq<u8>, u32>::empty()
}

proof fn lemma_references_bounded_step(t: FixView, d: Deed, fd: i32, n: nat)
    requires
        references_bounded(t, fd, n),
        !logs_on(t, d, fd),
        !ends(d, fd),
        is_order(t, d, fd) ==> n + 1 < u32::MAX,
    ensures
        references_bounded(
            acted(t, d),
            fd,
            if is_order(t, d, fd) {
                n + 1
            } else {
                n
            },
        ),
{
    lemma_message_types();
    let u = acted(t, d);
    if let Deed::Message { fd: on, m } = d {
        if on != fd {
            lemma_connections_are_apart(t, on, m, fd);
        } else {
            lemma_commands_come_from_live_sessions(t, fd, m);
            assert forall|name: Seq<u8>| #[trigger] u.names[fd].ids.contains_key(name) implies (
            u.sessions.contains_key(fd) ==> u.names[fd].ids[name] < u.sessions[fd].next_ref)
                && u.names[fd].ids[name] <= (if is_order(t, d, fd) {
                n + 1
            } else {
                n
            }) by {
                if t.names[fd].ids.contains_key(name) {
                    assert(t.names[fd].ids[name] <= n);
                }
                if let Some(orig) = original_name(m) {
                    if t.names[fd].ids.contains_key(orig) {
                        assert(t.names[fd].ids[orig] <= n);
                    }
                }
            }
        }
    }
}

proof fn lemma_references_bounded(s: FixView, deeds: Seq<Deed>, fd: i32)
    requires
        s.names[fd].ids == Map::<Seq<u8>, u32>::empty(),
        s.sessions.contains_key(fd),
        s.sessions[fd].next_ref == 1,
        no_logon(s, deeds, fd),
        forall|i: int| 0 <= i < deeds.len() ==> !ends(#[trigger] deeds[i], fd),
        order_count(s, deeds, fd) < u32::MAX,
    ensures
        references_bounded(acted_all(s, deeds), fd, order_count(s, deeds, fd)),
    decreases deeds.len(),
{
    if deeds.len() > 0 {
        let before = deeds.drop_last();
        assert forall|i: int| 0 <= i < before.len() implies !ends(#[trigger] before[i], fd) by {
            assert(before[i] == deeds[i]);
        }
        assert(!ends(deeds[deeds.len() - 1], fd));
        lemma_references_bounded(s, before, fd);
        lemma_references_bounded_step(
            acted_all(s, before),
            deeds.last(),
            fd,
            order_count(s, before, fd),
        );
    }
}

/// A name that is known stands for the same reference after a deed, unless a replace
/// brings it in anew or the connection ends.
proof fn lemma_name_stays(t: FixView, d: Deed, fd: i32, name: Seq<u8>)
    requires
        t.names[fd].ids.contains_key(name),
        !ends(d, fd),
        !renames_to(d, fd, name),
    ensures
        acted(t, d).names[fd].ids.contains_key(name),
        acted(t, d).names[fd].ids[name] == t.names[fd].ids[name],
{
    lemma_message_types();
    if let Deed::Message { fd: on, m } = d {
        if on != fd {
            lemma_connections_are_apart(t, on, m, fd);
        }
    }
}

/// The reference of an order is what its name stands for from then on.
proof fn lemma_reference_is_kept(
    s: FixView,
    deeds: Seq<Deed>,
    fd: i32,
    i: int,
    name: Seq<u8>,
    user_ref: u32,
)
    requires
        0 <= i < deeds.len(),
        keeps_name(s, deeds, fd, name),
        orders(acted_all(s, deeds.take(i)), deeds[i], fd, name, user_ref),
    ensures
        acted_all(s, deeds).names[fd].ids.contains_key(name),
        acted_all(s, deeds).names[fd].ids[name] == user_ref,
    decreases deeds.len(),
{
    let before = deeds.drop_last();
    let t = acted_all(s, before);
    if i == deeds.len() - 1 {
        assert(deeds.take(i) =~= before);
        lemma_message_types();
        if let Deed::Message { fd: on, m } = deeds[i] {
            lemma_commands_come_from_live_sessions(t, fd, m);
        }
    } else {
        assert(before.take(i) =~= deeds.take(i));
        assert forall|k: int| 0 <= k < before.len() implies !ends(#[trigger] before[k], fd)
            && !renames_to(before[k], fd, name) by {
            assert(before[k] == deeds[k]);
        }
        lemma_reference_is_kept(s, before, fd, i, name, user_ref);
        assert(!ends(deeds[deeds.len() - 1], fd));
        lemma_name_stays(t, deeds.last(), fd, name);
    }
}

/// Two names that no replace brought in never stand for the same reference.
proof fn lemma_names_are_apart(s: FixView, deeds: Seq<Deed>, fd: i32, a: Seq<u8>, b: Seq<u8>)
    requires
        a != b,
        s.names[fd].ids == Map::<Seq<u8>, u32>::empty(),
        s.sessions.contains_key(fd),
        s.sessions[fd].next_ref == 1,
        keeps_name(s, deeds, fd, a),
        keeps_name(s, deeds, fd, b),
        order_count(s, deeds, fd) < u32::MAX,
    ensures
        acted_all(s, deeds).names[fd].ids.contains_key(a) && acted_all(
            s,
            deeds,
        ).names[fd].ids.contains_key(b) ==> acted_all(s, deeds).names[fd].ids[a] != acted_all(
            s,
            deeds,
        ).names[fd].ids[b],
    decreases deeds.len(),
{
    if deeds.len() > 0 {
        let before = deeds.drop_last();
        let t = acted_all(s, before);
        let d = deeds.last();
        assert forall|k: int| 0 <= k < before.len() implies !ends(#[trigger] before[k], fd)
            && !renames_to(before[k], fd, a) && !renames_to(before[k], fd, b) by {
            assert(before[k] == deeds[k]);
        }
        lemma_names_are_apart(s, before, fd, a, b);
        lemma_references_bounded(s, before, fd);
        assert(!ends(deeds[deeds.len() - 1], fd));
        assert(!renames_to(deeds[deeds.len() - 1], fd, a));
        assert(!renames_to(deeds[deeds.len() - 1], fd, b));
        lemma_message_types();
        if t.names[fd].ids.contains_key(a) {
            assert(t.names[fd].ids[a] <= order_count(s, before, fd));
            lemma_name_stays(t, d, fd, a);
        }
        if t.names[fd].ids.contains_key(b) {
            assert(t.names[fd].ids[b] <= order_count(s, before, fd));
            lemma_name_stays(t, d, fd, b);
        }
        if let Deed::Message { fd: on, m } = d {
            if on != fd {
                lemma_connections_are_apart(t, on, m, fd);
            } else {
                lemma_commands_come_from_live_sessions(t, fd, m);
            }
        }
    }
}

proof fn lemma_prefix_has_no_logon(s: FixView, deeds: Seq<Deed>, fd: i32, i: int)
    requires
        0 <= i <= deeds.len(),
        no_logon(s, deeds, fd),
    ensures
        no_logon(s, deeds.take(i), fd),
    decreases deeds.len(),
{
    if i == deeds.len() {
        assert(deeds.take(i) =~= deeds);
    } else {
        lemma_prefix_has_no_logon(s, deeds.drop_last(), fd, i);
        assert(deeds.drop_last().take(i) =~= deeds.take(i));
    }
}

/// From the first Logon of a connection on, as long as no other is taken, two new orders
/// have the same reference if and only if they have the same name, where neither name
/// was brought in by a replace. The first of them has the reference one.
pub proof fn lemma_references_follow_names(
    s: FixView,
    fd: i32,
    logon: MessageView,
    deeds: Seq<Deed>,
    i: int,
    j: int,
    a: Seq<u8>,
    b: Seq<u8>,
    ref_a: u32,
    ref_b: u32,
)
    requires
        s.names[fd] == no_names(),
        logon.kind == seq![MSG_LOGON],
        handled(s, fd, logon).verdict is Reply,
        keeps_name(handled(s, fd, logon).state, deeds, fd, a),
        keeps_name(handled(s, fd, logon).state, deeds, fd, b),
        order_count(handled(s, fd, logon).state, deeds, fd) < u32::MAX,
        0 <= i < deeds.len(),
        0 <= j < deeds.len(),
        orders(
            acted_all(handled(s, fd, logon).state, deeds.take(i)),
            deeds[i],
            fd,
            a,
            ref_a,
        ),
        orders(
            acted_all(handled(s, fd, logon).state, deeds.take(j)),
            deeds[j],
            fd,
            b,
            ref_b,
        ),
    ensures
        ref_a == ref_b <==> a == b,
        order_count(handled(s, fd, logon).state, deeds.take(i), fd) == 0 ==> ref_a == 1,
{
    lemma_message_types();
    let s1 = handled(s, fd, logon).state;
    lemma_reference_is_kept(s1, deeds, fd, i, a, ref_a);
    lemma_reference_is_kept(s1, deeds, fd, j, b, ref_b);
    if a != b {
        lemma_names_are_apart(s1, deeds, fd, a, b);
    }
    let before = deeds.take(i);
    if order_count(s1, before, fd) == 0 {
        lemma_prefix_has_no_logon(s1, deeds, fd, i);
        assert forall|k: int| 0 <= k < before.len() implies !ends(#[trigger] before[k], fd) by {
            assert(before[k] == deeds[k]);
        }
        lemma_references_bounded(s1, before, fd);
        let t = acted_all(s1, before);
        if let Deed::Message { fd: on, m } = deeds[i] {
            lemma_commands_come_from_live_sessions(t, fd, m);
        }
    }
}

/// A NewOrderSingle in sequence that lacks a name, a side, a quantity or a price is
/// refused, and leaves every name and the next reference as they were.
pub proof fn lemma_incomplete_order_is_refused(s: FixView, fd: i32, m: MessageView)
    requires
        in_sequence(s, fd, m),
        m.kind == seq![MSG_NEW_ORDER],
        text_of(m, TAG_CLORD) is None || side_of(m) is None || number_of(m, TAG_QTY) is None
            || price_of(m) is None,
    ensures
        handled(s, fd, m).verdict is Reply,
        handled(s, fd, m).reply matches Some(o) && o.kind == MSG_BUSINESS_REJECT,
        handled(s, fd, m).state.names == s.names,
        handled(s, fd, m).state.sessions[fd].next_ref == s.sessions[fd].next_ref,
{
    lemma_message_types();
}

} // verus!
