//! What holds of every FIX acceptor, whatever it is sent.

use vstd::prelude::*;
use vstd::utf8::{encode_utf8, is_ascii_chars_encode_utf8};

use crate::bytes::{decimal, lemma_decimal_digits, next64, signed64};
use crate::codec::fix_model::{
    after_end, after_idle, after_report, begin_bytes, handled, heartbeat_due, idle_message,
    is_request, lemma_message_types, no_names, number_of, number_text, original_name,
    outgoing_fields, reject, report_of, reportable, right_parties, text_of, text_or_empty, written,
    written_if, FixView, Verdict, MSG_BUSINESS_REJECT, MSG_CANCEL, MSG_HEARTBEAT, MSG_LOGON,
    MSG_LOGOUT, MSG_NEW_ORDER, MSG_REJECT, MSG_REPLACE, MSG_REPORT, TAG_CLORD, TAG_EXEC_ID,
    TAG_SEQ, TAG_SYMBOL,
};
use crate::codec::tagvalue::{encodable, framed, value_fits, MessageView, SOH};
use crate::types::{CommandType, Event, EventType};

verus! {

/// Whether a message comes in sequence on a live session of this connection.
pub open spec fn in_sequence(s: FixView, fd: i32, m: MessageView) -> bool {
    &&& m.begin == Some(begin_bytes())
    &&& right_parties(s, m)
    &&& m.kind != seq![MSG_LOGON]
    &&& s.sessions.contains_key(fd)
    &&& s.sessions[fd].logged_on
    &&& number_of(m, TAG_SEQ) == Some(s.sessions[fd].next_in)
}

/// A message on one connection changes nothing of any other connection, and
/// nothing of what the acceptor is.
pub proof fn lemma_connections_are_apart(s: FixView, fd: i32, m: MessageView, other: i32)
    requires
        other != fd,
    ensures
        handled(s, fd, m).state.sessions.contains_key(other) == s.sessions.contains_key(other),
        handled(s, fd, m).state.sessions[other] == s.sessions[other] || !s.sessions.contains_key(
            other,
        ),
        handled(s, fd, m).state.names[other] == s.names[other],
        handled(s, fd, m).state.us == s.us,
        handled(s, fd, m).state.them == s.them,
        handled(s, fd, m).state.symbol == s.symbol,
        handled(s, fd, m).state.next_exec == s.next_exec,
{
}

/// A message in sequence moves the inbound number on by one, and the outbound
/// number by one exactly when it is answered; the answer carries the number that
/// was due.
pub proof fn lemma_sequence_numbers_count(s: FixView, fd: i32, m: MessageView)
    requires
        in_sequence(s, fd, m),
    ensures
        handled(s, fd, m).state.sessions.contains_key(fd),
        handled(s, fd, m).state.sessions[fd].next_in == next64(s.sessions[fd].next_in),
        handled(s, fd, m).state.sessions[fd].next_out == (match handled(s, fd, m).reply {
            Some(o) => next64(s.sessions[fd].next_out),
            None => s.sessions[fd].next_out,
        }),
        handled(s, fd, m).reply matches Some(o) ==> o.seq == s.sessions[fd].next_out,
        !(handled(s, fd, m).verdict is Disconnect),
{
}

/// A message out of sequence ends the session: it is answered with a Reject that
/// names its number, and the connection is to be dropped.
pub proof fn lemma_out_of_sequence_ends_session(s: FixView, fd: i32, m: MessageView, seq: u64)
    requires
        m.begin == Some(begin_bytes()),
        right_parties(s, m),
        m.kind != seq![MSG_LOGON],
        s.sessions.contains_key(fd),
        number_of(m, TAG_SEQ) == Some(seq),
        seq != s.sessions[fd].next_in,
    ensures
        handled(s, fd, m).verdict is Disconnect,
        !handled(s, fd, m).state.sessions.contains_key(fd),
        handled(s, fd, m).state.names == s.names,
        handled(s, fd, m).reply == reject(s.sessions[fd].next_out, seq, encode_utf8("seq"@)),
{
}

/// Only a request in sequence reaches the engine, and it does so on behalf of
/// the connection it came in on.
pub proof fn lemma_commands_come_from_live_sessions(s: FixView, fd: i32, m: MessageView)
    ensures
        handled(s, fd, m).verdict matches Verdict::Command(cmd) ==> {
            &&& in_sequence(s, fd, m)
            &&& is_request(m.kind)
            &&& text_or_empty(m, TAG_SYMBOL) == s.symbol
            &&& cmd.client_fd == fd
            &&& handled(s, fd, m).reply is None
            &&& cmd.ty == (if m.kind == seq![MSG_NEW_ORDER] {
                CommandType::Add
            } else if m.kind == seq![MSG_CANCEL] {
                CommandType::Cancel
            } else {
                CommandType::Modify
            })
        },
{
    lemma_message_types();
}

/// The order that a request which became a command was about can be cancelled or
/// replaced by the same name from then on, under the same reference.
pub proof fn lemma_names_stick(s: FixView, fd: i32, first: MessageView, second: MessageView)
    requires
        handled(s, fd, first).verdict is Command,
        second.kind == seq![MSG_CANCEL] || second.kind == seq![MSG_REPLACE],
        in_sequence(handled(s, fd, first).state, fd, second),
        text_or_empty(second, TAG_SYMBOL) == s.symbol,
        original_name(second) is Some,
        original_name(second) == (if first.kind == seq![MSG_CANCEL] {
            original_name(first)
        } else {
            text_of(first, TAG_CLORD)
        }),
    ensures
        handled(handled(s, fd, first).state, fd, second).verdict matches Verdict::Command(cmd) && (
        handled(s, fd, first).verdict matches Verdict::Command(cmd0) && cmd.user_ref
            == cmd0.user_ref),
{
    lemma_message_types();
}

/// Whether every reference in use on a connection lies below the next one to be given.
pub open spec fn references_below_next(s: FixView, fd: i32) -> bool {
    s.sessions.contains_key(fd) && forall|name: Seq<u8>| #[trigger]
        s.names[fd].ids.contains_key(name) ==> s.names[fd].ids[name] < s.sessions[fd].next_ref
}

/// A Logon on a connection without names starts with every reference free.
pub proof fn lemma_references_start_free(s: FixView, fd: i32, m: MessageView)
    requires
        s.names[fd] == no_names(),
        m.kind == seq![MSG_LOGON],
        handled(s, fd, m).verdict is Reply,
    ensures
        references_below_next(handled(s, fd, m).state, fd),
{
    lemma_message_types();
}

/// A message other than a Logon keeps the references in use below the next one, as
/// long as there is a next one.
pub proof fn lemma_references_stay_below(s: FixView, fd: i32, m: MessageView)
    requires
        references_below_next(s, fd),
        s.sessions[fd].next_ref < u32::MAX,
        m.kind != seq![MSG_LOGON],
        handled(s, fd, m).state.sessions.contains_key(fd),
    ensures
        references_below_next(handled(s, fd, m).state, fd),
{
    lemma_message_types();
    let t = handled(s, fd, m).state;
    assert forall|name: Seq<u8>| #[trigger]
        t.names[fd].ids.contains_key(name) implies t.names[fd].ids[name]
        < t.sessions[fd].next_ref by {
        if s.names[fd].ids.contains_key(name) {
            assert(s.names[fd].ids[name] < s.sessions[fd].next_ref);
        }
        if let Some(orig) = original_name(m) {
            if s.names[fd].ids.contains_key(orig) {
                assert(s.names[fd].ids[orig] < s.sessions[fd].next_ref);
            }
        }
    }
}

/// A name that was not used before never takes over the reference of another.
pub proof fn lemma_new_name_gets_new_reference(
    s: FixView,
    fd: i32,
    m: MessageView,
    name: Seq<u8>,
    other: Seq<u8>,
)
    requires
        references_below_next(s, fd),
        m.kind == seq![MSG_NEW_ORDER],
        text_of(m, TAG_CLORD) == Some(name),
        !s.names[fd].ids.contains_key(name),
        s.names[fd].ids.contains_key(other),
    ensures
        handled(s, fd, m).verdict matches Verdict::Command(cmd) ==> cmd.user_ref
            != s.names[fd].ids[other],
{
    lemma_message_types();
    lemma_commands_come_from_live_sessions(s, fd, m);
}

/// A request in sequence that names another symbol is refused: it is answered
/// with a BusinessMessageReject and leaves every name as it was.
pub proof fn lemma_wrong_symbol_is_refused(s: FixView, fd: i32, m: MessageView)
    requires
        in_sequence(s, fd, m),
        is_request(m.kind),
        text_or_empty(m, TAG_SYMBOL) != s.symbol,
    ensures
        handled(s, fd, m).verdict is Reply,
        handled(s, fd, m).state.names == s.names,
        handled(s, fd, m).reply matches Some(o) && o.kind == MSG_BUSINESS_REJECT,
{
    lemma_message_types();
}

/// A cancel or a replace of a name that was never used is refused in the same
/// way.
pub proof fn lemma_unknown_name_is_refused(s: FixView, fd: i32, m: MessageView, name: Seq<u8>)
    requires
        in_sequence(s, fd, m),
        m.kind == seq![MSG_CANCEL] || m.kind == seq![MSG_REPLACE],
        original_name(m) == Some(name),
        !s.names[fd].ids.contains_key(name),
    ensures
        handled(s, fd, m).verdict is Reply,
        handled(s, fd, m).state.names == s.names,
        handled(s, fd, m).reply matches Some(o) && o.kind == MSG_BUSINESS_REJECT,
{
    lemma_message_types();
}

/// A heartbeat goes out at most once at any moment.
pub proof fn lemma_one_heartbeat_at_a_time(s: FixView, now: u64, fd: i32)
    ensures
        idle_message(after_idle(s, now, fd), now, fd) is None,
{
}

/// A reset, and an event for no connection or for one that is not logged on, is not
/// reported: nothing is written and no number is used up, so the next report is the one
/// that would have been made without it.
pub proof fn lemma_silent_event_uses_no_number(s: FixView, evt: Event, next: Event, room: nat)
    requires
        evt.ty == EventType::BookReset || evt.client_fd < 0 || !s.sessions.contains_key(
            evt.client_fd,
        ) || !s.sessions[evt.client_fd].logged_on,
    ensures
        report_of(s, evt) is None,
        written_if(s, report_of(s, evt), room) == Seq::<u8>::empty(),
        after_report(s, evt) == s,
        report_of(after_report(s, evt), next) == report_of(s, next),
{
}

/// A report carries the outbound number that was due and an execution id of its
/// own; both are used up.
pub proof fn lemma_reports_are_numbered(s: FixView, evt: Event)
    requires
        reportable(s, evt),
    ensures
        report_of(s, evt) matches Some(o) && o.seq == s.sessions[evt.client_fd].next_out
            && o.kind == MSG_REPORT && o.extra[1] == (TAG_EXEC_ID, decimal(s.next_exec as nat)),
        after_report(s, evt).sessions[evt.client_fd].next_out == next64(
            s.sessions[evt.client_fd].next_out,
        ),
        after_report(s, evt).next_exec == next64(s.next_exec),
        after_report(s, evt).names == s.names,
{
}

/// A heartbeat carries the outbound number that was due, and uses it up.
pub proof fn lemma_heartbeats_are_numbered(s: FixView, now: u64, fd: i32)
    requires
        heartbeat_due(s, now, fd),
    ensures
        idle_message(s, now, fd) matches Some(o) && o.seq == s.sessions[fd].next_out && o.kind
            == MSG_HEARTBEAT,
        after_idle(s, now, fd).sessions[fd].next_out == next64(s.sessions[fd].next_out),
        after_idle(s, now, fd).sessions[fd].next_in == s.sessions[fd].next_in,
{
}

/// After a Logout nothing but a Logon is taken from the connection.
pub proof fn lemma_logout_is_final(s: FixView, fd: i32, m: MessageView, next: MessageView)
    requires
        in_sequence(s, fd, m),
        m.kind == seq![MSG_LOGOUT],
        next.kind != seq![MSG_LOGON],
    ensures
        handled(s, fd, m).verdict is Reply,
        handled(s, fd, m).reply matches Some(o) && o.kind == MSG_LOGOUT,
        handled(handled(s, fd, m).state, fd, next).verdict is Disconnect,
{
    lemma_message_types();
}

/// When a connection ends, nothing of it is kept and nothing else is touched.
pub proof fn lemma_end_forgets(s: FixView, fd: i32, other: i32)
    requires
        other != fd,
        s.names.contains_key(other),
    ensures
        !after_end(s, fd).sessions.contains_key(fd),
        after_end(s, fd).names[fd] == no_names(),
        after_end(s, fd).sessions.contains_key(other) == s.sessions.contains_key(other),
        s.sessions.contains_key(other) ==> after_end(s, fd).sessions[other] == s.sessions[other],
        after_end(s, fd).names[other] == s.names[other],
{
}

proof fn lemma_number_text_fits(v: u64)
    ensures
        value_fits(number_text(v)),
{
    let t = number_text(v);
    let n = signed64(v);
    lemma_decimal_digits(n as nat);
    lemma_decimal_digits((-n) as nat);
    assert forall|i: int| 0 <= i < t.len() implies t[i] != SOH by {
        if n < 0 {
            if i > 0 {
                assert(t[i] == decimal((-n) as nat)[i - 1]);
            }
        } else {
            assert(t[i] == decimal(n as nat)[i]);
        }
    }
}

proof fn lemma_refusal_texts_fit()
    ensures
        value_fits(encode_utf8("compid"@)),
        value_fits(encode_utf8("seq"@)),
        value_fits(encode_utf8("symbol"@)),
        value_fits(encode_utf8("fields"@)),
        value_fits(encode_utf8("clordid"@)),
{
    reveal_strlit("compid");
    reveal_strlit("seq");
    reveal_strlit("symbol");
    reveal_strlit("fields");
    reveal_strlit("clordid");
    is_ascii_chars_encode_utf8("compid"@);
    is_ascii_chars_encode_utf8("seq"@);
    is_ascii_chars_encode_utf8("symbol"@);
    is_ascii_chars_encode_utf8("fields"@);
    is_ascii_chars_encode_utf8("clordid"@);
}

/// Whatever an acceptor refuses it can frame, as long as both CompIDs can stand
/// in a field: the refusal is written whenever it fits into the buffer.
pub proof fn lemma_refusals_are_written(s: FixView, fd: i32, m: MessageView, room: nat)
    requires
        value_fits(s.us),
        value_fits(s.them),
    ensures
        handled(s, fd, m).reply matches Some(o) ==> (o.kind == MSG_REJECT || o.kind
            == MSG_BUSINESS_REJECT) ==> {
            &&& encodable(outgoing_fields(s, o))
            &&& framed(begin_bytes(), outgoing_fields(s, o)).len() <= room ==> written(
                s,
                o,
                room,
            ) == framed(begin_bytes(), outgoing_fields(s, o))
        },
{
    let h = handled(s, fd, m);
    if let Some(o) = h.reply {
        if o.kind == MSG_REJECT || o.kind == MSG_BUSINESS_REJECT {
            lemma_refusal_texts_fit();
            lemma_number_text_fits(o.seq);
            let fields = outgoing_fields(s, o);
            if let Some(seq) = number_of(m, TAG_SEQ) {
                lemma_number_text_fits(seq);
            }
            assert forall|i: int| 0 <= i < fields.len() implies value_fits(
                #[trigger] fields[i].1,
            ) by {
                if i == 0 {
                    assert(fields[0].1 =~= seq![o.kind]);
                    assert(!seq![o.kind].contains(SOH));
                }
            }
        }
    }
}

} // verus!
