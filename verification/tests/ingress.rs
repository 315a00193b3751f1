use ironfix_core::message::MsgType;
use ironfix_tagvalue::{Decoder, Encoder};
use matching_engine::cli::{parse_address, parse_args, Stop};
use matching_engine::codec::fix::Fix;
use matching_engine::codec::itch::Packet;
use matching_engine::codec::ouch::{self, Ouch};
use matching_engine::codec::sbe::order_entry::{NewOrderSingle, Side as SbeSide};
use matching_engine::codec::sbe::symbol;
use matching_engine::codec::sbe_oe::SbeOe;
use matching_engine::codec::script::Script;
use matching_engine::codec::{OrderEntry, ParseOutcome, SessionId};
use matching_engine::egress::{send, Delivery};
use matching_engine::ingress::{feed, Action, End, Inbox, ReadEvent, READ_BUF};
use matching_engine::md_pub::{flush, offer};
use matching_engine::types::{Command, CommandType, Event, EventOrder, EventType, Price, Side};

fn frame(seq: i64, msg_type: &str, extra: impl FnOnce(&mut Encoder)) -> Vec<u8> {
    let mut enc = Encoder::new("FIX.4.4");
    enc.put_str(35, msg_type);
    enc.put_str(49, "CLIENT");
    enc.put_str(56, "VENUE");
    enc.put_int(34, seq);
    extra(&mut enc);
    enc.finish().expect("frame").to_vec()
}

fn type_of(buf: &[u8]) -> MsgType {
    let mut dec = Decoder::new(buf).with_checksum_validation(true);
    dec.decode().expect("reply").msg_type().clone()
}

fn written(actions: &[Action]) -> Vec<u8> {
    let mut out = Vec::new();
    for a in actions {
        if let Action::Write(bytes) = a {
            out.extend_from_slice(bytes);
        }
    }
    out
}

fn pushed(actions: &[Action]) -> Vec<Command> {
    let mut out = Vec::new();
    for a in actions {
        if let Action::Push(cmd) = a {
            out.push(*cmd);
        }
    }
    out
}

#[test]
fn scripted_parse_covers_every_outcome() {
    let mut oe = Script { steps: Vec::new(), idle: 4, ended: Vec::new() };
    let mut reply = [0u8; Script::MAX_OUT];
    let mut inbox = Inbox::new();
    let sid = SessionId(7);
    assert!(matches!(oe.parse(b"", SessionId(1), &mut [0u8; 4]), ParseOutcome::NeedMore));
    let got = inbox.on_read(&mut oe, sid, 0, ReadEvent::Idle, &mut reply);
    assert_eq!(written(&got.actions), b"IIII");

    oe.idle = 0;
    let got = inbox.on_read(&mut oe, sid, 0, ReadEvent::Idle, &mut reply);
    assert!(written(&got.actions).is_empty());
    assert!(got.actions.is_empty());
    assert_eq!(oe.encode_event(&Event::reset(), &mut [0u8; 4]), 0);

    oe.steps = vec![
        ParseOutcome::Command { cmd: Command::blank(CommandType::Add), consumed: 1 },
        ParseOutcome::Reply { bytes: 2, consumed: 1 },
        ParseOutcome::Reply { bytes: 0, consumed: 1 },
        ParseOutcome::Bad { consumed: 0 },
        ParseOutcome::NeedMore,
    ];
    let data = ReadEvent::Data(vec![1, 2, 3, 4, 5, 6, 7, 8]);
    let got = inbox.on_read(&mut oe, sid, 0, data, &mut reply);
    let cmds = pushed(&got.actions);
    assert_eq!(cmds.len(), 1);
    assert_eq!(cmds[0].ty, CommandType::Add);
    assert_eq!(written(&got.actions), b"ZZ");
    assert_eq!(got.actions.len(), 2);
    // Garbage that claims no byte still takes one.
    assert_eq!(got.consumed, 4);
    assert_eq!(got.end, End::Open);
    assert_eq!(inbox.bytes(), [5, 6, 7, 8]);

    oe.steps = vec![ParseOutcome::Disconnect { bytes: 2, consumed: 1 }];
    let got = inbox.on_read(&mut oe, sid, 0, ReadEvent::Data(vec![9]), &mut reply);
    assert_eq!(got.end, End::Dropped);
    assert_eq!(oe.ended.len(), 1);
    assert_eq!(oe.ended, [7]);
    assert_eq!(written(&got.actions), b"ZZ");

    let mut inbox = Inbox::new();
    oe.steps = vec![ParseOutcome::Disconnect { bytes: 0, consumed: 1 }];
    let got = inbox.on_read(&mut oe, SessionId(8), 0, ReadEvent::Data(vec![1]), &mut reply);
    assert_eq!(got.end, End::Dropped);
    assert!(got.actions.is_empty());
    assert_eq!(oe.ended.len(), 2);
}

#[test]
fn every_step_takes_at_least_a_byte() {
    let mut oe = Script::new();
    let mut reply = [0u8; Script::MAX_OUT];
    oe.steps = vec![
        ParseOutcome::Bad { consumed: 0 },
        ParseOutcome::Command { cmd: Command::blank(CommandType::Reset), consumed: 0 },
        ParseOutcome::Reply { bytes: 1, consumed: 0 },
        ParseOutcome::Bad { consumed: 2 },
        ParseOutcome::Disconnect { bytes: 0, consumed: 0 },
        ParseOutcome::Bad { consumed: 0 },
    ];
    let got = feed(&mut oe, &[0; 9], SessionId(3), &mut reply);
    assert_eq!(got.consumed, 6);
    assert_eq!(got.end, End::Dropped);
    assert_eq!(got.actions.len(), 2);
    assert_eq!(written(&got.actions), b"Z");
    assert_eq!(oe.steps.len(), 1);
}

#[test]
fn a_script_that_says_too_much_is_a_fault() {
    let mut reply = [0u8; 4];
    for step in [
        ParseOutcome::Command { cmd: Command::blank(CommandType::Add), consumed: 3 },
        ParseOutcome::Reply { bytes: 5, consumed: 1 },
        ParseOutcome::Reply { bytes: 1, consumed: 3 },
        ParseOutcome::Bad { consumed: 3 },
        ParseOutcome::Disconnect { bytes: 5, consumed: 1 },
    ] {
        let mut oe = Script { steps: vec![step], idle: 5, ended: Vec::new() };
        let got = feed(&mut oe, &[0; 2], SessionId(3), &mut reply);
        assert_eq!(got.end, End::Fault);
        assert_eq!(got.consumed, 0);
        assert_eq!(oe.on_idle(0, SessionId(3), &mut reply), 0);
        assert!(Script::writable(&Event::reset(), 0));
    }
}

#[test]
fn a_fix_stream_covers_every_outcome() {
    let mut oe = Fix::new("VENUE", "CLIENT", "AAPL");
    let mut reply = [0u8; 512];
    let mut inbox = Inbox::new();
    let sid = SessionId(5);
    assert!(matches!(oe.parse(b"", SessionId(1), &mut [0u8; 4]), ParseOutcome::NeedMore));
    let logon = frame(1, "A", |enc| enc.put_int(108, 1));
    let got = inbox.on_read(&mut oe, sid, 0, ReadEvent::Data(logon), &mut reply);
    assert_eq!(type_of(&written(&got.actions)), MsgType::Logon);
    let later = 2_000_000_000;
    let got = inbox.on_read(&mut oe, sid, later, ReadEvent::Idle, &mut reply);
    assert_eq!(type_of(&written(&got.actions)), MsgType::Heartbeat);
    assert_eq!(got.end, End::Open);

    let got = inbox.on_read(&mut oe, sid, later, ReadEvent::Idle, &mut reply);
    assert!(got.actions.is_empty());
    assert_eq!(oe.encode_event(&Event::reset(), &mut [0u8; 4]), 0);

    // A command, an answer, a silent message, garbage, and half a message.
    let mut data = frame(2, "D", |enc| {
        enc.put_str(11, "ORD1");
        enc.put_str(55, "AAPL");
        enc.put_str(54, "1");
        enc.put_str(38, "10");
        enc.put_str(44, "100");
    });
    data.extend_from_slice(&frame(3, "1", |_| {}));
    data.extend_from_slice(&frame(4, "0", |_| {}));
    data.extend_from_slice(b"9=1\x01");
    let whole = data.len();
    data.extend_from_slice(&frame(5, "0", |_| {})[..20]);
    let got = inbox.on_read(&mut oe, sid, later, ReadEvent::Data(data), &mut reply);
    let cmds = pushed(&got.actions);
    assert_eq!(cmds.len(), 1);
    assert_eq!(cmds[0].ty, CommandType::Add);
    assert_eq!(type_of(&written(&got.actions)), MsgType::Heartbeat);
    assert_eq!(got.actions.len(), 2);
    assert_eq!(got.consumed, whole);
    assert_eq!(got.end, End::Open);
    assert_eq!(inbox.room(), READ_BUF - 20);
    let rest = frame(5, "0", |_| {})[20..].to_vec();
    let got = inbox.on_read(&mut oe, sid, later, ReadEvent::Data(rest), &mut reply);
    assert!(got.actions.is_empty());
    assert_eq!(inbox.room(), READ_BUF);

    // What ends a session with a word, and what ends it without.
    let late = frame(99, "0", |_| {});
    let got = inbox.on_read(&mut oe, sid, later, ReadEvent::Data(late), &mut reply);
    assert_eq!(got.end, End::Dropped);
    assert_eq!(type_of(&written(&got.actions)), MsgType::Reject);
    // The codec has forgotten the session.
    assert_eq!(oe.clord_for(sid, 1), None);

    let mut inbox = Inbox::new();
    let stray = frame(1, "0", |_| {});
    let got = inbox.on_read(&mut oe, sid, later, ReadEvent::Data(stray), &mut reply);
    assert_eq!(got.end, End::Dropped);
    assert!(got.actions.is_empty());
}

fn enter(user_ref: u32) -> Vec<u8> {
    let mut m = vec![0u8; ouch::ENTER_LEN];
    m[0] = ouch::ENTER;
    m[1..5].copy_from_slice(&user_ref.to_be_bytes());
    m[5] = b'B';
    m[31..45].copy_from_slice(b"CLORD-00000001");
    m
}

#[test]
fn ouch_session_uses_the_default_idle_hook() {
    let mut oe = Ouch;
    let mut reply = [0u8; 128];
    let mut inbox = Inbox::new();
    let sid = SessionId(4);
    let got = inbox.on_read(&mut oe, sid, 7, ReadEvent::Idle, &mut reply);
    assert!(got.actions.is_empty());

    let got = inbox.on_read(&mut oe, sid, 7, ReadEvent::Data(enter(0)), &mut reply);
    let cmd = pushed(&got.actions)[0];
    assert_eq!(cmd.ty, CommandType::Add);
    assert_eq!(cmd.side, Side::Bid);
    assert_eq!(&cmd.cl_ord_id, b"CLORD-00000001");
    assert_eq!(cmd.client_fd, 4);
    let got = inbox.on_read(&mut oe, sid, 7, ReadEvent::Data(Vec::new()), &mut reply);
    assert_eq!(got.end, End::Dropped);
    let got = inbox.on_read(&mut oe, sid, 7, ReadEvent::Failed, &mut reply);
    assert_eq!(got.end, End::Dropped);
}

#[test]
fn a_stream_can_be_cut_anywhere() {
    let mut stream = enter(1);
    stream.extend_from_slice(b"??");
    stream.extend_from_slice(&enter(2));
    stream.extend_from_slice(&enter(3));
    let mut reply = [0u8; 128];
    let sid = SessionId(4);
    for cut in 0..stream.len() {
        let mut inbox = Inbox::new();
        let mut oe = Ouch;
        let mut refs = Vec::new();
        for part in [&stream[..cut], &stream[cut..]] {
            if part.is_empty() {
                continue;
            }
            let got = inbox.on_read(&mut oe, sid, 0, ReadEvent::Data(part.to_vec()), &mut reply);
            refs.extend(pushed(&got.actions).iter().map(|c| c.user_ref));
        }
        assert_eq!(refs, [1, 2, 3]);
        assert_eq!(inbox.room(), READ_BUF);
    }
}

fn sbe_add(name: &[u8], user_ref: u32) -> Vec<u8> {
    let mut buf = vec![0u8; 64];
    let m = NewOrderSingle {
        user_ref,
        symbol: symbol(name),
        side: SbeSide::Buy,
        price: 100,
        quantity: 10,
    };
    let n = m.encode(&mut buf);
    buf.truncate(n);
    buf
}

#[test]
fn an_sbe_stream_can_be_cut_anywhere() {
    let mut stream = sbe_add(b"AAPL", 1);
    // A message of no known kind.
    stream.extend_from_slice(&[2, 0, 99, 0, 1, 0, 0, 0, 7, 7]);
    stream.extend_from_slice(&sbe_add(b"MSFT", 2));
    stream.extend_from_slice(&sbe_add(b"AAPL", 3));
    // No message of this schema: byte by byte, until a header could follow.
    stream.extend_from_slice(&[0; 9]);
    let mut reply = [0u8; 128];
    let sid = SessionId(4);
    let whole = feed(&mut SbeOe::new(b"AAPL"), &stream, sid, &mut reply);
    assert_eq!(whole.end, End::Open);
    assert_eq!(whole.consumed, stream.len() - 7);
    for cut in 0..stream.len() {
        let mut inbox = Inbox::new();
        let mut oe = SbeOe::new(b"AAPL");
        let mut refs = Vec::new();
        let mut answers = Vec::new();
        for part in [&stream[..cut], &stream[cut..]] {
            if part.is_empty() {
                continue;
            }
            let got = inbox.on_read(&mut oe, sid, 0, ReadEvent::Data(part.to_vec()), &mut reply);
            refs.extend(pushed(&got.actions).iter().map(|c| (c.user_ref, c.client_fd)));
            answers.extend_from_slice(&written(&got.actions));
        }
        assert_eq!(refs, [(1, 4), (3, 4)]);
        assert_eq!(answers, written(&whole.actions));
        assert_eq!(inbox.room(), READ_BUF - 7);
    }
}

#[test]
fn what_a_codec_cannot_read_is_a_fault() {
    let mut oe = SbeOe::new(b"AAPL");
    let mut reply = [0u8; 128];
    let wire = [0u8, 0, 1, 0, 1, 0, 0, 0];
    let got = feed(&mut oe, &wire, SessionId(1), &mut reply);
    assert_eq!(got.end, End::Fault);
    assert!(got.actions.is_empty());
    assert_eq!(got.consumed, 0);
}

fn accepted(fd: i32, side: Side) -> Event {
    Event::accepted(
        fd,
        EventOrder {
            order_id: 5,
            user_ref: 7,
            price: Price(10),
            quantity: 3,
            side,
            order_state: b'L',
            cl_ord_id: [b'E'; 14],
        },
    )
}

#[test]
fn writes_acks_and_skips_silent_events() {
    let mut oe = Ouch;
    let mut scratch = [0u8; 128];
    assert!(matches!(send(&mut oe, &Event::reset(), &mut scratch), Delivery::Nothing));
    let mut quiet = Event::reset();
    quiet.client_fd = 6;
    quiet.ty = EventType::BookReset;
    assert!(matches!(send(&mut oe, &quiet, &mut scratch), Delivery::Nothing));
    match send(&mut oe, &accepted(6, Side::Bid), &mut scratch) {
        Delivery::Write { fd, bytes } => {
            assert_eq!(fd, 6);
            assert_eq!(bytes.len(), 64);
            assert_eq!(bytes[0], b'A');
            assert_eq!(bytes[13], b'B');
        }
        _ => panic!("expected an ack"),
    }
    let mut sbe = SbeOe::new(b"AAPL");
    assert!(matches!(
        send(&mut sbe, &accepted(6, Side::Bid), &mut [0u8; 70]),
        Delivery::Fault
    ));
}

#[test]
fn publishes_a_full_packet_then_the_retry() {
    let mut md = Packet::new();
    let ev = accepted(1, Side::Bid);
    let mut n = 0;
    let full = loop {
        match offer(&mut md, &ev) {
            None => n += 1,
            Some(bytes) => break bytes,
        }
    };
    assert_eq!(n, 36);
    assert!(full.len() > 20);
    assert_eq!(&full[..10], b"OB_SESSION");
    let rest = flush(&mut md).expect("retry");
    assert_eq!(rest.len(), 20 + 38);
    assert_eq!(flush(&mut md), None);
}

fn args(parts: &[&str]) -> Vec<String> {
    parts.iter().map(|s| (*s).to_string()).collect()
}

#[test]
fn help_unknown_and_a_missing_value() {
    let code = |parts: &[&str]| parse_args(&args(parts)).err().map(|s| s.code());
    assert_eq!(code(&["--help"]), Some(Some(0)));
    assert_eq!(code(&["-h"]), Some(Some(0)));
    assert_eq!(code(&["--nope"]), Some(Some(2)));
    assert_eq!(code(&["--slab"]), Some(Some(2)));
    assert_eq!(code(&["-p"]), Some(Some(2)));
}

#[test]
fn arguments_override_the_defaults() {
    let c = parse_args(&args(&[])).unwrap();
    assert_eq!(c.port, 12345);
    assert_eq!(c.wal, b"orderbook.wal");
    assert_eq!(c.itch_ip, [239, 0, 0, 1]);
    assert_eq!(c.slab, 1 << 20);
    let c = parse_args(&args(&[
        "-p", "1", "--wal", "x", "--itch-ip", "1.2.3.4", "--itch-port", "9", "--itch-iface",
        "255.0.0.9", "-i", "1", "-e", "2", "-o", "3", "-m", "4", "--slab", "5", "--port", "+65535",
    ]))
    .unwrap();
    assert_eq!(c.port, 65535);
    assert_eq!(c.wal, b"x");
    assert_eq!(c.itch_ip, [1, 2, 3, 4]);
    assert_eq!(c.itch_port, 9);
    assert_eq!(c.itch_iface, [255, 0, 0, 9]);
    assert_eq!((c.cpu_ingress, c.cpu_engine, c.cpu_egress, c.cpu_itch), (1, 2, 3, 4));
    assert_eq!(c.slab, 5);
    assert!(matches!(parse_args(&args(&["-p", "65536"])), Err(Stop::BadValue)));
    assert!(matches!(parse_args(&args(&["-p", "x", "-h"])), Err(Stop::BadValue)));
    assert!(matches!(parse_args(&args(&["-h", "-p", "x"])), Err(Stop::Help)));
    assert!(matches!(parse_args(&args(&["--itch-ip", "1.2.3"])), Err(Stop::BadValue)));
}

#[test]
fn addresses_are_four_plain_octets() {
    assert_eq!(parse_address(b"1.2.3.4"), Some([1, 2, 3, 4]));
    assert_eq!(parse_address(b"0.0.0.0"), Some([0, 0, 0, 0]));
    assert_eq!(parse_address(b"255.255.255.255"), Some([255; 4]));
    for text in [
        "256.1.1.1", "01.2.3.4", "1.2.3", "1.2.3.4.5", "1..2.3", "", ".", "...", "1.2.3.4 ",
        "+1.2.3.4", "1.2.3.-4", "1.2.3.0004", "00.0.0.0", "a.b.c.d",
    ] {
        assert_eq!(parse_address(text.as_bytes()), None, "{}", text);
    }
}
