use ironfix_core::message::MsgType;
use ironfix_tagvalue::{Decoder, Encoder};
use matching_engine::codec::fix::Fix;
use matching_engine::codec::fix_model::{
    TAG_CLORD, TAG_ENCRYPT, TAG_HB, TAG_ORIG_CLORD, TAG_PRICE, TAG_QTY, TAG_SENDER, TAG_SEQ,
    TAG_SIDE, TAG_SYMBOL, TAG_TARGET, TAG_TEST_REQ, TAG_TIF,
};
use matching_engine::codec::tagvalue::{Field, Message};
use matching_engine::codec::price::parse_price;
use matching_engine::codec::text_map::TextMap;
use matching_engine::codec::{OrderEntry, ParseOutcome, SessionId};
use matching_engine::types::{
    pad_id, CommandType, Event, EventOrder, EventReject, EventTrade, Price, Side,
};

const SID: SessionId = SessionId(1);
const SECOND: u64 = 1_000_000_000;

fn client_frame(seq: i64, msg_type: &str, extra: impl FnOnce(&mut Encoder)) -> Vec<u8> {
    let mut enc = Encoder::new("FIX.4.4");
    enc.put_str(35, msg_type);
    enc.put_str(TAG_SENDER, "CLIENT");
    enc.put_str(TAG_TARGET, "VENUE");
    enc.put_int(TAG_SEQ, seq);
    extra(&mut enc);
    enc.finish().expect("frame").to_vec()
}

fn heartbeat() -> Vec<u8> {
    client_frame(1, "0", |_| {})
}

fn logon(seq: i64, hb: i64) -> Vec<u8> {
    client_frame(seq, "A", |enc| {
        enc.put_int(TAG_ENCRYPT, 0);
        enc.put_int(TAG_HB, hb);
    })
}

fn parse_on(fix: &mut Fix, buf: &[u8], reply: &mut [u8]) -> ParseOutcome {
    fix.parse(buf, SID, reply)
}

fn decode_type(buf: &[u8]) -> MsgType {
    let mut dec = Decoder::new(buf).with_checksum_validation(true);
    dec.decode().expect("reply").msg_type().clone()
}

fn field(buf: &[u8], tag: u32) -> Option<String> {
    let mut dec = Decoder::new(buf).with_checksum_validation(true);
    let msg = dec.decode().expect("reply");
    msg.get_field_str(tag).map(|s| s.to_string())
}

#[test]
fn truncated_needs_more() {
    let mut fix = Fix::new("VENUE", "CLIENT", "AAPL");
    let hb = heartbeat();
    assert!(matches!(
        parse_on(&mut fix, &hb[..hb.len() / 2], &mut [0u8; 8]),
        ParseOutcome::NeedMore
    ));
    assert!(matches!(
        parse_on(&mut fix, &[], &mut [0u8; 8]),
        ParseOutcome::NeedMore
    ));
}

#[test]
fn bad_checksum_is_bad() {
    let mut fix = Fix::new("VENUE", "CLIENT", "AAPL");
    let mut hb = heartbeat();
    let i = hb.iter().position(|&b| b == b'=').expect("tag 8");
    hb[i + 1] ^= 0x01;
    match parse_on(&mut fix, &hb, &mut [0u8; 256]) {
        ParseOutcome::Bad { consumed } => assert!(consumed >= 1),
        ParseOutcome::NeedMore => panic!("NeedMore"),
        ParseOutcome::Reply { .. } => panic!("Reply"),
        ParseOutcome::Command { .. } => panic!("Command"),
        ParseOutcome::Disconnect { .. } => panic!("Disconnect"),
    }
}

#[test]
fn logon_replies_logon() {
    let mut fix = Fix::new("VENUE", "CLIENT", "AAPL");
    let mut reply = [0u8; 512];
    match parse_on(&mut fix, &logon(1, 30), &mut reply) {
        ParseOutcome::Reply { bytes, consumed } => {
            assert!(consumed > 0);
            assert_eq!(decode_type(&reply[..bytes]), MsgType::Logon);
        }
        _ => panic!("expected Logon reply"),
    }
}

#[test]
fn heartbeat_after_logon_consumed() {
    let mut fix = Fix::new("VENUE", "CLIENT", "AAPL");
    let mut reply = [0u8; 512];
    assert!(matches!(
        parse_on(&mut fix, &logon(1, 30), &mut reply),
        ParseOutcome::Reply { .. }
    ));
    match parse_on(&mut fix, &client_frame(2, "0", |_| {}), &mut reply) {
        ParseOutcome::Reply { bytes, consumed } => {
            assert_eq!(bytes, 0);
            assert!(consumed > 0);
        }
        _ => panic!("expected silent Heartbeat"),
    }
}

#[test]
fn logout_replies_logout() {
    let mut fix = Fix::new("VENUE", "CLIENT", "AAPL");
    let mut reply = [0u8; 512];
    assert!(matches!(
        parse_on(&mut fix, &logon(1, 30), &mut reply),
        ParseOutcome::Reply { .. }
    ));
    match parse_on(&mut fix, &client_frame(2, "5", |_| {}), &mut reply) {
        ParseOutcome::Reply { bytes, .. } => {
            assert_eq!(decode_type(&reply[..bytes]), MsgType::Logout);
        }
        _ => panic!("expected Logout reply"),
    }
}

#[test]
fn unexpected_seq_disconnects() {
    let mut fix = Fix::new("VENUE", "CLIENT", "AAPL");
    let mut reply = [0u8; 512];
    assert!(matches!(
        parse_on(&mut fix, &logon(1, 30), &mut reply),
        ParseOutcome::Reply { .. }
    ));
    match parse_on(&mut fix, &client_frame(9, "0", |_| {}), &mut reply) {
        ParseOutcome::Disconnect { bytes, .. } => {
            assert_eq!(decode_type(&reply[..bytes]), MsgType::Reject);
        }
        _ => panic!("expected Disconnect"),
    }
}

#[test]
fn idle_heartbeat_after_interval() {
    let mut fix = Fix::new("VENUE", "CLIENT", "AAPL");
    let mut reply = [0u8; 512];
    let now = 5 * SECOND;
    fix.tick(now);
    assert!(matches!(
        parse_on(&mut fix, &logon(1, 1), &mut reply),
        ParseOutcome::Reply { .. }
    ));
    let later = now + 2 * SECOND;
    let n = fix.on_idle(later, SID, &mut reply);
    assert!(n > 0);
    assert_eq!(decode_type(&reply[..n]), MsgType::Heartbeat);
    assert_eq!(fix.on_idle(later, SID, &mut reply), 0);
}

fn logged_in() -> (Fix, [u8; 512]) {
    let mut fix = Fix::new("VENUE", "CLIENT", "AAPL");
    let mut reply = [0u8; 512];
    assert!(matches!(
        parse_on(&mut fix, &logon(1, 30), &mut reply),
        ParseOutcome::Reply { .. }
    ));
    (fix, reply)
}

#[test]
fn new_order_single_is_add() {
    let (mut fix, mut reply) = logged_in();
    let wire = client_frame(2, "D", |enc| {
        enc.put_str(TAG_CLORD, "ORD1");
        enc.put_str(TAG_SYMBOL, "AAPL");
        enc.put_str(TAG_SIDE, "1");
        enc.put_str(TAG_QTY, "10");
        enc.put_str(TAG_PRICE, "100");
    });
    match parse_on(&mut fix, &wire, &mut reply) {
        ParseOutcome::Command { cmd, .. } => {
            assert_eq!(cmd.ty, CommandType::Add);
            assert_eq!(cmd.side, Side::Bid);
            assert_eq!(cmd.quantity, 10);
            assert_eq!(cmd.price, Price(100));
            assert_eq!(cmd.client_fd, 1);
        }
        _ => panic!("expected Command"),
    }
}

#[test]
fn wrong_symbol_is_not_a_command() {
    let (mut fix, mut reply) = logged_in();
    let wire = client_frame(2, "D", |enc| {
        enc.put_str(TAG_CLORD, "ORD1");
        enc.put_str(TAG_SYMBOL, "MSFT");
        enc.put_str(TAG_SIDE, "1");
        enc.put_str(TAG_QTY, "10");
        enc.put_str(TAG_PRICE, "100");
    });
    match parse_on(&mut fix, &wire, &mut reply) {
        ParseOutcome::Reply { bytes, .. } => {
            assert!(bytes > 0);
            assert_eq!(decode_type(&reply[..bytes]), MsgType::BusinessMessageReject);
        }
        _ => panic!("expected adapter reject"),
    }
}

fn add_ord1(seq: i64) -> Vec<u8> {
    client_frame(seq, "D", |enc| {
        enc.put_str(TAG_CLORD, "ORD1");
        enc.put_str(TAG_SYMBOL, "AAPL");
        enc.put_str(TAG_SIDE, "1");
        enc.put_str(TAG_QTY, "10");
        enc.put_str(TAG_PRICE, "100");
    })
}

#[test]
fn cancel_and_replace_share_user_ref() {
    let (mut fix, mut reply) = logged_in();
    let uref = match parse_on(&mut fix, &add_ord1(2), &mut reply) {
        ParseOutcome::Command { cmd, .. } => cmd.user_ref,
        _ => panic!("add"),
    };
    assert_eq!(fix.clord_for(SID, uref).as_deref(), Some(&b"ORD1"[..]));
    let replace = client_frame(3, "G", |enc| {
        enc.put_str(TAG_CLORD, "ORD2");
        enc.put_str(TAG_ORIG_CLORD, "ORD1");
        enc.put_str(TAG_SYMBOL, "AAPL");
        enc.put_str(TAG_SIDE, "2");
        enc.put_str(TAG_QTY, "5");
        enc.put_str(TAG_PRICE, "99");
    });
    match parse_on(&mut fix, &replace, &mut reply) {
        ParseOutcome::Command { cmd, .. } => {
            assert_eq!(cmd.ty, CommandType::Modify);
            assert_eq!(cmd.user_ref, uref);
            assert_eq!(cmd.quantity, 5);
        }
        _ => panic!("expected Modify"),
    }
    let cancel = client_frame(4, "F", |enc| {
        enc.put_str(TAG_CLORD, "CXL1");
        enc.put_str(TAG_ORIG_CLORD, "ORD2");
        enc.put_str(TAG_SYMBOL, "AAPL");
    });
    match parse_on(&mut fix, &cancel, &mut reply) {
        ParseOutcome::Command { cmd, .. } => {
            assert_eq!(cmd.ty, CommandType::Cancel);
            assert_eq!(cmd.user_ref, uref);
        }
        _ => panic!("expected Cancel"),
    }
}

#[test]
fn unknown_clordid_is_not_a_command() {
    let (mut fix, mut reply) = logged_in();
    let cancel = client_frame(2, "F", |enc| {
        enc.put_str(TAG_CLORD, "CXL1");
        enc.put_str(TAG_ORIG_CLORD, "NOPE");
        enc.put_str(TAG_SYMBOL, "AAPL");
    });
    match parse_on(&mut fix, &cancel, &mut reply) {
        ParseOutcome::Reply { bytes, .. } => {
            assert!(bytes > 0);
            assert_eq!(decode_type(&reply[..bytes]), MsgType::BusinessMessageReject);
        }
        _ => panic!("expected adapter reject"),
    }
}

#[test]
fn encode_accept_and_trade_tags() {
    let (mut fix, mut reply) = logged_in();
    let uref = match parse_on(&mut fix, &add_ord1(2), &mut reply) {
        ParseOutcome::Command { cmd, .. } => cmd.user_ref,
        _ => panic!("add"),
    };
    let acc = Event::accepted(
        SID.0,
        EventOrder {
            order_id: 42,
            user_ref: uref,
            price: Price(100),
            quantity: 10,
            side: Side::Bid,
            order_state: b'L',
            cl_ord_id: pad_id(b"ORD1"),
        },
    );
    let n = fix.encode_event(&acc, &mut reply);
    assert!(n > 0);
    {
        let mut dec = Decoder::new(&reply[..n]).with_checksum_validation(true);
        let msg = dec.decode().expect("er");
        assert_eq!(msg.msg_type().clone(), MsgType::ExecutionReport);
        assert_eq!(msg.get_field_str(11), Some("ORD1"));
        assert!(msg.get_field_str(17).is_some());
        assert_eq!(msg.get_field_str(39), Some("0"));
        assert_eq!(msg.get_field_str(150), Some("0"));
    }

    let tr = Event::trade(
        SID.0,
        EventTrade {
            match_number: 1,
            maker_exchange_id: 42,
            maker_user_ref: uref,
            price: Price(100),
            quantity: 3,
            taker_side: Side::Ask,
        },
    );
    let n = fix.encode_event(&tr, &mut reply);
    let mut dec = Decoder::new(&reply[..n]).with_checksum_validation(true);
    let msg = dec.decode().expect("tr");
    assert_eq!(msg.get_field_str(11), Some("ORD1"));
    assert!(msg.get_field_str(17).is_some());
    assert_eq!(msg.get_field_str(31), Some("100"));
    assert_eq!(msg.get_field_str(32), Some("3"));
    assert_eq!(msg.get_field_str(39), Some("1"));
    assert_eq!(msg.get_field_str(150), Some("F"));
}

#[test]
fn logon_reply_has_exact_bytes() {
    let mut fix = Fix::new("V", "CLIENT", "AAPL");
    let mut enc = Encoder::new("FIX.4.4");
    enc.put_str(35, "A");
    enc.put_str(TAG_SENDER, "CLIENT");
    enc.put_str(TAG_TARGET, "V");
    enc.put_int(TAG_SEQ, 1);
    enc.put_int(TAG_HB, 7);
    let wire = enc.finish().expect("frame").to_vec();
    let mut reply = [0u8; 256];
    match parse_on(&mut fix, &wire, &mut reply) {
        ParseOutcome::Reply { bytes, consumed } => {
            assert_eq!(consumed, wire.len());
            let body = b"35=A\x0149=V\x0156=CLIENT\x0134=1\x0198=0\x01108=7\x01";
            let mut want = Vec::new();
            want.extend_from_slice(format!("8=FIX.4.4\x019={}\x01", body.len()).as_bytes());
            want.extend_from_slice(body);
            let sum: u32 = want.iter().map(|&b| b as u32).sum();
            want.extend_from_slice(format!("10={:03}\x01", sum % 256).as_bytes());
            assert_eq!(&reply[..bytes], &want[..]);
            assert!(reply[bytes..].iter().all(|&b| b == 0));
        }
        _ => panic!("expected Logon reply"),
    }
}

#[test]
fn a_logon_must_be_the_first_message() {
    let mut fix = Fix::new("VENUE", "CLIENT", "AAPL");
    let mut reply = [0u8; 512];
    match parse_on(&mut fix, &logon(3, 30), &mut reply) {
        ParseOutcome::Disconnect { bytes, .. } => {
            assert_eq!(decode_type(&reply[..bytes]), MsgType::Reject);
            assert_eq!(field(&reply[..bytes], 45).as_deref(), Some("3"));
            assert_eq!(field(&reply[..bytes], 58).as_deref(), Some("seq"));
        }
        _ => panic!("expected Disconnect"),
    }
    // Without a session nothing but a Logon is taken.
    match parse_on(&mut fix, &heartbeat(), &mut reply) {
        ParseOutcome::Disconnect { bytes, .. } => assert_eq!(bytes, 0),
        _ => panic!("expected Disconnect"),
    }
}

#[test]
fn wrong_comp_ids_are_refused() {
    let mut fix = Fix::new("OTHER", "CLIENT", "AAPL");
    let mut reply = [0u8; 512];
    match parse_on(&mut fix, &logon(1, 30), &mut reply) {
        ParseOutcome::Disconnect { bytes, .. } => {
            assert_eq!(decode_type(&reply[..bytes]), MsgType::Reject);
            assert_eq!(field(&reply[..bytes], 58).as_deref(), Some("compid"));
            assert_eq!(field(&reply[..bytes], 34).as_deref(), Some("1"));
        }
        _ => panic!("expected Disconnect"),
    }
}

#[test]
fn another_version_is_dropped_without_an_answer() {
    let mut fix = Fix::new("VENUE", "CLIENT", "AAPL");
    let mut enc = Encoder::new("FIX.4.2");
    enc.put_str(35, "A");
    enc.put_str(TAG_SENDER, "CLIENT");
    enc.put_str(TAG_TARGET, "VENUE");
    enc.put_int(TAG_SEQ, 1);
    let wire = enc.finish().expect("frame").to_vec();
    let mut reply = [0u8; 512];
    match parse_on(&mut fix, &wire, &mut reply) {
        ParseOutcome::Disconnect { bytes, consumed } => {
            assert_eq!(bytes, 0);
            assert_eq!(consumed, wire.len());
        }
        _ => panic!("expected Disconnect"),
    }
}

#[test]
fn a_test_request_is_echoed() {
    let (mut fix, mut reply) = logged_in();
    let wire = client_frame(2, "1", |enc| enc.put_str(TAG_TEST_REQ, "PING=1"));
    match parse_on(&mut fix, &wire, &mut reply) {
        ParseOutcome::Reply { bytes, .. } => {
            assert_eq!(decode_type(&reply[..bytes]), MsgType::Heartbeat);
            assert_eq!(field(&reply[..bytes], 112).as_deref(), Some("PING=1"));
            assert_eq!(field(&reply[..bytes], 34).as_deref(), Some("2"));
        }
        _ => panic!("expected Heartbeat"),
    }
    match parse_on(&mut fix, &client_frame(3, "1", |_| {}), &mut reply) {
        ParseOutcome::Reply { bytes, .. } => {
            assert_eq!(field(&reply[..bytes], 112), None);
            assert_eq!(field(&reply[..bytes], 34).as_deref(), Some("3"));
        }
        _ => panic!("expected Heartbeat"),
    }
}

#[test]
fn after_a_logout_the_session_is_over() {
    let (mut fix, mut reply) = logged_in();
    assert!(matches!(
        parse_on(&mut fix, &client_frame(2, "5", |_| {}), &mut reply),
        ParseOutcome::Reply { .. }
    ));
    let acc = accepted(SID.0, 1, b"X");
    assert_eq!(fix.encode_event(&acc, &mut reply), 0);
    match parse_on(&mut fix, &client_frame(3, "0", |_| {}), &mut reply) {
        ParseOutcome::Disconnect { bytes, .. } => assert_eq!(bytes, 0),
        _ => panic!("expected Disconnect"),
    }
}

fn accepted(fd: i32, user_ref: u32, id: &[u8]) -> Event {
    Event::accepted(
        fd,
        EventOrder {
            order_id: 42,
            user_ref,
            price: Price(100),
            quantity: 10,
            side: Side::Bid,
            order_state: b'L',
            cl_ord_id: pad_id(id),
        },
    )
}

#[test]
fn a_missing_field_is_refused() {
    let (mut fix, mut reply) = logged_in();
    let wire = client_frame(2, "D", |enc| {
        enc.put_str(TAG_CLORD, "ORD1");
        enc.put_str(TAG_SYMBOL, "AAPL");
        enc.put_str(TAG_SIDE, "3");
        enc.put_str(TAG_QTY, "10");
        enc.put_str(TAG_PRICE, "100");
    });
    match parse_on(&mut fix, &wire, &mut reply) {
        ParseOutcome::Reply { bytes, .. } => {
            assert_eq!(field(&reply[..bytes], 58).as_deref(), Some("fields"));
        }
        _ => panic!("expected refusal"),
    }
}

#[test]
fn a_price_that_is_no_whole_number_is_cut() {
    let (mut fix, mut reply) = logged_in();
    let wire = client_frame(2, "D", |enc| {
        enc.put_str(TAG_CLORD, "ORD1");
        enc.put_str(TAG_SYMBOL, "AAPL");
        enc.put_str(TAG_SIDE, "2");
        enc.put_str(TAG_QTY, "10");
        enc.put_str(TAG_PRICE, "100.75");
        enc.put_str(TAG_TIF, "3");
    });
    match parse_on(&mut fix, &wire, &mut reply) {
        ParseOutcome::Command { cmd, .. } => {
            assert_eq!(cmd.price, Price(100));
            assert_eq!(cmd.side, Side::Ask);
            assert_eq!(cmd.time_in_force, b'3');
            assert_eq!(&cmd.cl_ord_id, b"ORD1          ");
        }
        _ => panic!("expected Command"),
    }
    let wire = client_frame(3, "G", |enc| {
        enc.put_str(TAG_CLORD, "ORD1");
        enc.put_str(TAG_SYMBOL, "AAPL");
        enc.put_str(TAG_QTY, "7");
        enc.put_str(TAG_PRICE, "1.5e2");
    });
    match parse_on(&mut fix, &wire, &mut reply) {
        ParseOutcome::Command { cmd, .. } => {
            assert_eq!(cmd.quantity, 7);
            assert_eq!(cmd.price, Price(150));
        }
        _ => panic!("expected Command"),
    }
}

/// What a text comes to when it is read as a whole number, else as a double.
fn by_float(text: &str) -> Option<u64> {
    match text.parse::<u64>() {
        Ok(v) => Some(v),
        Err(_) => text.parse::<f64>().ok().map(|v| v as u64),
    }
}

#[test]
fn prices_are_read_as_doubles_are() {
    let texts = [
        "", "+", "-", ".", "e5", ".e5", "1e", "1e+", "1e-", "1e5x", "x", "0x10", "1_0", "1.2.3",
        "--1", "+-1", " 1", "1 ", "nanx", "infinit", "in", "1.0f", "1,5", "\u{661}", "1e1.5",
        "0", "-0", "+0", "00", "1", "+1", "-1", "007", "0.0", ".5", "5.", "+.5", "-.5", "5.e1",
        "100.75", "99.999", "1E3", "1e3", "1e+3", "1e-3", "12345e-2", "00012.5e1", "0.1e1",
        "nan", "NaN", "-nan", "+NAN", "inf", "-inf", "+inf", "Infinity", "-INFINITY", "iNfInItY",
        "0.9999999999999999", "0.99999999999999994", "0.99999999999999995", "0.4999999999999999999",
        "0.999999999999999944488848768742172978818416595458984375",
        "0.99999999999999994448884876874217297881841659545898437499",
        "0.99999999999999994448884876874217297881841659545898437501",
        "4.99999999999999999999", "4.9999999999999995", "4.9999999999999996", "4.999999999999999",
        "4503599627370495.5", "4503599627370495.75", "4503599627370495.49", "4503599627370495.9",
        "4503599627370496.5", "4503599627370497.5", "4503599627370497.4", "9007199254740991.5",
        "9007199254740991.4999", "9007199254740991.5001", "9007199254740992.5",
        "9007199254740993.0", "9007199254740993.0000001", "9007199254740992.9999999",
        "9007199254740995.0", "18014398509481986.0", "18014398509481985.99", "18014398509481990.0",
        "18446744073709551615", "18446744073709551616", "18446744073709551615.0",
        "18446744073709550591.0", "18446744073709550592.0", "18446744073709550593.0",
        "18446744073709549567.5", "18446744073709549568.0", "18446744073709549569.0",
        "1e19", "1e20", "1.5e19", "1.8446744073709552e19", "9999999999999999999.5",
        "99999999999999999999", "99999999999999999999.9", "100000000000000000000.1",
        "1e308", "1e309", "1e400", "1e-400", "0e400", "0.000e-400", "1e99999999999999999999999999",
        "1e-99999999999999999999999999999999999999", "0e99999999999999999999999999999999999999",
        "0.00000000000000000000000000000000012345e40", "123456789012345678901234567890e-20",
        "123456789012345678901234567890e-12", "0.1", "0.05", "0.0999999999999999999999",
        "72057594037927935.5", "72057594037927936.0", "72057594037927944.0",
        "72057594037927944.000000000000000000000000000000000001", "72057594037927952.0",
    ];
    for text in texts {
        assert_eq!(parse_price(text.as_bytes()), by_float(text), "{}", text);
    }
    assert_eq!(parse_price(b"100.75"), Some(100));
    assert_eq!(parse_price(b"0.99999999999999995"), Some(1));
    assert_eq!(parse_price(b"9007199254740993.0"), Some(9007199254740992));
    assert_eq!(parse_price(b"-7.5"), Some(0));
    assert_eq!(parse_price(b"inf"), Some(u64::MAX));
    assert_eq!(parse_price(b"1\xFF"), None);
}

#[test]
fn made_up_prices_are_read_as_doubles_are() {
    let mut seed: u64 = 0x9E37_79B9_7F4A_7C15;
    let mut next = |bound: u64| -> u64 {
        seed ^= seed << 13;
        seed ^= seed >> 7;
        seed ^= seed << 17;
        seed % bound
    };
    for _ in 0..20_000 {
        let mut text = String::new();
        let bits = next(66) as u32;
        let whole: u128 = if bits == 0 { 0 } else { (1u128 << bits) - 3 + next(6) as u128 };
        let whole = if next(2) == 0 { whole } else { whole ^ next(u64::MAX) as u128 };
        text.push_str(&whole.to_string());
        match next(4) {
            0 => {}
            1 => text.push_str(".5"),
            2 => {
                text.push('.');
                for _ in 0..next(25) {
                    text.push(if next(3) == 0 { '0' } else { '9' });
                }
            }
            _ => {
                text.push('.');
                for _ in 0..next(60) {
                    text.push((b'0' + next(10) as u8) as char);
                }
            }
        }
        if next(3) == 0 {
            text.push_str(&format!("e{}", next(50) as i64 - 25));
        }
        assert_eq!(parse_price(text.as_bytes()), by_float(&text), "{}", text);
    }
}

#[test]
fn a_price_that_is_no_number_is_refused() {
    let (mut fix, mut reply) = logged_in();
    let wire = client_frame(2, "D", |enc| {
        enc.put_str(TAG_CLORD, "ORD1");
        enc.put_str(TAG_SYMBOL, "AAPL");
        enc.put_str(TAG_SIDE, "2");
        enc.put_str(TAG_QTY, "10");
        enc.put_str(TAG_PRICE, "cheap");
    });
    match parse_on(&mut fix, &wire, &mut reply) {
        ParseOutcome::Reply { bytes, .. } => {
            assert_eq!(field(&reply[..bytes], 58).as_deref(), Some("fields"));
        }
        _ => panic!("expected refusal"),
    }
}

#[test]
fn a_text_map_keeps_the_last_value() {
    let mut map = TextMap::new();
    assert_eq!(map.get(b"a"), None);
    map.insert(b"a", 1u64);
    map.insert(b"b", 2);
    map.insert(b"a", 3);
    assert_eq!(map.get(b"a"), Some(3));
    assert_eq!(map.get(b"b"), Some(2));
    assert_eq!(map.get(b""), None);
    map.insert(b"\xFF", 4);
    assert_eq!(map.get(b"\xFF"), None);
    map.insert("\u{E9}".as_bytes(), 5);
    assert_eq!(map.get(&[0xC3, 0xA9]), Some(5));
}

#[test]
fn an_unnamed_order_is_reported_under_its_trimmed_id() {
    let (mut fix, mut reply) = logged_in();
    let n = fix.encode_event(&accepted(SID.0, 77, b"  LATE "), &mut reply);
    assert_eq!(field(&reply[..n], 11).as_deref(), Some("LATE"));
    let n = fix.encode_event(&accepted(SID.0, 77, b"L\xFFX"), &mut reply);
    assert_eq!(field(&reply[..n], 11).as_deref(), Some("L\u{FFFD}X"));
    // An id of nothing but spaces cannot be framed; its numbers are used up.
    assert_eq!(fix.encode_event(&accepted(SID.0, 77, b""), &mut reply), 0);
    let n = fix.encode_event(&accepted(SID.0, 77, b"A"), &mut reply);
    assert_eq!(field(&reply[..n], 17).as_deref(), Some("4"));
    assert_eq!(field(&reply[..n], 34).as_deref(), Some("5"));
}

#[test]
fn a_value_that_is_no_text_counts_as_missing() {
    let (mut fix, mut reply) = logged_in();
    let mut enc = Encoder::new("FIX.4.4");
    enc.put_str(35, "F");
    enc.put_str(TAG_SENDER, "CLIENT");
    enc.put_str(TAG_TARGET, "VENUE");
    enc.put_int(TAG_SEQ, 2);
    enc.put_str(TAG_SYMBOL, "AAPL");
    enc.put_raw(TAG_ORIG_CLORD, &[0xC3, 0x28]);
    let wire = enc.finish().expect("frame").to_vec();
    match parse_on(&mut fix, &wire, &mut reply) {
        ParseOutcome::Reply { bytes, .. } => {
            assert_eq!(field(&reply[..bytes], 58).as_deref(), Some("fields"));
        }
        _ => panic!("expected refusal"),
    }
}

#[test]
fn every_event_has_its_report() {
    let (mut fix, mut reply) = logged_in();
    assert!(matches!(
        parse_on(&mut fix, &add_ord1(2), &mut reply),
        ParseOutcome::Command { .. }
    ));
    let order = accepted(SID.0, 1, b"ORD1").order;
    let n = fix.encode_event(&Event::cancelled(SID.0, order), &mut reply);
    assert_eq!(field(&reply[..n], 150).as_deref(), Some("4"));
    assert_eq!(field(&reply[..n], 37).as_deref(), Some("42"));
    let n = fix.encode_event(&Event::modified(SID.0, order), &mut reply);
    assert_eq!(field(&reply[..n], 150).as_deref(), Some("5"));
    assert_eq!(field(&reply[..n], 44).as_deref(), Some("100"));
    let reject = EventReject { user_ref: 1, reason: 1, cl_ord_id: pad_id(b"ORD1") };
    let n = fix.encode_event(&Event::rejected(SID.0, reject), &mut reply);
    assert_eq!(field(&reply[..n], 150).as_deref(), Some("8"));
    assert_eq!(field(&reply[..n], 103).as_deref(), Some("1"));
    // A trade against another connection's order is reported under the last one.
    let trade = EventTrade {
        match_number: 1,
        maker_exchange_id: 9,
        maker_user_ref: 500,
        price: Price(7),
        quantity: 2,
        taker_side: Side::Ask,
    };
    let n = fix.encode_event(&Event::trade(SID.0, trade), &mut reply);
    assert_eq!(field(&reply[..n], 11).as_deref(), Some("ORD1"));
    assert_eq!(field(&reply[..n], 54).as_deref(), Some("2"));
    let own = EventTrade { maker_user_ref: 1, ..trade };
    let n = fix.encode_event(&Event::trade(SID.0, own), &mut reply);
    assert_eq!(field(&reply[..n], 54).as_deref(), Some("1"));
    assert_eq!(fix.encode_event(&Event::reset(), &mut reply), 0);
    assert_eq!(fix.encode_event(&Event::accepted(9, order), &mut reply), 0);
}

#[test]
fn a_report_that_does_not_fit_is_not_written() {
    let (mut fix, _) = logged_in();
    let mut small = [7u8; 16];
    assert_eq!(fix.encode_event(&accepted(SID.0, 1, b"X"), &mut small), 0);
    assert_eq!(small, [7u8; 16]);
}

#[test]
fn an_ended_connection_is_forgotten() {
    let (mut fix, mut reply) = logged_in();
    assert!(matches!(
        parse_on(&mut fix, &add_ord1(2), &mut reply),
        ParseOutcome::Command { .. }
    ));
    fix.on_session_end(SID);
    assert_eq!(fix.clord_for(SID, 1), None);
    match parse_on(&mut fix, &client_frame(3, "0", |_| {}), &mut reply) {
        ParseOutcome::Disconnect { bytes, .. } => assert_eq!(bytes, 0),
        _ => panic!("expected Disconnect"),
    }
}

#[test]
fn a_second_logon_keeps_the_names() {
    let (mut fix, mut reply) = logged_in();
    assert!(matches!(
        parse_on(&mut fix, &add_ord1(2), &mut reply),
        ParseOutcome::Command { .. }
    ));
    assert!(matches!(
        parse_on(&mut fix, &logon(1, 30), &mut reply),
        ParseOutcome::Reply { .. }
    ));
    match parse_on(&mut fix, &add_ord1(2), &mut reply) {
        ParseOutcome::Command { cmd, .. } => assert_eq!(cmd.user_ref, 1),
        _ => panic!("expected Command"),
    }
}

#[test]
fn a_new_name_gets_a_new_reference() {
    let (mut fix, mut reply) = logged_in();
    let mut refs = Vec::new();
    for (i, name) in ["ORD1", "ORD2", "ORD1", "ORD3"].iter().enumerate() {
        let wire = client_frame(2 + i as i64, "D", |enc| {
            enc.put_str(TAG_CLORD, name);
            enc.put_str(TAG_SYMBOL, "AAPL");
            enc.put_str(TAG_SIDE, "1");
            enc.put_str(TAG_QTY, "10");
            enc.put_str(TAG_PRICE, "100");
        });
        match parse_on(&mut fix, &wire, &mut reply) {
            ParseOutcome::Command { cmd, .. } => refs.push(cmd.user_ref),
            _ => panic!("expected Command"),
        }
    }
    assert_eq!(refs, [1, 2, 1, 3]);
}

#[test]
fn numbers_run_on_over_a_session() {
    let mut fix = Fix::new("VENUE", "CLIENT", "AAPL");
    let mut reply = [0u8; 512];
    let other = SessionId(2);
    let mut sent = Vec::new();
    let mut execs = Vec::new();
    for sid in [SID, other] {
        match fix.parse(&logon(1, 1), sid, &mut reply) {
            ParseOutcome::Reply { bytes, .. } => {
                if sid == SID {
                    sent.push(field(&reply[..bytes], 34).unwrap());
                }
            }
            _ => panic!("expected Logon reply"),
        }
    }
    // A silent heartbeat, an unknown type, a refusal and an order: inbound 2 to 5.
    let quiet = [client_frame(2, "0", |_| {}), client_frame(3, "B", |_| {})];
    for wire in &quiet {
        match parse_on(&mut fix, wire, &mut reply) {
            ParseOutcome::Reply { bytes, .. } => assert_eq!(bytes, 0),
            _ => panic!("expected silence"),
        }
    }
    let wrong = client_frame(4, "D", |enc| enc.put_str(TAG_SYMBOL, "MSFT"));
    match parse_on(&mut fix, &wrong, &mut reply) {
        ParseOutcome::Reply { bytes, .. } => sent.push(field(&reply[..bytes], 34).unwrap()),
        _ => panic!("expected refusal"),
    }
    assert!(matches!(
        parse_on(&mut fix, &add_ord1(5), &mut reply),
        ParseOutcome::Command { .. }
    ));
    // Events that nobody is told of use up no number.
    assert_eq!(fix.write_exec(&Event::reset(), &mut reply), 0);
    assert_eq!(fix.write_exec(&accepted(-1, 1, b"X"), &mut reply), 0);
    assert_eq!(fix.write_exec(&accepted(9, 1, b"X"), &mut reply), 0);
    for fd in [1, 2, 1] {
        let n = fix.write_exec(&accepted(fd, 1, b"X"), &mut reply);
        execs.push(field(&reply[..n], 17).unwrap());
        if fd == 1 {
            sent.push(field(&reply[..n], 34).unwrap());
        }
    }
    let n = fix.on_idle(2 * SECOND, SID, &mut reply);
    sent.push(field(&reply[..n], 34).unwrap());
    assert_eq!(sent, ["1", "2", "3", "4", "5"]);
    assert_eq!(execs, ["1", "2", "3"]);
    // Number 6 is due; another ends the session, and then even 6 is dropped in silence.
    assert!(matches!(
        parse_on(&mut fix, &client_frame(7, "0", |_| {}), &mut reply),
        ParseOutcome::Disconnect { .. }
    ));
    assert!(matches!(
        parse_on(&mut fix, &client_frame(6, "0", |_| {}), &mut reply),
        ParseOutcome::Disconnect { bytes: 0, .. }
    ));
}

#[test]
fn connections_do_not_share_names() {
    let (mut fix, mut reply) = logged_in();
    let other = SessionId(2);
    assert!(matches!(
        fix.parse(&logon(1, 30), other, &mut reply),
        ParseOutcome::Reply { .. }
    ));
    assert!(matches!(
        parse_on(&mut fix, &add_ord1(2), &mut reply),
        ParseOutcome::Command { .. }
    ));
    let cancel = client_frame(2, "F", |enc| {
        enc.put_str(TAG_ORIG_CLORD, "ORD1");
        enc.put_str(TAG_SYMBOL, "AAPL");
    });
    match fix.parse(&cancel, other, &mut reply) {
        ParseOutcome::Reply { bytes, .. } => {
            assert_eq!(field(&reply[..bytes], 58).as_deref(), Some("clordid"));
        }
        _ => panic!("expected refusal"),
    }
}

#[test]
fn a_message_can_be_handled_without_a_wire() {
    let mut fix = Fix::new("VENUE", "CLIENT", "AAPL");
    let text = |tag: u32, v: &str| Field { tag, value: v.as_bytes().to_vec() };
    let msg = Message {
        begin: Some(b"FIX.4.4".to_vec()),
        kind: b"A".to_vec(),
        fields: vec![text(34, "1"), text(49, "CLIENT"), text(56, "VENUE")],
        len: 99,
    };
    let mut reply = [0u8; 256];
    match fix.handle(SID, &msg, 99, &mut reply) {
        ParseOutcome::Reply { bytes, consumed } => {
            assert_eq!(consumed, 99);
            assert_eq!(field(&reply[..bytes], 108).as_deref(), Some("30"));
        }
        _ => panic!("expected Logon reply"),
    }
}

#[test]
fn encoder_parse_command_then_event_report() {
    let mut fix = Fix::new("VENUE", "CLIENT", "AAPL");
    let mut reply = [0u8; 1024];
    let sid = SessionId(1);

    let logon = client_frame(1, "A", |enc| {
        enc.put_int(98, 0);
        enc.put_int(108, 30);
    });
    assert!(matches!(
        fix.parse(&logon, sid, &mut reply),
        ParseOutcome::Reply { .. }
    ));

    let nos = client_frame(2, "D", |enc| {
        enc.put_str(11, "ORD1");
        enc.put_str(55, "AAPL");
        enc.put_str(54, "1");
        enc.put_str(38, "10");
        enc.put_str(44, "100");
    });
    let cmd = match fix.parse(&nos, sid, &mut reply) {
        ParseOutcome::Command { cmd, .. } => cmd,
        _ => panic!("expected Command"),
    };
    assert_eq!(cmd.ty, CommandType::Add);
    assert_eq!(cmd.quantity, 10);

    let ev = Event::accepted(
        sid.0,
        EventOrder {
            order_id: 7,
            user_ref: cmd.user_ref,
            price: cmd.price,
            quantity: cmd.quantity,
            side: cmd.side,
            order_state: b'L',
            cl_ord_id: cmd.cl_ord_id,
        },
    );
    let n = fix.encode_event(&ev, &mut reply);
    assert!(n > 0);
    let mut dec = Decoder::new(&reply[..n]).with_checksum_validation(true);
    let msg = dec.decode().expect("decode");
    assert_eq!(msg.msg_type().clone(), MsgType::ExecutionReport);
    assert_eq!(msg.get_field_str(11), Some("ORD1"));
    assert_eq!(msg.get_field_str(150), Some("0"));
    assert_eq!(msg.get_field_str(39), Some("0"));
}
