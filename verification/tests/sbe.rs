use ironsbe_core::header::MessageHeader;
use matching_engine::codec::sbe::market_data::{self, Add, Delete, Execute};
use matching_engine::codec::sbe::order_entry::{
    ExecType, ExecutionReport, NewOrderSingle, OrdStatus, OrderCancelReplaceRequest,
    OrderCancelRequest, Reject, Side as SbeSide,
};
use matching_engine::codec::sbe::symbol;
use matching_engine::codec::sbe_md::SbeMd;
use matching_engine::codec::sbe_oe::SbeOe;
use matching_engine::codec::{MarketData, OrderEntry, ParseOutcome, SessionId};
use matching_engine::types::{
    CommandType, Event, EventOrder, EventReject, EventTrade, Price, Side,
};

fn encode_add(name: &[u8], user_ref: u32) -> Vec<u8> {
    let mut buf = vec![0u8; 64];
    let m = NewOrderSingle {
        user_ref,
        symbol: symbol(name),
        side: SbeSide::Buy,
        price: 100,
        quantity: 10,
    };
    let n = m.encode(&mut buf);
    buf.truncate(n);
    buf
}

#[test]
fn parse_add_round_trip() {
    let mut oe = SbeOe::new(b"AAPL");
    let wire = encode_add(b"AAPL", 7);
    let mut reply = [0u8; 128];
    match oe.parse(&wire, SessionId(3), &mut reply) {
        ParseOutcome::Command { cmd, consumed } => {
            assert_eq!(consumed, wire.len());
            assert_eq!(cmd.ty, CommandType::Add);
            assert_eq!(cmd.client_fd, 3);
            assert_eq!(cmd.user_ref, 7);
            assert_eq!(cmd.quantity, 10);
            assert_eq!(cmd.price, Price(100));
            assert_eq!(cmd.side, Side::Bid);
        }
        _ => panic!("expected Command"),
    }
    assert!(matches!(
        oe.parse(&wire[..4], SessionId(3), &mut reply),
        ParseOutcome::NeedMore
    ));
}

#[test]
fn parse_cancel_uses_user_ref() {
    let mut oe = SbeOe::new(b"AAPL");
    let mut buf = vec![0u8; 32];
    let m = OrderCancelRequest { user_ref: 7, quantity: 3 };
    let n = m.encode(&mut buf);
    let mut reply = [0u8; 128];
    match oe.parse(&buf[..n], SessionId(1), &mut reply) {
        ParseOutcome::Command { cmd, .. } => {
            assert_eq!(cmd.ty, CommandType::Cancel);
            assert_eq!(cmd.user_ref, 7);
            assert_eq!(cmd.quantity, 3);
        }
        _ => panic!("expected Command"),
    }
}

#[test]
fn wrong_symbol_rejects() {
    let mut oe = SbeOe::new(b"AAPL");
    let wire = encode_add(b"MSFT", 7);
    let mut reply = [0u8; 128];
    match oe.parse(&wire, SessionId(1), &mut reply) {
        ParseOutcome::Reply { bytes, .. } => {
            assert!(bytes > 0);
            let r = Reject::decode(&reply[..bytes]);
            assert_eq!(r.user_ref, 7);
            assert_eq!(r.reason, 1);
        }
        _ => panic!("expected Reply"),
    }
}

#[test]
fn encode_accepted_is_numeric() {
    let mut oe = SbeOe::new(b"AAPL");
    let evt = Event::accepted(
        1,
        EventOrder {
            order_id: 42,
            user_ref: 7,
            price: Price(100),
            quantity: 10,
            side: Side::Bid,
            order_state: b'L',
            cl_ord_id: [b' '; 14],
        },
    );
    let mut out = [0u8; 128];
    let n = oe.encode_event(&evt, &mut out);
    let d = ExecutionReport::decode(&out[..n]);
    assert_eq!(d.user_ref, 7);
    assert_eq!(d.exec_id, 42);
    assert_eq!(d.order_id, 42);
    assert_eq!(d.exec_type, ExecType::New);
    assert_eq!(d.quantity, 10);
}

#[test]
fn header_bytes_are_little_endian() {
    let wire = encode_add(b"AAPL", 0x0102_0304);
    assert_eq!(&wire[..8], &[29, 0, 1, 0, 1, 0, 0, 0]);
    assert_eq!(&wire[8..12], &[4, 3, 2, 1]);
    assert_eq!(&wire[12..20], b"AAPL\0\0\0\0");
    assert_eq!(wire[20], b'1');
    assert_eq!(wire.len(), 37);
    let hdr = MessageHeader::wrap(wire.as_slice(), 0);
    let template_id = hdr.template_id;
    let block_length = hdr.block_length;
    assert_eq!(template_id, 1);
    assert_eq!(block_length, 29);
}

#[test]
fn parse_replace_and_unknown_messages() {
    let mut oe = SbeOe::new(b"AAPL");
    let mut buf = vec![0u8; 64];
    let m = OrderCancelReplaceRequest {
        user_ref: 9,
        side: SbeSide::Sell,
        price: -1,
        quantity: 4,
    };
    let n = m.encode(&mut buf);
    let mut reply = [0u8; 128];
    match oe.parse(&buf[..n], SessionId(2), &mut reply) {
        ParseOutcome::Command { cmd, consumed } => {
            assert_eq!(consumed, n);
            assert_eq!(cmd.ty, CommandType::Modify);
            assert_eq!(cmd.side, Side::Ask);
            assert_eq!(cmd.price, Price(u64::MAX));
            assert_eq!(cmd.quantity, 4);
        }
        _ => panic!("expected Command"),
    }
    // Another schema is skipped byte by byte, another template as a whole.
    buf[4] = 9;
    assert!(matches!(
        oe.parse(&buf[..n], SessionId(2), &mut reply),
        ParseOutcome::Bad { consumed: 1 }
    ));
    buf[4] = 1;
    buf[2] = 200;
    match oe.parse(&buf[..n], SessionId(2), &mut reply) {
        ParseOutcome::Bad { consumed } => assert_eq!(consumed, n),
        _ => panic!("expected Bad"),
    }
    assert!(matches!(
        oe.parse(&buf[..n - 1], SessionId(2), &mut reply),
        ParseOutcome::NeedMore
    ));
}

#[test]
fn a_block_that_is_too_short_cannot_be_parsed() {
    let oe = SbeOe::new(b"AAPL");
    let wire = encode_add(b"AAPL", 7);
    assert!(oe.readable(&wire, 0));
    assert!(oe.readable(&wire[..7], 0));
    let mut short = wire[..20].to_vec();
    short[0] = 12;
    assert!(!oe.readable(&short, 128));
    let other = encode_add(b"MSFT", 7);
    assert!(oe.readable(&other, 14));
    assert!(!oe.readable(&other, 13));
}

#[test]
fn every_event_has_its_sbe_report() {
    let mut oe = SbeOe::new(b"AAPL");
    let order = EventOrder {
        order_id: 42,
        user_ref: 7,
        price: Price(u64::MAX),
        quantity: 10,
        side: Side::Ask,
        order_state: b'L',
        cl_ord_id: [b' '; 14],
    };
    let mut out = [0u8; 128];
    let n = oe.encode_event(&Event::cancelled(1, order), &mut out);
    assert_eq!(n, 71);
    let d = ExecutionReport::decode(&out[..n]);
    assert_eq!(d.exec_type, ExecType::Canceled);
    assert_eq!(d.ord_status, OrdStatus::Canceled);
    assert_eq!(d.side, SbeSide::Sell);
    assert_eq!(d.price, -1);
    assert_eq!(&d.symbol, b"AAPL\0\0\0\0");
    let n = oe.encode_event(&Event::modified(1, order), &mut out);
    assert_eq!(ExecutionReport::decode(&out[..n]).exec_type, ExecType::Replaced);
    let reject = EventReject { user_ref: 5, reason: 1, cl_ord_id: [b' '; 14] };
    let n = oe.encode_event(&Event::rejected(1, reject), &mut out);
    let d = ExecutionReport::decode(&out[..n]);
    assert_eq!(d.exec_type, ExecType::Rejected);
    assert_eq!(d.user_ref, 5);
    assert_eq!(d.order_id, 0);
    let trade = EventTrade {
        match_number: 9,
        maker_exchange_id: 42,
        maker_user_ref: 3,
        price: Price(100),
        quantity: 2,
        taker_side: Side::Bid,
    };
    let n = oe.encode_event(&Event::trade(1, trade), &mut out);
    let d = ExecutionReport::decode(&out[..n]);
    assert_eq!(d.exec_type, ExecType::Trade);
    assert_eq!(d.ord_status, OrdStatus::PartialFill);
    assert_eq!(d.exec_id, 9);
    assert_eq!(d.last_px, 100);
    assert_eq!(d.last_qty, 2);
    assert_eq!(oe.encode_event(&Event::reset(), &mut out), 0);
    assert_eq!(oe.encode_event(&Event::trade(-1, trade), &mut out), 0);
}

#[test]
fn add_event_round_trip() {
    let mut md = SbeMd::new(b"AAPL");
    let evt = Event::accepted(
        1,
        EventOrder {
            order_id: 42,
            user_ref: 1,
            price: Price(100),
            quantity: 10,
            side: Side::Bid,
            order_state: b'L',
            cl_ord_id: [b' '; 14],
        },
    );
    assert!(md.push(&evt));
    assert!(!md.push(&evt));
    let bytes = md.take().expect("datagram").to_vec();
    assert!(md.take().is_none());

    let hdr = MessageHeader::wrap(bytes.as_slice(), 0);
    let template_id = hdr.template_id;
    assert_eq!(template_id, market_data::ADD_ORDER_TEMPLATE);
    let dec = Add::decode(&bytes);
    assert_eq!(dec.order_id, 42);
    assert_eq!(dec.side, SbeSide::Buy);
    assert_eq!(&dec.symbol, b"AAPL\0\0\0\0");
    assert_eq!(dec.price, 100);
    assert_eq!(dec.quantity, 10);
}

#[test]
fn execute_fields() {
    let mut md = SbeMd::new(b"AAPL");
    let evt = Event::trade(
        1,
        EventTrade {
            match_number: 9,
            maker_exchange_id: 42,
            maker_user_ref: 1,
            price: Price(100),
            quantity: 3,
            taker_side: Side::Ask,
        },
    );
    assert!(md.push(&evt));
    let bytes = md.take().unwrap().to_vec();
    let dec = Execute::decode(&bytes);
    assert_eq!(dec.order_id, 42);
    assert_eq!(dec.match_number, 9);
    assert_eq!(dec.quantity, 3);
}

#[test]
fn a_deletion_is_sixteen_bytes_and_silent_events_pass() {
    let mut md = SbeMd::new(b"TOOLONGNAME");
    assert!(md.push(&Event::reset()));
    assert!(md.take().is_none());
    let order = EventOrder {
        order_id: 42,
        user_ref: 1,
        price: Price(100),
        quantity: 10,
        side: Side::Ask,
        order_state: b'D',
        cl_ord_id: [b' '; 14],
    };
    assert!(md.push(&Event::cancelled(1, order)));
    let bytes = md.take().unwrap().to_vec();
    assert_eq!(bytes.len(), 16);
    assert_eq!(Delete::decode(&bytes).order_id, 42);
    assert!(md.push(&Event::accepted(1, order)));
    let bytes = md.take().unwrap().to_vec();
    assert_eq!(&Add::decode(&bytes).symbol, b"TOOLONGN");
    assert_eq!(Add::decode(&bytes).side, SbeSide::Sell);
}
