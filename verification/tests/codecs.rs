use matching_engine::codec::itch::{self, Packet};
use matching_engine::codec::ouch::{self, Ouch};
use matching_engine::codec::{MarketData, OrderEntry, ParseOutcome, SessionId};
use matching_engine::types::{
    CommandType, Event, EventOrder, EventReject, EventTrade, EventType, Price, Side,
};

fn order(side: Side) -> EventOrder {
    EventOrder {
        order_id: 0x11,
        user_ref: 1,
        price: Price(50),
        quantity: 8,
        side,
        order_state: b'L',
        cl_ord_id: [b'I'; 14],
    }
}

fn trade() -> Event {
    Event::trade(
        1,
        EventTrade {
            match_number: 4,
            maker_exchange_id: 0x22,
            maker_user_ref: 2,
            price: Price(50),
            quantity: 3,
            taker_side: Side::Ask,
        },
    )
}

#[test]
fn packs_add_execute_and_delete_and_skips_the_rest() {
    let mut pkt = Packet::new();
    assert!(pkt.empty());
    assert!(pkt.take().is_none());

    let bid = Event::accepted(1, order(Side::Bid));
    let ask = Event::accepted(1, order(Side::Ask));
    assert!(pkt.push(&bid));
    assert!(pkt.push(&ask));
    assert!(!pkt.empty());
    let bytes = pkt.take().unwrap().to_vec();
    assert_eq!(&bytes[..10], b"OB_SESSION");
    assert_eq!(u64::from_be_bytes(bytes[10..18].try_into().unwrap()), 1);
    assert_eq!(u16::from_be_bytes(bytes[18..20].try_into().unwrap()), 2);
    assert_eq!(bytes[22], b'A');
    assert_eq!(bytes[22 + 15], b'B');
    assert!(pkt.empty());

    assert!(pkt.push(&trade()));
    assert!(pkt.push(&Event::cancelled(1, order(Side::Bid))));
    let bytes = pkt.take().unwrap().to_vec();
    assert_eq!(u64::from_be_bytes(bytes[10..18].try_into().unwrap()), 3);
    assert_eq!(bytes[22], b'E');

    assert!(pkt.push(&Event::rejected(
        1,
        EventReject {
            user_ref: 1,
            reason: 0,
            cl_ord_id: [b' '; 14],
        },
    )));
    assert!(pkt.push(&Event::modified(1, order(Side::Bid))));
    assert!(pkt.push(&Event::reset()));
    assert!(pkt.empty());
    assert_eq!(Event::reset().ty, EventType::BookReset);

    assert!(MarketData::push(&mut pkt, &bid));
    assert!(MarketData::take(&mut pkt).is_some());
}

#[test]
fn returns_false_when_the_packet_is_full() {
    let mut pkt = Packet::new();
    let ev = Event::accepted(1, order(Side::Bid));
    let mut n = 0;
    while pkt.push(&ev) {
        n += 1;
        assert!(n < 100, "packet never filled");
    }
    assert!(n > 1);
    assert!(pkt.take().is_some());
}

#[test]
fn short_buffers_encode_nothing() {
    let ev = Event::accepted(1, order(Side::Bid));
    assert_eq!(itch::add(&ev, &mut [0u8; 8]), 0);
    assert_eq!(itch::executed(&trade(), &mut [0u8; 8]), 0);
    assert_eq!(itch::delete(&ev, &mut [0u8; 8]), 0);

    let mut wide = [0u8; 64];
    assert_eq!(itch::add(&Event::accepted(1, order(Side::Ask)), &mut wide), 36);
    assert_eq!(wide[15], b'S');
    assert_eq!(itch::executed(&trade(), &mut wide), 31);
    assert_eq!(wide[0], b'E');
    assert_eq!(itch::delete(&ev, &mut wide), 19);
    assert_eq!(wide[0], b'D');
}

#[test]
fn a_packet_holds_thirty_six_adds_and_their_bytes_are_exact() {
    let mut pkt = Packet::new();
    let ev = Event::accepted(1, order(Side::Ask));
    let mut n = 0u16;
    while pkt.push(&ev) {
        n += 1;
    }
    assert_eq!(n, 36);
    let bytes = pkt.take().unwrap().to_vec();
    assert_eq!(bytes.len(), 20 + 36 * 38);
    assert_eq!(u16::from_be_bytes(bytes[18..20].try_into().unwrap()), 36);
    let mut want = vec![0u8, 36, b'A', 1, 0, 0, 0, 0, 0];
    want.extend_from_slice(&0x11u64.to_be_bytes());
    want.push(b'S');
    want.extend_from_slice(&8u32.to_be_bytes());
    want.extend_from_slice(&[b' '; 8]);
    want.extend_from_slice(&50u32.to_be_bytes());
    want.extend_from_slice(&[0; 4]);
    assert_eq!(&bytes[20..58], &want[..]);
    assert_eq!(&bytes[20 + 35 * 38..], &want[..]);
    // The next packet starts empty and is numbered behind this one.
    assert!(pkt.push(&ev));
    let bytes = pkt.take().unwrap().to_vec();
    assert_eq!(u64::from_be_bytes(bytes[10..18].try_into().unwrap()), 37);
    assert_eq!(bytes.len(), 58);
}

#[test]
fn itch_keeps_the_low_half_of_wide_numbers() {
    let mut o = order(Side::Bid);
    o.quantity = 0x1_0000_0007;
    o.price = Price(0x2_0000_0009);
    let mut out = [0u8; 36];
    assert_eq!(itch::add(&Event::accepted(1, o), &mut out), 36);
    assert_eq!(u32::from_be_bytes(out[16..20].try_into().unwrap()), 7);
    assert_eq!(u32::from_be_bytes(out[28..32].try_into().unwrap()), 9);
    let mut out = [0u8; 64];
    assert_eq!(itch::executed(&trade(), &mut out), 31);
    assert_eq!(u64::from_be_bytes(out[7..15].try_into().unwrap()), 0x22);
    assert_eq!(u32::from_be_bytes(out[15..19].try_into().unwrap()), 3);
    assert_eq!(u64::from_be_bytes(out[19..27].try_into().unwrap()), 4);
}

fn enter() -> [u8; 47] {
    let mut m = [0u8; ouch::ENTER_LEN];
    m[0] = ouch::ENTER;
    m[1..5].copy_from_slice(&77u32.to_be_bytes());
    m[5] = b'B';
    m[6..10].copy_from_slice(&10u32.to_be_bytes());
    m[18..26].copy_from_slice(&12345u64.to_be_bytes());
    m[26] = b'0';
    m[27] = b'Y';
    m[28] = b'A';
    m[31..45].copy_from_slice(b"CLORD-00000001");
    m
}

#[test]
fn ouch_enter_cancel_and_modify() {
    let (cmd, n) = ouch::parse(&enter(), 5).unwrap();
    assert_eq!(n, 47);
    assert_eq!(cmd.ty, CommandType::Add);
    assert_eq!(cmd.client_fd, 5);
    assert_eq!(cmd.user_ref, 77);
    assert_eq!(cmd.side, Side::Bid);
    assert_eq!(cmd.quantity, 10);
    assert_eq!(cmd.price, Price(12345));
    assert_eq!(cmd.time_in_force, b'0');
    assert_eq!(cmd.display, b'Y');
    assert_eq!(cmd.capacity, b'A');
    assert_eq!(&cmd.cl_ord_id, b"CLORD-00000001");

    let mut c = [0u8; ouch::CANCEL_LEN];
    c[0] = ouch::CANCEL;
    c[4] = 9;
    c[8] = 3;
    let (cmd, n) = ouch::parse(&c, 5).unwrap();
    assert_eq!(n, 11);
    assert_eq!(cmd.ty, CommandType::Cancel);
    assert_eq!(cmd.user_ref, 9);
    assert_eq!(cmd.quantity, 3);

    let mut m = [0u8; ouch::MODIFY_LEN];
    m[0] = ouch::MODIFY;
    m[4] = 9;
    m[5] = b'S';
    m[9] = 4;
    let (cmd, n) = ouch::parse(&m, 5).unwrap();
    assert_eq!(n, 12);
    assert_eq!(cmd.ty, CommandType::Modify);
    assert_eq!(cmd.side, Side::Ask);
    assert_eq!(cmd.quantity, 4);

    assert!(ouch::parse(&[], 5).is_none());
    assert!(ouch::parse(&enter()[..46], 5).is_none());
    assert!(ouch::parse(b"Zzzzzzzzzzzzzzzz", 5).is_none());
}

#[test]
fn ouch_adapter_tells_short_from_bad() {
    let mut oe = Ouch;
    let mut reply = [0u8; 8];
    assert!(matches!(
        oe.parse(&[], SessionId(1), &mut reply),
        ParseOutcome::NeedMore
    ));
    assert!(matches!(
        oe.parse(&enter()[..20], SessionId(1), &mut reply),
        ParseOutcome::NeedMore
    ));
    assert!(matches!(
        oe.parse(b"?", SessionId(1), &mut reply),
        ParseOutcome::Bad { consumed: 1 }
    ));
    assert!(matches!(
        oe.parse(&enter(), SessionId(1), &mut reply),
        ParseOutcome::Command { consumed: 47, .. }
    ));
    assert_eq!(<Ouch as OrderEntry>::MAX_OUT, 128);
    assert_eq!(oe.on_idle(0, SessionId(1), &mut reply), 0);
}

#[test]
fn ouch_messages_have_exact_layouts() {
    let mut out = [0xEEu8; 64];
    let mut o = order(Side::Ask);
    o.quantity = 0x1_0000_0002;
    assert_eq!(ouch::serialize(&Event::accepted(1, o), &mut out), 64);
    let mut want = vec![b'A'];
    want.extend_from_slice(&[0; 8]);
    want.extend_from_slice(&1u32.to_be_bytes());
    want.push(b'S');
    want.extend_from_slice(&2u32.to_be_bytes());
    want.extend_from_slice(&[b' '; 8]);
    want.extend_from_slice(&50u64.to_be_bytes());
    want.extend_from_slice(&[0; 2]);
    want.extend_from_slice(&0x11u64.to_be_bytes());
    want.extend_from_slice(&[0; 3]);
    want.push(b'L');
    want.extend_from_slice(&[b'I'; 14]);
    want.extend_from_slice(&[0; 2]);
    assert_eq!(&out[..], &want[..]);
    assert_eq!(&out[36..44], &0x11u64.to_be_bytes());
    assert_eq!(out[47], b'L');
    assert_eq!(&out[48..62], &[b'I'; 14]);

    let mut out = [0xEEu8; 64];
    assert_eq!(ouch::serialize(&Event::cancelled(1, order(Side::Bid)), &mut out), 20);
    assert_eq!(out[0], b'C');
    assert_eq!(&out[13..17], &8u32.to_be_bytes());
    assert_eq!(&out[17..20], &[b'U', 0, 0]);
    assert_eq!(out[20], 0xEE);

    let mut out = [0xEEu8; 64];
    assert_eq!(ouch::serialize(&Event::modified(1, order(Side::Bid)), &mut out), 19);
    assert_eq!(out[0], b'M');
    assert_eq!(out[13], b'B');
    assert_eq!(&out[14..19], &[0, 0, 0, 8, 0]);

    let mut out = [0xEEu8; 64];
    let reject = EventReject { user_ref: 3, reason: 0x0102, cl_ord_id: [b'J'; 14] };
    assert_eq!(ouch::serialize(&Event::rejected(1, reject), &mut out), 32);
    assert_eq!(out[0], b'J');
    assert_eq!(&out[9..15], &[0, 0, 0, 3, 1, 2]);
    assert_eq!(&out[15..29], &[b'J'; 14]);
    assert_eq!(&out[29..32], &[0; 3]);

    let mut out = [0xEEu8; 64];
    assert_eq!(ouch::serialize(&trade(), &mut out), 38);
    assert_eq!(out[0], b'E');
    assert_eq!(&out[9..13], &2u32.to_be_bytes());
    assert_eq!(&out[13..17], &3u32.to_be_bytes());
    assert_eq!(&out[17..25], &50u64.to_be_bytes());
    assert_eq!(&out[26..34], &4u64.to_be_bytes());

    assert_eq!(ouch::serialize(&Event::reset(), &mut out), 0);
    assert_eq!(ouch::serialize(&trade(), &mut [0u8; 37]), 0);
}
