use matching_engine::bytes::{parse_u64, push_be, push_le, read_be, read_le};
use matching_engine::spsc::Spsc;
use matching_engine::types::{composite_key, Command, CommandType, Price, Side};
use matching_engine::wal::{checksum, pack, unpack, Wal, WalError, FRAME, WAL_SIZE};

#[test]
fn spsc_push_pop() {
    let mut q = Spsc::new(8);
    q.push(1u32);
    q.push(2);
    assert_eq!(q.pop(), Some(1));
    assert_eq!(q.pop(), Some(2));
    assert_eq!(q.pop(), None);
}

#[test]
fn reports_capacity_and_rejects_a_full_ring() {
    let mut q = Spsc::new(2);
    assert_eq!(q.cap(), 2);
    assert!(q.try_push(1).is_ok());
    assert!(q.try_push(2).is_ok());
    assert_eq!(q.try_push(3).err(), Some(3));
    assert_eq!(q.pop(), Some(1));
    assert_eq!(q.pop(), Some(2));
    assert_eq!(q.pop(), None);
}

#[test]
fn drop_drains_what_is_left() {
    let mut q = Spsc::new(2);
    q.push(1);
    drop(q);
}

#[test]
fn a_ring_wraps_round_in_order() {
    let mut q = Spsc::new(4);
    let mut next = 0;
    let mut want = 0;
    for round in 0..50 {
        for _ in 0..(round % 4 + 1) {
            if q.try_push(next).is_ok() {
                next += 1;
            }
        }
        for _ in 0..(round % 3 + 1) {
            if let Some(v) = q.pop() {
                assert_eq!(v, want);
                want += 1;
            }
        }
    }
    while let Some(v) = q.pop() {
        assert_eq!(v, want);
        want += 1;
    }
    assert_eq!(want, next);
    assert!(next > 20);
}

fn sample(ty: CommandType, side: Side, user: u32) -> Command {
    let mut cmd = Command::blank(ty);
    cmd.side = side;
    cmd.user_ref = user;
    cmd.price = Price(10 + user as u64);
    cmd.quantity = 5 + user as u64;
    cmd.client_fd = 3;
    cmd.time_in_force = 7;
    cmd.display = 8;
    cmd.cl_ord_id = [b'Q'; 14];
    cmd.capacity = 9;
    cmd
}

#[test]
fn round_trips_every_command_and_stops_on_a_bad_checksum() {
    let mut image = vec![0u8; 4096];
    let mut w = Wal::open_sized(4096).unwrap();
    let none = w.recover(&image).len();
    assert_eq!(none, 0);

    let written = [
        sample(CommandType::Add, Side::Bid, 0),
        sample(CommandType::Modify, Side::Ask, 1),
        sample(CommandType::Cancel, Side::Bid, 2),
        sample(CommandType::Reset, Side::Ask, 3),
        sample(CommandType::Poison, Side::Bid, 4),
    ];
    for cmd in &written {
        w.write(&mut image, cmd);
    }
    assert_eq!(w.bytes_written(), written.len() * FRAME);

    let got = w.recover(&image);
    assert_eq!(got.len(), written.len());
    assert_eq!(got[4].ty, CommandType::Poison);
    assert_eq!(got[1].side, Side::Ask);
    image[4 * FRAME + 16] = 0xAB;
    let got = w.recover(&image);
    assert_eq!(got.len(), 4);
    assert_eq!(w.bytes_written(), 4 * FRAME);
    for (got, want) in got.iter().zip(written.iter()) {
        assert_eq!(got.ty, want.ty);
        assert_eq!(got.side, want.side);
        assert_eq!(got.user_ref, want.user_ref);
        assert_eq!(got.price, want.price);
        assert_eq!(got.quantity, want.quantity);
        assert_eq!(got.client_fd, want.client_fd);
        assert_eq!(got.time_in_force, want.time_in_force);
        assert_eq!(got.display, want.display);
        assert_eq!(got.cl_ord_id, want.cl_ord_id);
        assert_eq!(got.capacity, 0);
    }
}

#[test]
fn write_stops_when_the_file_is_full() {
    let mut image = vec![0u8; 4096];
    let mut w = Wal::open_sized(4096).unwrap();
    let cmd = sample(CommandType::Add, Side::Bid, 1);
    for _ in 0..(4096 / FRAME) {
        w.write(&mut image, &cmd);
    }
    assert_eq!(w.bytes_written(), 4096);
    w.write(&mut image, &cmd);
    assert_eq!(w.bytes_written(), 4096);
}

#[test]
fn a_zero_length_map_fails() {
    assert!(Wal::open_sized(0).is_err());
    assert!(matches!(Wal::open_sized(0), Err(WalError::Empty)));
}

#[test]
fn open_uses_the_default_size() {
    let w = Wal::open().unwrap();
    assert_eq!(w.len(), WAL_SIZE);
    assert_eq!(w.bytes_written(), 0);
}

#[test]
fn a_frame_has_an_exact_layout() {
    let mut cmd = sample(CommandType::Modify, Side::Ask, 0x0403_0201);
    cmd.client_fd = -2;
    cmd.price = Price(0x11);
    cmd.quantity = 0x22;
    let f = pack(&cmd, 5);
    assert_eq!(f.len(), 64);
    assert_eq!(&f[0..4], b"WAL!");
    assert_eq!(&f[8..16], &5u64.to_le_bytes());
    assert_eq!(&f[16..24], &[1, 1, 0, 0, 0, 0, 0, 0]);
    assert_eq!(&f[24..32], &0x11u64.to_le_bytes());
    assert_eq!(&f[32..40], &0x22u64.to_le_bytes());
    assert_eq!(&f[40..44], &(-2i32).to_le_bytes());
    assert_eq!(&f[44..48], &[1, 2, 3, 4]);
    assert_eq!(&f[48..62], &[b'Q'; 14]);
    assert_eq!(&f[62..64], &[7, 8]);
    let mut h = 0x811c_9dc5u32;
    for &b in &f[8..] {
        h ^= b as u32;
        h = h.wrapping_mul(0x0100_0193);
    }
    assert_eq!(&f[4..8], &h.to_le_bytes());
    assert_eq!(checksum(&f), h);
    let mut g = f.clone();
    g[..8].fill(0xAA);
    assert_eq!(checksum(&g), h);
    g[63] ^= 1;
    assert_ne!(checksum(&g), h);
    assert_eq!(unpack(&f).client_fd, -2);
}

#[test]
fn any_changed_byte_ends_recovery() {
    let mut image = vec![0u8; 256];
    let mut w = Wal::open_sized(256).unwrap();
    for i in 0..3 {
        w.write(&mut image, &sample(CommandType::Add, Side::Bid, i));
    }
    for at in 64..128 {
        let mut torn = image.clone();
        torn[at] ^= 0x10;
        let mut again = Wal::open_sized(256).unwrap();
        assert_eq!(again.recover(&torn).len(), 1);
        assert_eq!(again.bytes_written(), 64);
    }
    let mut again = Wal::open_sized(256).unwrap();
    assert_eq!(again.recover(&image).len(), 3);
    // Writing goes on behind what was recovered.
    again.write(&mut image, &sample(CommandType::Cancel, Side::Ask, 9));
    let got = again.recover(&image);
    assert_eq!(got.len(), 4);
    assert_eq!(got[3].user_ref, 9);
    assert_eq!(&image[192 + 8..192 + 16], &4u64.to_le_bytes());
}

#[test]
fn keys_put_the_connection_above_the_reference() {
    assert_eq!(composite_key(1, 2), 0x1_0000_0002);
    assert_eq!(composite_key(-1, 0), 0xFFFF_FFFF_0000_0000);
    let mut cmd = Command::blank(CommandType::Add);
    cmd.client_fd = 7;
    cmd.user_ref = u32::MAX;
    assert_eq!(cmd.composite_key(), 0x7_FFFF_FFFF);
    assert_eq!(cmd.cl_ord_id, [b' '; 14]);
    assert_eq!(Command::poison().ty, CommandType::Poison);
    assert_eq!(Command::reset().client_fd, 1);
}

#[test]
fn numbers_are_written_and_read_in_both_orders() {
    let mut out = Vec::new();
    push_be(&mut out, 0x0102_0304, 4);
    push_le(&mut out, 0x0102_0304, 4);
    push_be(&mut out, 0x1_0000_0005, 4);
    assert_eq!(out, [1, 2, 3, 4, 4, 3, 2, 1, 0, 0, 0, 5]);
    assert_eq!(read_be(&out, 0, 4), 0x0102_0304);
    assert_eq!(read_le(&out, 4, 4), 0x0102_0304);
    assert_eq!(read_be(&out, 0, 8), 0x0102_0304_0403_0201);
    assert_eq!(parse_u64(b"18446744073709551615"), Some(u64::MAX));
    assert_eq!(parse_u64(b"18446744073709551616"), None);
    assert_eq!(parse_u64(b"+12"), Some(12));
    assert_eq!(parse_u64(b"+"), None);
    assert_eq!(parse_u64(b""), None);
    assert_eq!(parse_u64(b"-1"), None);
    assert_eq!(parse_u64(b"007"), Some(7));
}
