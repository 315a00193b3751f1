use matching_engine::engine::{BookError, BookRequest, Fill, MatchingEngine};
use matching_engine::types::{Command, CommandType, Event, EventReject, EventType, Price, Side};
use matching_engine::wal::{WalError, WAL_SIZE};

struct Resting {
    handle: u64,
    price: u64,
    qty: u64,
}

/// A plain price-time book: one slot of each side stays unused.
struct Book {
    slots: usize,
    bids: Vec<Resting>,
    asks: Vec<Resting>,
    next: u64,
}

impl Book {
    fn new(slab: usize) -> Self {
        Book { slots: slab - 1, bids: Vec::new(), asks: Vec::new(), next: 1 }
    }

    fn cancel(&mut self, handle: u64) {
        self.bids.retain(|r| r.handle != handle);
        self.asks.retain(|r| r.handle != handle);
    }

    fn add(
        &mut self,
        side: Side,
        price: u64,
        qty: u64,
    ) -> (Result<Option<u64>, BookError>, Vec<Fill>) {
        let mut fills = Vec::new();
        let mut left = qty;
        let other = if side == Side::Bid { &mut self.asks } else { &mut self.bids };
        while left > 0 {
            let best = (0..other.len())
                .filter(|&i| match side {
                    Side::Bid => other[i].price <= price,
                    Side::Ask => other[i].price >= price,
                })
                .min_by_key(|&i| match side {
                    Side::Bid => (other[i].price, other[i].handle),
                    Side::Ask => (u64::MAX - other[i].price, other[i].handle),
                });
            let Some(i) = best else { break };
            let n = left.min(other[i].qty);
            fills.push(Fill { resting_id: other[i].handle, quantity: n });
            other[i].qty -= n;
            left -= n;
            if other[i].qty == 0 {
                other.remove(i);
            }
        }
        if left == 0 {
            return (Ok(None), fills);
        }
        let own = if side == Side::Bid { &mut self.bids } else { &mut self.asks };
        if own.len() == self.slots {
            return (Err(BookError::SlabFull), Vec::new());
        }
        let handle = self.next;
        self.next += 1;
        own.push(Resting { handle, price, qty: left });
        (Ok(Some(handle)), fills)
    }
}

struct Rig {
    eng: MatchingEngine,
    book: Book,
    image: Vec<u8>,
}

impl Rig {
    fn open(slab: usize) -> Rig {
        Rig::reopen(slab, vec![0u8; 64 * 1024])
    }

    fn reopen(slab: usize, image: Vec<u8>) -> Rig {
        let (eng, replay) = MatchingEngine::with_wal_size(slab, image.len(), &image).unwrap();
        let mut rig = Rig { eng, book: Book::new(slab), image };
        for cmd in &replay {
            let req = rig.eng.apply(cmd);
            rig.perform(req);
        }
        rig.eng.go_live();
        rig
    }

    fn perform(&mut self, req: BookRequest) {
        if let Some(slab) = req.rebuild {
            self.book = Book::new(slab);
        }
        if let Some(handle) = req.cancel {
            self.book.cancel(handle);
        }
        if let Some(s) = req.submit {
            let (placed, fills) = self.book.add(s.side, s.price.0, s.quantity);
            self.eng.settle(placed, &fills);
        }
    }

    fn step(&mut self, cmd: &Command) {
        let req = self.eng.step(&mut self.image, cmd);
        self.perform(req);
    }
}

fn order(ty: CommandType, fd: i32, user: u32, side: Side, px: u64, qty: u64) -> Command {
    let mut cmd = Command::blank(ty);
    cmd.client_fd = fd;
    cmd.user_ref = user;
    cmd.side = side;
    cmd.price = Price(px);
    cmd.quantity = qty;
    cmd
}

#[test]
fn rejects_a_duplicate_client_key() {
    let mut rig = Rig::open(64);
    rig.step(&order(CommandType::Add, 1, 1, Side::Bid, 100, 10));
    rig.step(&order(CommandType::Add, 1, 1, Side::Bid, 101, 3));
    let private = rig.eng.take_private();
    assert_eq!(private[0].ty, EventType::OrderAccepted);
    assert_eq!(private[1].ty, EventType::OrderRejected);
    assert_eq!(private[1].reject.reason, 0);
    assert!(rig
        .eng
        .take_public()
        .iter()
        .all(|e| e.ty != EventType::OrderRejected));
}

#[test]
fn partial_fill_leaves_the_maker_and_a_crossing_bid_rests() {
    let mut rig = Rig::open(64);
    rig.step(&order(CommandType::Add, 1, 1, Side::Bid, 100, 10));
    rig.step(&order(CommandType::Add, 2, 2, Side::Ask, 100, 4));
    rig.step(&order(CommandType::Cancel, 1, 1, Side::Bid, 0, 0));
    let private = rig.eng.take_private();
    let cancel = private
        .iter()
        .find(|e| e.ty == EventType::OrderCancelled)
        .unwrap();
    assert_eq!(cancel.order.quantity, 6);
    assert!(private
        .iter()
        .filter(|e| e.ty == EventType::OrderAccepted)
        .all(|e| e.order.user_ref == 1));
    assert_eq!(
        rig.eng
            .take_public()
            .iter()
            .filter(|e| e.ty == EventType::TradeExecuted)
            .count(),
        1
    );

    rig.step(&order(CommandType::Add, 3, 3, Side::Ask, 100, 5));
    rig.step(&order(CommandType::Add, 4, 4, Side::Bid, 100, 12));
    let private = rig.eng.take_private();
    let rest = private
        .iter()
        .find(|e| e.ty == EventType::OrderAccepted && e.order.user_ref == 4)
        .unwrap();
    assert_eq!(rest.order.quantity, 7);
    assert_eq!(rest.order.order_state, b'L');
}

#[test]
fn cancel_modify_and_reset() {
    let mut rig = Rig::open(64);
    rig.step(&order(CommandType::Cancel, 9, 9, Side::Bid, 0, 0));
    assert!(rig.eng.take_private().is_empty());

    rig.step(&order(CommandType::Add, 1, 1, Side::Bid, 100, 10));
    rig.step(&order(CommandType::Modify, 1, 1, Side::Ask, 110, 4));
    let private = rig.eng.take_private();
    assert_eq!(private[1].ty, EventType::OrderCancelled);
    assert_eq!(private[2].ty, EventType::OrderAccepted);
    assert_eq!(private[2].order.quantity, 4);
    assert_eq!(private[2].order.side, Side::Ask);

    rig.step(&Command::reset());
    let private = rig.eng.take_private();
    assert_eq!(private.last().unwrap().ty, EventType::BookReset);
    assert!(rig
        .eng
        .take_public()
        .iter()
        .all(|e| e.ty != EventType::BookReset));

    rig.step(&order(CommandType::Add, 1, 1, Side::Bid, 80, 1));
    assert_eq!(rig.eng.take_private()[0].ty, EventType::OrderAccepted);
}

#[test]
fn slab_full_rejects_with_reason_one() {
    let mut rig = Rig::open(2);
    rig.step(&order(CommandType::Add, 1, 1, Side::Bid, 100, 1));
    rig.step(&order(CommandType::Add, 1, 2, Side::Bid, 101, 1));
    let private = rig.eng.take_private();
    assert_eq!(private[1].ty, EventType::OrderRejected);
    assert_eq!(private[1].reject.reason, 1);
    rig.step(&order(CommandType::Add, 1, 3, Side::Ask, 200, 1));
    assert_eq!(rig.eng.take_private()[0].ty, EventType::OrderAccepted);
}

#[test]
fn another_book_error_rejects_with_reason_zero() {
    let mut rig = Rig::open(64);
    let req = rig
        .eng
        .apply(&order(CommandType::Add, 1, 1, Side::Bid, 100, 1));
    assert!(req.submit.is_some());
    rig.eng.settle(Err(BookError::Other), &Vec::new());
    let private = rig.eng.take_private();
    assert_eq!(private[0].ty, EventType::OrderRejected);
    assert_eq!(private[0].reject.reason, 0);
    // An answer that nobody waits for is passed over.
    rig.eng.settle(Ok(Some(5)), &Vec::new());
    assert!(rig.eng.take_private().is_empty());
}

#[test]
fn wal_can_be_disabled_and_poison_is_not_applied() {
    let mut rig = Rig::open(64);
    rig.eng.set_wal(false);
    rig.step(&order(CommandType::Add, 1, 1, Side::Bid, 100, 1));
    assert_eq!(rig.eng.wal.bytes_written(), 0);
    assert_eq!(rig.eng.take_private()[0].ty, EventType::OrderAccepted);

    rig.eng.set_wal(true);
    rig.step(&order(CommandType::Add, 1, 2, Side::Ask, 101, 1));
    assert_eq!(rig.eng.wal.bytes_written(), 64);
    let _ = rig.eng.take_private();

    let before = rig.eng.wal.bytes_written();
    rig.step(&Command::poison());
    assert_eq!(rig.eng.wal.bytes_written(), before);
    assert!(rig.eng.take_private().is_empty());
}

#[test]
fn drain_empties_both_rings() {
    let mut rig = Rig::open(64);
    rig.step(&order(CommandType::Add, 1, 1, Side::Bid, 100, 10));
    rig.step(&order(CommandType::Add, 2, 2, Side::Ask, 100, 10));
    assert!(rig.eng.drain_events() > 0);
    assert!(rig.eng.take_private().is_empty());
    assert!(rig.eng.take_public().is_empty());
    assert_eq!(rig.eng.drain_events(), 0);
}

#[test]
fn recovery_replays_without_publishing() {
    let image = {
        let mut rig = Rig::open(64);
        rig.step(&order(CommandType::Add, 1, 1, Side::Bid, 100, 10));
        rig.step(&order(CommandType::Add, 2, 2, Side::Ask, 100, 4));
        rig.step(&order(CommandType::Add, 1, 1, Side::Bid, 100, 1));
        rig.step(&Command::reset());
        rig.step(&order(CommandType::Add, 3, 3, Side::Ask, 50, 2));
        assert!(!rig.eng.take_private().is_empty());
        rig.image
    };
    let mut rig = Rig::reopen(64, image);
    assert!(rig.eng.take_private().is_empty());
    assert!(rig.eng.take_public().is_empty());
    rig.step(&order(CommandType::Cancel, 3, 3, Side::Ask, 0, 0));
    let ev = rig.eng.take_private()[0];
    assert_eq!(ev.ty, EventType::OrderCancelled);
    assert_eq!(ev.order.user_ref, 3);
    assert_eq!(ev.order.quantity, 2);
}

#[test]
fn a_stop_in_a_run_leaves_no_trace_in_the_log() {
    let cmds = [
        order(CommandType::Add, 1, 1, Side::Bid, 100, 10),
        Command::poison(),
        order(CommandType::Add, 2, 2, Side::Ask, 100, 4),
        Command::poison(),
    ];
    let mut rig = Rig::open(64);
    for cmd in &cmds {
        rig.step(cmd);
    }
    assert_eq!(rig.eng.wal.bytes_written(), 128);
    let live = rig.eng.by_client.len();
    let next = rig.eng.next_match;
    let again = Rig::reopen(64, rig.image);
    assert_eq!(again.eng.wal.bytes_written(), 128);
    assert_eq!(again.eng.by_client.len(), live);
    assert_eq!(again.eng.next_match, next);
    assert_eq!(next, 2);
}

#[test]
fn an_untracked_fill_prints_once_and_a_quiet_engine_prints_nothing() {
    let mut rig = Rig::open(64);
    let eng = &mut rig.eng;
    let handle = 1u64 << 33;
    let taker = order(CommandType::Add, 9, 9, Side::Ask, 100, 4);
    let fills = vec![Fill { resting_id: handle, quantity: 4 }];

    eng.publish = false;
    assert_eq!(eng.publish_fills(&taker, &fills), 4);
    assert!(eng.take_private().is_empty());
    eng.emit(Event::rejected(
        1,
        EventReject {
            user_ref: 1,
            reason: 3,
            cl_ord_id: [b' '; 14],
        },
    ));
    assert!(eng.take_private().is_empty());

    eng.publish = true;
    eng.by_handle.insert(handle, 99);
    assert_eq!(eng.publish_fills(&taker, &fills), 4);
    let private = eng.take_private();
    let ev = private[0];
    assert_eq!(ev.ty, EventType::TradeExecuted);
    assert_eq!(ev.client_fd, 9);
    assert_eq!(ev.trade.maker_user_ref, 0);
    assert_eq!(ev.trade.quantity, 4);
    assert_eq!(ev.trade.price, Price(100));
    assert_eq!(ev.trade.maker_exchange_id, handle);
    assert_eq!(eng.take_public().len(), 1);
    assert_eq!(private.len(), 1);

    eng.emit(Event::rejected(
        4,
        EventReject {
            user_ref: 8,
            reason: 3,
            cl_ord_id: [b'R'; 14],
        },
    ));
    let ev = eng.take_private()[0];
    assert_eq!(ev.ty, EventType::OrderRejected);
    assert_eq!(ev.reject.reason, 3);
    assert!(eng.take_public().is_empty());
    eng.emit(Event::reset());
    assert_eq!(eng.take_private()[0].ty, EventType::BookReset);
    assert!(eng.take_public().is_empty());
}

#[test]
fn new_opens_the_default_wal() {
    let image = vec![0u8; WAL_SIZE];
    let (eng, replay) = MatchingEngine::new(64, &image).unwrap();
    assert_eq!(eng.wal.bytes_written(), 0);
    assert!(replay.is_empty());
    assert!(matches!(
        MatchingEngine::with_wal_size(64, 0, &[]),
        Err(WalError::Empty)
    ));
}

#[test]
fn engine_add_then_cancel() {
    let mut rig = Rig::open(1024);
    let mut add = order(CommandType::Add, 7, 1, Side::Bid, 100, 10);
    add.cl_ord_id[0] = b'A';
    rig.step(&add);
    let ev = rig.eng.take_private()[0];
    assert_eq!(ev.ty, EventType::OrderAccepted);
    assert_eq!(ev.order.quantity, 10);
    rig.step(&order(CommandType::Cancel, 7, 1, Side::Bid, 0, 0));
    let ev = rig.eng.take_private()[0];
    assert_eq!(ev.ty, EventType::OrderCancelled);
    assert_eq!(ev.order.cl_ord_id, add.cl_ord_id);
    assert_eq!(ev.order.order_state, b'D');
}

#[test]
fn fill_acks_maker_and_taker_once_on_tape() {
    let mut rig = Rig::open(1024);
    rig.step(&order(CommandType::Add, 7, 1, Side::Bid, 100, 10));
    rig.step(&order(CommandType::Add, 8, 2, Side::Ask, 100, 10));
    let private = rig.eng.take_private();
    let public = rig.eng.take_public();

    let private_trades: Vec<_> = private
        .iter()
        .filter(|e| e.ty == EventType::TradeExecuted)
        .collect();
    assert_eq!(private_trades.len(), 2);
    let mut fds: Vec<i32> = private_trades.iter().map(|e| e.client_fd).collect();
    fds.sort();
    assert_eq!(fds, [7, 8]);

    let public_trades: Vec<_> = public
        .iter()
        .filter(|e| e.ty == EventType::TradeExecuted)
        .collect();
    assert_eq!(public_trades.len(), 1);
    assert_eq!(public_trades[0].trade.quantity, 10);
}

#[test]
fn the_makers_resting_price_counts_and_matches_are_numbered() {
    let mut rig = Rig::open(1024);
    rig.step(&order(CommandType::Add, 7, 1, Side::Bid, 100, 10));
    rig.step(&order(CommandType::Add, 6, 1, Side::Bid, 99, 5));
    rig.step(&order(CommandType::Add, 8, 2, Side::Ask, 90, 15));
    let trades: Vec<_> = rig
        .eng
        .take_public()
        .iter()
        .filter(|e| e.ty == EventType::TradeExecuted)
        .map(|e| (e.trade.price, e.trade.quantity, e.trade.match_number, e.client_fd))
        .collect();
    assert_eq!(trades, [(Price(100), 10, 1, 8), (Price(99), 5, 2, 8)]);
    assert_eq!(rig.eng.next_match, 3);
    assert!(rig.eng.by_client.is_empty());
    assert!(rig.eng.by_handle.is_empty());
}

#[test]
fn a_trade_with_oneself_is_told_once() {
    let mut rig = Rig::open(64);
    rig.step(&order(CommandType::Add, 7, 1, Side::Bid, 100, 10));
    rig.step(&order(CommandType::Add, 7, 2, Side::Ask, 100, 3));
    let trades = rig
        .eng
        .take_private()
        .iter()
        .filter(|e| e.ty == EventType::TradeExecuted)
        .count();
    assert_eq!(trades, 1);
}
