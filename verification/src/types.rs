//! Command in, Event out. The book never sees these.

use vstd::prelude::*;

verus! {

/// Which side of the book an order rests on.
#[derive(Debug, Clone, Copy, PartialEq, Eq, Structural)]
pub enum Side {
    Bid,
    Ask,
}

impl Side {
    /// The side that trades against this one.
    pub open spec fn other(self) -> Side {
        match self {
            Side::Bid => Side::Ask,
            Side::Ask => Side::Bid,
        }
    }

    /// The side that trades against this one.
    pub fn opposite(self) -> (r: Side)
        ensures
            r == self.other(),
    {
        match self {
            Side::Bid => Side::Ask,
            Side::Ask => Side::Bid,
        }
    }
}

/// A price in ticks.
#[derive(Debug, Clone, Copy, PartialEq, Eq, Structural)]
pub struct Price(pub u64);

/// What ids and symbols are filled up with.
pub const SPACE: u8 = 32;

/// What a client asks of the engine, or what the engine is told to do.
#[derive(Debug, Clone, Copy, PartialEq, Eq, Structural)]
pub enum CommandType {
    Add,
    Modify,
    Cancel,
    Reset,
    Poison,
}

/// One instruction for the engine.
#[derive(Debug, Clone, Copy)]
pub struct Command {
    pub ty: CommandType,
    pub side: Side,
    pub price: Price,
    pub quantity: u64,
    pub client_fd: i32,
    pub user_ref: u32,
    pub cl_ord_id: [u8; 14],
    pub time_in_force: u8,
    pub display: u8,
    pub capacity: u8,
}

/// A client order id of nothing but spaces.
pub open spec fn blank_id() -> [u8; 14] {
    [
        SPACE, SPACE, SPACE, SPACE, SPACE, SPACE, SPACE, SPACE, SPACE, SPACE, SPACE, SPACE, SPACE,
        SPACE,
    ]
}

/// A command with every field but its type at rest.
pub open spec fn blank_command(ty: CommandType) -> Command {
    Command {
        ty,
        side: Side::Bid,
        price: Price(0),
        quantity: 0,
        client_fd: 1,
        user_ref: 0,
        cl_ord_id: blank_id(),
        time_in_force: 0,
        display: 0,
        capacity: 0,
    }
}

/// Byte `i` of `s`, or a space past its end.
pub open spec fn id_byte(s: Seq<u8>, i: int) -> u8 {
    if i < s.len() {
        s[i]
    } else {
        SPACE
    }
}

/// The first fourteen bytes of `s`, padded with spaces.
pub open spec fn padded_id(s: Seq<u8>) -> [u8; 14] {
    [
        id_byte(s, 0),
        id_byte(s, 1),
        id_byte(s, 2),
        id_byte(s, 3),
        id_byte(s, 4),
        id_byte(s, 5),
        id_byte(s, 6),
        id_byte(s, 7),
        id_byte(s, 8),
        id_byte(s, 9),
        id_byte(s, 10),
        id_byte(s, 11),
        id_byte(s, 12),
        id_byte(s, 13),
    ]
}

fn read_id_byte(s: &[u8], i: usize) -> (r: u8)
    ensures
        r == id_byte(s@, i as int),
{
    if i < s.len() {
        s[i]
    } else {
        SPACE
    }
}

/// The first fourteen bytes of `s`, padded with spaces.
pub fn pad_id(s: &[u8]) -> (r: [u8; 14])
    ensures
        r == padded_id(s@),
{
    let id: [u8; 14] = [
        read_id_byte(s, 0),
        read_id_byte(s, 1),
        read_id_byte(s, 2),
        read_id_byte(s, 3),
        read_id_byte(s, 4),
        read_id_byte(s, 5),
        read_id_byte(s, 6),
        read_id_byte(s, 7),
        read_id_byte(s, 8),
        read_id_byte(s, 9),
        read_id_byte(s, 10),
        read_id_byte(s, 11),
        read_id_byte(s, 12),
        read_id_byte(s, 13),
    ];
    assert(id =~= padded_id(s@));
    id
}

/// A client order id of nothing but spaces.
pub fn empty_id() -> (r: [u8; 14])
    ensures
        r == blank_id(),
{
    let id: [u8; 14] = [
        SPACE, SPACE, SPACE, SPACE, SPACE, SPACE, SPACE, SPACE, SPACE, SPACE, SPACE, SPACE, SPACE,
        SPACE,
    ];
    assert(id =~= blank_id());
    id
}

/// Padding an id that already fills its field leaves it as it is.
pub proof fn lemma_padded_id_whole(id: [u8; 14])
    ensures
        padded_id(id@) == id,
{
    assert(padded_id(id@) =~= id);
}

impl Command {
    /// A command of type `ty` with every other field at rest.
    pub fn blank(ty: CommandType) -> (r: Self)
        ensures
            r == blank_command(ty),
    {
        Self {
            ty,
            side: Side::Bid,
            price: Price(0),
            quantity: 0,
            client_fd: 1,
            user_ref: 0,
            cl_ord_id: empty_id(),
            time_in_force: 0,
            display: 0,
            capacity: 0,
        }
    }

    /// The command that stops the engine.
    pub fn poison() -> (r: Self)
        ensures
            r == blank_command(CommandType::Poison),
    {
        Self::blank(CommandType::Poison)
    }

    /// The command that empties the book.
    pub fn reset() -> (r: Self)
        ensures
            r == blank_command(CommandType::Reset),
    {
        Self::blank(CommandType::Reset)
    }

    /// The key under which the engine knows this client's order.
    pub fn composite_key(&self) -> (r: u64)
        ensures
            r == client_key(self.client_fd, self.user_ref),
    {
        composite_key(self.client_fd, self.user_ref)
    }
}

/// A signed 32-bit number read as an unsigned one.
pub open spec fn unsigned32(v: i32) -> nat {
    if v < 0 {
        (v + 0x1_0000_0000) as nat
    } else {
        v as nat
    }
}

/// An unsigned 32-bit number read as a signed one.
pub open spec fn signed32(v: nat) -> int {
    if v >= 0x8000_0000 {
        v - 0x1_0000_0000
    } else {
        v as int
    }
}

/// A signed 32-bit number read as an unsigned one.
pub fn to_unsigned32(v: i32) -> (r: u32)
    ensures
        r == unsigned32(v),
        signed32(r as nat) == v,
{
    if v < 0 {
        (v as i64 + 0x1_0000_0000) as u32
    } else {
        v as u32
    }
}

/// An unsigned 32-bit number read as a signed one.
pub fn to_signed32(v: u32) -> (r: i32)
    ensures
        r == signed32(v as nat),
        unsigned32(r) == v,
{
    if v >= 0x8000_0000 {
        (v as i64 - 0x1_0000_0000) as i32
    } else {
        v as i32
    }
}

/// The connection in the high half, the client's own reference in the low half.
pub open spec fn client_key(fd: i32, user_ref: u32) -> u64 {
    (unsigned32(fd) * 0x1_0000_0000 + user_ref) as u64
}

/// The key under which the engine knows the order `user_ref` of connection `fd`.
pub fn composite_key(fd: i32, user_ref: u32) -> (r: u64)
    ensures
        r == client_key(fd, user_ref),
        r == unsigned32(fd) * 0x1_0000_0000 + user_ref,
{
    to_unsigned32(fd) as u64 * 0x1_0000_0000 + user_ref as u64
}

/// Two orders share a key only if they share connection and reference.
pub proof fn lemma_client_key_injective(fd_a: i32, ref_a: u32, fd_b: i32, ref_b: u32)
    ensures
        client_key(fd_a, ref_a) == client_key(fd_b, ref_b) <==> fd_a == fd_b && ref_a == ref_b,
{
    let a: int = unsigned32(fd_a) * 0x1_0000_0000 + ref_a;
    let b: int = unsigned32(fd_b) * 0x1_0000_0000 + ref_b;
    assert(0 <= a < 0x1_0000_0000_0000_0000);
    assert(0 <= b < 0x1_0000_0000_0000_0000);
}

/// What the engine reports.
#[derive(Debug, Clone, Copy, PartialEq, Eq, Structural)]
pub enum EventType {
    OrderAccepted,
    OrderCancelled,
    OrderModified,
    OrderRejected,
    TradeExecuted,
    BookReset,
}

/// The order an event is about.
#[derive(Debug, Clone, Copy)]
pub struct EventOrder {
    pub order_id: u64,
    pub user_ref: u32,
    pub price: Price,
    pub quantity: u64,
    pub side: Side,
    pub order_state: u8,
    pub cl_ord_id: [u8; 14],
}

/// The trade an event is about.
#[derive(Debug, Clone, Copy)]
pub struct EventTrade {
    pub match_number: u64,
    pub maker_exchange_id: u64,
    pub maker_user_ref: u32,
    pub price: Price,
    pub quantity: u64,
    pub taker_side: Side,
}

/// Why a command was turned down.
#[derive(Debug, Clone, Copy)]
pub struct EventReject {
    pub user_ref: u32,
    pub reason: u16,
    pub cl_ord_id: [u8; 14],
}

/// One report of the engine. Only the part that `ty` names carries data.
#[derive(Debug, Clone, Copy)]
pub struct Event {
    pub ty: EventType,
    pub client_fd: i32,
    pub timestamp: u64,
    pub order: EventOrder,
    pub trade: EventTrade,
    pub reject: EventReject,
}

pub open spec fn no_order() -> EventOrder {
    EventOrder {
        order_id: 0,
        user_ref: 0,
        price: Price(0),
        quantity: 0,
        side: Side::Bid,
        order_state: 0,
        cl_ord_id: blank_id(),
    }
}

pub open spec fn no_trade() -> EventTrade {
    EventTrade {
        match_number: 0,
        maker_exchange_id: 0,
        maker_user_ref: 0,
        price: Price(0),
        quantity: 0,
        taker_side: Side::Bid,
    }
}

pub open spec fn no_reject() -> EventReject {
    EventReject { user_ref: 0, reason: 0, cl_ord_id: blank_id() }
}

/// An event about an order.
pub open spec fn order_event(ty: EventType, fd: i32, order: EventOrder) -> Event {
    Event { ty, client_fd: fd, timestamp: 0, order, trade: no_trade(), reject: no_reject() }
}

/// An event about a trade.
pub open spec fn trade_event(fd: i32, trade: EventTrade) -> Event {
    Event {
        ty: EventType::TradeExecuted,
        client_fd: fd,
        timestamp: 0,
        order: no_order(),
        trade,
        reject: no_reject(),
    }
}

/// An event about a command that was turned down.
pub open spec fn reject_event(fd: i32, reject: EventReject) -> Event {
    Event {
        ty: EventType::OrderRejected,
        client_fd: fd,
        timestamp: 0,
        order: no_order(),
        trade: no_trade(),
        reject,
    }
}

/// The event that tells of an emptied book.
pub open spec fn reset_event() -> Event {
    Event {
        ty: EventType::BookReset,
        client_fd: (-1) as i32,
        timestamp: 0,
        order: no_order(),
        trade: no_trade(),
        reject: no_reject(),
    }
}

impl Event {
    pub fn accepted(fd: i32, order: EventOrder) -> (r: Self)
        ensures
            r == order_event(EventType::OrderAccepted, fd, order),
    {
        Self {
            ty: EventType::OrderAccepted,
            client_fd: fd,
            timestamp: 0,
            order,
            trade: empty_trade(),
            reject: empty_reject(),
        }
    }

    pub fn cancelled(fd: i32, order: EventOrder) -> (r: Self)
        ensures
            r == order_event(EventType::OrderCancelled, fd, order),
    {
        Self {
            ty: EventType::OrderCancelled,
            client_fd: fd,
            timestamp: 0,
            order,
            trade: empty_trade(),
            reject: empty_reject(),
        }
    }

    pub fn modified(fd: i32, order: EventOrder) -> (r: Self)
        ensures
            r == order_event(EventType::OrderModified, fd, order),
    {
        Self {
            ty: EventType::OrderModified,
            client_fd: fd,
            timestamp: 0,
            order,
            trade: empty_trade(),
            reject: empty_reject(),
        }
    }

    pub fn rejected(fd: i32, reject: EventReject) -> (r: Self)
        ensures
            r == reject_event(fd, reject),
    {
        Self {
            ty: EventType::OrderRejected,
            client_fd: fd,
            timestamp: 0,
            order: empty_order(),
            trade: empty_trade(),
            reject,
        }
    }

    pub fn trade(fd: i32, trade: EventTrade) -> (r: Self)
        ensures
            r == trade_event(fd, trade),
    {
        Self {
            ty: EventType::TradeExecuted,
            client_fd: fd,
            timestamp: 0,
            order: empty_order(),
            trade,
            reject: empty_reject(),
        }
    }

    pub fn reset() -> (r: Self)
        ensures
            r == reset_event(),
    {
        Self {
            ty: EventType::BookReset,
            client_fd: -1,
            timestamp: 0,
            order: empty_order(),
            trade: empty_trade(),
            reject: empty_reject(),
        }
    }
}

fn empty_order() -> (r: EventOrder)
    ensures
        r == no_order(),
{
    EventOrder {
        order_id: 0,
        user_ref: 0,
        price: Price(0),
        quantity: 0,
        side: Side::Bid,
        order_state: 0,
        cl_ord_id: empty_id(),
    }
}

fn empty_trade() -> (r: EventTrade)
    ensures
        r == no_trade(),
{
    EventTrade {
        match_number: 0,
        maker_exchange_id: 0,
        maker_user_ref: 0,
        price: Price(0),
        quantity: 0,
        taker_side: Side::Bid,
    }
}

fn empty_reject() -> (r: EventReject)
    ensures
        r == no_reject(),
{
    EventReject { user_ref: 0, reason: 0, cl_ord_id: empty_id() }
}

} // verus!
