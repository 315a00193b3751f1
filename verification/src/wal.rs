//! 2 GB write-ahead log. Write `Command` before apply; recover by replay.
//!
//! The log is a run of 64-byte frames in an image that the caller keeps mapped.

use vstd::prelude::*;

use crate::bytes::{
    bump, from_le, le, lemma_le_len, next64, push_all, push_le, push_run, put_at, read_le,
    read_le32, run,
};
use crate::types::{
    pad_id, padded_id, signed32, to_signed32, to_unsigned32, unsigned32, Command, CommandType,
    Price, Side,
};

verus! {

/// "WAL!"
pub const WAL_MAGIC: u32 = 0x214C_4157;

pub const WAL_SIZE: usize = 2147483648;

pub const FRAME: usize = 64;

/// Why a log could not be opened.
#[derive(Debug, Clone, Copy, PartialEq, Eq, Structural)]
pub enum WalError {
    /// Nothing can be mapped at a length of zero.
    Empty,
}

/// A command type in a frame.
pub open spec fn type_byte(ty: CommandType) -> u8 {
    match ty {
        CommandType::Add => 0,
        CommandType::Modify => 1,
        CommandType::Cancel => 2,
        CommandType::Reset => 3,
        CommandType::Poison => 4,
    }
}

/// The command type that a byte stands for.
pub open spec fn type_at(b: u8) -> CommandType {
    if b == 0 {
        CommandType::Add
    } else if b == 1 {
        CommandType::Modify
    } else if b == 2 {
        CommandType::Cancel
    } else if b == 3 {
        CommandType::Reset
    } else {
        CommandType::Poison
    }
}

/// A side in a frame.
pub open spec fn side_byte(side: Side) -> u8 {
    match side {
        Side::Bid => 0,
        Side::Ask => 1,
    }
}

/// The side that a byte stands for.
pub open spec fn side_at(b: u8) -> Side {
    if b == 0 {
        Side::Bid
    } else {
        Side::Ask
    }
}

/// The FNV-1a hash after one more byte.
pub open spec fn hash_step(h: u32, b: u8) -> u32 {
    (((h ^ (b as u32)) * 0x0100_0193) % 0x1_0000_0000) as u32
}

/// The FNV-1a hash.
pub open spec fn hash_of(s: Seq<u8>) -> u32
    decreases s.len(),
{
    if s.len() == 0 {
        0x811c_9dc5u32
    } else {
        hash_step(hash_of(s.drop_last()), s.last())
    }
}

/// What a frame holds behind magic and checksum: sequence number, type, side,
/// price, quantity, connection, reference, client order id, time in force, display.
pub open spec fn frame_body(cmd: Command, seq: u64) -> Seq<u8> {
    le(seq as nat, 8) + seq![type_byte(cmd.ty), side_byte(cmd.side)] + run(0, 6) + le(
        cmd.price.0 as nat,
        8,
    ) + le(cmd.quantity as nat, 8) + le(unsigned32(cmd.client_fd), 4) + le(
        cmd.user_ref as nat,
        4,
    ) + cmd.cl_ord_id@ + seq![cmd.time_in_force, cmd.display]
}

/// The frame of a command.
pub open spec fn frame_bytes(cmd: Command, seq: u64) -> Seq<u8> {
    le(WAL_MAGIC as nat, 4) + le(hash_of(frame_body(cmd, seq)) as nat, 4) + frame_body(cmd, seq)
}

/// The checksum of a frame.
pub open spec fn checksum_of(f: Seq<u8>) -> u32 {
    hash_of(f.subrange(8, 64))
}

/// Whether a frame was written whole: its magic is right and its checksum is that
/// of what it holds.
pub open spec fn frame_ok(f: Seq<u8>) -> bool {
    from_le(f.subrange(0, 4)) == WAL_MAGIC && from_le(f.subrange(4, 8)) == checksum_of(f)
}

/// The sequence number of a frame.
pub open spec fn frame_seq(f: Seq<u8>) -> u64 {
    from_le(f.subrange(8, 16)) as u64
}

/// The command that a frame holds. A frame has no place for the capacity.
pub open spec fn frame_command(f: Seq<u8>) -> Command {
    Command {
        ty: type_at(f[16]),
        side: side_at(f[17]),
        price: Price(from_le(f.subrange(24, 32)) as u64),
        quantity: from_le(f.subrange(32, 40)) as u64,
        client_fd: signed32(from_le(f.subrange(40, 44))) as i32,
        user_ref: from_le(f.subrange(44, 48)) as u32,
        cl_ord_id: padded_id(f.subrange(48, 62)),
        time_in_force: f[62],
        display: f[63],
        capacity: 0,
    }
}

/// Frame `i` of an image.
pub open spec fn frame_at(image: Seq<u8>, i: int) -> Seq<u8> {
    image.subrange(64 * i, 64 * i + 64)
}

/// Whether frame `i` of an image is there and whole.
pub open spec fn whole_at(image: Seq<u8>, i: int) -> bool {
    64 * i + 64 <= image.len() && frame_ok(frame_at(image, i))
}

/// How many whole frames stand at the front of an image, from frame `i` on.
pub open spec fn frames_from(image: Seq<u8>, i: nat) -> nat
    decreases image.len() - 64 * i,
{
    if whole_at(image, i as int) {
        1 + frames_from(image, i + 1)
    } else {
        0
    }
}

/// How many whole frames stand at the front of an image.
pub open spec fn frame_count(image: Seq<u8>) -> nat {
    frames_from(image, 0)
}

/// The commands of the first `n` frames of an image.
pub open spec fn commands(image: Seq<u8>, n: nat) -> Seq<Command> {
    Seq::new(n, |i: int| frame_command(frame_at(image, i)))
}

/// Where a log stands.
#[verifier::ext_equal]
pub struct WalView {
    /// How long the image is.
    pub len: nat,
    /// The sequence number of the last frame.
    pub seq: u64,
    /// How much of the image is written.
    pub offset: nat,
}

/// A log after a command was written to it. A full log takes no more.
pub open spec fn written(w: WalView) -> WalView {
    if w.offset + FRAME > w.len {
        w
    } else {
        WalView {
            seq: next64(w.seq),
            offset: (w.offset + FRAME) as nat,
            ..w
        }
    }
}

/// The image after a command was written to the log.
pub open spec fn written_image(w: WalView, image: Seq<u8>, cmd: Command) -> Seq<u8> {
    if w.offset + FRAME > w.len {
        image
    } else {
        image.take(w.offset as int) + frame_bytes(cmd, written(w).seq) + image.skip(
            (w.offset + FRAME) as int,
        )
    }
}

/// A log after recovery: it stands behind the last whole frame.
pub open spec fn recovered(w: WalView, image: Seq<u8>) -> WalView {
    let n = frame_count(image);
    WalView {
        seq: if n == 0 {
            0
        } else {
            frame_seq(frame_at(image, n - 1))
        },
        offset: (64 * n) as nat,
        ..w
    }
}

/// The write position in a log.
pub struct Wal {
    len: usize,
    seq: u64,
    offset: usize,
}

impl View for Wal {
    type V = WalView;

    closed spec fn view(&self) -> WalView {
        WalView { len: self.len as nat, seq: self.seq, offset: self.offset as nat }
    }
}

fn type_code(ty: CommandType) -> (r: u8)
    ensures
        r == type_byte(ty),
{
    match ty {
        CommandType::Add => 0,
        CommandType::Modify => 1,
        CommandType::Cancel => 2,
        CommandType::Reset => 3,
        CommandType::Poison => 4,
    }
}

fn read_type(b: u8) -> (r: CommandType)
    ensures
        r == type_at(b),
{
    match b {
        0 => CommandType::Add,
        1 => CommandType::Modify,
        2 => CommandType::Cancel,
        3 => CommandType::Reset,
        _ => CommandType::Poison,
    }
}

fn side_code(side: Side) -> (r: u8)
    ensures
        r == side_byte(side),
{
    match side {
        Side::Bid => 0,
        Side::Ask => 1,
    }
}

fn read_side(b: u8) -> (r: Side)
    ensures
        r == side_at(b),
{
    if b == 0 {
        Side::Bid
    } else {
        Side::Ask
    }
}

/// The checksum of a frame: the FNV-1a hash of what it holds behind magic and
/// checksum.
pub fn checksum(frame: &[u8]) -> (r: u32)
    requires
        frame@.len() == FRAME,
    ensures
        r == checksum_of(frame@),
{
    let mut h: u32 = 0x811c_9dc5;
    let mut i: usize = 8;
    let ghost s = frame@.subrange(8, 64);
    assert(s.take(0) =~= Seq::<u8>::empty());
    while i < FRAME
        invariant
            8 <= i <= FRAME,
            frame@.len() == FRAME,
            s == frame@.subrange(8, 64),
            h == hash_of(s.take(i - 8)),
        decreases FRAME - i,
    {
        let b: u8 = frame[i];
        assert(s.take(i - 7).drop_last() =~= s.take(i - 8));
        assert(s.take(i - 7).last() == b);
        h = (h ^ b as u32).wrapping_mul(0x0100_0193);
        i = i + 1;
    }
    assert(s.take(i - 8) =~= s);
    h
}

pub proof fn lemma_body_len(cmd: Command, seq: u64)
    ensures
        frame_body(cmd, seq).len() == 56,
        frame_bytes(cmd, seq).len() == FRAME,
{
    lemma_le_len(seq as nat, 8);
    lemma_le_len(cmd.price.0 as nat, 8);
    lemma_le_len(cmd.quantity as nat, 8);
    lemma_le_len(unsigned32(cmd.client_fd), 4);
    lemma_le_len(cmd.user_ref as nat, 4);
    lemma_le_len(WAL_MAGIC as nat, 4);
    lemma_le_len(hash_of(frame_body(cmd, seq)) as nat, 4);
}

/// The frame of a command.
pub fn pack(cmd: &Command, seq: u64) -> (r: Vec<u8>)
    ensures
        r@ == frame_bytes(*cmd, seq),
        r@.len() == FRAME,
{
    let mut frame: Vec<u8> = Vec::new();
    push_le(&mut frame, WAL_MAGIC as u64, 4);
    push_run(&mut frame, 0, 4);
    push_le(&mut frame, seq, 8);
    frame.push(type_code(cmd.ty));
    frame.push(side_code(cmd.side));
    push_run(&mut frame, 0, 6);
    push_le(&mut frame, cmd.price.0, 8);
    push_le(&mut frame, cmd.quantity, 8);
    push_le(&mut frame, to_unsigned32(cmd.client_fd) as u64, 4);
    push_le(&mut frame, cmd.user_ref as u64, 4);
    push_all(&mut frame, &cmd.cl_ord_id);
    frame.push(cmd.time_in_force);
    frame.push(cmd.display);
    let ghost blank = frame@;
    let ghost body = frame_body(*cmd, seq);
    proof {
        lemma_body_len(*cmd, seq);
        lemma_le_len(WAL_MAGIC as nat, 4);
        lemma_le_len(hash_of(body) as nat, 4);
    }
    assert(blank =~= le(WAL_MAGIC as nat, 4) + run(0, 4) + body);
    assert(blank.subrange(8, 64) =~= body);
    let mut sum: Vec<u8> = Vec::new();
    push_le(&mut sum, checksum(&frame) as u64, 4);
    assert(sum@ =~= le(hash_of(body) as nat, 4));
    frame.set(4, sum[0]);
    frame.set(5, sum[1]);
    frame.set(6, sum[2]);
    frame.set(7, sum[3]);
    assert(frame@ =~= frame_bytes(*cmd, seq));
    frame
}

/// The command that a frame holds.
pub fn unpack(frame: &[u8]) -> (r: Command)
    requires
        frame@.len() == FRAME,
    ensures
        r == frame_command(frame@),
{
    Command {
        ty: read_type(frame[16]),
        side: read_side(frame[17]),
        price: Price(read_le(frame, 24, 8)),
        quantity: read_le(frame, 32, 8),
        client_fd: to_signed32(read_le32(frame, 40)),
        user_ref: read_le32(frame, 44),
        cl_ord_id: pad_id(&frame[48..62]),
        time_in_force: frame[62],
        display: frame[63],
        capacity: 0,
    }
}

fn is_whole(frame: &[u8]) -> (r: bool)
    requires
        frame@.len() == FRAME,
    ensures
        r == frame_ok(frame@),
{
    read_le32(frame, 0) == WAL_MAGIC && checksum(frame) == read_le32(frame, 4)
}

impl Wal {
    /// Whether the position is inside the image.
    pub open spec fn wf(&self) -> bool {
        self@.offset <= self@.len <= usize::MAX
    }

    /// A log of the default size, with nothing written.
    pub fn open() -> (r: Result<Self, WalError>)
        ensures
            r matches Ok(w) && w.wf() && w@ == (WalView {
                len: WAL_SIZE as nat,
                seq: 0,
                offset: 0,
            }),
    {
        Self::open_sized(WAL_SIZE)
    }

    /// A log over an image of `size` bytes, with nothing written.
    pub fn open_sized(size: usize) -> (r: Result<Self, WalError>)
        ensures
            match r {
                Ok(w) => size > 0 && w.wf() && w@ == (WalView {
                    len: size as nat,
                    seq: 0,
                    offset: 0,
                }),
                Err(e) => size == 0 && e == WalError::Empty,
            },
    {
        if size == 0 {
            return Err(WalError::Empty);
        }
        Ok(Self { len: size, seq: 0, offset: 0 })
    }

    /// How long the image is.
    pub fn len(&self) -> (r: usize)
        ensures
            r == self@.len,
    {
        self.len
    }

    /// How much of the image is written.
    pub fn bytes_written(&self) -> (r: usize)
        ensures
            r == self@.offset,
    {
        self.offset
    }

    /// Writes a command. A full log takes no more.
    pub fn write(&mut self, image: &mut [u8], cmd: &Command)
        requires
            old(self).wf(),
            old(image)@.len() == old(self)@.len,
        ensures
            final(self).wf(),
            final(self)@ == written(old(self)@),
            final(image)@ == written_image(old(self)@, old(image)@, *cmd),
            final(image)@.len() == old(image)@.len(),
    {
        if self.len < FRAME || self.offset > self.len - FRAME {
            return;
        }
        self.seq = bump(self.seq);
        let frame = pack(cmd, self.seq);
        put_at(image, self.offset, &frame);
        self.offset = self.offset + FRAME;
    }

    /// Reads back what was written: every frame up to the first that is not
    /// whole. The log goes on behind it.
    pub fn recover(&mut self, image: &[u8]) -> (r: Vec<Command>)
        requires
            old(self).wf(),
            image@.len() == old(self)@.len,
        ensures
            final(self).wf(),
            final(self)@ == recovered(old(self)@, image@),
            r@ == commands(image@, frame_count(image@)),
    {
        let mut got: Vec<Command> = Vec::new();
        let mut offset: usize = 0;
        let mut seq: u64 = 0;
        let ghost mut n: nat = 0;
        assert(got@ =~= commands(image@, 0));
        while self.len - offset >= FRAME
            invariant_except_break
                frame_count(image@) == n + frames_from(image@, n),
            invariant
                image@.len() == self.len,
                self.len == old(self).len,
                offset == 64 * n,
                offset <= self.len,
                got@ == commands(image@, n),
                n == 0 ==> seq == 0,
                n > 0 ==> seq == frame_seq(frame_at(image@, n - 1)),
            ensures
                frame_count(image@) == n,
            decreases self.len - offset,
        {
            let frame = &image[offset..offset + FRAME];
            assert(frame@ == frame_at(image@, n as int));
            if !is_whole(frame) {
                break;
            }
            got.push(unpack(frame));
            seq = read_le(frame, 8, 8);
            offset = offset + FRAME;
            proof {
                n = n + 1;
            }
            assert(got@ =~= commands(image@, n));
        }
        self.seq = seq;
        self.offset = offset;
        got
    }
}

} // verus!
