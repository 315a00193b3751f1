//! What holds of every log: what is written is read back, and what is damaged is
//! noticed.

use vstd::arithmetic::div_mod::{lemma_mod_multiples_vanish, lemma_mul_mod_noop_left};
use vstd::prelude::*;

use crate::bytes::{
    from_le, le, lemma_le_inverse, lemma_le_len, lemma_le_round_trip, lemma_pow256_values, run,
};
use crate::types::{lemma_padded_id_whole, signed32, unsigned32, Command, CommandType, Side};
use crate::wal::{
    checksum_of, commands, frame_at, frame_body, frame_bytes, frame_command, frame_count, frame_ok,
    frame_seq, frames_from, hash_of, hash_step, lemma_body_len, recovered, side_byte, type_byte,
    whole_at, written, written_image, WalView, FRAME, WAL_MAGIC,
};
use crate::wire::{filled_with, le32_at, le64_at, lemma_read_le32, lemma_read_le64, stands_at};

verus! {

/// What the log keeps of a command: all but the capacity.
pub open spec fn kept(cmd: Command) -> Command {
    Command { capacity: 0, ..cmd }
}

/// A frame that was written is whole, and gives back sequence number and command.
pub proof fn lemma_frame_round_trip(cmd: Command, seq: u64)
    ensures
        frame_bytes(cmd, seq).len() == FRAME,
        frame_ok(frame_bytes(cmd, seq)),
        frame_seq(frame_bytes(cmd, seq)) == seq,
        frame_command(frame_bytes(cmd, seq)) == kept(cmd),
{
    let f = frame_bytes(cmd, seq);
    let body = frame_body(cmd, seq);
    lemma_body_len(cmd, seq);
    lemma_pow256_values();
    lemma_le_round_trip(WAL_MAGIC as nat, 4);
    lemma_le_round_trip(hash_of(body) as nat, 4);
    lemma_le_round_trip(seq as nat, 8);
    lemma_le_round_trip(cmd.price.0 as nat, 8);
    lemma_le_round_trip(cmd.quantity as nat, 8);
    lemma_le_round_trip(unsigned32(cmd.client_fd), 4);
    lemma_le_round_trip(cmd.user_ref as nat, 4);
    assert(f.subrange(0, 4) =~= le(WAL_MAGIC as nat, 4));
    assert(f.subrange(4, 8) =~= le(hash_of(body) as nat, 4));
    assert(f.subrange(8, 64) =~= body);
    assert(f.subrange(8, 16) =~= le(seq as nat, 8));
    assert(f[16] == type_byte(cmd.ty));
    assert(f[17] == side_byte(cmd.side));
    assert(f.subrange(24, 32) =~= le(cmd.price.0 as nat, 8));
    assert(f.subrange(32, 40) =~= le(cmd.quantity as nat, 8));
    assert(f.subrange(40, 44) =~= le(unsigned32(cmd.client_fd), 4));
    assert(f.subrange(44, 48) =~= le(cmd.user_ref as nat, 4));
    assert(f.subrange(48, 62) =~= cmd.cl_ord_id@);
    assert(f[62] == cmd.time_in_force);
    assert(f[63] == cmd.display);
    lemma_padded_id_whole(cmd.cl_ord_id);
    assert(signed32(unsigned32(cmd.client_fd)) == cmd.client_fd);
}

/// Whether the log stands where recovery of its image would put it.
pub open spec fn in_step(w: WalView, image: Seq<u8>) -> bool {
    image.len() == w.len && recovered(w, image) == w
}

/// Whether no frame from `n` on is whole.
pub open spec fn blank_from(image: Seq<u8>, n: nat) -> bool {
    forall|i: int| n <= i ==> !#[trigger] whole_at(image, i)
}

proof fn lemma_frames_whole(image: Seq<u8>, i: nat)
    ensures
        forall|j: int| i <= j < i + frames_from(image, i) ==> #[trigger] whole_at(image, j),
        !whole_at(image, (i + frames_from(image, i)) as int),
    decreases image.len() - 64 * i,
{
    if whole_at(image, i as int) {
        lemma_frames_whole(image, i + 1);
    }
}

proof fn lemma_frames_counted(image: Seq<u8>, i: nat, n: nat)
    requires
        i <= n,
        forall|j: int| i <= j < n ==> #[trigger] whole_at(image, j),
        !whole_at(image, n as int),
    ensures
        frames_from(image, i) == n - i,
    decreases n - i,
{
    if i < n {
        assert(whole_at(image, i as int));
        lemma_frames_counted(image, i + 1, n);
    }
}

/// A write to a log that is in step, with nothing whole behind it, leaves it in
/// step with one more command to recover.
pub proof fn lemma_write_is_recovered(w: WalView, image: Seq<u8>, cmd: Command)
    requires
        in_step(w, image),
        blank_from(image, frame_count(image)),
        w.offset + FRAME <= w.len,
    ensures
        in_step(written(w), written_image(w, image, cmd)),
        frame_count(written_image(w, image, cmd)) == frame_count(image) + 1,
        blank_from(written_image(w, image, cmd), frame_count(image) + 1),
        commands(written_image(w, image, cmd), frame_count(image) + 1) == commands(
            image,
            frame_count(image),
        ).push(kept(cmd)),
{
    let n = frame_count(image);
    let seq = written(w).seq;
    let f = frame_bytes(cmd, seq);
    let after = written_image(w, image, cmd);
    lemma_frames_whole(image, 0);
    lemma_frame_round_trip(cmd, seq);
    assert(w.offset == 64 * n);
    assert(after.len() == image.len());
    assert(frame_at(after, n as int) =~= f);
    assert forall|j: int| 0 <= j < n implies #[trigger] whole_at(after, j) by {
        assert(whole_at(image, j));
        assert(frame_at(after, j) =~= frame_at(image, j));
    }
    assert forall|j: int| n + 1 <= j implies !#[trigger] whole_at(after, j) by {
        assert(!whole_at(image, j));
        if 64 * j + 64 <= after.len() {
            assert(frame_at(after, j) =~= frame_at(image, j));
        }
    }
    assert(whole_at(after, n as int));
    assert(!whole_at(after, (n + 1) as int));
    lemma_frames_counted(after, 0, n + 1);
    assert(commands(after, n + 1) =~= commands(image, n).push(kept(cmd))) by {
        assert forall|j: int| 0 <= j < n implies frame_at(after, j) == frame_at(image, j) by {
            assert(whole_at(image, j));
            assert(frame_at(after, j) =~= frame_at(image, j));
        }
    }
}

/// A log and its image after a list of commands was written.
pub open spec fn written_all(w: WalView, image: Seq<u8>, cmds: Seq<Command>) -> (WalView, Seq<u8>)
    decreases cmds.len(),
{
    if cmds.len() == 0 {
        (w, image)
    } else {
        let (w1, image1) = written_all(w, image, cmds.drop_last());
        (written(w1), written_image(w1, image1, cmds.last()))
    }
}

/// What the log keeps of a list of commands.
pub open spec fn kept_all(cmds: Seq<Command>) -> Seq<Command> {
    cmds.map_values(|cmd: Command| kept(cmd))
}

/// Recovery gives back every command that was written, in order, behind those
/// that were there, and leaves the log where writing left it.
pub proof fn lemma_recovery_gives_back_what_was_written(
    w: WalView,
    image: Seq<u8>,
    cmds: Seq<Command>,
)
    requires
        in_step(w, image),
        blank_from(image, frame_count(image)),
        w.offset + 64 * cmds.len() <= w.len,
    ensures
        in_step(written_all(w, image, cmds).0, written_all(w, image, cmds).1),
        frame_count(written_all(w, image, cmds).1) == frame_count(image) + cmds.len(),
        blank_from(written_all(w, image, cmds).1, frame_count(image) + cmds.len()),
        commands(written_all(w, image, cmds).1, frame_count(image) + cmds.len()) == commands(
            image,
            frame_count(image),
        ) + kept_all(cmds),
        written_all(w, image, cmds).0.offset == w.offset + 64 * cmds.len(),
        written_all(w, image, cmds).0.len == w.len,
    decreases cmds.len(),
{
    let n = frame_count(image);
    if cmds.len() == 0 {
        assert(commands(image, n) + kept_all(cmds) =~= commands(image, n));
    } else {
        let before = cmds.drop_last();
        lemma_recovery_gives_back_what_was_written(w, image, before);
        let (w1, image1) = written_all(w, image, before);
        lemma_write_is_recovered(w1, image1, cmds.last());
        assert((commands(image, n) + kept_all(before)).push(kept(cmds.last())) =~= commands(
            image,
            n,
        ) + kept_all(cmds));
    }
}

/// Frames are numbered one behind the other.
pub proof fn lemma_frames_are_numbered(w: WalView, image: Seq<u8>, cmds: Seq<Command>)
    requires
        w.offset + 64 * cmds.len() <= w.len,
        w.seq + cmds.len() <= u64::MAX,
    ensures
        written_all(w, image, cmds).0.seq == w.seq + cmds.len(),
        written_all(w, image, cmds).0.offset == w.offset + 64 * cmds.len(),
        written_all(w, image, cmds).0.len == w.len,
    decreases cmds.len(),
{
    if cmds.len() > 0 {
        lemma_frames_are_numbered(w, image, cmds.drop_last());
    }
}

/// An image of nothing but zeros holds no frame, and a log over it is in step.
pub proof fn lemma_zeroed_image_is_blank(len: nat)
    ensures
        frame_count(run(0, len)) == 0,
        blank_from(run(0, len), 0),
        in_step(WalView { len, seq: 0, offset: 0 }, run(0, len)),
{
    let image = run(0, len);
    assert forall|i: int| 0 <= i implies !#[trigger] whole_at(image, i) by {
        if 64 * i + 64 <= image.len() {
            let f = frame_at(image, i);
            assert(f.subrange(0, 4) =~= run(0, 4));
            reveal_with_fuel(from_le, 5);
            assert(run(0, 4).skip(1) =~= run(0, 3));
            assert(run(0, 3).skip(1) =~= run(0, 2));
            assert(run(0, 2).skip(1) =~= run(0, 1));
            assert(run(0, 1).skip(1) =~= run(0, 0));
            assert(from_le(run(0, 4)) == 0);
        }
    }
    assert(!whole_at(image, 0));
}

/// A full log takes no more: neither position nor image changes.
pub proof fn lemma_full_log_takes_no_more(w: WalView, image: Seq<u8>, cmd: Command)
    requires
        w.offset + FRAME > w.len,
    ensures
        written(w) == w,
        written_image(w, image, cmd) == image,
{
}

proof fn lemma_odd_multiple_injective(x: int, y: int)
    requires
        0 <= x < 0x1_0000_0000,
        0 <= y < 0x1_0000_0000,
        (x * 0x0100_0193) % 0x1_0000_0000 == (y * 0x0100_0193) % 0x1_0000_0000,
    ensures
        x == y,
{
    lemma_odd_multiple_inverse(x);
    lemma_odd_multiple_inverse(y);
}

proof fn lemma_odd_multiple_inverse(x: int)
    requires
        0 <= x < 0x1_0000_0000,
    ensures
        (((x * 0x0100_0193) % 0x1_0000_0000) * 0x359c_449b) % 0x1_0000_0000 == x,
{
    lemma_mul_mod_noop_left(x * 0x0100_0193, 0x359c_449b, 0x1_0000_0000);
    assert(x * 0x0100_0193 * 0x359c_449b == 0x1_0000_0000 * (x * 3513497) + x) by (nonlinear_arith);
    lemma_mod_multiples_vanish(x * 3513497, x, 0x1_0000_0000);
}

proof fn lemma_hash_step_injective(h: u32, g: u32, b: u8, c: u8)
    ensures
        hash_step(h, b) == hash_step(g, b) ==> h == g,
        hash_step(h, b) == hash_step(h, c) ==> b == c,
{
    if hash_step(h, b) == hash_step(g, b) {
        lemma_odd_multiple_injective((h ^ (b as u32)) as int, (g ^ (b as u32)) as int);
        assert((h ^ (b as u32)) == (g ^ (b as u32)) ==> h == g) by (bit_vector);
    }
    if hash_step(h, b) == hash_step(h, c) {
        lemma_odd_multiple_injective((h ^ (b as u32)) as int, (h ^ (c as u32)) as int);
        assert((h ^ (b as u32)) == (h ^ (c as u32)) ==> b == c) by (bit_vector);
    }
}

/// Two runs of bytes that differ in exactly one place have different checksums.
pub proof fn lemma_checksum_tells_bytes_apart(s: Seq<u8>, t: Seq<u8>, j: int)
    requires
        s.len() == t.len(),
        0 <= j < s.len(),
        s[j] != t[j],
        forall|i: int| 0 <= i < s.len() && i != j ==> s[i] == t[i],
    ensures
        hash_of(s) != hash_of(t),
    decreases s.len(),
{
    lemma_hash_step_injective(
        hash_of(s.drop_last()),
        hash_of(t.drop_last()),
        s.last(),
        t.last(),
    );
    if j == s.len() - 1 {
        assert(s.drop_last() =~= t.drop_last());
    } else {
        lemma_checksum_tells_bytes_apart(s.drop_last(), t.drop_last(), j);
        assert(s.last() == t.last());
    }
}

/// The checksum of a frame covers what stands behind magic and checksum, and nothing
/// else: frames that agree there have the same checksum, and frames that differ there
/// in exactly one byte have different ones.
pub proof fn lemma_checksum_covers_the_body(a: Seq<u8>, b: Seq<u8>, j: int)
    requires
        a.len() == FRAME,
        b.len() == FRAME,
        8 <= j < FRAME,
        forall|i: int| 8 <= i < FRAME && i != j ==> a[i] == b[i],
    ensures
        a[j] == b[j] <==> checksum_of(a) == checksum_of(b),
{
    let s = a.subrange(8, 64);
    let t = b.subrange(8, 64);
    assert(s[j - 8] == a[j] && t[j - 8] == b[j]);
    if a[j] == b[j] {
        assert(s =~= t);
    } else {
        lemma_checksum_tells_bytes_apart(s, t, j - 8);
    }
}

/// A whole frame with any one byte changed is no longer whole.
pub proof fn lemma_changed_byte_is_noticed(f: Seq<u8>, j: int, b: u8)
    requires
        f.len() == FRAME,
        frame_ok(f),
        0 <= j < FRAME,
        b != f[j],
    ensures
        !frame_ok(f.update(j, b)),
{
    let g = f.update(j, b);
    if j < 4 {
        assert(g.subrange(0, 4)[j] == b);
        assert(f.subrange(0, 4)[j] == f[j]);
        lemma_le_inverse(f.subrange(0, 4));
        lemma_le_inverse(g.subrange(0, 4));
    } else if j < 8 {
        assert(g.subrange(4, 8)[j - 4] == b);
        assert(f.subrange(4, 8)[j - 4] == f[j]);
        assert(g.subrange(8, 64) =~= f.subrange(8, 64));
        lemma_le_inverse(f.subrange(4, 8));
        lemma_le_inverse(g.subrange(4, 8));
    } else {
        assert(g.subrange(4, 8) =~= f.subrange(4, 8));
        assert(g.subrange(8, 64)[j - 8] == b);
        assert(f.subrange(8, 64)[j - 8] == f[j]);
        lemma_checksum_tells_bytes_apart(f.subrange(8, 64), g.subrange(8, 64), j - 8);
    }
}

/// Recovery stops at the first frame that is not whole, and gives back the
/// commands before it.
pub proof fn lemma_recovery_stops_at_damage(image: Seq<u8>, damaged: Seq<u8>, n: nat)
    requires
        damaged.len() == image.len(),
        n < frame_count(image),
        damaged.take((64 * n) as int) == image.take((64 * n) as int),
        !frame_ok(frame_at(damaged, n as int)),
    ensures
        frame_count(damaged) == n,
        commands(damaged, n) == commands(image, frame_count(image)).take(n as int),
{
    lemma_frames_whole(image, 0);
    assert(whole_at(image, n as int));
    assert forall|j: int| 0 <= j < n implies #[trigger] whole_at(damaged, j) by {
        assert(whole_at(image, j));
        lemma_frame_in_prefix(image, damaged, n, j);
    }
    lemma_frames_counted(damaged, 0, n);
    assert(commands(damaged, n) =~= commands(image, frame_count(image)).take(n as int)) by {
        assert forall|j: int| 0 <= j < n implies frame_at(damaged, j) == frame_at(image, j) by {
            lemma_frame_in_prefix(image, damaged, n, j);
        }
    }
}

proof fn lemma_frame_in_prefix(a: Seq<u8>, b: Seq<u8>, n: nat, j: int)
    requires
        a.len() == b.len(),
        0 <= j < n,
        64 * n <= a.len(),
        a.take((64 * n) as int) == b.take((64 * n) as int),
    ensures
        frame_at(a, j) == frame_at(b, j),
{
    let m: int = (64 * n) as int;
    assert forall|i: int| 64 * j <= i < 64 * j + 64 implies #[trigger] a[i] == b[i] by {
        assert(a.take(m)[i] == a[i]);
        assert(b.take(m)[i] == b[i]);
    }
    assert(frame_at(a, j) =~= frame_at(b, j));
}

/// The checksum is FNV-1a, byte by byte.
pub proof fn lemma_checksum_is_fnv(s: Seq<u8>, b: u8)
    ensures
        hash_of(Seq::<u8>::empty()) == 2166136261,
        hash_of(s.push(b)) == ((hash_of(s) ^ b as u32) * 16777619) % 0x1_0000_0000,
{
    assert(s.push(b).drop_last() =~= s);
}

/// A frame has everything about a command at a fixed place.
pub proof fn lemma_frame_layout(cmd: Command, seq: u64)
    ensures
        ({
            let f = frame_bytes(cmd, seq);
            &&& f.len() == 64
            &&& f[0] == 87 && f[1] == 65 && f[2] == 76 && f[3] == 33
            &&& le32_at(f, 4) == hash_of(f.subrange(8, 64))
            &&& le64_at(f, 8) == seq
            &&& f[16] == (match cmd.ty {
                CommandType::Add => 0u8,
                CommandType::Modify => 1u8,
                CommandType::Cancel => 2u8,
                CommandType::Reset => 3u8,
                CommandType::Poison => 4u8,
            })
            &&& f[17] == (if cmd.side == Side::Bid {
                0u8
            } else {
                1u8
            })
            &&& filled_with(f, 18, 6, 0)
            &&& le64_at(f, 24) == cmd.price.0
            &&& le64_at(f, 32) == cmd.quantity
            &&& le32_at(f, 40) == (if cmd.client_fd < 0 {
                cmd.client_fd + 0x1_0000_0000
            } else {
                cmd.client_fd as int
            })
            &&& le32_at(f, 44) == cmd.user_ref
            &&& stands_at(f, 48, cmd.cl_ord_id@)
            &&& f[62] == cmd.time_in_force
            &&& f[63] == cmd.display
        }),
{
    let f = frame_bytes(cmd, seq);
    let body = frame_body(cmd, seq);
    lemma_frame_round_trip(cmd, seq);
    lemma_frame_read(f);
    lemma_body_len(cmd, seq);
    lemma_le_len(WAL_MAGIC as nat, 4);
    lemma_le_len(hash_of(body) as nat, 4);
    lemma_le_len(seq as nat, 8);
    assert(f[16] == body[8] && f[17] == body[9]);
    assert(body[8] == type_byte(cmd.ty) && body[9] == side_byte(cmd.side));
    assert forall|j: int| 18 <= j < 24 implies #[trigger] f[j] == 0 by {
        assert(f[j] == body[j - 8]);
    }
}

/// A command is read from those places; there is none for the capacity.
pub proof fn lemma_frame_read(f: Seq<u8>)
    requires
        f.len() == 64,
    ensures
        ({
            let cmd = frame_command(f);
            &&& cmd.ty == (if f[16] == 0 {
                CommandType::Add
            } else if f[16] == 1 {
                CommandType::Modify
            } else if f[16] == 2 {
                CommandType::Cancel
            } else if f[16] == 3 {
                CommandType::Reset
            } else {
                CommandType::Poison
            })
            &&& (cmd.side == Side::Bid) == (f[17] == 0)
            &&& cmd.price.0 == le64_at(f, 24)
            &&& cmd.quantity == le64_at(f, 32)
            &&& le32_at(f, 40) == (if cmd.client_fd < 0 {
                cmd.client_fd + 0x1_0000_0000
            } else {
                cmd.client_fd as int
            })
            &&& cmd.user_ref == le32_at(f, 44)
            &&& stands_at(f, 48, cmd.cl_ord_id@)
            &&& cmd.time_in_force == f[62]
            &&& cmd.display == f[63]
            &&& cmd.capacity == 0
            &&& frame_seq(f) == le64_at(f, 8)
            &&& frame_ok(f) == (f[0] == 87 && f[1] == 65 && f[2] == 76 && f[3] == 33 && le32_at(
                f,
                4,
            ) == hash_of(f.subrange(8, 64)))
        }),
{
    lemma_read_le32(f, 0);
    lemma_read_le32(f, 4);
    lemma_read_le64(f, 8);
    lemma_read_le64(f, 24);
    lemma_read_le64(f, 32);
    lemma_read_le32(f, 40);
    lemma_read_le32(f, 44);
    let id = crate::types::padded_id(f.subrange(48, 62));
    assert(forall|j: int| 0 <= j < 14 ==> #[trigger] id@[j] == f[48 + j]);
}

/// The log keeps everything about a command but its capacity.
pub proof fn lemma_log_keeps_the_command(cmd: Command)
    ensures
        ({
            let k = kept(cmd);
            &&& k.ty == cmd.ty && k.side == cmd.side && k.price == cmd.price
            &&& k.quantity == cmd.quantity && k.client_fd == cmd.client_fd
            &&& k.user_ref == cmd.user_ref && k.cl_ord_id == cmd.cl_ord_id
            &&& k.time_in_force == cmd.time_in_force && k.display == cmd.display
            &&& k.capacity == 0
        }),
{
}

/// A write puts one frame behind what is written and touches no other byte. The frame has
/// the next number. A full log stays as it is.
pub proof fn lemma_write_touches_only_its_frame(w: WalView, image: Seq<u8>, cmd: Command, i: int)
    requires
        image.len() == w.len,
        0 <= i < image.len(),
    ensures
        ({
            let after = written_image(w, image, cmd);
            let next = written(w);
            let fits = w.offset + 64 <= w.len;
            let number = if w.seq == u64::MAX {
                0
            } else {
                (w.seq + 1) as u64
            };
            &&& after.len() == image.len()
            &&& next.len == w.len
            &&& fits ==> next.offset == w.offset + 64 && next.seq == number
            &&& fits && w.offset <= i < w.offset + 64 ==> after[i] == frame_bytes(cmd, number)[i
                - w.offset]
            &&& !(w.offset <= i < w.offset + 64) ==> after[i] == image[i]
            &&& !fits ==> after == image && next == w
        }),
{
    lemma_body_len(cmd, written(w).seq);
}

/// Recovery hands out the commands of the first frames, one of each, up to the first frame
/// that is not whole; the log goes on there, under the number of the last frame.
pub proof fn lemma_recovery_reads_frame_by_frame(w: WalView, image: Seq<u8>, i: int)
    ensures
        ({
            let n = frame_count(image);
            let got = commands(image, n);
            let next = recovered(w, image);
            &&& got.len() == n
            &&& 64 * n <= image.len() || n == 0
            &&& 0 <= i < n ==> got[i] == frame_command(image.subrange(64 * i, 64 * i + 64))
                && frame_ok(image.subrange(64 * i, 64 * i + 64))
            &&& 64 * n + 64 <= image.len() ==> !frame_ok(
                image.subrange((64 * n) as int, 64 * n as int + 64),
            )
            &&& next.offset == 64 * n
            &&& next.len == w.len
            &&& n == 0 ==> next.seq == 0
            &&& n > 0 ==> next.seq == frame_seq(image.subrange(64 * (n - 1), 64 * n as int))
        }),
{
    lemma_frames_whole(image, 0);
    let n = frame_count(image);
    if 0 <= i < n {
        assert(whole_at(image, i));
    }
    if n > 0 {
        assert(whole_at(image, n - 1));
    }
}

} // verus!
