//! Single-producer single-consumer ring, power-of-two capacity.
//!
//! Both ends count up for ever and wrap round at the top of the machine word; the
//! low bits of a count are the slot.

use vstd::arithmetic::div_mod::{lemma_fundamental_div_mod, lemma_mod_multiples_vanish};
use vstd::arithmetic::power2::{
    lemma_pow2_adds, lemma_pow2_pos, lemma_pow2_strictly_increases, pow2,
};
use vstd::bits::{lemma_usize_low_bits_mask_is_mod, low_bits_mask};
use vstd::layout::unsigned_int_max_values;
use vstd::prelude::*;

verus! {

/// A bounded first-in first-out queue.
pub struct Spsc<T> {
    buf: Vec<Option<T>>,
    mask: usize,
    /// Next slot the consumer will read.
    head: usize,
    /// Next slot the producer will write.
    tail: usize,
}

/// Whether a number is a power of two.
pub open spec fn is_power_of_two(n: nat) -> bool {
    exists|k: nat| n == #[trigger] pow2(k)
}

/// How many counts there are before they wrap round.
spec fn counts() -> int {
    usize::MAX + 1
}

/// How far `tail` is ahead of `head`.
spec fn distance(head: int, tail: int) -> int {
    if tail >= head {
        tail - head
    } else {
        tail - head + counts()
    }
}

/// The slot of the value `i` places behind `head`.
spec fn slot(head: int, i: int, cap: int) -> int {
    (head + i) % cap
}

/// Counts wrap round at a multiple of the capacity.
proof fn lemma_counts_are_whole_rounds(cap: nat)
    requires
        is_power_of_two(cap),
        cap <= usize::MAX,
    ensures
        cap > 0,
        exists|k: nat| cap == #[trigger] pow2(k) && k < usize::BITS,
        counts() % (cap as int) == 0,
{
    let k = choose|k: nat| cap == #[trigger] pow2(k);
    let bits = usize::BITS as nat;
    lemma_pow2_pos(k);
    unsigned_int_max_values();
    if k >= bits {
        if k > bits {
            lemma_pow2_strictly_increases(bits, k);
        }
        assert(false);
    }
    lemma_pow2_adds(k, (bits - k) as nat);
    assert(counts() == cap * (pow2((bits - k) as nat) as int));
    lemma_mod_multiples_vanish(pow2((bits - k) as nat) as int, 0, cap as int);
}

/// Wrapping a count round does not change its slot.
proof fn lemma_wrapped_slot(x: int, cap: int)
    requires
        0 < cap,
        counts() % cap == 0,
    ensures
        (x - counts()) % cap == x % cap,
{
    let q = counts() / cap;
    lemma_fundamental_div_mod(counts(), cap);
    lemma_mod_multiples_vanish(-q, x, cap);
    assert(cap * (-q) + x == x - counts()) by (nonlinear_arith)
        requires
            counts() == cap * q,
    ;
}

/// Within one round no two places share a slot.
proof fn lemma_slots_differ(head: int, i: int, j: int, cap: int)
    requires
        0 <= i < cap,
        0 <= j < cap,
        i != j,
    ensures
        slot(head, i, cap) != slot(head, j, cap),
{
    if slot(head, i, cap) == slot(head, j, cap) {
        lemma_fundamental_div_mod(head + i, cap);
        lemma_fundamental_div_mod(head + j, cap);
        let a = (head + i) / cap;
        let b = (head + j) / cap;
        assert(i - j == cap * (a - b)) by (nonlinear_arith)
            requires
                head + i == cap * a + slot(head, i, cap),
                head + j == cap * b + slot(head, j, cap),
                slot(head, i, cap) == slot(head, j, cap),
        ;
        assert(a == b) by (nonlinear_arith)
            requires
                i - j == cap * (a - b),
                -cap < i - j < cap,
                cap > 0,
        ;
        assert(cap * (a - b) == 0) by (nonlinear_arith)
            requires
                a == b,
        ;
    }
}

/// One round on, the slot is the same.
proof fn lemma_round_trip_slot(head: int, cap: int)
    requires
        0 < cap,
    ensures
        slot(head, cap, cap) == head % cap,
{
    lemma_mod_multiples_vanish(1, head, cap);
}

impl<T> View for Spsc<T> {
    type V = Seq<T>;

    closed spec fn view(&self) -> Seq<T> {
        Seq::new(
            distance(self.head as int, self.tail as int) as nat,
            |i: int| self.buf@[slot(self.head as int, i, self.buf@.len() as int)]->0,
        )
    }
}

impl<T> Spsc<T> {
    /// Whether the ring is in order: what is taken lies between the two ends, and
    /// the rest is free.
    pub closed spec fn wf(&self) -> bool {
        &&& is_power_of_two(self.buf@.len())
        &&& self.mask == self.buf@.len() - 1
        &&& distance(self.head as int, self.tail as int) <= self.buf@.len()
        &&& forall|i: int|
            0 <= i < self.buf@.len() ==> ((#[trigger] self.buf@[slot(
                self.head as int,
                i,
                self.buf@.len() as int,
            )]) is Some <==> i < distance(self.head as int, self.tail as int))
    }

    /// How many values the ring can hold.
    pub closed spec fn capacity(&self) -> nat {
        self.buf@.len()
    }

    /// An empty ring of `cap` slots.
    pub fn new(cap: usize) -> (r: Self)
        requires
            is_power_of_two(cap as nat),
        ensures
            r.wf(),
            r.capacity() == cap,
            r@ == Seq::<T>::empty(),
    {
        proof {
            lemma_counts_are_whole_rounds(cap as nat);
        }
        let mut buf: Vec<Option<T>> = Vec::with_capacity(cap);
        let mut i: usize = 0;
        while i < cap
            invariant
                i <= cap,
                buf@.len() == i,
                forall|j: int| 0 <= j < i ==> (#[trigger] buf@[j]) is None,
            decreases cap - i,
        {
            buf.push(None);
            i = i + 1;
        }
        let r = Self { buf, mask: cap - 1, head: 0, tail: 0 };
        assert(r@ =~= Seq::<T>::empty());
        r
    }

    /// How many values the ring can hold.
    pub fn cap(&self) -> (r: usize)
        requires
            self.wf(),
        ensures
            r == self.capacity(),
    {
        proof {
            let n = self.buf.len();
            lemma_counts_are_whole_rounds(n as nat);
        }
        self.mask + 1
    }

    /// The slot of a count.
    fn place(&self, count: usize) -> (r: usize)
        requires
            self.wf(),
        ensures
            r == (count as int) % (self.buf@.len() as int),
            r < self.buf@.len(),
    {
        proof {
            let cap = self.buf.len() as nat;
            lemma_counts_are_whole_rounds(cap);
            let k = choose|k: nat| cap == #[trigger] pow2(k) && k < usize::BITS;
            lemma_usize_low_bits_mask_is_mod(count, k);
            assert(low_bits_mask(k) == self.mask);
        }
        count & self.mask
    }

    /// Puts a value at the end. A full ring has no end to put it at.
    pub fn push(&mut self, val: T)
        requires
            old(self).wf(),
            old(self)@.len() < old(self).capacity(),
        ensures
            final(self).wf(),
            final(self).capacity() == old(self).capacity(),
            final(self)@ == old(self)@.push(val),
    {
        let _ = self.try_push(val);
    }

    /// Puts a value at the end, or hands it back if the ring is full.
    pub fn try_push(&mut self, val: T) -> (r: Result<(), T>)
        requires
            old(self).wf(),
        ensures
            final(self).wf(),
            final(self).capacity() == old(self).capacity(),
            match r {
                Ok(_) => {
                    &&& old(self)@.len() < old(self).capacity()
                    &&& final(self)@ == old(self)@.push(val)
                },
                Err(back) => {
                    &&& old(self)@.len() == old(self).capacity()
                    &&& back == val
                    &&& final(self)@ == old(self)@
                },
            },
    {
        let tail: usize = self.tail;
        let head: usize = self.head;
        if tail.wrapping_sub(head) > self.mask {
            return Err(val);
        }
        let at: usize = self.place(tail);
        let ghost cap = self.buf@.len() as int;
        let ghost n = distance(head as int, tail as int);
        proof {
            let len = self.buf.len();
            lemma_counts_are_whole_rounds(len as nat);
            lemma_wrapped_slot(head + n, cap);
            assert(at == slot(head as int, n, cap));
        }
        self.buf.set(at, Some(val));
        self.tail = tail.wrapping_add(1);
        proof {
            assert(distance(head as int, self.tail as int) == n + 1);
            assert forall|i: int| 0 <= i < cap implies ((#[trigger] self.buf@[slot(
                head as int,
                i,
                cap,
            )]) is Some <==> i < n + 1) by {
                if i != n {
                    lemma_slots_differ(head as int, i, n, cap);
                    assert(self.buf@[slot(head as int, i, cap)] == old(self).buf@[slot(
                        head as int,
                        i,
                        cap,
                    )]);
                }
            }
            assert(self@ =~= old(self)@.push(val)) by {
                assert forall|i: int| 0 <= i < n implies self@[i] == old(self)@[i] by {
                    lemma_slots_differ(head as int, i, n, cap);
                }
            }
        }
        Ok(())
    }

    /// Takes the value at the front, if there is one.
    pub fn pop(&mut self) -> (r: Option<T>)
        requires
            old(self).wf(),
        ensures
            final(self).wf(),
            final(self).capacity() == old(self).capacity(),
            match r {
                Some(val) => {
                    &&& old(self)@.len() > 0
                    &&& val == old(self)@[0]
                    &&& final(self)@ == old(self)@.skip(1)
                },
                None => old(self)@.len() == 0 && final(self)@ == old(self)@,
            },
    {
        let head: usize = self.head;
        let tail: usize = self.tail;
        if head == tail {
            return None;
        }
        let at: usize = self.place(head);
        let ghost cap = self.buf@.len() as int;
        let ghost n = distance(head as int, tail as int);
        assert(at == slot(head as int, 0, cap));
        assert(self.buf@[slot(head as int, 0, cap)] is Some);
        let val = self.buf[at].take();
        self.head = head.wrapping_add(1);
        proof {
            let len = self.buf.len();
            lemma_counts_are_whole_rounds(len as nat);
            let next = self.head as int;
            assert(distance(next, tail as int) == n - 1);
            assert forall|i: int| 0 <= i < cap implies slot(next, i, cap) == #[trigger] slot(
                head as int,
                i + 1,
                cap,
            ) by {
                lemma_wrapped_slot(head + 1 + i, cap);
            }
            assert forall|i: int| 0 <= i < cap implies ((#[trigger] self.buf@[slot(
                next,
                i,
                cap,
            )]) is Some <==> i < n - 1) by {
                assert(slot(next, i, cap) == slot(head as int, i + 1, cap));
                if i < cap - 1 {
                    lemma_slots_differ(head as int, i + 1, 0, cap);
                    assert(self.buf@[slot(next, i, cap)] == old(self).buf@[slot(
                        head as int,
                        i + 1,
                        cap,
                    )]);
                } else {
                    lemma_round_trip_slot(head as int, cap);
                }
            }
            assert(self@ =~= old(self)@.skip(1)) by {
                assert forall|i: int| 0 <= i < n - 1 implies self@[i] == old(self)@[i + 1] by {
                    assert(slot(next, i, cap) == slot(head as int, i + 1, cap));
                    lemma_slots_differ(head as int, i + 1, 0, cap);
                }
            }
        }
        val
    }
}

/// Something done to a ring.
pub enum Op<T> {
    TryPush(T),
    Pop,
}

/// What a run of operations came to: what is in the ring, what went in, and what
/// came out.
#[verifier::ext_equal]
pub struct Run<T> {
    pub queue: Seq<T>,
    pub accepted: Seq<T>,
    pub popped: Seq<T>,
}

/// A run of operations on an empty ring that holds up to `cap` values.
pub open spec fn run_of<T>(cap: nat, ops: Seq<Op<T>>) -> Run<T>
    decreases ops.len(),
{
    if ops.len() == 0 {
        Run { queue: Seq::empty(), accepted: Seq::empty(), popped: Seq::empty() }
    } else {
        let r = run_of(cap, ops.drop_last());
        match ops.last() {
            Op::TryPush(val) => if r.queue.len() < cap {
                Run { queue: r.queue.push(val), accepted: r.accepted.push(val), ..r }
            } else {
                r
            },
            Op::Pop => if r.queue.len() > 0 {
                Run { queue: r.queue.skip(1), popped: r.popped.push(r.queue[0]), ..r }
            } else {
                r
            },
        }
    }
}

/// However pushes and pops alternate, what came out and what is still in the ring
/// is what went in, in order, and the ring never holds more than it can.
pub proof fn lemma_first_in_first_out<T>(cap: nat, ops: Seq<Op<T>>)
    ensures
        run_of(cap, ops).accepted == run_of(cap, ops).popped + run_of(cap, ops).queue,
        run_of(cap, ops).queue.len() <= cap,
    decreases ops.len(),
{
    if ops.len() > 0 {
        lemma_first_in_first_out(cap, ops.drop_last());
        let before = run_of(cap, ops.drop_last());
        let after = run_of(cap, ops);
        assert(after.accepted =~= after.popped + after.queue);
    }
}

} // verus!
