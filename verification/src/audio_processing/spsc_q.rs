//! A bounded ring of slots that hands values from one producer to one
//! consumer in the order in which they were pushed.
//!
//! One slot always stays free, so that a full ring and an empty one differ:
//! a ring of `cap` slots holds at most `cap - 1` values.

use vstd::prelude::*;

verus! {

/// The slot after `i` in a ring of `cap` slots.
pub open spec fn spec_next_index(i: usize, cap: usize) -> usize {
    if i + 1 >= cap {
        0
    } else {
        (i + 1) as usize
    }
}

/// The slot `k` places after `tail`.
pub open spec fn slot_at(tail: usize, k: int, cap: usize) -> int {
    if tail + k < cap {
        tail + k
    } else {
        tail + k - cap
    }
}

/// Number of values between `tail` and `head`.
pub open spec fn live_count(head: usize, tail: usize, cap: usize) -> int {
    if head >= tail {
        head - tail
    } else {
        head + cap - tail
    }
}

/// What waits in a ring of `cap` slots after a push of `value`: the value
/// goes to the back unless `cap - 1` values wait already.
pub open spec fn spec_push<T>(waiting: Seq<T>, cap: nat, value: T) -> Seq<T> {
    if waiting.len() + 1 < cap {
        waiting.push(value)
    } else {
        waiting
    }
}

/// What waits after a pop: all but the oldest value.
pub open spec fn spec_pop<T>(waiting: Seq<T>) -> Seq<T> {
    if waiting.len() == 0 {
        waiting
    } else {
        waiting.skip(1)
    }
}

/// The slot after `i`, going round at the end.
pub fn next_index(i: usize, cap: usize) -> (r: usize)
    requires
        i < cap,
    ensures
        r == spec_next_index(i, cap),
        r < cap,
{
    if i == cap - 1 {
        0
    } else {
        i + 1
    }
}

/// Whether a ring with these indices has no free slot left for a push.
pub fn ring_full(head: usize, tail: usize, cap: usize) -> (r: bool)
    requires
        head < cap,
        tail < cap,
    ensures
        r == (live_count(head, tail, cap) == cap - 1),
{
    next_index(head, cap) == tail
}

/// Whether a ring with these indices holds nothing.
pub fn ring_empty(head: usize, tail: usize) -> (r: bool)
    ensures
        r == (head == tail),
{
    head == tail
}

/// The ring: `head` is the slot that the next push fills, `tail` the slot
/// that the next pop empties.
pub struct SpscQueue<T> {
    buf: Vec<Option<T>>,
    cap: usize,
    head: usize,
    tail: usize,
}

impl<T> SpscQueue<T> {
    /// The indices are in range and exactly the slots from `tail` up to
    /// `head` are filled.
    pub closed spec fn wf(&self) -> bool {
        &&& self.cap == self.buf.len()
        &&& self.head < self.cap
        &&& self.tail < self.cap
        &&& forall|k: int|
            0 <= k < self.cap ==> ((#[trigger] self.buf[slot_at(self.tail, k, self.cap)]).is_some()
                <==> k < live_count(self.head, self.tail, self.cap))
    }

    /// Number of slots.
    pub closed spec fn capacity(&self) -> nat {
        self.cap as nat
    }

    /// The values waiting in the ring, oldest first.
    pub closed spec fn view(&self) -> Seq<T> {
        Seq::new(
            live_count(self.head, self.tail, self.cap) as nat,
            |k: int| self.buf[slot_at(self.tail, k, self.cap)].unwrap(),
        )
    }

    /// An empty ring of `cap` slots.
    pub fn new(cap: usize) -> (r: Self)
        requires
            cap > 0,
        ensures
            r.wf(),
            r.capacity() == cap,
            r@ == Seq::<T>::empty(),
    {
        let mut buf: Vec<Option<T>> = Vec::with_capacity(cap);
        let mut i: usize = 0;
        while i < cap
            invariant
                i <= cap,
                buf.len() == i,
                forall|k: int| 0 <= k < i ==> (#[trigger] buf[k]).is_none(),
            decreases cap - i,
        {
            buf.push(None);
            i += 1;
        }
        let r = SpscQueue { buf, cap, head: 0, tail: 0 };
        assert(r@ =~= Seq::<T>::empty());
        r
    }

    /// Number of values waiting.
    pub fn len(&self) -> (r: usize)
        requires
            self.wf(),
        ensures
            r == self@.len(),
            r < self.capacity(),
    {
        if self.head >= self.tail {
            self.head - self.tail
        } else {
            self.head + (self.cap - self.tail)
        }
    }

    /// Puts `value` behind the values that wait, or hands it back where the
    /// ring is full.
    pub fn try_push(&mut self, value: T) -> (r: Result<(), T>)
        requires
            old(self).wf(),
        ensures
            final(self).wf(),
            final(self).capacity() == old(self).capacity(),
            final(self)@ == spec_push(old(self)@, old(self).capacity(), value),
            r == (if old(self)@.len() + 1 < old(self).capacity() {
                Ok::<(), T>(())
            } else {
                Err::<(), T>(value)
            }),
    {
        if ring_full(self.head, self.tail, self.cap) {
            return Err(value);
        }
        let ghost before = *self;
        let head = self.head;
        self.buf[head] = Some(value);
        self.head = next_index(head, self.cap);
        proof {
            let n = live_count(before.head, before.tail, before.cap);
            assert(slot_at(before.tail, n, before.cap) == head);
            assert forall|k: int| 0 <= k < self.cap implies ((#[trigger] self.buf[slot_at(
                self.tail,
                k,
                self.cap,
            )]).is_some() <==> k < live_count(self.head, self.tail, self.cap)) by {
                if k != n {
                    assert(slot_at(self.tail, k, self.cap) != head);
                    assert(self.buf[slot_at(self.tail, k, self.cap)] == before.buf[slot_at(
                        before.tail,
                        k,
                        before.cap,
                    )]);
                }
            }
            assert(self@ =~= before@.push(value)) by {
                assert forall|k: int| 0 <= k < n implies self@[k] == before@[k] by {
                    assert(slot_at(self.tail, k, self.cap) != head);
                }
            }
        }
        Ok(())
    }

    /// Takes the oldest value out, where there is one.
    pub fn try_pop(&mut self) -> (r: Option<T>)
        requires
            old(self).wf(),
        ensures
            final(self).wf(),
            final(self).capacity() == old(self).capacity(),
            final(self)@ == spec_pop(old(self)@),
            r == (if old(self)@.len() == 0 {
                None::<T>
            } else {
                Some(old(self)@[0])
            }),
    {
        if ring_empty(self.head, self.tail) {
            return None;
        }
        let ghost before = *self;
        let tail = self.tail;
        assert(slot_at(before.tail, 0, before.cap) == tail);
        let slot = &mut self.buf[tail];
        let value = slot.take();
        self.tail = next_index(tail, self.cap);
        proof {
            assert forall|k: int| 0 <= k < self.cap implies ((#[trigger] self.buf[slot_at(
                self.tail,
                k,
                self.cap,
            )]).is_some() <==> k < live_count(self.head, self.tail, self.cap)) by {
                let j = if k + 1 < self.cap { k + 1 } else { 0 };
                assert(slot_at(self.tail, k, self.cap) == slot_at(before.tail, j, before.cap));
                if j != 0 {
                    assert(slot_at(before.tail, j, before.cap) != tail);
                }
            }
            assert(self@ =~= before@.skip(1)) by {
                assert forall|k: int| 0 <= k < self@.len() implies self@[k] == before@[k + 1] by {
                    assert(slot_at(self.tail, k, self.cap) == slot_at(
                        before.tail,
                        k + 1,
                        before.cap,
                    ));
                    assert(slot_at(before.tail, k + 1, before.cap) != tail);
                }
            }
        }
        value
    }
}

/// One step of a producer or of a consumer.
pub enum QueueOp<T> {
    Push(T),
    Pop,
}

/// What a ring holds, what was accepted into it and what was taken out of
/// it, each oldest first.
pub struct QueueTrace<T> {
    pub waiting: Seq<T>,
    pub pushed: Seq<T>,
    pub popped: Seq<T>,
}

/// The trace after `ops` ran, one after the other, on an empty ring of `cap`
/// slots. A push on a full ring and a pop on an empty one change nothing.
pub open spec fn run<T>(ops: Seq<QueueOp<T>>, cap: nat) -> QueueTrace<T>
    decreases ops.len(),
{
    if ops.len() == 0 {
        QueueTrace { waiting: Seq::empty(), pushed: Seq::empty(), popped: Seq::empty() }
    } else {
        let t = run(ops.drop_last(), cap);
        match ops.last() {
            QueueOp::Push(v) => QueueTrace {
                waiting: spec_push(t.waiting, cap, v),
                pushed: if t.waiting.len() + 1 < cap {
                    t.pushed.push(v)
                } else {
                    t.pushed
                },
                popped: t.popped,
            },
            QueueOp::Pop => QueueTrace {
                waiting: spec_pop(t.waiting),
                pushed: t.pushed,
                popped: if t.waiting.len() > 0 {
                    t.popped.push(t.waiting[0])
                } else {
                    t.popped
                },
            },
        }
    }
}

/// First in, first out: whatever pushes and pops ran, the values taken out,
/// followed by the values still waiting, are the values accepted, in the
/// order in which they were pushed; and the ring never holds more than
/// `cap - 1` of them.
pub proof fn lemma_fifo<T>(ops: Seq<QueueOp<T>>, cap: nat)
    requires
        cap > 0,
    ensures
        run(ops, cap).popped + run(ops, cap).waiting == run(ops, cap).pushed,
        run(ops, cap).waiting.len() < cap,
    decreases ops.len(),
{
    if ops.len() > 0 {
        lemma_fifo(ops.drop_last(), cap);
        let t = run(ops.drop_last(), cap);
        let u = run(ops, cap);
        match ops.last() {
            QueueOp::Push(v) => {
                if t.waiting.len() + 1 < cap {
                    assert(u.popped + u.waiting =~= (t.popped + t.waiting).push(v));
                }
            },
            QueueOp::Pop => {
                if t.waiting.len() > 0 {
                    assert(u.popped + u.waiting =~= t.popped + t.waiting);
                }
            },
        }
    } else {
        assert(run(ops, cap).popped + run(ops, cap).waiting =~= run(ops, cap).pushed);
    }
}

} // verus!
