//! A fixed-capacity ring that hands elements from one producer to one
//! consumer in the order they were sent, and refuses new ones when full.

use std::collections::TryReserveError;
use vstd::prelude::*;

verus! {

/// What a ring holds.
pub struct RingView<T> {
    /// Number of slots.
    pub cap: nat,
    /// The elements sent and not yet received, oldest first.
    pub queue: Seq<T>,
    /// Number of elements accepted so far: the producer's cursor.
    pub sent: nat,
}

impl<T> RingView<T> {
    /// Number of elements received so far: the consumer's cursor.
    pub open spec fn received(self) -> nat {
        (self.sent - self.queue.len()) as nat
    }

    /// The ring has a free slot and the producer's cursor can still advance.
    pub open spec fn accepts(self) -> bool {
        self.queue.len() < self.cap && self.sent < usize::MAX
    }

    /// The ring after it accepted `elem`.
    pub open spec fn after_send(self, elem: T) -> RingView<T> {
        RingView { cap: self.cap, queue: self.queue.push(elem), sent: self.sent + 1 }
    }

    /// The ring after its oldest element was received.
    pub open spec fn after_recv(self) -> RingView<T> {
        RingView { cap: self.cap, queue: self.queue.drop_first(), sent: self.sent }
    }
}

/// An empty ring of `cap` slots that has accepted nothing yet.
pub open spec fn empty_ring<T>(cap: nat) -> RingView<T> {
    RingView { cap, queue: Seq::empty(), sent: 0 }
}

/// The ring itself: the slots and the two cursors.
pub struct Ring<T> {
    buf: Vec<Option<T>>,
    // next index to put a new element on
    tx: usize,
    // next index to receive an element from
    rx: usize,
}

impl<T> Ring<T> {
    /// The element that was sent as number `i`, while it is in its slot.
    pub closed spec fn slot(&self, i: int) -> T {
        self.buf@[i % (self.buf@.len() as int)].unwrap()
    }

    /// The consumer's cursor is not ahead of the producer's, and every slot
    /// between the two is filled.
    pub closed spec fn filled(&self) -> bool {
        &&& self.rx <= self.tx
        &&& forall|i: int|
            self.rx <= i < self.tx ==> (#[trigger] self.buf@[i % (self.buf@.len() as int)]).is_some()
    }

    /// No more is queued than there are slots or than was ever sent, the
    /// producer's cursor fits the machine word, and every element queued is
    /// in its slot.
    pub open spec fn wf(&self) -> bool {
        &&& self@.queue.len() <= self@.cap
        &&& self@.queue.len() <= self@.sent
        &&& self@.sent <= usize::MAX
        &&& self.filled()
    }
}

impl<T> View for Ring<T> {
    type V = RingView<T>;

    closed spec fn view(&self) -> RingView<T> {
        RingView {
            cap: self.buf@.len(),
            queue: Seq::new((self.tx - self.rx) as nat, |i: int| self.slot(self.rx + i)),
            sent: self.tx as nat,
        }
    }
}

/// Two different positions less than one capacity apart use different slots.
proof fn lemma_slots_differ(i: int, j: int, len: int)
    requires
        0 <= i < j < i + len,
    ensures
        i % len != j % len,
{
    vstd::arithmetic::div_mod::lemma_fundamental_div_mod(i, len);
    vstd::arithmetic::div_mod::lemma_fundamental_div_mod(j, len);
    vstd::arithmetic::div_mod::lemma_mod_bound(i, len);
    vstd::arithmetic::div_mod::lemma_mod_bound(j, len);
    if i % len == j % len {
        let a = i / len;
        let b = j / len;
        assert(j - i == len * b - len * a);
        assert(len * b - len * a == len * (b - a)) by (nonlinear_arith);
        assert(false) by (nonlinear_arith)
            requires
                0 < len * (b - a) < len,
        ;
    }
}

impl<T> Ring<T> {
    /// An empty ring of `cap` slots, if the memory for it can be had. A ring
    /// without slots needs no memory and is always made.
    pub fn with_capacity(cap: usize) -> (made: Result<Ring<T>, TryReserveError>)
        ensures
            cap == 0 ==> made.is_ok(),
            match made {
                Ok(ring) => ring.wf() && ring@ == empty_ring::<T>(cap as nat),
                Err(_) => true,
            },
    {
        let mut buf: Vec<Option<T>> = Vec::new();
        if cap == 0 {
            return Self::with_reserved(Ok(()), buf, cap);
        }
        let reserved = buf.try_reserve(cap);
        Self::with_reserved(reserved, buf, cap)
    }

    /// What becomes of the request for a ring of `cap` slots once room for
    /// them has been asked for in `buf`: where `reserved` says that the room
    /// was had, the empty ring of `cap` slots, laid out in `buf`; where it
    /// says that it was not, the error it names.
    pub fn with_reserved(
        reserved: Result<(), TryReserveError>,
        buf: Vec<Option<T>>,
        cap: usize,
    ) -> (made: Result<Ring<T>, TryReserveError>)
        ensures
            match reserved {
                Ok(_) => made.is_ok() && made.unwrap().wf() && made.unwrap()@ == empty_ring::<T>(
                    cap as nat,
                ),
                Err(e) => made == Err::<Ring<T>, TryReserveError>(e),
            },
    {
        match reserved {
            Err(e) => Err(e),
            Ok(_) => {
                let mut buf = buf;
                buf.clear();
                let mut n: usize = 0;
                while n < cap
                    invariant
                        n <= cap,
                        buf@.len() == n,
                    decreases cap - n,
                {
                    buf.push(None);
                    n += 1;
                }
                let ring = Ring { buf, tx: 0, rx: 0 };
                assert(ring@.queue =~= Seq::<T>::empty());
                Ok(ring)
            },
        }
    }

    /// The number of elements sent and not yet received.
    pub fn len(&self) -> (n: usize)
        requires
            self.wf(),
        ensures
            n == self@.queue.len(),
    {
        self.tx - self.rx
    }

    /// The number of slots.
    pub fn capacity(&self) -> (cap: usize)
        ensures
            cap == self@.cap,
    {
        self.buf.len()
    }

    /// Puts `elem` into the next free slot. When the ring is full, or the
    /// cursor cannot advance, nothing changes and `elem` comes back.
    pub fn send(&mut self, elem: T) -> (outcome: Result<(), T>)
        requires
            old(self).wf(),
        ensures
            final(self).wf(),
            old(self)@.accepts() ==> outcome.is_ok() && final(self)@ == old(self)@.after_send(elem),
            !old(self)@.accepts() ==> outcome == Err::<(), T>(elem) && final(self)@ == old(self)@,
    {
        let tx = self.tx;
        let len = self.buf.len();
        if tx - self.rx < len && tx < usize::MAX {
            let ghost before = self.buf@;
            self.buf[tx % len] = Some(elem);
            self.tx = tx + 1;
            proof {
                assert forall|i: int| self.rx <= i < self.tx implies (#[trigger] self.buf@[i % (
                len as int)]).is_some() by {
                    if i < tx {
                        lemma_slots_differ(i, tx as int, len as int);
                        assert(before[i % (len as int)].is_some());
                    }
                }
                assert forall|j: int| self.rx <= j < tx implies #[trigger] self.slot(j) == old(
                    self,
                ).slot(j) by {
                    lemma_slots_differ(j, tx as int, len as int);
                }
                assert(self@.queue =~= old(self)@.queue.push(elem));
            }
            Ok(())
        } else {
            Err(elem)
        }
    }

    /// Takes the oldest element out of its slot; `None` when the ring is
    /// empty.
    pub fn recv(&mut self) -> (elem: Option<T>)
        requires
            old(self).wf(),
        ensures
            final(self).wf(),
            old(self)@.queue.len() > 0 ==> elem == Some(old(self)@.queue[0]) && final(self)@ == old(
                self,
            )@.after_recv(),
            old(self)@.queue.len() == 0 ==> elem.is_none() && final(self)@ == old(self)@,
    {
        if self.rx < self.tx {
            let len = self.buf.len();
            let pos = self.rx % len;
            let ghost before = self.buf@;
            assert(before[self.rx as int % (len as int)].is_some());
            let elem = self.buf[pos].take();
            self.rx = self.rx + 1;
            proof {
                assert forall|i: int| self.rx <= i < self.tx implies (#[trigger] self.buf@[i % (
                len as int)]).is_some() by {
                    lemma_slots_differ(self.rx - 1, i, len as int);
                    assert(before[i % (len as int)].is_some());
                }
                assert forall|j: int| self.rx <= j < self.tx implies #[trigger] self.slot(j)
                    == old(self).slot(j) by {
                    lemma_slots_differ(self.rx - 1, j, len as int);
                }
                assert(self@.queue =~= old(self)@.queue.drop_first());
                assert(old(self)@.queue[0] == old(self).slot(old(self).rx as int));
            }
            elem
        } else {
            None
        }
    }
}

/// One call on a ring.
pub enum RingOp<T> {
    /// `send` with this element.
    Send(T),
    /// `recv`.
    Recv,
}

/// The account of a run of calls on a ring.
pub struct RingRun<T> {
    /// The ring after the run.
    pub ring: RingView<T>,
    /// The elements that `send` accepted, in the order they were sent.
    pub accepted: Seq<T>,
    /// The elements that `recv` returned, in the order they came out.
    pub delivered: Seq<T>,
    /// Number of calls of `send`.
    pub sends: nat,
    /// Number of calls of `send` that found the ring unable to accept.
    pub dropped: nat,
}

/// The account of the calls `ops`, made in order on a ring that starts as
/// `start`.
pub open spec fn ring_run<T>(start: RingView<T>, ops: Seq<RingOp<T>>) -> RingRun<T>
    decreases ops.len(),
{
    if ops.len() == 0 {
        RingRun { ring: start, accepted: Seq::empty(), delivered: Seq::empty(), sends: 0, dropped: 0 }
    } else {
        let before = ring_run(start, ops.drop_last());
        match ops.last() {
            RingOp::Send(elem) => if before.ring.accepts() {
                RingRun {
                    ring: before.ring.after_send(elem),
                    accepted: before.accepted.push(elem),
                    sends: before.sends + 1,
                    ..before
                }
            } else {
                RingRun { sends: before.sends + 1, dropped: before.dropped + 1, ..before }
            },
            RingOp::Recv => if before.ring.queue.len() > 0 {
                RingRun {
                    ring: before.ring.after_recv(),
                    delivered: before.delivered.push(before.ring.queue[0]),
                    ..before
                }
            } else {
                before
            },
        }
    }
}

/// Whatever the order of the calls, what was delivered followed by what is
/// still queued is what was queued at the start followed by what was
/// accepted: every accepted element comes out once, in the order sent.
/// Every call of `send` either had its element accepted or dropped it. So
/// when a ring that started empty is empty again, what was received is what
/// was accepted, and the number received and the number dropped add up to
/// the number of calls of `send`.
pub proof fn lemma_ring_is_fifo<T>(start: RingView<T>, ops: Seq<RingOp<T>>)
    requires
        start.queue.len() <= start.cap,
    ensures
        ({
            let run = ring_run(start, ops);
            &&& run.delivered + run.ring.queue == start.queue + run.accepted
            &&& run.accepted.len() + run.dropped == run.sends
            &&& run.ring.queue.len() <= run.ring.cap
            &&& run.ring.cap == start.cap
            &&& start.queue.len() == 0 && run.ring.queue.len() == 0 ==> run.delivered
                == run.accepted && run.delivered.len() + run.dropped == run.sends
        }),
    decreases ops.len(),
{
    let run = ring_run(start, ops);
    assert(start.queue.len() == 0 ==> start.queue + run.accepted =~= run.accepted);
    assert(run.ring.queue.len() == 0 ==> run.delivered + run.ring.queue =~= run.delivered);
    if ops.len() == 0 {
        assert(run.delivered + run.ring.queue =~= start.queue + run.accepted);
    } else {
        lemma_ring_is_fifo(start, ops.drop_last());
        let before = ring_run(start, ops.drop_last());
        match ops.last() {
            RingOp::Send(elem) => {
                if before.ring.accepts() {
                    assert(run.delivered + run.ring.queue =~= (before.delivered
                        + before.ring.queue).push(elem));
                    assert(start.queue + run.accepted =~= (start.queue + before.accepted).push(
                        elem,
                    ));
                }
            },
            RingOp::Recv => {
                if before.ring.queue.len() > 0 {
                    assert(run.delivered + run.ring.queue =~= before.delivered
                        + before.ring.queue);
                }
            },
        }
    }
}

/// A ring with `free` free slots accepts `free` elements sent with no
/// `recv` in between and refuses the next one.
pub proof fn lemma_ring_fills_up<T>(start: RingView<T>, elems: Seq<T>)
    requires
        start.queue.len() <= start.cap,
        elems.len() == start.cap - start.queue.len() + 1,
        start.sent + elems.len() <= usize::MAX,
    ensures
        ({
            let run = ring_run(start, elems.map_values(|e: T| RingOp::Send(e)));
            &&& run.accepted == elems.drop_last()
            &&& run.dropped == 1
            &&& !run.ring.accepts()
        }),
{
    lemma_ring_takes_while_room(start, elems.drop_last());
    let ops = elems.map_values(|e: T| RingOp::Send(e));
    assert(ops.drop_last() =~= elems.drop_last().map_values(|e: T| RingOp::Send(e)));
}

/// A run of sends that fits into the free slots is accepted whole.
proof fn lemma_ring_takes_while_room<T>(start: RingView<T>, elems: Seq<T>)
    requires
        start.queue.len() + elems.len() <= start.cap,
        start.sent + elems.len() < usize::MAX,
    ensures
        ({
            let run = ring_run(start, elems.map_values(|e: T| RingOp::Send(e)));
            &&& run.accepted == elems
            &&& run.dropped == 0
            &&& run.ring.queue == start.queue + elems
            &&& run.ring.cap == start.cap
            &&& run.ring.sent == start.sent + elems.len()
        }),
    decreases elems.len(),
{
    let ops = elems.map_values(|e: T| RingOp::Send(e));
    let run = ring_run(start, ops);
    if elems.len() == 0 {
        assert(run.ring.queue =~= start.queue + elems);
        assert(run.accepted =~= elems);
    } else {
        lemma_ring_takes_while_room(start, elems.drop_last());
        assert(ops.drop_last() =~= elems.drop_last().map_values(|e: T| RingOp::Send(e)));
        let before = ring_run(start, ops.drop_last());
        assert(run.accepted =~= elems);
        assert(run.ring.queue =~= start.queue + elems);
    }
}

} // verus!
