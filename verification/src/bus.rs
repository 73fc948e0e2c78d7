//! The broadcast bus: one producer, any number of bounded subscriber queues.
//!
//! The bus is a table of queues, one per subscription. A publish reaches
//! every queue or none: if one subscriber's queue is at capacity the frame is
//! dropped for all. The bus is a plain value; a program that shares it across
//! threads guards it by one lock and waits outside of it.

use vstd::prelude::*;
use std::collections::VecDeque;
use crate::frame::Frame;

verus! {

/// Why a bus operation did not go through.
#[derive(Clone, Copy, Debug, PartialEq, Eq, Structural)]
pub enum BusError {
    /// A subscriber's queue was at capacity; the frame was dropped for all.
    Full,
    /// The producer side is gone, or the subscription is not held.
    Closed,
}

/// The bus as its users see it: for every slot of the table the frames that
/// wait there, oldest first, or `None` where no subscription holds the slot.
pub struct BusView {
    pub capacity: nat,
    pub closed: bool,
    pub queues: Seq<Option<Seq<Seq<u8>>>>,
}

impl BusView {
    /// Whether a subscription holds slot `id`.
    pub open spec fn live(self, id: int) -> bool {
        0 <= id < self.queues.len() && self.queues[id] is Some
    }

    /// The frames that wait for the subscription in slot `id`.
    pub open spec fn pending(self, id: int) -> Seq<Seq<u8>>
        recommends
            self.live(id),
    {
        self.queues[id].unwrap()
    }

    /// Whether some subscriber's queue is at capacity.
    pub open spec fn full(self) -> bool {
        exists|id: int| self.live(id) && (#[trigger] self.pending(id)).len() >= self.capacity
    }

    /// Whether no queue holds more than the capacity.
    pub open spec fn bounded(self) -> bool {
        forall|id: int| self.live(id) ==> (#[trigger] self.pending(id)).len() <= self.capacity
    }

    /// How many of the first `n` slots are held.
    pub open spec fn live_among(self, n: int) -> nat
        decreases n,
    {
        if n <= 0 {
            0
        } else {
            self.live_among(n - 1) + if self.live(n - 1) {
                1nat
            } else {
                0nat
            }
        }
    }

    /// The number of subscriptions.
    pub open spec fn subscribers(self) -> nat {
        self.live_among(self.queues.len() as int)
    }

    /// Whether a publish is taken: the bus is open and no queue is at
    /// capacity.
    pub open spec fn accepts(self) -> bool {
        !self.closed && !self.full()
    }

    /// The bus after an attempt to publish `frame`: appended to every queue
    /// if the publish is taken, and nothing changed if it is not.
    pub open spec fn publish(self, frame: Seq<u8>) -> BusView {
        if self.accepts() {
            BusView {
                queues: Seq::new(
                    self.queues.len(),
                    |id: int|
                        match self.queues[id] {
                            Some(waiting) => Some(waiting.push(frame)),
                            None => None,
                        },
                ),
                ..self
            }
        } else {
            self
        }
    }

    /// Whether `id` is the slot that the next subscription gets: the lowest
    /// one that is not held.
    pub open spec fn next_free(self, id: int) -> bool {
        &&& 0 <= id <= self.queues.len()
        &&& !self.live(id)
        &&& forall|j: int| 0 <= j < id ==> self.live(j)
    }

    /// The bus after a new subscription took slot `id`, with nothing waiting.
    pub open spec fn subscribe(self, id: int) -> BusView {
        BusView {
            queues: if id < self.queues.len() {
                self.queues.update(id, Some(Seq::empty()))
            } else {
                self.queues.push(Some(Seq::empty()))
            },
            ..self
        }
    }

    /// The bus after the oldest frame of slot `id` was taken out.
    pub open spec fn take(self, id: int) -> BusView
        recommends
            self.live(id),
            self.pending(id).len() > 0,
    {
        BusView { queues: self.queues.update(id, Some(self.pending(id).skip(1))), ..self }
    }

    /// The bus after the subscription in slot `id` was given up.
    pub open spec fn release(self, id: int) -> BusView {
        if self.live(id) {
            BusView { queues: self.queues.update(id, None), ..self }
        } else {
            self
        }
    }

    /// The bus after the producer is gone.
    pub open spec fn close(self) -> BusView {
        BusView { closed: true, ..self }
    }

    /// The bus after an attempt to publish each of `frames` in order.
    pub open spec fn publish_all(self, frames: Seq<Seq<u8>>) -> BusView
        decreases frames.len(),
    {
        if frames.len() == 0 {
            self
        } else {
            self.publish(frames[0]).publish_all(frames.skip(1))
        }
    }

    /// Whether none of `frames`, published in order, is dropped.
    pub open spec fn accepts_all(self, frames: Seq<Seq<u8>>) -> bool
        decreases frames.len(),
    {
        frames.len() == 0 || (self.accepts() && self.publish(frames[0]).accepts_all(
            frames.skip(1),
        ))
    }

    /// The bus after the subscription in slot `id` took out its `n` oldest
    /// frames.
    pub open spec fn take_n(self, id: int, n: nat) -> BusView
        decreases n,
    {
        if n == 0 {
            self
        } else {
            self.take(id).take_n(id, (n - 1) as nat)
        }
    }
}

/// The byte contents of a queue of frames.
pub open spec fn contents(queue: Seq<Frame>) -> Seq<Seq<u8>> {
    Seq::new(queue.len(), |i: int| queue[i]@)
}

struct Slot {
    held: bool,
    queue: VecDeque<Frame>,
}

/// The broadcast bus.
pub struct EventBus {
    capacity: usize,
    closed: bool,
    slots: Vec<Slot>,
}

/// A subscriber's handle to its queue. It is made by
/// [`EventBus::subscribe`] and given up by [`EventBus::unsubscribe`].
#[derive(Debug)]
pub struct Subscription {
    slot: usize,
}

impl View for Subscription {
    type V = int;

    /// The slot of the table that the subscription holds.
    closed spec fn view(&self) -> int {
        self.slot as int
    }
}

spec fn slot_view(slot: Slot) -> Option<Seq<Seq<u8>>> {
    if slot.held {
        Some(contents(slot.queue@))
    } else {
        None
    }
}

spec fn table_view(slots: Seq<Slot>) -> Seq<Option<Seq<Seq<u8>>>> {
    Seq::new(slots.len(), |i: int| slot_view(slots[i]))
}

spec fn table_ok(slots: Seq<Slot>, capacity: usize) -> bool {
    forall|i: int|
        0 <= i < slots.len() ==> {
            &&& (#[trigger] slots[i]).queue@.len() <= capacity
            &&& !slots[i].held ==> slots[i].queue@.len() == 0
        }
}

/// In a table that is in order, the view of a slot holds as many frames as
/// the slot's queue, and no more than the capacity.
proof fn lemma_table_bounded(slots: Seq<Slot>, capacity: usize)
    requires
        table_ok(slots, capacity),
    ensures
        forall|j: int|
            0 <= j < slots.len() && (#[trigger] table_view(slots)[j]) is Some ==> slots[j].held
                && table_view(slots)[j].unwrap().len() == slots[j].queue@.len()
                && slots[j].queue@.len() <= capacity,
{
    assert forall|j: int|
        0 <= j < slots.len() && (#[trigger] table_view(slots)[j]) is Some implies slots[j].held
        && table_view(slots)[j].unwrap().len() == slots[j].queue@.len() && slots[j].queue@.len()
        <= capacity by {
        assert(slots[j].queue@.len() <= capacity);
    }
}

impl View for EventBus {
    type V = BusView;

    closed spec fn view(&self) -> BusView {
        BusView {
            capacity: self.capacity as nat,
            closed: self.closed,
            queues: table_view(self.slots@),
        }
    }
}

impl EventBus {
    #[verifier::type_invariant]
    spec fn well_formed(self) -> bool {
        table_ok(self.slots@, self.capacity)
    }

    /// An open bus without subscribers whose queues will hold up to
    /// `capacity` frames each.
    pub fn new(capacity: usize) -> (bus: EventBus)
        ensures
            bus@ == (BusView { capacity: capacity as nat, closed: false, queues: Seq::empty() }),
            bus@.bounded(),
    {
        let bus = EventBus { capacity, closed: false, slots: Vec::new() };
        assert(bus@.queues =~= Seq::empty());
        bus
    }

    /// The most frames a subscriber's queue holds.
    pub fn capacity(&self) -> (c: usize)
        ensures
            c == self@.capacity,
    {
        self.capacity
    }

    /// Whether the producer side is gone.
    pub fn is_closed(&self) -> (b: bool)
        ensures
            b == self@.closed,
    {
        self.closed
    }

    /// The number of subscriptions.
    pub fn subscriber_count(&self) -> (n: usize)
        ensures
            n == self@.subscribers(),
            self@.bounded(),
    {
        proof {
            use_type_invariant(self);
        }
        let len: usize = self.slots.len();
        let mut n: usize = 0;
        let mut i: usize = 0;
        while i < len
            invariant
                i <= len,
                len == self.slots@.len(),
                len == self@.queues.len(),
                n == self@.live_among(i as int),
                n <= i,
            decreases len - i,
        {
            if self.slots[i].held {
                n += 1;
            }
            i += 1;
        }
        n
    }

    /// Whether the subscription is held on this bus.
    pub fn is_subscribed(&self, sub: &Subscription) -> (b: bool)
        ensures
            b == self@.live(sub@),
    {
        sub.slot < self.slots.len() && self.slots[sub.slot].held
    }

    /// How many frames wait for the subscription; none if it is not held.
    pub fn pending(&self, sub: &Subscription) -> (n: usize)
        ensures
            self@.live(sub@) ==> n == self@.pending(sub@).len(),
            !self@.live(sub@) ==> n == 0,
            n <= self@.capacity,
    {
        proof {
            use_type_invariant(self);
        }
        if sub.slot < self.slots.len() && self.slots[sub.slot].held {
            self.slots[sub.slot].queue.len()
        } else {
            0
        }
    }

    /// Registers a new subscriber, with nothing waiting for it: it sees only
    /// what is published from now on. It takes the lowest slot that is not
    /// held.
    pub fn subscribe(&mut self) -> (sub: Subscription)
        ensures
            old(self)@.next_free(sub@),
            final(self)@ == old(self)@.subscribe(sub@),
            final(self)@.live(sub@),
            final(self)@.pending(sub@) == Seq::<Seq<u8>>::empty(),
            final(self)@.bounded(),
    {
        proof {
            use_type_invariant(&*self);
        }
        let ghost before = self@;
        let len: usize = self.slots.len();
        let mut i: usize = 0;
        while i < len && self.slots[i].held
            invariant
                i <= len,
                len == self.slots@.len(),
                before == self@,
                forall|j: int| 0 <= j < i ==> before.live(j),
            decreases len - i,
        {
            i += 1;
        }
        let mut slots: Vec<Slot> = Vec::new();
        core::mem::swap(&mut slots, &mut self.slots);
        let ghost table = slots@;
        if i < len {
            assert(table[i as int].queue@.len() == 0);
            slots[i].held = true;
        } else {
            slots.push(Slot { held: true, queue: VecDeque::new() });
        }
        proof {
            assert forall|j: int| 0 <= j < slots@.len() implies (#[trigger] slots@[j]).queue@.len()
                <= self.capacity && (!slots@[j].held ==> slots@[j].queue@.len() == 0) by {
                if j < len {
                    assert(table[j].queue@.len() <= self.capacity);
                }
            }
        }
        self.slots = slots;
        proof {
            assert(contents(self.slots@[i as int].queue@) =~= Seq::<Seq<u8>>::empty());
            assert forall|j: int| 0 <= j < self.slots@.len() && j != i implies self.slots@[j]
                == table[j] by {}
            assert(self@.queues =~= before.subscribe(i as int).queues);
            lemma_table_bounded(self.slots@, self.capacity);
        }
        Subscription { slot: i }
    }

    /// Gives a subscription up. Frames that still waited for it are
    /// discarded; other subscribers are not touched.
    pub fn unsubscribe(&mut self, sub: Subscription)
        ensures
            final(self)@ == old(self)@.release(sub@),
            final(self)@.bounded(),
    {
        proof {
            use_type_invariant(&*self);
        }
        let ghost before = self@;
        if sub.slot < self.slots.len() && self.slots[sub.slot].held {
            let mut slots: Vec<Slot> = Vec::new();
            core::mem::swap(&mut slots, &mut self.slots);
            slots[sub.slot].held = false;
            slots[sub.slot].queue.clear();
            self.slots = slots;
            proof {
                assert(self@.queues =~= before.release(sub@).queues);
            }
        }
    }

    /// Marks the producer side as gone. Frames that wait are still
    /// delivered; after them every `recv` reports `Closed`.
    pub fn close(&mut self)
        ensures
            final(self)@ == old(self)@.close(),
            final(self)@.bounded(),
    {
        proof {
            use_type_invariant(&*self);
        }
        self.closed = true;
    }

    /// Offers `frame` to every subscriber without blocking. Either every
    /// queue gets it, or, where one queue is at capacity or the bus is
    /// closed, none does and the frame is dropped.
    pub fn publish(&mut self, frame: Frame) -> (r: Result<(), BusError>)
        ensures
            final(self)@ == old(self)@.publish(frame@),
            final(self)@.bounded(),
            old(self)@.closed ==> r == Err::<(), BusError>(BusError::Closed),
            !old(self)@.closed && old(self)@.full() ==> r == Err::<(), BusError>(BusError::Full),
            old(self)@.accepts() ==> r == Ok::<(), BusError>(()),
    {
        proof {
            use_type_invariant(&*self);
        }
        let ghost before = self@;
        if self.closed {
            return Err(BusError::Closed);
        }
        proof {
            lemma_table_bounded(self.slots@, self.capacity);
        }
        let len: usize = self.slots.len();
        let mut i: usize = 0;
        while i < len
            invariant
                i <= len,
                len == self.slots@.len(),
                before == self@,
                !before.closed,
                before.bounded(),
                forall|j: int| 0 <= j < i && before.live(j) ==> (#[trigger] before.pending(j)).len()
                    < before.capacity,
            decreases len - i,
        {
            if self.slots[i].held && self.slots[i].queue.len() >= self.capacity {
                assert(before.live(i as int) && before.pending(i as int).len() >= before.capacity);
                return Err(BusError::Full);
            }
            i += 1;
        }
        assert(!before.full());
        let mut slots: Vec<Slot> = Vec::new();
        core::mem::swap(&mut slots, &mut self.slots);
        let ghost table = slots@;
        let capacity: usize = self.capacity;
        proof {
            assert forall|j: int| 0 <= j < len && (#[trigger] table[j]).held implies table[j].queue@.len()
                < capacity by {
                assert(before.live(j));
                assert(before.pending(j).len() == table[j].queue@.len());
            }
        }
        i = 0;
        while i < len
            invariant
                i <= len,
                len == slots@.len(),
                len == table.len(),
                table_ok(table, capacity),
                forall|j: int| 0 <= j < len && (#[trigger] table[j]).held ==> table[j].queue@.len()
                    < capacity,
                forall|j: int|
                    0 <= j < i ==> {
                        &&& (#[trigger] slots@[j]).held == table[j].held
                        &&& slots@[j].queue@ == if table[j].held {
                            table[j].queue@.push(frame)
                        } else {
                            table[j].queue@
                        }
                    },
                forall|j: int| i <= j < len ==> slots@[j] == table[j],
            decreases len - i,
        {
            if slots[i].held {
                slots[i].queue.push_back(frame);
            }
            i += 1;
        }
        self.slots = slots;
        proof {
            assert forall|j: int| 0 <= j < len implies self@.queues[j] == before.publish(
                frame@,
            ).queues[j] by {
                assert(before.queues[j] == slot_view(table[j]));
                if table[j].held {
                    assert(contents(table[j].queue@.push(frame)) =~= contents(
                        table[j].queue@,
                    ).push(frame@));
                }
            }
            assert(self@.queues =~= before.publish(frame@).queues);
            lemma_table_bounded(self.slots@, self.capacity);
        }
        Ok(())
    }

    /// Takes the oldest frame that waits for the subscription, without
    /// blocking. `Ok(None)` says that nothing waits yet and the bus is still
    /// open: the caller waits and asks again. `Err(Closed)` says that nothing
    /// more will come: the producer is gone and the queue is drained, or the
    /// subscription is not held.
    pub fn recv(&mut self, sub: &Subscription) -> (r: Result<Option<Frame>, BusError>)
        ensures
            final(self)@.bounded(),
            !old(self)@.live(sub@) ==> r == Err::<Option<Frame>, BusError>(BusError::Closed)
                && final(self)@ == old(self)@,
            old(self)@.live(sub@) && old(self)@.pending(sub@).len() > 0 ==> {
                &&& r matches Ok(Some(frame))
                &&& frame@ == old(self)@.pending(sub@)[0]
                &&& final(self)@ == old(self)@.take(sub@)
            },
            old(self)@.live(sub@) && old(self)@.pending(sub@).len() == 0 ==> {
                &&& final(self)@ == old(self)@
                &&& old(self)@.closed ==> r == Err::<Option<Frame>, BusError>(BusError::Closed)
                &&& !old(self)@.closed ==> r == Ok::<Option<Frame>, BusError>(None)
            },
    {
        proof {
            use_type_invariant(&*self);
        }
        let ghost before = self@;
        if sub.slot >= self.slots.len() || !self.slots[sub.slot].held {
            return Err(BusError::Closed);
        }
        if self.slots[sub.slot].queue.len() == 0 {
            if self.closed {
                return Err(BusError::Closed);
            } else {
                return Ok(None);
            }
        }
        let mut slots: Vec<Slot> = Vec::new();
        core::mem::swap(&mut slots, &mut self.slots);
        let ghost table = slots@;
        let front: Option<Frame> = slots[sub.slot].queue.pop_front();
        self.slots = slots;
        proof {
            assert(contents(table[sub@].queue@.skip(1)) =~= contents(table[sub@].queue@).skip(1));
            assert(self@.queues =~= before.take(sub@).queues);
        }
        match front {
            Some(frame) => Ok(Some(frame)),
            None => Err(BusError::Closed),
        }
    }
}

/// A publish changes neither which slots are held nor the capacity nor
/// whether the bus is closed.
pub proof fn lemma_publish_keeps_table(bus: BusView, frame: Seq<u8>)
    ensures
        bus.publish(frame).capacity == bus.capacity,
        bus.publish(frame).closed == bus.closed,
        bus.publish(frame).queues.len() == bus.queues.len(),
        forall|id: int| bus.publish(frame).live(id) == bus.live(id),
        bus.publish(frame).subscribers() == bus.subscribers(),
        forall|id: int|
            bus.live(id) ==> #[trigger] bus.publish(frame).pending(id) == if bus.accepts() {
                bus.pending(id).push(frame)
            } else {
                bus.pending(id)
            },
{
    let after = bus.publish(frame);
    assert forall|id: int| after.live(id) == bus.live(id) by {}
    lemma_same_holders_same_count(bus, after, bus.queues.len() as int);
}

/// Two tables in which the same slots are held have the same number of
/// subscriptions among their first `n` slots.
pub proof fn lemma_same_holders_same_count(a: BusView, b: BusView, n: int)
    requires
        forall|id: int| 0 <= id < n ==> a.live(id) == b.live(id),
    ensures
        a.live_among(n) == b.live_among(n),
    decreases n,
{
    if n > 0 {
        lemma_same_holders_same_count(a, b, n - 1);
    }
}

/// There is a subscriber exactly where some slot is held.
pub proof fn lemma_subscribers_exist(bus: BusView)
    ensures
        bus.subscribers() >= 1 <==> exists|id: int| bus.live(id),
{
    lemma_count_positive(bus, bus.queues.len() as int);
}

/// Among the first `n` slots one is held exactly where the count is not
/// zero.
pub proof fn lemma_count_positive(bus: BusView, n: int)
    requires
        n <= bus.queues.len(),
    ensures
        bus.live_among(n) >= 1 <==> exists|id: int| 0 <= id < n && bus.live(id),
        bus.live_among(n) <= if n >= 0 { n } else { 0 },
    decreases n,
{
    if n > 0 {
        lemma_count_positive(bus, n - 1);
        if bus.live(n - 1) {
            assert(0 <= n - 1 < n && bus.live(n - 1));
        }
    }
}

/// Ordering. Frames that are published one after the other, none of them
/// dropped, wait for a subscriber that was there before the first of them
/// behind what waited already, in the order of publishing.
pub proof fn lemma_publish_all_appends(bus: BusView, id: int, frames: Seq<Seq<u8>>)
    requires
        bus.live(id),
        bus.accepts_all(frames),
    ensures
        bus.publish_all(frames).live(id),
        bus.publish_all(frames).pending(id) == bus.pending(id) + frames,
    decreases frames.len(),
{
    if frames.len() == 0 {
        assert(bus.pending(id) + frames =~= bus.pending(id));
    } else {
        let next = bus.publish(frames[0]);
        lemma_publish_keeps_table(bus, frames[0]);
        lemma_publish_all_appends(next, id, frames.skip(1));
        assert(bus.pending(id).push(frames[0]) + frames.skip(1) =~= bus.pending(id) + frames);
    }
}

/// Taking out `n` of the frames that wait for a subscriber leaves the rest,
/// and touches no other queue.
pub proof fn lemma_take_n_skips(bus: BusView, id: int, n: nat)
    requires
        bus.live(id),
        n <= bus.pending(id).len(),
    ensures
        bus.take_n(id, n).live(id),
        bus.take_n(id, n).pending(id) == bus.pending(id).skip(n as int),
        bus.take_n(id, n).queues.len() == bus.queues.len(),
        forall|other: int|
            0 <= other < bus.queues.len() && other != id ==> bus.take_n(id, n).queues[other]
                == bus.queues[other],
    decreases n,
{
    if n == 0 {
        assert(bus.pending(id).skip(0) =~= bus.pending(id));
    } else {
        let next = bus.take(id);
        lemma_take_n_skips(next, id, (n - 1) as nat);
        assert(bus.take_n(id, n) == next.take_n(id, (n - 1) as nat));
        assert(bus.pending(id).skip(1).skip(n - 1) =~= bus.pending(id).skip(n as int));
        assert forall|other: int|
            0 <= other < bus.queues.len() && other != id implies bus.take_n(id, n).queues[other]
            == bus.queues[other] by {
            assert(next.queues[other] == bus.queues[other]);
        }
    }
}

/// Ordering, from the subscriber's side. A subscriber that joins and then
/// sees `frames` published without a drop has exactly `frames` waiting; after
/// it took `k` of them the next one it receives is `frames[k]`, and after all
/// of them nothing waits.
pub proof fn lemma_subscriber_receives_in_order(
    bus: BusView,
    id: int,
    frames: Seq<Seq<u8>>,
    k: nat,
)
    requires
        bus.next_free(id),
        bus.subscribe(id).accepts_all(frames),
        k <= frames.len(),
    ensures
        ({
            let after = bus.subscribe(id).publish_all(frames);
            &&& after.live(id)
            &&& after.pending(id) == frames
            &&& after.take_n(id, k).live(id)
            &&& after.take_n(id, k).pending(id) == frames.skip(k as int)
            &&& k < frames.len() ==> after.take_n(id, k).pending(id)[0] == frames[k as int]
            &&& k == frames.len() ==> after.take_n(id, k).pending(id).len() == 0
        }),
{
    let joined = bus.subscribe(id);
    assert(joined.live(id));
    lemma_publish_all_appends(joined, id, frames);
    assert(joined.pending(id) + frames =~= frames);
    lemma_take_n_skips(joined.publish_all(frames), id, k);
}

/// All or nothing. While one subscriber's queue is at capacity a publish
/// changes nothing: the frame reaches neither that subscriber nor any other.
pub proof fn lemma_full_queue_drops_for_all(bus: BusView, blocked: int, frame: Seq<u8>)
    requires
        bus.live(blocked),
        bus.pending(blocked).len() >= bus.capacity,
    ensures
        !bus.accepts(),
        bus.publish(frame) == bus,
        forall|other: int| bus.publish(frame).queues[other] == bus.queues[other],
{
}

/// A publish that is taken reaches every subscriber.
pub proof fn lemma_accepted_reaches_all(bus: BusView, frame: Seq<u8>)
    requires
        bus.accepts(),
    ensures
        forall|id: int|
            bus.live(id) ==> #[trigger] bus.publish(frame).pending(id) == bus.pending(id).push(
                frame,
            ),
{
}

/// A subscriber that joins after a publish does not see that frame.
pub proof fn lemma_late_subscriber_sees_nothing(bus: BusView, frame: Seq<u8>, id: int)
    requires
        bus.publish(frame).next_free(id),
    ensures
        bus.publish(frame).subscribe(id).live(id),
        bus.publish(frame).subscribe(id).pending(id) == Seq::<Seq<u8>>::empty(),
{
}

} // verus!
