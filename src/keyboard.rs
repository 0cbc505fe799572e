use core::task::Waker;
use crossbeam_queue::ArrayQueue;
use futures_util::task::AtomicWaker;
use vstd::prelude::*;

verus! {

#[verifier::external_type_specification]
#[verifier::external_body]
pub struct ExWaker(Waker);

#[verifier::external_type_specification]
#[verifier::external_body]
pub struct ExAtomicWaker(AtomicWaker);

/// Capacity of the scancode queue.
pub const SCANCODE_CAPACITY: usize = 100;

/// The scancodes held by a scancode queue, oldest first.
pub uninterp spec fn scancodes_in(q: ArrayQueue<u8>) -> Seq<u8>;

/// The capacity a scancode queue was created with.
pub uninterp spec fn scancode_capacity(q: ArrayQueue<u8>) -> nat;

/// Whether a task is registered in the wake slot.
pub uninterp spec fn waker_registered(w: AtomicWaker) -> bool;

/// Relies on `ArrayQueue::new`: an empty queue of capacity `cap`; it panics
/// on a zero capacity.
#[verifier::external_body]
fn new_scancode_queue(cap: usize) -> (q: ArrayQueue<u8>)
    requires
        0 < cap <= u32::MAX,
    ensures
        scancodes_in(q) == Seq::<u8>::empty(),
        scancode_capacity(q) == cap,
{
    ArrayQueue::new(cap)
}

/// Relies on `ArrayQueue::push_mut`: with exclusive access the scancode is
/// appended unless the queue is full, in which case it is handed back.
#[verifier::external_body]
fn push_scancode(q: &mut ArrayQueue<u8>, b: u8) -> (r: Result<(), u8>)
    ensures
        scancode_capacity(*final(q)) == scancode_capacity(*old(q)),
        r is Ok <==> scancodes_in(*old(q)).len() < scancode_capacity(*old(q)),
        r is Ok ==> scancodes_in(*final(q)) == scancodes_in(*old(q)).push(b),
        r is Err ==> scancodes_in(*final(q)) == scancodes_in(*old(q)),
{
    q.push_mut(b)
}

/// Relies on `ArrayQueue::pop_mut`: with exclusive access the oldest
/// scancode is removed and returned, or nothing when empty.
#[verifier::external_body]
fn pop_scancode(q: &mut ArrayQueue<u8>) -> (r: Option<u8>)
    ensures
        scancode_capacity(*final(q)) == scancode_capacity(*old(q)),
        scancodes_in(*old(q)).len() == 0 ==> r is None && scancodes_in(*final(q)) == scancodes_in(*old(q)),
        scancodes_in(*old(q)).len() > 0 ==> r == Some(scancodes_in(*old(q))[0])
            && scancodes_in(*final(q)) == scancodes_in(*old(q)).drop_first(),
{
    q.pop_mut()
}

/// Relies on `AtomicWaker::new`: an empty wake slot.
#[verifier::external_body]
fn new_wake_slot() -> (w: AtomicWaker)
    ensures
        !waker_registered(w),
{
    AtomicWaker::new()
}

/// Relies on `AtomicWaker::register`: with exclusive access the task's
/// waker is stored, replacing any earlier one.
#[verifier::external_body]
fn register_waker(w: &mut AtomicWaker, waker: &Waker)
    ensures
        waker_registered(*final(w)),
{
    w.register(waker)
}

/// Relies on `AtomicWaker::wake`: the registered waker, if any, is taken
/// out of the slot and woken.
#[verifier::external_body]
fn wake_registered(w: &mut AtomicWaker)
    ensures
        !waker_registered(*final(w)),
{
    w.wake()
}

/// Relies on `AtomicWaker::take`: the registered waker, if any, is taken
/// out of the slot; it is dropped here without being woken.
#[verifier::external_body]
fn clear_registration(w: &mut AtomicWaker)
    ensures
        !waker_registered(*final(w)),
{
    w.take();
}

/// The channel as its contracts see it.
pub struct ChannelView {
    pub items: Seq<u8>,
    pub capacity: nat,
    pub registered: bool,
}

/// An interrupt offers `b`: it is kept when there is room, and then the
/// registered task, if any, is woken and its registration used up. On a
/// full queue the scancode is dropped and nothing else changes.
pub open spec fn interrupt_push(s: ChannelView, b: u8) -> ChannelView {
    if s.items.len() < s.capacity {
        ChannelView { items: s.items.push(b), capacity: s.capacity, registered: false }
    } else {
        s
    }
}

/// Whether the interrupt offering `b` wakes the registered task.
pub open spec fn push_wakes(s: ChannelView, b: u8) -> bool {
    s.items.len() < s.capacity && s.registered
}

/// The channel after interrupts offer each of `bs` in turn.
pub open spec fn interrupt_push_all(s: ChannelView, bs: Seq<u8>) -> ChannelView
    decreases bs.len(),
{
    if bs.len() == 0 {
        s
    } else {
        interrupt_push_all(interrupt_push(s, bs[0]), bs.drop_first())
    }
}

/// Whether any of the interrupts offering `bs` wakes the registered task.
pub open spec fn wakes_during(s: ChannelView, bs: Seq<u8>) -> bool
    decreases bs.len(),
{
    if bs.len() == 0 {
        false
    } else {
        push_wakes(s, bs[0]) || wakes_during(interrupt_push(s, bs[0]), bs.drop_first())
    }
}

/// One poll by the consumer, with interrupts offering `early` between its
/// first look at the queue and its registration, and `late` between its
/// registration and its second look. The result is the channel afterwards,
/// the scancode returned (none: not ready), and whether the consumer was
/// woken during the poll.
pub open spec fn poll_interleaved(s: ChannelView, early: Seq<u8>, late: Seq<u8>) -> (ChannelView, Option<u8>, bool) {
    if s.items.len() > 0 {
        (ChannelView { items: s.items.drop_first(), ..s }, Some(s.items[0]), false)
    } else {
        let s1 = interrupt_push_all(s, early);
        let s2 = ChannelView { registered: true, ..s1 };
        let s3 = interrupt_push_all(s2, late);
        let woken = wakes_during(s2, late);
        if s3.items.len() > 0 {
            (ChannelView { items: s3.items.drop_first(), capacity: s3.capacity, registered: false }, Some(s3.items[0]), woken)
        } else {
            (s3, None, woken)
        }
    }
}

/// The bridge from the keyboard interrupt to the shell task: a bounded
/// queue of scancodes and a slot for the waker of the one consumer.
pub struct ScancodeStream {
    queue: ArrayQueue<u8>,
    waker: AtomicWaker,
}

impl ScancodeStream {
    pub closed spec fn view(&self) -> ChannelView {
        ChannelView {
            items: scancodes_in(self.queue),
            capacity: scancode_capacity(self.queue),
            registered: waker_registered(self.waker),
        }
    }

    pub open spec fn wf(&self) -> bool {
        &&& self.view().capacity == SCANCODE_CAPACITY
        &&& self.view().items.len() <= SCANCODE_CAPACITY
    }

    /// An empty channel with nobody registered.
    pub fn new() -> (s: ScancodeStream)
        ensures
            s.wf(),
            s.view().items == Seq::<u8>::empty(),
            !s.view().registered,
    {
        ScancodeStream { queue: new_scancode_queue(SCANCODE_CAPACITY), waker: new_wake_slot() }
    }

    /// The consumer's poll: the oldest scancode if there is one; else it
    /// registers `waker`, looks once more (an interrupt may have come in
    /// between), and reports not ready only when the queue is still empty,
    /// leaving the registration in place.
    pub fn poll_next(&mut self, waker: &Waker) -> (r: Option<u8>)
        requires
            old(self).wf(),
        ensures
            final(self).wf(),
            (final(self).view(), r, false) == poll_interleaved(old(self).view(), Seq::empty(), Seq::empty()),
    {
        if let Some(code) = pop_scancode(&mut self.queue) {
            assert(self.view() == ChannelView { items: old(self).view().items.drop_first(), ..old(self).view() });
            return Some(code);
        }
        register_waker(&mut self.waker, waker);
        match pop_scancode(&mut self.queue) {
            Some(code) => {
                clear_registration(&mut self.waker);
                Some(code)
            },
            None => None,
        }
    }
}

/// Called from the keyboard interrupt: queues `scancode` and wakes the
/// consumer; on a full queue the scancode is dropped without a signal.
pub fn add_scancode(stream: &mut ScancodeStream, scancode: u8)
    requires
        old(stream).wf(),
    ensures
        final(stream).wf(),
        final(stream).view() == interrupt_push(old(stream).view(), scancode),
{
    if push_scancode(&mut stream.queue, scancode).is_ok() {
        wake_registered(&mut stream.waker);
    }
}

proof fn lemma_push_all_grows(s: ChannelView, bs: Seq<u8>)
    requires
        s.capacity > 0,
    ensures
        interrupt_push_all(s, bs).capacity == s.capacity,
        interrupt_push_all(s, bs).items.len() >= s.items.len(),
        bs.len() > 0 ==> interrupt_push_all(s, bs).items.len() > 0,
        bs.len() == 0 ==> interrupt_push_all(s, bs) == s,
    decreases bs.len(),
{
    if bs.len() > 0 {
        lemma_push_all_grows(interrupt_push(s, bs[0]), bs.drop_first());
    }
}

/// No missed wakeup: whatever interrupts arrive during a poll, a poll that
/// reports not ready leaves the queue empty and the consumer registered, so
/// the next scancode that is kept wakes it.
pub proof fn lemma_no_missed_wakeup(s: ChannelView, early: Seq<u8>, late: Seq<u8>, b: u8)
    requires
        s.capacity > 0,
    ensures
        poll_interleaved(s, early, late).1 is None ==> {
            let t = poll_interleaved(s, early, late).0;
            &&& t.items.len() == 0
            &&& t.registered
            &&& push_wakes(t, b)
        },
{
    if s.items.len() == 0 {
        let s1 = interrupt_push_all(s, early);
        lemma_push_all_grows(s, early);
        let s2 = ChannelView { registered: true, ..s1 };
        lemma_push_all_grows(s2, late);
    }
}

/// A scancode that arrives during a poll is not lost: when the queue was
/// empty as the poll began, the poll returns the first scancode kept during
/// it, whichever window it arrived in.
pub proof fn lemma_poll_returns_arrival(s: ChannelView, early: Seq<u8>, late: Seq<u8>)
    requires
        s.capacity > 0,
        s.items.len() == 0,
        early.len() + late.len() > 0,
    ensures
        poll_interleaved(s, early, late).1 == Some((early + late)[0]),
{
    lemma_push_all_grows(s, early);
    let s1 = interrupt_push_all(s, early);
    let s2 = ChannelView { registered: true, ..s1 };
    lemma_push_all_grows(s2, late);
    if early.len() == 0 {
        assert(early + late =~= late);
        lemma_first_kept(s2, late);
    } else {
        lemma_first_kept(s, early);
        assert((early + late)[0] == early[0]);
        lemma_front_stays(s2, late);
    }
}

proof fn lemma_first_kept(s: ChannelView, bs: Seq<u8>)
    requires
        s.capacity > 0,
        s.items.len() == 0,
        bs.len() > 0,
    ensures
        interrupt_push_all(s, bs).items[0] == bs[0],
{
    lemma_push_all_grows(interrupt_push(s, bs[0]), bs.drop_first());
    lemma_front_stays(interrupt_push(s, bs[0]), bs.drop_first());
}

proof fn lemma_front_stays(s: ChannelView, bs: Seq<u8>)
    requires
        s.items.len() > 0,
    ensures
        interrupt_push_all(s, bs).items.len() > 0,
        interrupt_push_all(s, bs).items[0] == s.items[0],
    decreases bs.len(),
{
    if bs.len() > 0 {
        lemma_front_stays(interrupt_push(s, bs[0]), bs.drop_first());
    }
}

} // verus!
