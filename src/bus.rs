use crate::envelope::AgentMessage;
use crate::queue::{
    envelope_capacity, envelopes_in, new_envelope_queue, pop_envelope, push_envelope, queue_push,
};
use crossbeam_queue::ArrayQueue;
use vstd::prelude::*;

verus! {

/// Capacity of each of the two Agent Bus queues.
pub const BUS_CAPACITY: usize = 20;

/// The pair of bounded queues between the shell and the daemon.
pub struct AgentDevice {
    outbound: ArrayQueue<AgentMessage>,
    inbound: ArrayQueue<AgentMessage>,
}

/// What pushing each of `xs` in turn leaves in a bounded queue.
pub open spec fn push_all<T>(items: Seq<T>, cap: nat, xs: Seq<T>) -> Seq<T>
    decreases xs.len(),
{
    if xs.len() == 0 {
        items
    } else {
        push_all(queue_push(items, cap, xs[0]), cap, xs.drop_first())
    }
}

/// The values that `k` successive pops return from a queue holding `items`.
pub open spec fn pops<T>(items: Seq<T>, k: nat) -> Seq<T>
    decreases k,
{
    if k == 0 || items.len() == 0 {
        Seq::empty()
    } else {
        seq![items[0]] + pops(items.drop_first(), (k - 1) as nat)
    }
}

impl AgentDevice {
    /// Messages waiting to go to the host, front first.
    pub closed spec fn outbound_items(&self) -> Seq<AgentMessage> {
        envelopes_in(self.outbound)
    }

    /// Messages waiting for the shell, front first.
    pub closed spec fn inbound_items(&self) -> Seq<AgentMessage> {
        envelopes_in(self.inbound)
    }

    pub closed spec fn wf(&self) -> bool {
        &&& envelope_capacity(self.outbound) == BUS_CAPACITY
        &&& envelope_capacity(self.inbound) == BUS_CAPACITY
        &&& envelopes_in(self.outbound).len() <= BUS_CAPACITY
        &&& envelopes_in(self.inbound).len() <= BUS_CAPACITY
    }

    /// Offers `m` to the outbound queue; false, and the queue unchanged,
    /// exactly when it already holds `BUS_CAPACITY` messages.
    pub fn push_outbound(&mut self, m: AgentMessage) -> (r: bool)
        requires
            old(self).wf(),
        ensures
            final(self).wf(),
            r == (old(self).outbound_items().len() < BUS_CAPACITY),
            final(self).outbound_items() == queue_push(old(self).outbound_items(), BUS_CAPACITY as nat, m),
            final(self).inbound_items() == old(self).inbound_items(),
    {
        push_envelope(&mut self.outbound, m).is_ok()
    }

    /// Offers `m` to the inbound queue; false, and the queue unchanged,
    /// exactly when it already holds `BUS_CAPACITY` messages.
    pub fn push_inbound(&mut self, m: AgentMessage) -> (r: bool)
        requires
            old(self).wf(),
        ensures
            final(self).wf(),
            r == (old(self).inbound_items().len() < BUS_CAPACITY),
            final(self).inbound_items() == queue_push(old(self).inbound_items(), BUS_CAPACITY as nat, m),
            final(self).outbound_items() == old(self).outbound_items(),
    {
        push_envelope(&mut self.inbound, m).is_ok()
    }

    /// Takes the oldest outbound message, if any.
    pub fn pop_outbound(&mut self) -> (r: Option<AgentMessage>)
        requires
            old(self).wf(),
        ensures
            final(self).wf(),
            final(self).inbound_items() == old(self).inbound_items(),
            old(self).outbound_items().len() == 0 ==> r is None
                && final(self).outbound_items() == old(self).outbound_items(),
            old(self).outbound_items().len() > 0 ==> r == Some(old(self).outbound_items()[0])
                && final(self).outbound_items() == old(self).outbound_items().drop_first(),
    {
        pop_envelope(&mut self.outbound)
    }

    /// Takes the oldest inbound message, if any.
    pub fn pop_inbound(&mut self) -> (r: Option<AgentMessage>)
        requires
            old(self).wf(),
        ensures
            final(self).wf(),
            final(self).outbound_items() == old(self).outbound_items(),
            old(self).inbound_items().len() == 0 ==> r is None
                && final(self).inbound_items() == old(self).inbound_items(),
            old(self).inbound_items().len() > 0 ==> r == Some(old(self).inbound_items()[0])
                && final(self).inbound_items() == old(self).inbound_items().drop_first(),
    {
        pop_envelope(&mut self.inbound)
    }
}

/// Creates the Agent Bus: two empty queues of capacity `BUS_CAPACITY`.
pub fn init() -> (dev: AgentDevice)
    ensures
        dev.wf(),
        dev.outbound_items() == Seq::<AgentMessage>::empty(),
        dev.inbound_items() == Seq::<AgentMessage>::empty(),
{
    AgentDevice { outbound: new_envelope_queue(BUS_CAPACITY), inbound: new_envelope_queue(BUS_CAPACITY) }
}

/// Up to its capacity a bounded queue loses nothing: pushing `xs` in turn
/// onto `items` appends them all, in order.
pub proof fn lemma_pushes_kept_in_order<T>(items: Seq<T>, cap: nat, xs: Seq<T>)
    requires
        items.len() + xs.len() <= cap,
    ensures
        push_all(items, cap, xs) == items + xs,
    decreases xs.len(),
{
    if xs.len() > 0 {
        lemma_pushes_kept_in_order(items.push(xs[0]), cap, xs.drop_first());
        assert(items.push(xs[0]) + xs.drop_first() =~= items + xs);
    }
}

/// Successive pops hand back a queue's items front first.
pub proof fn lemma_pops_front_first<T>(items: Seq<T>)
    ensures
        pops(items, items.len()) == items,
    decreases items.len(),
{
    if items.len() > 0 {
        lemma_pops_front_first(items.drop_first());
        assert(seq![items[0]] + items.drop_first() =~= items);
    }
}

/// Pushing at most `cap` items into an empty bounded queue and then popping
/// as many returns exactly those items, in the order they were pushed.
pub proof fn lemma_fifo_round_trip<T>(cap: nat, xs: Seq<T>)
    requires
        xs.len() <= cap,
    ensures
        pops(push_all(Seq::<T>::empty(), cap, xs), xs.len()) == xs,
{
    lemma_pushes_kept_in_order(Seq::<T>::empty(), cap, xs);
    assert(Seq::<T>::empty() + xs =~= xs);
    lemma_pops_front_first(xs);
}

/// Once a bounded queue is full, further pushes change nothing: the held
/// items and their order stay as they were.
pub proof fn lemma_full_queue_unchanged<T>(items: Seq<T>, cap: nat, xs: Seq<T>)
    requires
        items.len() == cap,
    ensures
        push_all(items, cap, xs) == items,
    decreases xs.len(),
{
    if xs.len() > 0 {
        lemma_full_queue_unchanged(items, cap, xs.drop_first());
    }
}

} // verus!
