use crate::envelope::AgentMessage;
use crossbeam_queue::ArrayQueue;
use vstd::prelude::*;

verus! {

#[verifier::external_type_specification]
#[verifier::external_body]
#[verifier::reject_recursive_types(T)]
pub struct ExArrayQueue<T>(ArrayQueue<T>);

/// The messages held by a message queue, front first.
pub uninterp spec fn envelopes_in(q: ArrayQueue<AgentMessage>) -> Seq<AgentMessage>;

/// The capacity a message queue was created with.
pub uninterp spec fn envelope_capacity(q: ArrayQueue<AgentMessage>) -> nat;

/// What a bounded queue holds after offering `x`: appended when there is
/// room, unchanged when full.
pub open spec fn queue_push<T>(items: Seq<T>, cap: nat, x: T) -> Seq<T> {
    if items.len() < cap {
        items.push(x)
    } else {
        items
    }
}

/// Relies on `ArrayQueue::new`: an empty queue of capacity `cap`; it panics
/// on a zero capacity.
#[verifier::external_body]
pub(crate) fn new_envelope_queue(cap: usize) -> (q: ArrayQueue<AgentMessage>)
    requires
        0 < cap <= u32::MAX,
    ensures
        envelopes_in(q) == Seq::<AgentMessage>::empty(),
        envelope_capacity(q) == cap,
{
    ArrayQueue::new(cap)
}

/// Relies on `ArrayQueue::push_mut`: with exclusive access the item is
/// appended unless the queue is full, in which case it is handed back.
#[verifier::external_body]
pub(crate) fn push_envelope(q: &mut ArrayQueue<AgentMessage>, m: AgentMessage) -> (r: Result<(), AgentMessage>)
    ensures
        envelope_capacity(*final(q)) == envelope_capacity(*old(q)),
        envelopes_in(*final(q)) == queue_push(envelopes_in(*old(q)), envelope_capacity(*old(q)), m),
        r is Ok <==> envelopes_in(*old(q)).len() < envelope_capacity(*old(q)),
        r matches Err(x) ==> x == m,
{
    q.push_mut(m)
}

/// Relies on `ArrayQueue::pop_mut`: with exclusive access the front item is
/// removed and returned, or nothing when empty.
#[verifier::external_body]
pub(crate) fn pop_envelope(q: &mut ArrayQueue<AgentMessage>) -> (r: Option<AgentMessage>)
    ensures
        envelope_capacity(*final(q)) == envelope_capacity(*old(q)),
        envelopes_in(*old(q)).len() == 0 ==> r is None && envelopes_in(*final(q)) == envelopes_in(*old(q)),
        envelopes_in(*old(q)).len() > 0 ==> r == Some(envelopes_in(*old(q))[0])
            && envelopes_in(*final(q)) == envelopes_in(*old(q)).drop_first(),
{
    q.pop_mut()
}

} // verus!
