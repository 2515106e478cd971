//! An unbounded blocking queue for producer-consumer communication between
//! tasks of one component.
//!
//! A send never blocks; a receiver that got ahead of the senders is woken by
//! a self-addressed notification keyed by its ticket.

use vstd::prelude::*;

use crate::event::{EventData, Notify};
use crate::state::SimulationState;
use crate::Id;

verus! {

/// A monotone ticket counter.
pub struct Ticket {
    value: u64,
}

impl Ticket {
    /// The current ticket value.
    pub closed spec fn spec_value(self) -> u64 {
        self.value
    }

    /// Creates a counter at zero.
    pub fn new() -> (r: Ticket)
        ensures
            r.spec_value() == 0,
    {
        Ticket { value: 0 }
    }

    /// Draws the next ticket.
    pub fn next(&mut self)
        requires
            old(self).spec_value() < u64::MAX,
        ensures
            final(self).spec_value() == old(self).spec_value() + 1,
    {
        self.value = self.value + 1;
    }

    /// Whether this counter has reached the other.
    pub fn is_after(&self, other: &Ticket) -> (r: bool)
        ensures
            r == (self.spec_value() >= other.spec_value()),
    {
        self.value >= other.value
    }

    /// The current ticket value.
    pub fn value(&self) -> (r: u64)
        ensures
            r == self.spec_value(),
    {
        self.value
    }
}

/// Returns the ticket a queue notification is keyed by.
pub fn get_notify_details(data: &EventData) -> (r: u64)
    requires
        data is Notify,
    ensures
        data matches EventData::Notify(n) && r == n.ticket_id,
{
    match data {
        EventData::Notify(n) => n.ticket_id,
        _ => 0,
    }
}

/// An unbounded queue with non-blocking sends; data is delivered in the
/// order the receivers asked for it.
pub struct UnboundedBlockingQueue<T> {
    owner: Id,
    queue: Vec<T>,
    send_ticket: Ticket,
    receive_ticket: Ticket,
}

impl<T> UnboundedBlockingQueue<T> {
    /// The queued items, oldest first.
    pub closed spec fn items(self) -> Seq<T> {
        self.queue@
    }

    /// The component whose tasks communicate through the queue.
    pub closed spec fn spec_owner(self) -> Id {
        self.owner
    }

    /// How many sends have happened.
    pub closed spec fn sends(self) -> u64 {
        self.send_ticket.spec_value()
    }

    /// How many receives have been asked for.
    pub closed spec fn receives(self) -> u64 {
        self.receive_ticket.spec_value()
    }

    /// Creates an empty queue owned by the given component.
    pub fn new(owner: Id) -> (r: Self)
        ensures
            r.spec_owner() == owner,
            r.items().len() == 0,
            r.sends() == 0,
            r.receives() == 0,
    {
        UnboundedBlockingQueue {
            owner,
            queue: Vec::new(),
            send_ticket: Ticket::new(),
            receive_ticket: Ticket::new(),
        }
    }

    /// Sends data into the queue without blocking. When a receiver is
    /// already waiting at this ticket, a self-addressed notification keyed
    /// by the ticket wakes it.
    pub fn send(&mut self, data: T, state: &mut SimulationState)
        requires
            old(self).sends() < u64::MAX,
            old(state).wf(),
            old(state).spec_event_count() < u64::MAX,
        ensures
            final(state).wf(),
            final(self).spec_owner() == old(self).spec_owner(),
            final(self).items() == old(self).items().push(data),
            final(self).sends() == old(self).sends() + 1,
            final(self).receives() == old(self).receives(),
            final(state).spec_time() == old(state).spec_time(),
            // the wake-up is emitted exactly when a receiver already waits
            // at this ticket
            old(self).receives() >= old(self).sends() + 1 ==> final(state).spec_event_count()
                == old(state).spec_event_count() + 1 && crate::state::emitted(
                *old(state),
                *final(state),
                0,
                old(self).spec_owner(),
                old(self).spec_owner(),
                EventData::Notify(Notify { ticket_id: (old(self).sends() + 1) as u64 }),
            ),
            old(self).receives() < old(self).sends() + 1 ==> *final(state) == *old(state),
    {
        self.send_ticket.next();
        self.queue.push(data);
        if self.receive_ticket.is_after(&self.send_ticket) {
            let _ = state.add_event(
                EventData::Notify(Notify { ticket_id: self.send_ticket.value() }),
                self.owner,
                self.owner,
                0,
            );
        }
    }

    /// Takes the oldest queued item, if any; a task that finds the queue
    /// empty registers its receive ticket and awaits the notification.
    pub fn try_receive(&mut self) -> (r: Option<T>)
        requires
            old(self).receives() < u64::MAX,
        ensures
            final(self).receives() == old(self).receives() + 1,
            final(self).sends() == old(self).sends(),
            match r {
                Some(v) => old(self).items().len() > 0 && v == old(self).items()[0] && final(self).items() == old(self).items().remove(0),
                None => old(self).items().len() == 0 && final(self).items() == old(self).items(),
            },
    {
        self.receive_ticket.next();
        if self.queue.len() == 0 {
            None
        } else {
            Some(self.queue.remove(0))
        }
    }
}

} // verus!
