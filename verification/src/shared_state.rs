//! Promise slots: the shared state between a suspended task and the kernel.
//!
//! A slot is completed at most once — by a matching event, by a timer, or
//! not at all — and resumes its waiting task exactly once.

use vstd::prelude::*;

use crate::event::{Event, EventData};
use crate::{Id, TaskId};

verus! {

/// Key under which a task awaits an event: source, destination, payload
/// variant tag, and an optional discriminator derived from the payload.
#[derive(Clone, Copy, PartialEq, Eq, Structural, Debug)]
pub struct AwaitKey {
    /// Id of the component the awaited event must come from.
    pub from: Id,
    /// Id of the component the awaited event must be destined for.
    pub to: Id,
    /// Tag of the awaited payload variant.
    pub msg_type: u64,
    /// Optional discriminator derived from the payload.
    pub details: Option<u64>,
}

impl AwaitKey {
    /// Creates a key without a discriminator.
    pub fn new(from: Id, to: Id, msg_type: u64) -> (r: Self)
        ensures
            r == (AwaitKey { from, to, msg_type, details: None }),
    {
        AwaitKey { from, to, msg_type, details: None }
    }

    /// Creates a key with a discriminator.
    pub fn new_with_details(from: Id, to: Id, msg_type: u64, details: u64) -> (r: Self)
        ensures
            r == (AwaitKey { from, to, msg_type, details: Some(details) }),
    {
        AwaitKey { from, to, msg_type, details: Some(details) }
    }
}

/// The await key an event is delivered under.
pub open spec fn key_of_event(e: Event) -> AwaitKey {
    AwaitKey { from: e.src, to: e.dst, msg_type: e.data.spec_type_tag(), details: e.data.spec_details() }
}

/// Computes the await key of an event.
pub fn key_of_event_exec(e: &Event) -> (r: AwaitKey)
    ensures
        r == key_of_event(*e),
{
    AwaitKey { from: e.src, to: e.dst, msg_type: e.data.type_tag(), details: e.data.details() }
}

/// An empty payload, used for timer wake-ups.
#[derive(Clone, Copy, PartialEq, Eq, Structural, Debug)]
pub struct EmptyData {}

/// Result of an await: the matching event, or a timeout marker.
#[derive(Debug)]
pub enum AwaitResult {
    /// The awaited event arrived.
    Delivered(Event),
    /// The wait timed out; the event is a placeholder naming the endpoints.
    Timeout(Event),
}

impl AwaitResult {
    /// A fresh timeout marker for the given endpoints.
    pub fn timeout_with(src: Id, dst: Id) -> (r: Self)
        ensures
            r matches AwaitResult::Timeout(e) && e.id == 0 && e.time == 0 && e.src == src && e.dst
                == dst && e.data is Empty,
    {
        AwaitResult::Timeout(
            Event { id: 0, time: 0, src, dst, data: EventData::Empty },
        )
    }
}

/// The shared state of one suspension point.
pub struct SharedState {
    /// Whether the awaited wake-up has happened.
    pub completed: bool,
    /// The task to wake on completion, if it has not been woken yet.
    pub waker: Option<TaskId>,
    /// The result handed to the resumed task.
    pub shared_content: AwaitResult,
    /// Generation counter: a timer wakes the slot only if the slot still
    /// belongs to the wait the timer was set for.
    pub epoch: u64,
}

/// A completion point: it is resolved at most once, and hands the waiting
/// task out exactly once.
pub trait EventSetter {
    /// Whether the wake-up already happened.
    spec fn is_completed(&self) -> bool;

    /// The stored result.
    spec fn content(&self) -> AwaitResult;

    /// The task still waiting, if any.
    spec fn stored_waker(&self) -> Option<TaskId>;

    /// Completes the slot with a matching event. Returns the task to wake,
    /// or `None` if the slot was already completed (the call does nothing
    /// then: a promise is resumed at most once).
    fn set_ok_completed_with_event(&mut self, e: Event) -> (w: Option<TaskId>)
        ensures
            final(self).is_completed(),
            !old(self).is_completed() ==> final(self).content() == AwaitResult::Delivered(e)
                && w == old(self).stored_waker() && final(self).stored_waker() is None,
            old(self).is_completed() ==> w is None && final(self).content() == old(self).content()
                && final(self).stored_waker() == old(self).stored_waker(),
    ;

    /// Completes the slot without a result (a timer fired). Returns the task
    /// to wake, or `None` if the slot was already completed.
    fn set_completed(&mut self) -> (w: Option<TaskId>)
        ensures
            final(self).is_completed(),
            !old(self).is_completed() ==> w == old(self).stored_waker()
                && final(self).stored_waker() is None && final(self).content() == old(
                self).content(),
            old(self).is_completed() ==> w is None && final(self).content() == old(self).content()
                && final(self).stored_waker() == old(self).stored_waker(),
    ;
}

impl EventSetter for SharedState {
    open spec fn is_completed(&self) -> bool {
        self.completed
    }

    open spec fn content(&self) -> AwaitResult {
        self.shared_content
    }

    open spec fn stored_waker(&self) -> Option<TaskId> {
        self.waker
    }

    fn set_ok_completed_with_event(&mut self, e: Event) -> (w: Option<TaskId>) {
        if self.completed {
            return None;
        }
        self.shared_content = AwaitResult::Delivered(e);
        self.completed = true;
        let w = self.waker;
        self.waker = None;
        w
    }

    fn set_completed(&mut self) -> (w: Option<TaskId>) {
        if self.completed {
            return None;
        }
        self.completed = true;
        let w = self.waker;
        self.waker = None;
        w
    }
}

impl SharedState {
    /// A fresh, not yet completed slot waiting on behalf of `task`.
    pub fn new(task: TaskId, src: Id, dst: Id) -> (r: Self)
        ensures
            !r.completed,
            r.waker == Some(task),
            r.epoch == 0,
    {
        SharedState {
            completed: false,
            waker: Some(task),
            shared_content: AwaitResult::timeout_with(src, dst),
            epoch: 0,
        }
    }
}

/// Handle on an awaited event: the kernel resolves it by completing the slot
/// of the waiting task.
#[derive(Clone, Copy, PartialEq, Eq, Structural, Debug)]
pub struct EventFuture {
    /// The waiting task.
    pub task: TaskId,
}

/// Handle on a pending sleep: the kernel resolves it when the timer fires.
#[derive(Clone, Copy, PartialEq, Eq, Structural, Debug)]
pub struct TimerFuture {
    /// The sleeping task.
    pub task: TaskId,
}

} // verus!
