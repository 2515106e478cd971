//! Ordered store of pending events.
//!
//! The queue keeps two lanes: the main lane, sorted by `(time, id)`, and an
//! auxiliary FIFO lane for events whose emitter guarantees non-decreasing
//! times. Dequeue takes the earlier of the two heads; the FIFO lane wins
//! exact ties, which preserves its enqueue order. Cancelled event ids are
//! held in a side set and skipped at dequeue.

use vstd::prelude::*;

use crate::event::{event_before, event_before_exec, event_eq, event_le, Event};
use crate::{EventId, Id};

verus! {

broadcast use vstd::seq_lib::lemma_seq_contains_after_push;

/// A predicate over events, used for bulk cancellation.
#[derive(Clone, Copy, PartialEq, Eq, Structural, Debug)]
pub enum EventPred {
    /// Matches events emitted by the given component.
    SrcIs(Id),
    /// Matches events destined for the given component.
    DstIs(Id),
    /// Matches events emitted by or destined for the given component.
    SrcOrDstIs(Id),
    /// Matches events with id strictly below the bound.
    IdBelow(EventId),
}

impl EventPred {
    /// Whether the predicate matches the event.
    pub open spec fn spec_matches(self, e: Event) -> bool {
        match self {
            EventPred::SrcIs(c) => e.src == c,
            EventPred::DstIs(c) => e.dst == c,
            EventPred::SrcOrDstIs(c) => e.src == c || e.dst == c,
            EventPred::IdBelow(bound) => e.id < bound,
        }
    }

    /// Decides whether the predicate matches the event.
    pub fn matches(&self, e: &Event) -> (r: bool)
        ensures
            r == self.spec_matches(*e),
    {
        match self {
            EventPred::SrcIs(c) => e.src == *c,
            EventPred::DstIs(c) => e.dst == *c,
            EventPred::SrcOrDstIs(c) => e.src == *c || e.dst == *c,
            EventPred::IdBelow(bound) => e.id < *bound,
        }
    }
}

/// Returns the position of the first event whose id is not in the cancelled
/// set, or `None` if every event is cancelled.
fn first_live_index(events: &Vec<Event>, canceled: &Vec<EventId>) -> (r: Option<usize>)
    ensures
        match r {
            Some(i) => i < events@.len() && !canceled@.contains(events@[i as int].id) && (forall|
                j: int,
            |
                0 <= j < i ==> canceled@.contains(#[trigger] events@[j].id)),
            None => forall|j: int|
                0 <= j < events@.len() ==> canceled@.contains(#[trigger] events@[j].id),
        },
{
    let mut i: usize = 0;
    while i < events.len()
        invariant
            i <= events@.len(),
            forall|j: int| 0 <= j < i ==> canceled@.contains(#[trigger] events@[j].id),
        decreases events@.len() - i,
    {
        if !id_in(canceled, events[i].id) {
            return Some(i);
        }
        i = i + 1;
    }
    None
}

/// Returns whether the id occurs in the list.
fn id_in(list: &Vec<EventId>, id: EventId) -> (r: bool)
    ensures
        r == list@.contains(id),
{
    let mut i: usize = 0;
    while i < list.len()
        invariant
            i <= list@.len(),
            forall|j: int| 0 <= j < i ==> list@[j] != id,
        decreases list@.len() - i,
    {
        if list[i] == id {
            return true;
        }
        i = i + 1;
    }
    false
}

/// Ordered store of pending events with cancellation.
pub struct EventQueue {
    /// Main lane, sorted by `(time, id)` ascending.
    heap: Vec<Event>,
    /// FIFO lane; times non-decreasing, ids strictly increasing.
    ordered: Vec<Event>,
    /// Ids of cancelled events, skipped at dequeue.
    canceled: Vec<EventId>,
}

impl EventQueue {
    /// The main lane, as a sequence sorted by `(time, id)`.
    pub closed spec fn heap_seq(self) -> Seq<Event> {
        self.heap@
    }

    /// The FIFO lane, as a sequence in enqueue order.
    pub closed spec fn ordered_seq(self) -> Seq<Event> {
        self.ordered@
    }

    /// Whether the event id is marked cancelled.
    pub closed spec fn is_canceled(self, id: EventId) -> bool {
        self.canceled@.contains(id)
    }

    /// Whether the event is pending (in either lane).
    pub open spec fn pending(self, e: Event) -> bool {
        self.heap_seq().contains(e) || self.ordered_seq().contains(e)
    }

    /// Whether the event is pending and not cancelled.
    pub open spec fn live(self, e: Event) -> bool {
        self.pending(e) && !self.is_canceled(e.id)
    }

    /// Internal invariants: the main lane is sorted strictly by `(time, id)`,
    /// the FIFO lane has non-decreasing times and strictly increasing ids,
    /// and ids are unique across both lanes.
    pub open spec fn wf(self) -> bool {
        &&& (forall|i: int, j: int|
            0 <= i < j < self.heap_seq().len() ==> event_before(
                #[trigger] self.heap_seq()[i],
                #[trigger] self.heap_seq()[j],
            ))
        &&& (forall|i: int, j: int|
            0 <= i < j < self.ordered_seq().len() ==> (#[trigger] self.ordered_seq()[i]).time
                <= (#[trigger] self.ordered_seq()[j]).time && self.ordered_seq()[i].id
                < self.ordered_seq()[j].id)
        &&& (forall|i: int, j: int|
            0 <= i < j < self.heap_seq().len() ==> (#[trigger] self.heap_seq()[i]).id
                != (#[trigger] self.heap_seq()[j]).id)
        &&& (forall|i: int, j: int|
            0 <= i < self.heap_seq().len() && 0 <= j < self.ordered_seq().len() ==> (
            #[trigger] self.heap_seq()[i]).id != (#[trigger] self.ordered_seq()[j]).id)
    }

    /// Creates an empty queue.
    pub fn new() -> (r: Self)
        ensures
            r.wf(),
            r.heap_seq() == Seq::<Event>::empty(),
            r.ordered_seq() == Seq::<Event>::empty(),
            forall|id: EventId| !r.is_canceled(id),
    {
        EventQueue { heap: Vec::new(), ordered: Vec::new(), canceled: Vec::new() }
    }

    /// Inserts an event into the main lane.
    ///
    /// The id must be fresh: ids are assigned from a monotone counter, so no
    /// pending event may already carry it.
    pub fn push(&mut self, e: Event)
        requires
            old(self).wf(),
            forall|i: int|
                0 <= i < old(self).heap_seq().len() ==> (#[trigger] old(self).heap_seq()[i]).id
                    != e.id,
            forall|i: int|
                0 <= i < old(self).ordered_seq().len() ==> (#[trigger] old(self).ordered_seq()[i]).id != e.id,
        ensures
            final(self).wf(),
            final(self).ordered_seq() == old(self).ordered_seq(),
            forall|id: EventId| final(self).is_canceled(id) == old(self).is_canceled(id),
            final(self).heap_seq().len() == old(self).heap_seq().len() + 1,
            forall|x: Event|
                old(self).heap_seq().contains(x) ==> final(self).heap_seq().contains(x),
            final(self).heap_seq().contains(e),
            forall|x: Event|
                final(self).heap_seq().contains(x) ==> old(self).heap_seq().contains(x) || x == e,
    {
        let ghost pre = self.heap@;
        let mut i: usize = self.heap.len();
        while i > 0 && event_before_exec(&e, &self.heap[i - 1])
            invariant
                i <= self.heap@.len(),
                self.heap@ == pre,
                forall|j: int| i <= j < self.heap@.len() ==> event_before(e, #[trigger] self.heap@[j]),
            decreases i,
        {
            i = i - 1;
        }
        proof {
            // every element before the insertion point strictly precedes `e`:
            // the scan stopped at an element not after `e`, and the fresh id
            // rules out equality of the `(time, id)` keys.
            assert(self.heap@ == old(self).heap_seq());
            if i > 0 {
                assert(!event_before(e, self.heap@[i - 1]));
                assert(self.heap@[i - 1].id != e.id);
                assert(event_before(self.heap@[i - 1], e));
            }
            assert forall|j: int| 0 <= j < i implies event_before(#[trigger] self.heap@[j], e) by {
                if j < i - 1 {
                    assert(event_before(self.heap@[j], self.heap@[i - 1]));
                }
            }
        }
        self.heap.insert(i, e);
        proof {
            let post = self.heap@;
            assert(post == pre.insert(i as int, e));
            assert forall|a: int| 0 <= a < post.len() implies #[trigger] post[a] == (if a < i {
                pre[a]
            } else if a == i {
                e
            } else {
                pre[a - 1]
            }) by {}
            assert forall|a: int, b: int| 0 <= a < b < post.len() implies event_before(
                #[trigger] post[a],
                #[trigger] post[b],
            ) && post[a].id != post[b].id by {
                if b < i {
                    assert(event_before(pre[a], pre[b]));
                    assert(pre[a].id != pre[b].id);
                } else if a < i && b == i {
                    assert(event_before(pre[a], e));
                } else if a < i && b > i {
                    assert(event_before(pre[a], e));
                    assert(event_before(e, pre[b - 1]));
                    assert(pre[a].id != pre[b - 1].id);
                } else if a == i {
                    assert(event_before(e, pre[b - 1]));
                } else {
                    assert(event_before(pre[a - 1], pre[b - 1]));
                    assert(pre[a - 1].id != pre[b - 1].id);
                }
            }
            assert forall|a: int, b: int|
                0 <= a < post.len() && 0 <= b < self.ordered@.len() implies (
            #[trigger] post[a]).id != (#[trigger] self.ordered@[b]).id by {
                if a < i {
                    assert(pre[a].id != self.ordered@[b].id);
                } else if a > i {
                    assert(pre[a - 1].id != self.ordered@[b].id);
                }
            }
            assert forall|x: Event| pre.contains(x) implies post.contains(x) by {
                let k = choose|k: int| 0 <= k < pre.len() && pre[k] == x;
                if k < i {
                    assert(post[k] == x);
                } else {
                    assert(post[k + 1] == x);
                }
            }
            assert(post[i as int] == e);
            assert forall|x: Event| post.contains(x) implies pre.contains(x) || x == e by {
                let k = choose|k: int| 0 <= k < post.len() && post[k] == x;
                if k < i {
                    assert(pre[k] == x);
                } else if k > i {
                    assert(pre[k - 1] == x);
                }
            }
        }
    }

    /// Appends an event to the FIFO lane.
    ///
    /// The caller guarantees the lane order: the new event's time is not
    /// below the current tail's time, and its id is fresh and larger than
    /// every id already in the lane.
    pub fn push_ordered(&mut self, e: Event)
        requires
            old(self).wf(),
            old(self).ordered_seq().len() > 0 ==> old(self).ordered_seq().last().time <= e.time
                && old(self).ordered_seq().last().id < e.id,
            forall|i: int|
                0 <= i < old(self).heap_seq().len() ==> (#[trigger] old(self).heap_seq()[i]).id
                    != e.id,
        ensures
            final(self).wf(),
            final(self).ordered_seq() == old(self).ordered_seq().push(e),
            final(self).heap_seq() == old(self).heap_seq(),
            forall|id: EventId| final(self).is_canceled(id) == old(self).is_canceled(id),
    {
        let ghost pre = self.ordered@;
        proof {
            if pre.len() > 0 {
                assert forall|i: int| 0 <= i < pre.len() implies (#[trigger] pre[i]).time <= e.time
                    && pre[i].id < e.id by {
                    if i < pre.len() - 1 {
                        assert(pre[i].time <= pre[pre.len() - 1].time && pre[i].id < pre[pre.len()
                            - 1].id);
                    }
                }
            }
        }
        self.ordered.push(e);
        proof {
            let post = self.ordered@;
            assert(post == pre.push(e));
            assert forall|a: int| 0 <= a < post.len() implies #[trigger] post[a] == (if a
                < pre.len() {
                pre[a]
            } else {
                e
            }) by {}
            assert forall|a: int, b: int| 0 <= a < b < post.len() implies (
            #[trigger] post[a]).time <= (#[trigger] post[b]).time && post[a].id < post[b].id by {
                if b < pre.len() {
                    assert(pre[a].time <= pre[b].time && pre[a].id < pre[b].id);
                }
            }
            assert forall|a: int, b: int|
                0 <= a < self.heap@.len() && 0 <= b < post.len() implies (
            #[trigger] self.heap@[a]).id != (#[trigger] post[b]).id by {
                if b < pre.len() {
                    assert(self.heap@[a].id != pre[b].id);
                }
            }
        }
    }

    /// Marks an event id as cancelled.
    pub fn cancel(&mut self, id: EventId)
        requires
            old(self).wf(),
        ensures
            final(self).wf(),
            final(self).heap_seq() == old(self).heap_seq(),
            final(self).ordered_seq() == old(self).ordered_seq(),
            final(self).is_canceled(id),
            forall|x: EventId| old(self).is_canceled(x) ==> final(self).is_canceled(x),
            forall|x: EventId| x != id ==> final(self).is_canceled(x) == old(self).is_canceled(x),
    {
        self.canceled.push(id);
        proof {
            assert(self.heap_seq() == old(self).heap_seq());
            assert(self.ordered_seq() == old(self).ordered_seq());
            assert(self.wf());
        }
    }

    /// Whether `x` is a copy (up to `event_eq`) of some live event of `q`
    /// matching `pred`.
    pub open spec fn copies_live_matching(q: EventQueue, pred: EventPred, x: Event) -> bool {
        exists|e: Event| q.live(e) && pred.spec_matches(e) && event_eq(x, e)
    }

    /// Whether a copy (up to `event_eq`) of `e` occurs in `s`.
    pub open spec fn covered_in(s: Seq<Event>, e: Event) -> bool {
        exists|k: int| 0 <= k < s.len() && event_eq(s[k], e)
    }

    /// A cover is kept when the covering sequence is extended at the end.
    proof fn lemma_covered_extend(pre: Seq<Event>, post: Seq<Event>, e: Event)
        requires
            EventQueue::covered_in(pre, e),
            pre.len() <= post.len(),
            forall|m: int| 0 <= m < pre.len() ==> post[m] == #[trigger] pre[m],
        ensures
            EventQueue::covered_in(post, e),
    {
        let k = choose|k: int| 0 <= k < pre.len() && event_eq(pre[k], e);
        assert(post[k] == pre[k]);
        assert(event_eq(post[k], e));
    }

    /// Marks every pending event matching the predicate as cancelled and
    /// returns copies of the newly cancelled ones, main lane first.
    pub fn cancel_matching(&mut self, pred: EventPred) -> (r: Vec<Event>)
        requires
            old(self).wf(),
        ensures
            final(self).wf(),
            final(self).heap_seq() == old(self).heap_seq(),
            final(self).ordered_seq() == old(self).ordered_seq(),
            forall|x: EventId| old(self).is_canceled(x) ==> final(self).is_canceled(x),
            // every pending matching event is now cancelled
            forall|e: Event|
                old(self).pending(e) && pred.spec_matches(e) ==> final(self).is_canceled(e.id),
            // no unrelated id becomes cancelled
            forall|x: EventId|
                final(self).is_canceled(x) && !old(self).is_canceled(x) ==> exists|e: Event|
                    old(self).pending(e) && pred.spec_matches(e) && e.id == x,
            // the returned events copy exactly the matching live ones
            forall|i: int|
                0 <= i < r@.len() ==> EventQueue::copies_live_matching(
                    *old(self),
                    pred,
                    #[trigger] r@[i],
                ),
            forall|e: Event|
                old(self).live(e) && pred.spec_matches(e) ==> EventQueue::covered_in(r@, e),
    {
        let mut out: Vec<Event> = Vec::new();
        let ghost orig = *old(self);
        let mut i: usize = 0;
        while i < self.heap.len()
            invariant
                self.heap@ == orig.heap@,
                self.ordered@ == orig.ordered@,
                i <= self.heap@.len(),
                orig.wf(),
                forall|x: EventId| orig.is_canceled(x) ==> self.is_canceled(x),
                forall|x: EventId|
                    self.is_canceled(x) && !orig.is_canceled(x) ==> exists|j: int|
                        0 <= j < i && (#[trigger] orig.heap@[j]).id == x && pred.spec_matches(
                            orig.heap@[j],
                        ),
                forall|j: int|
                    0 <= j < i && pred.spec_matches(#[trigger] orig.heap@[j]) ==> self.is_canceled(
                        orig.heap@[j].id,
                    ),
                forall|k: int|
                    0 <= k < out@.len() ==> EventQueue::copies_live_matching(
                        orig,
                        pred,
                        #[trigger] out@[k],
                    ),
                forall|j: int|
                    0 <= j < i && orig.live(#[trigger] orig.heap@[j]) && pred.spec_matches(
                        orig.heap@[j],
                    ) ==> EventQueue::covered_in(out@, orig.heap@[j]),
            decreases self.heap@.len() - i,
        {
            let matched = pred.matches(&self.heap[i]);
            let ghost out_pre = out@;
            if matched {
                let ghost cur = orig.heap@[i as int];
                let id = self.heap[i].id;
                if !id_in(&self.canceled, id) {
                    proof {
                        // a live id cannot have been cancelled by an earlier
                        // iteration: main-lane ids are unique
                        assert(!orig.is_canceled(id));
                        assert(orig.heap@.contains(cur)) by {
                            assert(orig.heap@[i as int] == cur);
                        }
                        assert(orig.live(cur));
                    }
                    let copy = self.heap[i].clone();
                    out.push(copy);
                    proof {
                        assert(out@ == out_pre.push(copy));
                        assert(forall|m: int|
                            0 <= m < out_pre.len() ==> #[trigger] out@[m] == out_pre[m]);
                        assert(out@[out_pre.len() as int] == copy);
                        assert(EventQueue::copies_live_matching(orig, pred, copy)) by {
                            assert(orig.live(cur) && pred.spec_matches(cur) && event_eq(copy, cur));
                        }
                        assert(EventQueue::covered_in(out@, cur)) by {
                            assert(event_eq(out@[out_pre.len() as int], cur));
                        }
                    }
                }
                let ghost canceled_pre = self.canceled@;
                self.canceled.push(id);
                proof {
                    assert(self.canceled@ == canceled_pre.push(id));
                    assert forall|x: EventId|
                        self.is_canceled(x) && !orig.is_canceled(x) implies exists|j: int|
                        0 <= j < i + 1 && (#[trigger] orig.heap@[j]).id == x && pred.spec_matches(
                            orig.heap@[j],
                        ) by {
                        if x == id {
                            assert(orig.heap@[i as int].id == x && pred.spec_matches(
                                orig.heap@[i as int],
                            ));
                        } else {
                            assert(canceled_pre.contains(x));
                        }
                    }
                }
            }
            proof {
                assert forall|j: int|
                    0 <= j < i + 1 && orig.live(#[trigger] orig.heap@[j]) && pred.spec_matches(
                        orig.heap@[j],
                    ) implies EventQueue::covered_in(out@, orig.heap@[j]) by {
                    if j < i {
                        EventQueue::lemma_covered_extend(out_pre, out@, orig.heap@[j]);
                    }
                }
            }
            i = i + 1;
        }
        let mut k: usize = 0;
        while k < self.ordered.len()
            invariant
                self.heap@ == orig.heap@,
                self.ordered@ == orig.ordered@,
                k <= self.ordered@.len(),
                orig.wf(),
                forall|x: EventId| orig.is_canceled(x) ==> self.is_canceled(x),
                forall|x: EventId|
                    self.is_canceled(x) && !orig.is_canceled(x) ==> (exists|j: int|
                        0 <= j < orig.heap@.len() && (#[trigger] orig.heap@[j]).id == x
                            && pred.spec_matches(orig.heap@[j])) || (exists|j: int|
                        0 <= j < k && (#[trigger] orig.ordered@[j]).id == x && pred.spec_matches(
                            orig.ordered@[j],
                        )),
                forall|j: int|
                    0 <= j < orig.heap@.len() && pred.spec_matches(#[trigger] orig.heap@[j])
                        ==> self.is_canceled(orig.heap@[j].id),
                forall|j: int|
                    0 <= j < k && pred.spec_matches(#[trigger] orig.ordered@[j])
                        ==> self.is_canceled(orig.ordered@[j].id),
                forall|m: int|
                    0 <= m < out@.len() ==> EventQueue::copies_live_matching(
                        orig,
                        pred,
                        #[trigger] out@[m],
                    ),
                forall|j: int|
                    0 <= j < orig.heap@.len() && orig.live(#[trigger] orig.heap@[j])
                        && pred.spec_matches(orig.heap@[j]) ==> EventQueue::covered_in(
                        out@,
                        orig.heap@[j],
                    ),
                forall|j: int|
                    0 <= j < k && orig.live(#[trigger] orig.ordered@[j]) && pred.spec_matches(
                        orig.ordered@[j],
                    ) ==> EventQueue::covered_in(out@, orig.ordered@[j]),
            decreases self.ordered@.len() - k,
        {
            let matched = pred.matches(&self.ordered[k]);
            let ghost out_pre = out@;
            if matched {
                let ghost cur = orig.ordered@[k as int];
                let id = self.ordered[k].id;
                if !id_in(&self.canceled, id) {
                    proof {
                        // a live id cannot have been cancelled earlier:
                        // ids are unique across and within the lanes
                        assert(!orig.is_canceled(id));
                        assert(orig.ordered@.contains(cur)) by {
                            assert(orig.ordered@[k as int] == cur);
                        }
                        assert(orig.live(cur));
                    }
                    let copy = self.ordered[k].clone();
                    out.push(copy);
                    proof {
                        assert(out@ == out_pre.push(copy));
                        assert(forall|m: int|
                            0 <= m < out_pre.len() ==> #[trigger] out@[m] == out_pre[m]);
                        assert(out@[out_pre.len() as int] == copy);
                        assert(EventQueue::copies_live_matching(orig, pred, copy)) by {
                            assert(orig.live(cur) && pred.spec_matches(cur) && event_eq(copy, cur));
                        }
                        assert(EventQueue::covered_in(out@, cur)) by {
                            assert(event_eq(out@[out_pre.len() as int], cur));
                        }
                    }
                }
                let ghost canceled_pre = self.canceled@;
                self.canceled.push(id);
                proof {
                    assert(self.canceled@ == canceled_pre.push(id));
                    assert forall|x: EventId|
                        self.is_canceled(x) && !orig.is_canceled(x) implies (exists|j: int|
                        0 <= j < orig.heap@.len() && (#[trigger] orig.heap@[j]).id == x
                            && pred.spec_matches(orig.heap@[j])) || (exists|j: int|
                        0 <= j < k + 1 && (#[trigger] orig.ordered@[j]).id == x
                            && pred.spec_matches(orig.ordered@[j])) by {
                        if x == id {
                            assert(orig.ordered@[k as int].id == x && pred.spec_matches(
                                orig.ordered@[k as int],
                            ));
                        } else {
                            assert(canceled_pre.contains(x));
                        }
                    }
                }
            }
            proof {
                assert forall|j: int|
                    0 <= j < orig.heap@.len() && orig.live(#[trigger] orig.heap@[j])
                        && pred.spec_matches(orig.heap@[j]) implies EventQueue::covered_in(
                    out@,
                    orig.heap@[j],
                ) by {
                    EventQueue::lemma_covered_extend(out_pre, out@, orig.heap@[j]);
                }
                assert forall|j: int|
                    0 <= j < k + 1 && orig.live(#[trigger] orig.ordered@[j]) && pred.spec_matches(
                        orig.ordered@[j],
                    ) implies EventQueue::covered_in(out@, orig.ordered@[j]) by {
                    if j < k {
                        EventQueue::lemma_covered_extend(out_pre, out@, orig.ordered@[j]);
                    }
                }
            }
            k = k + 1;
        }
        proof {
            assert(self.heap_seq() == orig.heap_seq());
            assert(self.ordered_seq() == orig.ordered_seq());
            assert(self.wf());
            assert forall|e: Event|
                orig.live(e) && pred.spec_matches(e) implies EventQueue::covered_in(out@, e) by {
                if orig.heap@.contains(e) {
                    let j = choose|j: int| 0 <= j < orig.heap@.len() && orig.heap@[j] == e;
                    assert(orig.live(orig.heap@[j]) && pred.spec_matches(orig.heap@[j]));
                } else {
                    let j = choose|j: int| 0 <= j < orig.ordered@.len() && orig.ordered@[j] == e;
                    assert(orig.live(orig.ordered@[j]) && pred.spec_matches(orig.ordered@[j]));
                }
            }
            assert forall|e: Event|
                orig.pending(e) && pred.spec_matches(e) implies self.is_canceled(e.id) by {
                if orig.heap@.contains(e) {
                    let j = choose|j: int| 0 <= j < orig.heap@.len() && orig.heap@[j] == e;
                    assert(pred.spec_matches(orig.heap@[j]));
                } else {
                    let j = choose|j: int| 0 <= j < orig.ordered@.len() && orig.ordered@[j] == e;
                    assert(pred.spec_matches(orig.ordered@[j]));
                }
            }
            assert forall|x: EventId|
                self.is_canceled(x) && !orig.is_canceled(x) implies exists|e: Event|
                orig.pending(e) && pred.spec_matches(e) && e.id == x by {
                if exists|j: int|
                    0 <= j < orig.heap@.len() && (#[trigger] orig.heap@[j]).id == x
                        && pred.spec_matches(orig.heap@[j]) {
                    let j = choose|j: int|
                        0 <= j < orig.heap@.len() && (#[trigger] orig.heap@[j]).id == x
                            && pred.spec_matches(orig.heap@[j]);
                    assert(orig.pending(orig.heap@[j])) by {
                        assert(orig.heap@.contains(orig.heap@[j]));
                    }
                } else {
                    let j = choose|j: int|
                        0 <= j < orig.ordered@.len() && (#[trigger] orig.ordered@[j]).id == x
                            && pred.spec_matches(orig.ordered@[j]);
                    assert(orig.pending(orig.ordered@[j])) by {
                        assert(orig.ordered@.contains(orig.ordered@[j]));
                    }
                }
            }
        }
        out
    }

    /// The minimum live event, at the specification level: it is pending,
    /// not cancelled, and no live pending event precedes it.
    pub open spec fn is_min_live(self, e: Event) -> bool {
        &&& self.live(e)
        &&& (forall|i: int|
            0 <= i < self.heap_seq().len() && !self.is_canceled(
                (#[trigger] self.heap_seq()[i]).id,
            ) ==> event_le(e, self.heap_seq()[i]))
        &&& (forall|i: int|
            0 <= i < self.ordered_seq().len() && !self.is_canceled(
                (#[trigger] self.ordered_seq()[i]).id,
            ) ==> event_le(e, self.ordered_seq()[i]))
    }

    /// Returns the `(time, id)` pair of the next live event without removing
    /// it, or `None` if no live event is pending.
    pub fn peek(&self) -> (r: Option<(u64, EventId)>)
        requires
            self.wf(),
        ensures
            match r {
                Some(ti) => exists|e: Event|
                    self.is_min_live(e) && e.time == ti.0 && e.id == ti.1,
                None => forall|e: Event| self.pending(e) ==> self.is_canceled(e.id),
            },
    {
        let hi = first_live_index(&self.heap, &self.canceled);
        let oi = first_live_index(&self.ordered, &self.canceled);
        match (hi, oi) {
            (None, None) => {
                proof {
                    assert forall|e: Event| self.pending(e) implies self.is_canceled(e.id) by {
                        if self.heap@.contains(e) {
                            let j = choose|j: int| 0 <= j < self.heap@.len() && self.heap@[j] == e;
                            assert(self.is_canceled(self.heap@[j].id));
                        } else {
                            let j = choose|j: int|
                                0 <= j < self.ordered@.len() && self.ordered@[j] == e;
                            assert(self.is_canceled(self.ordered@[j].id));
                        }
                    }
                }
                None
            },
            (Some(i), None) => {
                proof {
                    self.lemma_heap_head_min(i as int);
                }
                Some((self.heap[i].time, self.heap[i].id))
            },
            (None, Some(j)) => {
                proof {
                    self.lemma_ordered_head_min(j as int);
                }
                Some((self.ordered[j].time, self.ordered[j].id))
            },
            (Some(i), Some(j)) => {
                if event_before_exec(&self.heap[i], &self.ordered[j]) {
                    proof {
                        self.lemma_heap_head_min(i as int);
                    }
                    Some((self.heap[i].time, self.heap[i].id))
                } else {
                    proof {
                        self.lemma_ordered_head_min(j as int);
                    }
                    Some((self.ordered[j].time, self.ordered[j].id))
                }
            },
        }
    }

    /// A live main-lane head below the FIFO head (or with the FIFO lane
    /// exhausted) is the minimum live event.
    proof fn lemma_heap_head_min(self, i: int)
        requires
            self.wf(),
            0 <= i < self.heap_seq().len(),
            !self.is_canceled(self.heap_seq()[i].id),
            forall|j: int| 0 <= j < i ==> self.is_canceled((#[trigger] self.heap_seq()[j]).id),
            forall|j: int|
                0 <= j < self.ordered_seq().len() && !self.is_canceled(
                    (#[trigger] self.ordered_seq()[j]).id,
                ) ==> event_le(self.heap_seq()[i], self.ordered_seq()[j]),
        ensures
            self.is_min_live(self.heap_seq()[i]),
    {
        let e = self.heap_seq()[i];
        assert(self.pending(e)) by {
            assert(self.heap_seq()[i] == e);
        }
        assert forall|k: int|
            0 <= k < self.heap_seq().len() && !self.is_canceled(
                (#[trigger] self.heap_seq()[k]).id,
            ) implies event_le(e, self.heap_seq()[k]) by {
            if k < i {
                assert(self.is_canceled(self.heap_seq()[k].id));
            } else if k > i {
                assert(event_before(self.heap_seq()[i], self.heap_seq()[k]));
            }
        }
    }

    /// A live FIFO head not preceded by a live main-lane head is the minimum
    /// live event.
    proof fn lemma_ordered_head_min(self, j: int)
        requires
            self.wf(),
            0 <= j < self.ordered_seq().len(),
            !self.is_canceled(self.ordered_seq()[j].id),
            forall|k: int| 0 <= k < j ==> self.is_canceled((#[trigger] self.ordered_seq()[k]).id),
            forall|k: int|
                0 <= k < self.heap_seq().len() && !self.is_canceled(
                    (#[trigger] self.heap_seq()[k]).id,
                ) ==> event_le(self.ordered_seq()[j], self.heap_seq()[k]),
        ensures
            self.is_min_live(self.ordered_seq()[j]),
    {
        let e = self.ordered_seq()[j];
        assert(self.pending(e)) by {
            assert(self.ordered_seq()[j] == e);
        }
        assert forall|k: int|
            0 <= k < self.ordered_seq().len() && !self.is_canceled(
                (#[trigger] self.ordered_seq()[k]).id,
            ) implies event_le(e, self.ordered_seq()[k]) by {
            if k < j {
                assert(self.is_canceled(self.ordered_seq()[k].id));
            } else if k > j {
                assert(self.ordered_seq()[j].time <= self.ordered_seq()[k].time
                    && self.ordered_seq()[j].id < self.ordered_seq()[k].id);
            }
        }
    }

    /// The `post` queue is the `pre` queue with exactly one occurrence of
    /// `e` removed from one of the two lanes.
    pub open spec fn removed_one(pre: EventQueue, post: EventQueue, e: Event) -> bool {
        ||| (exists|i: int|
            0 <= i < pre.heap_seq().len() && pre.heap_seq()[i] == e && post.heap_seq()
                == pre.heap_seq().remove(i) && post.ordered_seq() == pre.ordered_seq())
        ||| (exists|i: int|
            0 <= i < pre.ordered_seq().len() && pre.ordered_seq()[i] == e && post.ordered_seq()
                == pre.ordered_seq().remove(i) && post.heap_seq() == pre.heap_seq())
    }

    /// Removes and returns the minimum live event, or `None` if no live
    /// event is pending (the queue is then left unchanged).
    pub fn pop(&mut self) -> (r: Option<Event>)
        requires
            old(self).wf(),
        ensures
            final(self).wf(),
            forall|id: EventId| final(self).is_canceled(id) == old(self).is_canceled(id),
            match r {
                Some(e) => old(self).is_min_live(e) && EventQueue::removed_one(
                    *old(self),
                    *final(self),
                    e,
                ),
                None => *final(self) == *old(self) && (forall|e: Event|
                    old(self).pending(e) ==> old(self).is_canceled(e.id)),
            },
    {
        let hi = first_live_index(&self.heap, &self.canceled);
        let oi = first_live_index(&self.ordered, &self.canceled);
        match (hi, oi) {
            (None, None) => {
                proof {
                    assert forall|e: Event| self.pending(e) implies self.is_canceled(e.id) by {
                        if self.heap@.contains(e) {
                            let j = choose|j: int| 0 <= j < self.heap@.len() && self.heap@[j] == e;
                            assert(self.is_canceled(self.heap@[j].id));
                        } else {
                            let j = choose|j: int|
                                0 <= j < self.ordered@.len() && self.ordered@[j] == e;
                            assert(self.is_canceled(self.ordered@[j].id));
                        }
                    }
                }
                None
            },
            (Some(i), None) => {
                proof {
                    self.lemma_heap_head_min(i as int);
                }
                Some(self.pop_heap_at(i))
            },
            (None, Some(j)) => {
                proof {
                    self.lemma_ordered_head_min(j as int);
                }
                Some(self.pop_ordered_at(j))
            },
            (Some(i), Some(j)) => {
                if event_before_exec(&self.heap[i], &self.ordered[j]) {
                    proof {
                        self.lemma_heap_head_min(i as int);
                    }
                    Some(self.pop_heap_at(i))
                } else {
                    proof {
                        self.lemma_ordered_head_min(j as int);
                    }
                    Some(self.pop_ordered_at(j))
                }
            },
        }
    }

    /// Removes and returns the main-lane event at the given position.
    fn pop_heap_at(&mut self, i: usize) -> (e: Event)
        requires
            old(self).wf(),
            i < old(self).heap_seq().len(),
        ensures
            final(self).wf(),
            forall|id: EventId| final(self).is_canceled(id) == old(self).is_canceled(id),
            e == old(self).heap_seq()[i as int],
            final(self).heap_seq() == old(self).heap_seq().remove(i as int),
            final(self).ordered_seq() == old(self).ordered_seq(),
    {
        let e = self.heap.remove(i);
        proof {
            let prev = old(self).heap_seq();
            assert forall|a: int| 0 <= a < self.heap@.len() implies #[trigger] self.heap@[a] == (
            if a < i {
                prev[a]
            } else {
                prev[a + 1]
            }) by {}
            assert forall|a: int, b: int| 0 <= a < b < self.heap@.len() implies event_before(
                #[trigger] self.heap@[a],
                #[trigger] self.heap@[b],
            ) && self.heap@[a].id != self.heap@[b].id by {
                if b < i {
                    assert(event_before(prev[a], prev[b]) && prev[a].id != prev[b].id);
                } else if a < i {
                    assert(event_before(prev[a], prev[b + 1]) && prev[a].id != prev[b + 1].id);
                } else {
                    assert(event_before(prev[a + 1], prev[b + 1]) && prev[a + 1].id != prev[b
                        + 1].id);
                }
            }
            assert forall|a: int, b: int|
                0 <= a < self.heap@.len() && 0 <= b < self.ordered@.len() implies (
            #[trigger] self.heap@[a]).id != (#[trigger] self.ordered@[b]).id by {
                if a < i {
                    assert(prev[a].id != self.ordered@[b].id);
                } else {
                    assert(prev[a + 1].id != self.ordered@[b].id);
                }
            }
        }
        e
    }

    /// Removes and returns the FIFO-lane event at the given position.
    fn pop_ordered_at(&mut self, i: usize) -> (e: Event)
        requires
            old(self).wf(),
            i < old(self).ordered_seq().len(),
        ensures
            final(self).wf(),
            forall|id: EventId| final(self).is_canceled(id) == old(self).is_canceled(id),
            e == old(self).ordered_seq()[i as int],
            final(self).ordered_seq() == old(self).ordered_seq().remove(i as int),
            final(self).heap_seq() == old(self).heap_seq(),
    {
        let e = self.ordered.remove(i);
        proof {
            let prev = old(self).ordered_seq();
            assert forall|a: int| 0 <= a < self.ordered@.len() implies #[trigger] self.ordered@[a]
                == (if a < i {
                prev[a]
            } else {
                prev[a + 1]
            }) by {}
            assert forall|a: int, b: int|
                0 <= a < b < self.ordered@.len() implies (#[trigger] self.ordered@[a]).time
                <= (#[trigger] self.ordered@[b]).time && self.ordered@[a].id
                < self.ordered@[b].id by {
                if b < i {
                    assert(prev[a].time <= prev[b].time && prev[a].id < prev[b].id);
                } else if a < i {
                    assert(prev[a].time <= prev[b + 1].time && prev[a].id < prev[b + 1].id);
                } else {
                    assert(prev[a + 1].time <= prev[b + 1].time && prev[a + 1].id < prev[b
                        + 1].id);
                }
            }
            assert forall|a: int, b: int|
                0 <= a < self.heap@.len() && 0 <= b < self.ordered@.len() implies (
            #[trigger] self.heap@[a]).id != (#[trigger] self.ordered@[b]).id by {
                if b < i {
                    assert(self.heap@[a].id != prev[b].id);
                } else {
                    assert(self.heap@[a].id != prev[b + 1].id);
                }
            }
        }
        e
    }

    /// Whether `x` copies some live event of the queue, up to `event_eq`.
    pub open spec fn copies_live(q: EventQueue, x: Event) -> bool {
        exists|e: Event| q.live(e) && event_eq(x, e)
    }

    /// Returns copies of the live pending events of both lanes, sorted by
    /// `(time, id)`.
    pub fn dump_sorted(&self) -> (r: Vec<Event>)
        requires
            self.wf(),
        ensures
            forall|a: int, b: int|
                0 <= a < b < r@.len() ==> event_before(#[trigger] r@[a], #[trigger] r@[b]),
            forall|a: int| 0 <= a < r@.len() ==> EventQueue::copies_live(*self, #[trigger] r@[a]),
            forall|e: Event| self.live(e) ==> EventQueue::covered_in(r@, e),
    {
        let mut out: Vec<Event> = Vec::new();
        let mut i: usize = 0;
        let mut j: usize = 0;
        while i < self.heap.len() || j < self.ordered.len()
            invariant
                self.wf(),
                i <= self.heap@.len(),
                j <= self.ordered@.len(),
                forall|a: int, b: int|
                    0 <= a < b < out@.len() ==> event_before(#[trigger] out@[a], #[trigger] out@[b]),
                forall|a: int|
                    0 <= a < out@.len() ==> EventQueue::copies_live(*self, #[trigger] out@[a]),
                forall|k: int|
                    0 <= k < i && !self.is_canceled((#[trigger] self.heap@[k]).id)
                        ==> EventQueue::covered_in(out@, self.heap@[k]),
                forall|k: int|
                    0 <= k < j && !self.is_canceled((#[trigger] self.ordered@[k]).id)
                        ==> EventQueue::covered_in(out@, self.ordered@[k]),
                forall|a: int, k: int|
                    0 <= a < out@.len() && i <= k < self.heap@.len() ==> event_before(
                        #[trigger] out@[a],
                        #[trigger] self.heap@[k],
                    ),
                forall|a: int, k: int|
                    0 <= a < out@.len() && j <= k < self.ordered@.len() ==> event_before(
                        #[trigger] out@[a],
                        #[trigger] self.ordered@[k],
                    ),
            decreases self.heap@.len() - i + self.ordered@.len() - j,
        {
            let take_heap = if i < self.heap.len() && j < self.ordered.len() {
                event_before_exec(&self.heap[i], &self.ordered[j])
            } else {
                i < self.heap.len()
            };
            let ghost out_pre = out@;
            if take_heap {
                let cur = &self.heap[i];
                if !id_in(&self.canceled, cur.id) {
                    let ghost src = self.heap@[i as int];
                    let copy = cur.clone();
                    out.push(copy);
                    proof {
                        assert(out@ == out_pre.push(copy));
                        assert(forall|a: int|
                            0 <= a < out_pre.len() ==> #[trigger] out@[a] == out_pre[a]);
                        assert(out@.last() == copy);
                        assert(event_eq(copy, src));
                        assert(EventQueue::copies_live(*self, copy)) by {
                            assert(self.heap@.contains(src)) by {
                                assert(self.heap@[i as int] == src);
                            }
                            assert(self.live(src));
                        }
                        assert(EventQueue::covered_in(out@, src)) by {
                            assert(event_eq(out@[out_pre.len() as int], src));
                        }
                        assert forall|a: int, k: int|
                            0 <= a < out@.len() && i + 1 <= k < self.heap@.len() implies event_before(
                            #[trigger] out@[a],
                            #[trigger] self.heap@[k],
                        ) by {
                            assert(event_before(self.heap@[i as int], self.heap@[k]));
                        }
                        assert forall|a: int, k: int|
                            0 <= a < out@.len() && j <= k < self.ordered@.len() implies event_before(
                            #[trigger] out@[a],
                            #[trigger] self.ordered@[k],
                        ) by {
                            if a == out_pre.len() {
                                assert(event_before(self.heap@[i as int], self.ordered@[k])) by {
                                    if k > j {
                                        assert(self.ordered@[j as int].time
                                            <= self.ordered@[k].time && self.ordered@[j as int].id
                                            < self.ordered@[k].id);
                                    }
                                }
                            }
                        }
                        assert forall|a: int, b: int|
                            0 <= a < b < out@.len() implies event_before(
                            #[trigger] out@[a],
                            #[trigger] out@[b],
                        ) by {
                            if b < out_pre.len() {
                                assert(event_before(out_pre[a], out_pre[b]));
                            } else {
                                assert(event_before(out_pre[a], self.heap@[i as int]));
                            }
                        }
                        assert forall|k: int|
                            0 <= k < i && !self.is_canceled(
                                (#[trigger] self.heap@[k]).id,
                            ) implies EventQueue::covered_in(out@, self.heap@[k]) by {
                            EventQueue::lemma_covered_extend(out_pre, out@, self.heap@[k]);
                        }
                        assert forall|k: int|
                            0 <= k < j && !self.is_canceled(
                                (#[trigger] self.ordered@[k]).id,
                            ) implies EventQueue::covered_in(out@, self.ordered@[k]) by {
                            EventQueue::lemma_covered_extend(out_pre, out@, self.ordered@[k]);
                        }
                    }
                }
                proof {
                    if self.is_canceled(self.heap@[i as int].id) {
                        assert forall|a: int, k: int|
                            0 <= a < out@.len() && i + 1 <= k < self.heap@.len() implies event_before(
                            #[trigger] out@[a],
                            #[trigger] self.heap@[k],
                        ) by {
                            assert(event_before(self.heap@[i as int], self.heap@[k]));
                            assert(event_before(out@[a], self.heap@[i as int]));
                        }
                    }
                }
                i = i + 1;
            } else {
                let cur = &self.ordered[j];
                if !id_in(&self.canceled, cur.id) {
                    let ghost src = self.ordered@[j as int];
                    let copy = cur.clone();
                    out.push(copy);
                    proof {
                        assert(out@ == out_pre.push(copy));
                        assert(forall|a: int|
                            0 <= a < out_pre.len() ==> #[trigger] out@[a] == out_pre[a]);
                        assert(out@.last() == copy);
                        assert(event_eq(copy, src));
                        assert(EventQueue::copies_live(*self, copy)) by {
                            assert(self.ordered@.contains(src)) by {
                                assert(self.ordered@[j as int] == src);
                            }
                            assert(self.live(src));
                        }
                        assert(EventQueue::covered_in(out@, src)) by {
                            assert(event_eq(out@[out_pre.len() as int], src));
                        }
                        assert forall|a: int, k: int|
                            0 <= a < out@.len() && j + 1 <= k < self.ordered@.len() implies event_before(
                            #[trigger] out@[a],
                            #[trigger] self.ordered@[k],
                        ) by {
                            assert(self.ordered@[j as int].time <= self.ordered@[k].time
                                && self.ordered@[j as int].id < self.ordered@[k].id);
                        }
                        assert forall|a: int, k: int|
                            0 <= a < out@.len() && i <= k < self.heap@.len() implies event_before(
                            #[trigger] out@[a],
                            #[trigger] self.heap@[k],
                        ) by {
                            if a == out_pre.len() {
                                // the lane head was taken, so it does not
                                // come after the main-lane head, and ids are
                                // unique across the lanes
                                assert(self.heap@[i as int].id != self.ordered@[j as int].id);
                                assert(event_before(self.ordered@[j as int], self.heap@[i as int]));
                                if k > i {
                                    assert(event_before(self.heap@[i as int], self.heap@[k]));
                                }
                            }
                        }
                        assert forall|a: int, b: int|
                            0 <= a < b < out@.len() implies event_before(
                            #[trigger] out@[a],
                            #[trigger] out@[b],
                        ) by {
                            if b < out_pre.len() {
                                assert(event_before(out_pre[a], out_pre[b]));
                            } else {
                                assert(event_before(out_pre[a], self.ordered@[j as int]));
                            }
                        }
                        assert forall|k: int|
                            0 <= k < i && !self.is_canceled(
                                (#[trigger] self.heap@[k]).id,
                            ) implies EventQueue::covered_in(out@, self.heap@[k]) by {
                            EventQueue::lemma_covered_extend(out_pre, out@, self.heap@[k]);
                        }
                        assert forall|k: int|
                            0 <= k < j && !self.is_canceled(
                                (#[trigger] self.ordered@[k]).id,
                            ) implies EventQueue::covered_in(out@, self.ordered@[k]) by {
                            EventQueue::lemma_covered_extend(out_pre, out@, self.ordered@[k]);
                        }
                    }
                }
                proof {
                    if self.is_canceled(self.ordered@[j as int].id) {
                        assert forall|a: int, k: int|
                            0 <= a < out@.len() && j + 1 <= k < self.ordered@.len() implies event_before(
                            #[trigger] out@[a],
                            #[trigger] self.ordered@[k],
                        ) by {
                            assert(self.ordered@[j as int].time <= self.ordered@[k].time
                                && self.ordered@[j as int].id < self.ordered@[k].id);
                            assert(event_before(out@[a], self.ordered@[j as int]));
                        }
                    }
                }
                j = j + 1;
            }
        }
        proof {
            assert forall|e: Event| self.live(e) implies EventQueue::covered_in(out@, e) by {
                if self.heap@.contains(e) {
                    let k = choose|k: int| 0 <= k < self.heap@.len() && self.heap@[k] == e;
                    assert(!self.is_canceled(self.heap@[k].id));
                } else {
                    let k = choose|k: int| 0 <= k < self.ordered@.len() && self.ordered@[k] == e;
                    assert(!self.is_canceled(self.ordered@[k].id));
                }
            }
        }
        out
    }

    /// The minimum live event precedes every live event.
    pub proof fn lemma_min_live_le(q: EventQueue, m: Event, ev: Event)
        requires
            q.is_min_live(m),
            q.live(ev),
        ensures
            event_le(m, ev),
    {
        if q.heap_seq().contains(ev) {
            let j = choose|j: int| 0 <= j < q.heap_seq().len() && q.heap_seq()[j] == ev;
            assert(event_le(m, q.heap_seq()[j]));
        } else {
            let j = choose|j: int| 0 <= j < q.ordered_seq().len() && q.ordered_seq()[j] == ev;
            assert(event_le(m, q.ordered_seq()[j]));
        }
    }

    /// Delivery order follows the `(time, id)` lexicographic order: the
    /// event delivered next strictly precedes every other live event, so any
    /// two deliveries with ids `i < j` and times `t_i <= t_j` happen in
    /// `(time, id)` order.
    pub proof fn lemma_delivery_order(q: EventQueue, e: Event, e2: Event)
        requires
            q.wf(),
            q.is_min_live(e),
            q.live(e2),
            e2 != e,
        ensures
            event_before(e, e2),
    {
        EventQueue::lemma_min_live_le(q, e, e2);
        if !event_before(e, e2) {
            assert(e.time == e2.time && e.id == e2.id);
            let ai = if q.heap_seq().contains(e) {
                choose|i: int| 0 <= i < q.heap_seq().len() && q.heap_seq()[i] == e
            } else {
                choose|i: int| 0 <= i < q.ordered_seq().len() && q.ordered_seq()[i] == e
            };
            let bi = if q.heap_seq().contains(e2) {
                choose|i: int| 0 <= i < q.heap_seq().len() && q.heap_seq()[i] == e2
            } else {
                choose|i: int| 0 <= i < q.ordered_seq().len() && q.ordered_seq()[i] == e2
            };
            if q.heap_seq().contains(e) && q.heap_seq().contains(e2) {
                if ai != bi {
                    assert(q.heap_seq()[ai].id != q.heap_seq()[bi].id);
                }
            } else if q.heap_seq().contains(e) && !q.heap_seq().contains(e2) {
                assert(q.heap_seq()[ai].id != q.ordered_seq()[bi].id);
            } else if !q.heap_seq().contains(e) && q.heap_seq().contains(e2) {
                assert(q.heap_seq()[bi].id != q.ordered_seq()[ai].id);
            } else {
                if ai != bi {
                    assert(q.ordered_seq()[ai].id < q.ordered_seq()[bi].id || q.ordered_seq()[bi].id
                        < q.ordered_seq()[ai].id);
                }
            }
        }
    }

    /// The minimum live event is unique: delivery is deterministic.
    pub proof fn lemma_min_live_unique(q: EventQueue, a: Event, b: Event)
        requires
            q.wf(),
            q.is_min_live(a),
            q.is_min_live(b),
        ensures
            a == b,
    {
        EventQueue::lemma_min_live_le(q, a, b);
        EventQueue::lemma_min_live_le(q, b, a);
        assert(a.time == b.time && a.id == b.id);
        let ai = if q.heap_seq().contains(a) {
            choose|i: int| 0 <= i < q.heap_seq().len() && q.heap_seq()[i] == a
        } else {
            choose|i: int| 0 <= i < q.ordered_seq().len() && q.ordered_seq()[i] == a
        };
        let bi = if q.heap_seq().contains(b) {
            choose|i: int| 0 <= i < q.heap_seq().len() && q.heap_seq()[i] == b
        } else {
            choose|i: int| 0 <= i < q.ordered_seq().len() && q.ordered_seq()[i] == b
        };
        if q.heap_seq().contains(a) && q.heap_seq().contains(b) {
            assert(q.heap_seq()[ai] == a && q.heap_seq()[bi] == b);
            if ai != bi {
                assert(q.heap_seq()[ai].id != q.heap_seq()[bi].id);
            }
        } else if q.heap_seq().contains(a) && !q.heap_seq().contains(b) {
            assert(q.heap_seq()[ai].id != q.ordered_seq()[bi].id);
        } else if !q.heap_seq().contains(a) && q.heap_seq().contains(b) {
            assert(q.heap_seq()[bi].id != q.ordered_seq()[ai].id);
        } else {
            assert(q.ordered_seq()[ai] == a && q.ordered_seq()[bi] == b);
            if ai != bi {
                assert(q.ordered_seq()[ai].id < q.ordered_seq()[bi].id || q.ordered_seq()[bi].id
                    < q.ordered_seq()[ai].id);
            }
        }
    }
}

} // verus!
