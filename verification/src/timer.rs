//! Timers for suspended tasks.
//!
//! A timer resumes exactly one suspended task at its firing time. The queue
//! is kept sorted by `(time, id)`, both ascending, like the event queue.

use vstd::prelude::*;

use crate::{Id, TaskId, TimerId};

verus! {

broadcast use vstd::seq_lib::lemma_seq_contains_after_push;

/// A pending timer: it fires at `time` and resumes the task `task`,
/// on behalf of the component `component_id` that set it.
#[derive(Clone, Copy, PartialEq, Eq, Structural, Debug)]
pub struct Timer {
    /// Unique identifier of the timer.
    pub id: TimerId,
    /// Id of the component that set the timer.
    pub component_id: Id,
    /// Absolute virtual time at which the timer fires.
    pub time: u64,
    /// The task to resume when the timer fires.
    pub task: TaskId,
    /// The wait generation of the task's slot this timer was set for: a
    /// stale timer, outlived by its wait, must not wake a later wait.
    pub epoch: u64,
}

/// Strict `(time, id)` lexicographic order on timers.
pub open spec fn timer_before(a: Timer, b: Timer) -> bool {
    a.time < b.time || (a.time == b.time && a.id < b.id)
}

/// Non-strict `(time, id)` lexicographic order on timers.
pub open spec fn timer_le(a: Timer, b: Timer) -> bool {
    a.time < b.time || (a.time == b.time && a.id <= b.id)
}

/// Ordered store of pending timers.
pub struct TimerQueue {
    /// Pending timers, sorted by `(time, id)` ascending.
    timers: Vec<Timer>,
}

impl TimerQueue {
    /// The pending timers as a sorted sequence.
    pub closed spec fn seq(self) -> Seq<Timer> {
        self.timers@
    }

    /// Whether a timer is pending.
    pub open spec fn pending(self, t: Timer) -> bool {
        self.seq().contains(t)
    }

    /// Internal invariant: strict `(time, id)` order, hence unique ids.
    pub open spec fn wf(self) -> bool {
        &&& (forall|i: int, j: int|
            0 <= i < j < self.seq().len() ==> timer_before(
                #[trigger] self.seq()[i],
                #[trigger] self.seq()[j],
            ))
        &&& (forall|i: int, j: int|
            0 <= i < j < self.seq().len() ==> (#[trigger] self.seq()[i]).id
                != (#[trigger] self.seq()[j]).id)
    }

    /// Creates an empty timer queue.
    pub fn new() -> (r: Self)
        ensures
            r.wf(),
            r.seq() == Seq::<Timer>::empty(),
    {
        TimerQueue { timers: Vec::new() }
    }

    /// Inserts a timer. Its id must be fresh.
    pub fn push(&mut self, t: Timer)
        requires
            old(self).wf(),
            forall|i: int| 0 <= i < old(self).seq().len() ==> (#[trigger] old(self).seq()[i]).id != t.id,
        ensures
            final(self).wf(),
            final(self).seq().len() == old(self).seq().len() + 1,
            forall|x: Timer| old(self).seq().contains(x) ==> final(self).seq().contains(x),
            final(self).seq().contains(t),
            forall|x: Timer| final(self).seq().contains(x) ==> old(self).seq().contains(x) || x == t,
    {
        let ghost pre = self.timers@;
        let mut i: usize = self.timers.len();
        while i > 0 && timer_before_exec(&t, &self.timers[i - 1])
            invariant
                i <= self.timers@.len(),
                self.timers@ == pre,
                forall|j: int|
                    i <= j < self.timers@.len() ==> timer_before(t, #[trigger] self.timers@[j]),
            decreases i,
        {
            i = i - 1;
        }
        proof {
            assert(self.timers@ == old(self).seq());
            if i > 0 {
                assert(!timer_before(t, self.timers@[i - 1]));
                assert(self.timers@[i - 1].id != t.id);
                assert(timer_before(self.timers@[i - 1], t));
            }
            assert forall|j: int| 0 <= j < i implies timer_before(#[trigger] self.timers@[j], t) by {
                if j < i - 1 {
                    assert(timer_before(self.timers@[j], self.timers@[i - 1]));
                }
            }
        }
        self.timers.insert(i, t);
        proof {
            let post = self.timers@;
            assert(post == pre.insert(i as int, t));
            assert forall|a: int| 0 <= a < post.len() implies #[trigger] post[a] == (if a < i {
                pre[a]
            } else if a == i {
                t
            } else {
                pre[a - 1]
            }) by {}
            assert forall|a: int, b: int| 0 <= a < b < post.len() implies timer_before(
                #[trigger] post[a],
                #[trigger] post[b],
            ) && post[a].id != post[b].id by {
                if b < i {
                    assert(timer_before(pre[a], pre[b]) && pre[a].id != pre[b].id);
                } else if a < i && b == i {
                    assert(timer_before(pre[a], t));
                } else if a < i && b > i {
                    assert(timer_before(pre[a], t));
                    assert(timer_before(t, pre[b - 1]));
                    assert(pre[a].id != pre[b - 1].id);
                } else if a == i {
                    assert(timer_before(t, pre[b - 1]));
                } else {
                    assert(timer_before(pre[a - 1], pre[b - 1]) && pre[a - 1].id != pre[b - 1].id);
                }
            }
            assert forall|x: Timer| pre.contains(x) implies post.contains(x) by {
                let k = choose|k: int| 0 <= k < pre.len() && pre[k] == x;
                if k < i {
                    assert(post[k] == x);
                } else {
                    assert(post[k + 1] == x);
                }
            }
            assert(post[i as int] == t);
            assert forall|x: Timer| post.contains(x) implies pre.contains(x) || x == t by {
                let k = choose|k: int| 0 <= k < post.len() && post[k] == x;
                if k < i {
                    assert(pre[k] == x);
                } else if k > i {
                    assert(pre[k - 1] == x);
                }
            }
        }
    }

    /// Returns the earliest timer without removing it.
    pub fn peek(&self) -> (r: Option<Timer>)
        requires
            self.wf(),
        ensures
            match r {
                Some(t) => self.seq().len() > 0 && t == self.seq()[0] && (forall|i: int|
                    0 <= i < self.seq().len() ==> timer_le(t, #[trigger] self.seq()[i])),
                None => self.seq().len() == 0,
            },
    {
        if self.timers.len() == 0 {
            None
        } else {
            let t = self.timers[0];
            proof {
                assert forall|i: int| 0 <= i < self.seq().len() implies timer_le(
                    t,
                    #[trigger] self.seq()[i],
                ) by {
                    if i > 0 {
                        assert(timer_before(self.seq()[0], self.seq()[i]));
                    }
                }
            }
            Some(t)
        }
    }

    /// Removes and returns the earliest timer.
    pub fn pop(&mut self) -> (r: Option<Timer>)
        requires
            old(self).wf(),
        ensures
            final(self).wf(),
            match r {
                Some(t) => old(self).seq().len() > 0 && t == old(self).seq()[0] && final(self).seq()
                    == old(self).seq().remove(0) && (forall|i: int|
                    0 <= i < old(self).seq().len() ==> timer_le(t, #[trigger] old(self).seq()[i])),
                None => old(self).seq().len() == 0 && *final(self) == *old(self),
            },
    {
        if self.timers.len() == 0 {
            None
        } else {
            let t = self.timers.remove(0);
            proof {
                let prev = old(self).seq();
                assert forall|a: int| 0 <= a < self.timers@.len() implies #[trigger] self.timers@[a]
                    == prev[a + 1] by {}
                assert forall|a: int, b: int| 0 <= a < b < self.timers@.len() implies timer_before(
                    #[trigger] self.timers@[a],
                    #[trigger] self.timers@[b],
                ) && self.timers@[a].id != self.timers@[b].id by {
                    assert(timer_before(prev[a + 1], prev[b + 1]) && prev[a + 1].id != prev[b
                        + 1].id);
                }
                assert forall|i: int| 0 <= i < prev.len() implies timer_le(t, #[trigger] prev[i]) by {
                    if i > 0 {
                        assert(timer_before(prev[0], prev[i]));
                    }
                }
            }
            Some(t)
        }
    }

    /// Removes every timer set by the given component.
    pub fn cancel_owned_by(&mut self, c: Id)
        requires
            old(self).wf(),
        ensures
            final(self).wf(),
            forall|i: int|
                0 <= i < final(self).seq().len() ==> (#[trigger] final(self).seq()[i]).component_id
                    != c && old(self).seq().contains(final(self).seq()[i]),
            forall|i: int|
                0 <= i < old(self).seq().len() && (#[trigger] old(self).seq()[i]).component_id != c
                    ==> final(self).seq().contains(old(self).seq()[i]),
    {
        let ghost pre = self.timers@;
        let mut kept: Vec<Timer> = Vec::new();
        let mut i: usize = 0;
        while i < self.timers.len()
            invariant
                self.timers@ == pre,
                i <= pre.len(),
                forall|a: int, b: int|
                    0 <= a < b < pre.len() ==> timer_before(#[trigger] pre[a], #[trigger] pre[b])
                        && pre[a].id != pre[b].id,
                forall|a: int|
                    0 <= a < kept@.len() ==> (#[trigger] kept@[a]).component_id != c
                        && pre.contains(kept@[a]),
                forall|j: int|
                    0 <= j < i && (#[trigger] pre[j]).component_id != c ==> kept@.contains(pre[j]),
                forall|a: int, j: int|
                    0 <= a < kept@.len() && i <= j < pre.len() ==> timer_before(
                        #[trigger] kept@[a],
                        #[trigger] pre[j],
                    ) && kept@[a].id != pre[j].id,
                forall|a: int, b: int|
                    0 <= a < b < kept@.len() ==> timer_before(
                        #[trigger] kept@[a],
                        #[trigger] kept@[b],
                    ) && kept@[a].id != kept@[b].id,
            decreases pre.len() - i,
        {
            let t = self.timers[i];
            if t.component_id != c {
                let ghost kept_pre = kept@;
                kept.push(t);
                proof {
                    assert(kept@ == kept_pre.push(t));
                    assert(forall|a: int|
                        0 <= a < kept_pre.len() ==> #[trigger] kept@[a] == kept_pre[a]);
                    assert(kept@[kept_pre.len() as int] == t);
                    assert(pre.contains(t)) by {
                        assert(pre[i as int] == t);
                    }
                    assert forall|a: int, j: int|
                        0 <= a < kept@.len() && i + 1 <= j < pre.len() implies timer_before(
                        #[trigger] kept@[a],
                        #[trigger] pre[j],
                    ) && kept@[a].id != pre[j].id by {
                        if a < kept_pre.len() {
                            assert(timer_before(kept_pre[a], pre[j]));
                        } else {
                            assert(timer_before(pre[i as int], pre[j]));
                        }
                    }
                }
            }
            i = i + 1;
        }
        self.timers = kept;
    }

    /// Number of pending timers.
    pub fn len(&self) -> (r: usize)
        ensures
            r == self.seq().len(),
    {
        self.timers.len()
    }
}

/// Decides the strict `(time, id)` order between two timers.
fn timer_before_exec(a: &Timer, b: &Timer) -> (r: bool)
    ensures
        r == timer_before(*a, *b),
{
    a.time < b.time || (a.time == b.time && a.id < b.id)
}

} // verus!
