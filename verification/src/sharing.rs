//! Fair throughput sharing: a processor-sharing queue with a shared virtual
//! progress counter.
//!
//! The model holds a total throughput `R` and a set of in-flight items. At
//! any instant each active item advances at rate `R / n`, where `n` is the
//! current count. Rather than rescheduling every item on each change, the
//! model tracks a single counter `virt`: the amount of work every active
//! item has received so far. An item inserted at counter value `v` with
//! `work` to do finishes when the counter reaches `v + work`. Elapsed real
//! time `dt` with `n` items advances the counter by `dt * R / n`, rounded
//! down; the projected real finish of the head rounds up.

use vstd::prelude::*;

use crate::event::RunningComputation;

verus! {

/// An in-flight item: its computation and the counter value at which it is
/// done.
#[derive(Clone, Copy, PartialEq, Eq, Structural, Debug)]
pub struct ShareItem {
    /// Counter value at which the item has received all its work.
    pub finish_virt: u128,
    /// The computation the item stands for.
    pub computation: RunningComputation,
}

/// Fair equal-share throughput model.
pub struct FairThroughputSharingModel {
    throughput: u64,
    virt: u128,
    last_update: u64,
    items: Vec<ShareItem>,
}

impl FairThroughputSharingModel {
    /// The total throughput `R`.
    pub closed spec fn rate(self) -> u64 {
        self.throughput
    }

    /// The shared progress counter.
    pub closed spec fn virt_now(self) -> u128 {
        self.virt
    }

    /// The real time of the last recomputation.
    pub closed spec fn last_time(self) -> u64 {
        self.last_update
    }

    /// The in-flight items, ordered by finish counter ascending.
    pub closed spec fn items_seq(self) -> Seq<ShareItem> {
        self.items@
    }

    /// Internal invariant: positive rate, items sorted by finish counter,
    /// and no item more than one full work unit range ahead of the counter
    /// (an item enters with at most `u64::MAX` work left).
    pub open spec fn wf(self) -> bool {
        &&& self.rate() > 0
        &&& (forall|i: int, j: int|
            0 <= i < j < self.items_seq().len() ==> (#[trigger] self.items_seq()[i]).finish_virt
                <= (#[trigger] self.items_seq()[j]).finish_virt)
        &&& (forall|i: int|
            0 <= i < self.items_seq().len() ==> (#[trigger] self.items_seq()[i]).finish_virt
                <= self.virt_now() + u64::MAX)
    }

    /// The counter value after advancing the clock to `now`: each of the `n`
    /// items receives an equal share of the elapsed capacity, rounded down;
    /// with no items the counter stays.
    pub open spec fn advanced_virt(self, now: u64) -> u128 {
        if self.items_seq().len() == 0 {
            self.virt_now()
        } else if self.virt_now() + ((now - self.last_time()) * self.rate()) / (
        self.items_seq().len() as int) <= u128::MAX {
            (self.virt_now() + ((now - self.last_time()) * self.rate()) / (
            self.items_seq().len() as int)) as u128
        } else {
            u128::MAX
        }
    }

    /// The projected real finish time of the head item: the remaining work
    /// under the current share, rounded up, over the current time; saturates
    /// at the end of time.
    pub open spec fn projected_finish(self) -> u64 {
        let head = self.items_seq()[0];
        let n = self.items_seq().len() as int;
        if head.finish_virt <= self.virt_now() {
            self.last_time()
        } else {
            let dt = ((head.finish_virt - self.virt_now()) * n + self.rate() - 1) / (
            self.rate() as int);
            if self.last_time() + dt <= u64::MAX {
                (self.last_time() + dt) as u64
            } else {
                u64::MAX
            }
        }
    }

    /// The finish counter of a new item: the counter plus its work, capped.
    pub open spec fn capped_fin(v: u128, work: u64) -> u128 {
        if v + work <= u128::MAX {
            (v + work) as u128
        } else {
            u128::MAX
        }
    }

    /// `post` is `pre` with `x` inserted at some position, after every item
    /// finishing no later and before every item finishing strictly later.
    pub open spec fn inserted_somewhere(pre: Seq<ShareItem>, post: Seq<ShareItem>, x: ShareItem) -> bool {
        exists|p: int| #[trigger] FairThroughputSharingModel::inserted_at(pre, post, x, p)
    }

    /// `post` is `pre` with `x` inserted at position `p`, after every item
    /// finishing no later and before every item finishing strictly later.
    pub open spec fn inserted_at(pre: Seq<ShareItem>, post: Seq<ShareItem>, x: ShareItem, p: int) -> bool {
        &&& 0 <= p <= pre.len()
        &&& post == pre.insert(p, x)
        &&& (forall|k: int| 0 <= k < p ==> (#[trigger] pre[k]).finish_virt <= x.finish_virt)
        &&& (forall|k: int| p <= k < pre.len() ==> (#[trigger] pre[k]).finish_virt > x.finish_virt)
    }

    /// Creates an empty model with the given fixed throughput.
    pub fn with_fixed_throughput(throughput: u64) -> (r: Self)
        requires
            throughput > 0,
        ensures
            r.wf(),
            r.rate() == throughput,
            r.virt_now() == 0,
            r.last_time() == 0,
            r.items_seq().len() == 0,
    {
        FairThroughputSharingModel { throughput, virt: 0, last_update: 0, items: Vec::new() }
    }

    /// Advances the shared counter to the given time.
    fn update(&mut self, now: u64)
        requires
            old(self).wf(),
            now >= old(self).last_time(),
        ensures
            final(self).wf(),
            final(self).rate() == old(self).rate(),
            final(self).items_seq() == old(self).items_seq(),
            final(self).last_time() == now,
            final(self).virt_now() == old(self).advanced_virt(now),
    {
        let n = self.items.len();
        if n > 0 {
            let dt = (now - self.last_update) as u128;
            let tp = self.throughput as u128;
            proof {
                assert(dt * tp <= 0xffff_ffff_ffff_ffffu128 * 0xffff_ffff_ffff_ffffu128 && dt * tp
                    == (now - self.last_update) * self.throughput) by (nonlinear_arith)
                    requires
                        dt == (now - self.last_update) as u128,
                        tp == self.throughput as u128,
                        now >= self.last_update,
                        dt <= 0xffff_ffff_ffff_ffffu128,
                        tp <= 0xffff_ffff_ffff_ffffu128,
                ;
            }
            let delta = dt * tp / (n as u128);
            if delta <= u128::MAX - self.virt {
                self.virt = self.virt + delta;
            } else {
                self.virt = u128::MAX;
            }
        }
        self.last_update = now;
        proof {
            assert forall|a: int, b: int| 0 <= a < b < self.items@.len() implies (
            #[trigger] self.items@[a]).finish_virt <= (#[trigger] self.items@[b]).finish_virt by {
                assert(old(self).items_seq()[a].finish_virt <= old(self).items_seq()[b].finish_virt);
            }
            assert forall|a: int|
                0 <= a < self.items@.len() implies (#[trigger] self.items@[a]).finish_virt
                <= self.virt + u64::MAX by {
                assert(old(self).items_seq()[a].finish_virt <= old(self).virt_now() + u64::MAX);
            }
        }
    }

    /// Inserts an item with the given remaining work, recomputing the shared
    /// counter at `now` first. The item is placed after every item that does
    /// not finish later.
    #[verifier::rlimit(50)]
    pub fn insert(&mut self, computation: RunningComputation, work: u64, now: u64)
        requires
            old(self).wf(),
            now >= old(self).last_time(),
        ensures
            final(self).wf(),
            final(self).rate() == old(self).rate(),
            final(self).last_time() == now,
            final(self).virt_now() == old(self).advanced_virt(now),
            final(self).items_seq().len() == old(self).items_seq().len() + 1,
            // the new item finishes when the counter has delivered `work` more
            FairThroughputSharingModel::inserted_somewhere(
                old(self).items_seq(),
                final(self).items_seq(),
                ShareItem {
                    finish_virt: FairThroughputSharingModel::capped_fin(
                        old(self).advanced_virt(now),
                        work,
                    ),
                    computation,
                },
            ),
    {
        self.update(now);
        let fin: u128 = if (work as u128) <= u128::MAX - self.virt {
            self.virt + (work as u128)
        } else {
            u128::MAX
        };
        let item = ShareItem { finish_virt: fin, computation };
        let ghost pre = self.items@;
        let mut p: usize = self.items.len();
        while p > 0 && self.items[p - 1].finish_virt > fin
            invariant
                p <= self.items@.len(),
                self.items@ == pre,
                forall|j: int| p <= j < self.items@.len() ==> (#[trigger] self.items@[j]).finish_virt > fin,
            decreases p,
        {
            p = p - 1;
        }
        proof {
            assert forall|k: int| 0 <= k < p implies (#[trigger] pre[k]).finish_virt <= fin by {
                if k < p - 1 {
                    assert(pre[k].finish_virt <= pre[p - 1].finish_virt);
                }
            }
        }
        self.items.insert(p, item);
        proof {
            let post = self.items@;
            assert(post == pre.insert(p as int, item));
            assert forall|a: int| 0 <= a < post.len() implies #[trigger] post[a] == (if a < p {
                pre[a]
            } else if a == p {
                item
            } else {
                pre[a - 1]
            }) by {}
            assert forall|a: int, b: int| 0 <= a < b < post.len() implies (
            #[trigger] post[a]).finish_virt <= (#[trigger] post[b]).finish_virt by {
                if b < p {
                    assert(pre[a].finish_virt <= pre[b].finish_virt);
                } else if a < p && b == p {
                } else if a < p && b > p {
                    assert(pre[a].finish_virt <= fin);
                    assert(fin < pre[b - 1].finish_virt);
                } else if a == p {
                } else {
                    assert(pre[a - 1].finish_virt <= pre[b - 1].finish_virt);
                }
            }
            assert(item.finish_virt == FairThroughputSharingModel::capped_fin(
                old(self).advanced_virt(now),
                work,
            ));
            assert(FairThroughputSharingModel::inserted_at(pre, post, item, p as int));
            assert(item == (ShareItem {
                finish_virt: FairThroughputSharingModel::capped_fin(
                    old(self).advanced_virt(now),
                    work,
                ),
                computation,
            }));
            assert(pre == old(self).items_seq());
            assert(FairThroughputSharingModel::inserted_somewhere(
                old(self).items_seq(),
                post,
                ShareItem {
                    finish_virt: FairThroughputSharingModel::capped_fin(
                        old(self).advanced_virt(now),
                        work,
                    ),
                    computation,
                },
            )) by {
                assert(FairThroughputSharingModel::inserted_at(
                    old(self).items_seq(),
                    post,
                    ShareItem {
                        finish_virt: FairThroughputSharingModel::capped_fin(
                            old(self).advanced_virt(now),
                            work,
                        ),
                        computation,
                    },
                    p as int,
                ));
            }
        }
    }

    /// Returns the projected finish time and computation of the earliest
    /// finishing item, without removing it.
    pub fn peek(&self) -> (r: Option<(u64, RunningComputation)>)
        requires
            self.wf(),
        ensures
            match r {
                Some(tc) => self.items_seq().len() > 0 && tc.0 == self.projected_finish() && tc.1
                    == self.items_seq()[0].computation,
                None => self.items_seq().len() == 0,
            },
    {
        if self.items.len() == 0 {
            return None;
        }
        let head = self.items[0];
        let n = self.items.len() as u128;
        let time: u64 = if head.finish_virt <= self.virt {
            self.last_update
        } else {
            let rem = head.finish_virt - self.virt;
            let rp = self.throughput as u128;
            proof {
                assert(self.items_seq()[0].finish_virt <= self.virt_now() + u64::MAX);
                assert(rem <= u64::MAX);
                assert(n <= 0xffff_ffff_ffff_ffffu128 + 1);
                assert(rem * n <= 0xffff_ffff_ffff_ffffu128 * (0xffff_ffff_ffff_ffffu128 + 1))
                    by (nonlinear_arith)
                    requires
                        rem <= 0xffff_ffff_ffff_ffffu128,
                        n <= 0xffff_ffff_ffff_ffffu128 + 1,
                ;
            }
            let num = rem * n + (rp - 1);
            let dt = num / rp;
            if dt <= (u64::MAX - self.last_update) as u128 {
                self.last_update + (dt as u64)
            } else {
                u64::MAX
            }
        };
        Some((time, head.computation))
    }

    /// Removes the earliest finishing item, recomputing the shared counter
    /// at `now` first and raising it to the removed item's finish counter:
    /// every other item has then received exactly the same share.
    pub fn pop(&mut self, now: u64) -> (r: Option<RunningComputation>)
        requires
            old(self).wf(),
            now >= old(self).last_time(),
        ensures
            final(self).wf(),
            final(self).rate() == old(self).rate(),
            match r {
                Some(c) => old(self).items_seq().len() > 0 && c == old(self).items_seq()[0].computation && final(self).items_seq() == old(self).items_seq().remove(0) && final(self).last_time() == now && final(self).virt_now()
                    >= old(self).items_seq()[0].finish_virt && final(self).virt_now() >= old(self).advanced_virt(now) && (final(self).virt_now() == old(self).advanced_virt(now)
                    || final(self).virt_now() == old(self).items_seq()[0].finish_virt) && (forall|
                    k: int,
                |
                    0 <= k < final(self).items_seq().len() ==> (
                    #[trigger] final(self).items_seq()[k]).finish_virt >= old(self).items_seq()[0].finish_virt),
                None => old(self).items_seq().len() == 0 && final(self).items_seq().len() == 0
                    && final(self).last_time() == now && final(self).virt_now() == old(self).advanced_virt(now),
            },
    {
        if self.items.len() == 0 {
            self.update(now);
            return None;
        }
        self.update(now);
        let head = self.items.remove(0);
        if self.virt < head.finish_virt {
            self.virt = head.finish_virt;
        }
        proof {
            let pre = old(self).items_seq();
            assert forall|a: int| 0 <= a < self.items@.len() implies #[trigger] self.items@[a]
                == pre[a + 1] by {}
            assert forall|a: int, b: int| 0 <= a < b < self.items@.len() implies (
            #[trigger] self.items@[a]).finish_virt <= (#[trigger] self.items@[b]).finish_virt by {
                assert(pre[a + 1].finish_virt <= pre[b + 1].finish_virt);
            }
            assert forall|k: int|
                0 <= k < self.items@.len() implies (#[trigger] self.items@[k]).finish_virt
                >= pre[0].finish_virt by {
                assert(pre[0].finish_virt <= pre[k + 1].finish_virt);
            }
        }
        Some(head.computation)
    }

    /// Number of in-flight items.
    pub fn len(&self) -> (r: usize)
        ensures
            r == self.items_seq().len(),
    {
        self.items.len()
    }

    /// The projection never lies before the last recomputation time.
    pub proof fn lemma_projected_ge_last(m: FairThroughputSharingModel)
        requires
            m.wf(),
            m.items_seq().len() > 0,
        ensures
            m.projected_finish() >= m.last_time(),
    {
        let head = m.items_seq()[0];
        if head.finish_virt > m.virt_now() {
            let n = m.items_seq().len() as int;
            let num = (head.finish_virt - m.virt_now()) * n + m.rate() - 1;
            assert(num >= 0) by (nonlinear_arith)
                requires
                    head.finish_virt > m.virt_now(),
                    n > 0,
                    m.rate() > 0,
                    num == (head.finish_virt - m.virt_now()) * n + m.rate() - 1,
            ;
            assert(num / (m.rate() as int) >= 0) by (nonlinear_arith)
                requires
                    num >= 0,
                    m.rate() > 0,
            ;
        }
    }

    /// Items that finish at the same counter value complete at the same
    /// real time: once the head is popped at its projected finish, the next
    /// item with an equal finish counter projects that same instant.
    ///
    /// With `m` equal computations started together this yields a single
    /// common completion time for all of them: the fair share is exact.
    pub proof fn lemma_equal_finish_completes_together(post: FairThroughputSharingModel, fin: u128)
        requires
            post.wf(),
            post.items_seq().len() > 0,
            post.items_seq()[0].finish_virt == fin,
            post.virt_now() >= fin,
        ensures
            post.projected_finish() == post.last_time(),
    {
    }

    /// Completion order matches remaining work ascending: the head is the
    /// item with the least finish counter, so of two items inserted at the
    /// same counter value the one with less work leaves first.
    pub proof fn lemma_completion_order(m: FairThroughputSharingModel, k: int)
        requires
            m.wf(),
            0 <= k < m.items_seq().len(),
        ensures
            m.items_seq()[0].finish_virt <= m.items_seq()[k].finish_virt,
    {
        if k > 0 {
            assert(m.items_seq()[0].finish_virt <= m.items_seq()[k].finish_virt);
        }
    }
}

} // verus!
