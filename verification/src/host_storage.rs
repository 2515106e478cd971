//! The process-to-host registry shared by the cluster and its hosts.

use vstd::prelude::*;

use crate::Id;

verus! {

broadcast use vstd::seq_lib::lemma_seq_contains_after_push;

/// Maps each running process to the host it was placed on.
pub struct ProcessHostStorage {
    process_to_host: Vec<(u64, Id)>,
}

impl ProcessHostStorage {
    /// The mapping as a sequence of `(process, host)` pairs with unique
    /// process ids.
    pub closed spec fn entries(self) -> Seq<(u64, Id)> {
        self.process_to_host@
    }

    /// Whether the process is mapped.
    pub open spec fn has_process(self, process_id: u64) -> bool {
        exists|i: int|
            0 <= i < self.entries().len() && (#[trigger] self.entries()[i]).0 == process_id
    }

    /// The host a mapped process was placed on.
    pub open spec fn host_of(self, process_id: u64) -> Id {
        self.entries()[choose|i: int|
            0 <= i < self.entries().len() && (#[trigger] self.entries()[i]).0 == process_id].1
    }

    /// Process ids are unique.
    pub open spec fn wf(self) -> bool {
        forall|i: int, j: int|
            0 <= i < j < self.entries().len() ==> (#[trigger] self.entries()[i]).0 != (
            #[trigger] self.entries()[j]).0
    }

    /// Creates an empty registry.
    pub fn new() -> (r: ProcessHostStorage)
        ensures
            r.wf(),
            r.entries().len() == 0,
    {
        ProcessHostStorage { process_to_host: Vec::new() }
    }

    /// Returns the host of a mapped process.
    pub fn get_host_id(&self, process_id: u64) -> (r: Id)
        requires
            self.wf(),
            self.has_process(process_id),
        ensures
            r == self.host_of(process_id),
    {
        let mut i: usize = 0;
        while i < self.process_to_host.len()
            invariant
                self.wf(),
                self.has_process(process_id),
                i <= self.entries().len(),
                forall|j: int| 0 <= j < i ==> (#[trigger] self.entries()[j]).0 != process_id,
            decreases self.entries().len() - i,
        {
            if self.process_to_host[i].0 == process_id {
                proof {
                    let w = choose|w: int|
                        0 <= w < self.entries().len() && (#[trigger] self.entries()[w]).0
                            == process_id;
                    assert(w == i);
                }
                return self.process_to_host[i].1;
            }
            i = i + 1;
        }
        proof {
            let w = choose|w: int|
                0 <= w < self.entries().len() && (#[trigger] self.entries()[w]).0 == process_id;
            assert(self.entries()[w].0 != process_id);
        }
        0
    }

    /// Records the host of a process; an existing entry is replaced.
    pub fn set_host_id(&mut self, process_id: u64, host_id: Id)
        requires
            old(self).wf(),
        ensures
            final(self).wf(),
            final(self).has_process(process_id),
            final(self).host_of(process_id) == host_id,
            forall|p: u64|
                p != process_id ==> final(self).has_process(p) == old(self).has_process(p),
    {
        self.remove_process(process_id);
        let ghost mid = *self;
        let ghost pre = self.process_to_host@;
        proof {
            assert forall|a: int| 0 <= a < pre.len() implies (#[trigger] pre[a]).0
                != process_id by {
                if pre[a].0 == process_id {
                    assert(mid.entries()[a].0 == process_id);
                    assert(mid.has_process(process_id));
                }
            }
        }
        self.process_to_host.push((process_id, host_id));
        proof {
            assert(self.entries()[pre.len() as int] == (process_id, host_id));
            assert forall|a: int, b: int|
                0 <= a < b < self.entries().len() implies (#[trigger] self.entries()[a]).0 != (
            #[trigger] self.entries()[b]).0 by {
                if b < pre.len() {
                    assert(mid.entries()[a].0 != mid.entries()[b].0);
                } else {
                    assert(pre[a].0 != process_id);
                }
            }
            assert(self.has_process(process_id)) by {
                assert(self.entries()[pre.len() as int].0 == process_id);
            }
            let w = choose|w: int|
                0 <= w < self.entries().len() && (#[trigger] self.entries()[w]).0 == process_id;
            assert(w == pre.len()) by {
                if w < pre.len() {
                    assert(pre[w].0 != process_id);
                }
            }
            assert forall|p: u64|
                p != process_id implies self.has_process(p) == mid.has_process(p) by {
                if mid.has_process(p) {
                    let j = choose|j: int|
                        0 <= j < pre.len() && (#[trigger] mid.entries()[j]).0 == p;
                    assert(self.entries()[j].0 == p);
                }
                if self.has_process(p) {
                    let j = choose|j: int|
                        0 <= j < self.entries().len() && (#[trigger] self.entries()[j]).0 == p;
                    assert(j < pre.len()) by {
                        if j == pre.len() {
                            assert(self.entries()[j].0 == process_id);
                        }
                    }
                    assert(mid.entries()[j].0 == p);
                }
            }
        }
    }

    /// Removes the mapping of a process, if present.
    pub fn remove_process(&mut self, process_id: u64)
        requires
            old(self).wf(),
        ensures
            final(self).wf(),
            !final(self).has_process(process_id),
            forall|p: u64|
                p != process_id ==> final(self).has_process(p) == old(self).has_process(p),
            forall|i: int|
                0 <= i < final(self).entries().len() ==> old(self).entries().contains(
                    #[trigger] final(self).entries()[i],
                ),
            forall|i: int|
                0 <= i < old(self).entries().len() && (#[trigger] old(self).entries()[i]).0
                    != process_id ==> final(self).entries().contains(old(self).entries()[i]),
    {
        let ghost pre = self.process_to_host@;
        proof {
            assert forall|a: int, b: int|
                0 <= a < b < pre.len() implies (#[trigger] pre[a]).0 != (#[trigger] pre[b]).0 by {
                assert(old(self).entries()[a].0 != old(self).entries()[b].0);
            }
        }
        let mut kept: Vec<(u64, Id)> = Vec::new();
        let mut i: usize = 0;
        while i < self.process_to_host.len()
            invariant
                self.process_to_host@ == pre,
                i <= pre.len(),
                forall|a: int, b: int|
                    0 <= a < b < pre.len() ==> (#[trigger] pre[a]).0 != (#[trigger] pre[b]).0,
                forall|a: int|
                    0 <= a < kept@.len() ==> (#[trigger] kept@[a]).0 != process_id && pre.contains(
                        kept@[a],
                    ),
                forall|j: int|
                    0 <= j < i && (#[trigger] pre[j]).0 != process_id ==> kept@.contains(pre[j]),
                forall|a: int, j: int|
                    0 <= a < kept@.len() && i <= j < pre.len() ==> (#[trigger] kept@[a]).0 != (
                    #[trigger] pre[j]).0,
                forall|a: int, b: int|
                    0 <= a < b < kept@.len() ==> (#[trigger] kept@[a]).0 != (#[trigger] kept@[b]).0,
            decreases pre.len() - i,
        {
            let entry = self.process_to_host[i];
            if entry.0 != process_id {
                let ghost kept_pre = kept@;
                kept.push(entry);
                proof {
                    assert(kept@[kept_pre.len() as int] == entry);
                    assert(pre.contains(entry)) by {
                        assert(pre[i as int] == entry);
                    }
                    assert forall|a: int, j: int|
                        0 <= a < kept@.len() && i + 1 <= j < pre.len() implies (
                    #[trigger] kept@[a]).0 != (#[trigger] pre[j]).0 by {
                        if a < kept_pre.len() {
                            assert(kept_pre[a].0 != pre[j].0);
                        } else {
                            assert(pre[i as int].0 != pre[j].0);
                        }
                    }
                }
            }
            i = i + 1;
        }
        self.process_to_host = kept;
        proof {
            assert(!self.has_process(process_id)) by {
                if self.has_process(process_id) {
                    let a = choose|a: int|
                        0 <= a < self.entries().len() && (#[trigger] self.entries()[a]).0
                            == process_id;
                    assert(self.entries()[a].0 != process_id);
                }
            }
            assert forall|p: u64|
                p != process_id implies self.has_process(p) == old(self).has_process(p) by {
                if old(self).has_process(p) {
                    let j = choose|j: int|
                        0 <= j < pre.len() && (#[trigger] old(self).entries()[j]).0 == p;
                    assert(pre[j].0 == p);
                    assert(kept@.contains(pre[j]));
                    let a = choose|a: int| 0 <= a < kept@.len() && kept@[a] == pre[j];
                    assert(self.entries()[a].0 == p);
                }
                if self.has_process(p) {
                    let a = choose|a: int|
                        0 <= a < self.entries().len() && (#[trigger] self.entries()[a]).0 == p;
                    assert(pre.contains(self.entries()[a]));
                    let j = choose|j: int| 0 <= j < pre.len() && pre[j] == self.entries()[a];
                    assert(old(self).entries()[j].0 == p);
                }
            }
        }
    }
}

} // verus!
