//! Identity allocator: issues entity identifiers and recycles destroyed
//! ones.
//!
//! An identifier from the free pool is reused in preference to a fresh
//! one; which pooled identifier is picked is deliberately left open, so
//! callers may rely on membership only. Once the pool is empty, fresh
//! identifiers are issued in strictly increasing order.

use vstd::prelude::*;

verus! {

pub struct EntityManager {
    /// The next never-issued identifier.
    pub next_entity_id: u32,
    /// Identifiers returned by destroyed entities, each held once.
    pub recycled_ids: Vec<u32>,
}

impl EntityManager {
    /// The set of identifiers available for reuse.
    pub open spec fn free_pool(self) -> Set<u32> {
        Set::new(|id: u32| self.recycled_ids@.contains(id))
    }

    /// The pool holds each identifier at most once.
    pub open spec fn wf(self) -> bool {
        forall|i: int, j: int|
            0 <= i < j < self.recycled_ids@.len() ==> self.recycled_ids@[i]
                != self.recycled_ids@[j]
    }

    /// Whether another identifier can be issued at all: either the pool
    /// has one to reuse, or a fresh one is still available.
    pub open spec fn can_allocate(self) -> bool {
        self.recycled_ids@.len() > 0 || self.next_entity_id < u32::MAX
    }

    pub fn new() -> (r: Self)
        ensures
            r.wf(),
            r.next_entity_id == 0,
            r.free_pool() == Set::<u32>::empty(),
    {
        let r = EntityManager { next_entity_id: 0, recycled_ids: Vec::new() };
        proof {
            assert(r.free_pool() =~= Set::<u32>::empty());
        }
        r
    }

    /// Issues an identifier: some member of the free pool if the pool is
    /// non-empty, else the next unused integer.
    pub fn create_entity(&mut self) -> (id: u32)
        requires
            old(self).wf(),
            old(self).can_allocate(),
        ensures
            final(self).wf(),
            if old(self).recycled_ids@.len() > 0 {
                &&& old(self).free_pool().contains(id)
                &&& final(self).free_pool() == old(self).free_pool().remove(id)
                &&& final(self).next_entity_id == old(self).next_entity_id
            } else {
                &&& id == old(self).next_entity_id
                &&& final(self).next_entity_id == old(self).next_entity_id + 1
                &&& final(self).free_pool() == old(self).free_pool()
            },
    {
        match self.recycled_ids.pop() {
            Some(id) => {
                proof {
                    let s_old = old(self).recycled_ids@;
                    let s_new = self.recycled_ids@;
                    assert(s_new =~= s_old.drop_last());
                    assert(s_old.contains(id));
                    assert forall|x: u32|
                        self.free_pool().contains(x) == old(self).free_pool().remove(id).contains(
                            x,
                        ) by {
                        if s_new.contains(x) {
                            let i = choose|i: int| 0 <= i < s_new.len() && s_new[i] == x;
                            assert(s_old[i] == x);
                            assert(x != id);
                        }
                        if s_old.contains(x) && x != id {
                            let i = choose|i: int| 0 <= i < s_old.len() && s_old[i] == x;
                            assert(i != s_old.len() - 1);
                            assert(s_new[i] == x);
                        }
                    }
                    assert(self.free_pool() =~= old(self).free_pool().remove(id));
                }
                id
            },
            None => {
                let id = self.next_entity_id;
                self.next_entity_id = self.next_entity_id + 1;
                proof {
                    assert(self.free_pool() =~= old(self).free_pool());
                }
                id
            },
        }
    }

    /// Returns `id` to the free pool. Destroying an identifier that is
    /// already pooled leaves the pool unchanged.
    pub fn destroy_entity(&mut self, id: u32)
        requires
            old(self).wf(),
        ensures
            final(self).wf(),
            final(self).next_entity_id == old(self).next_entity_id,
            final(self).free_pool() == old(self).free_pool().insert(id),
    {
        let n = self.recycled_ids.len();
        let mut i: usize = 0;
        while i < n
            invariant
                n == self.recycled_ids@.len(),
                i <= n,
                *self == *old(self),
                old(self).wf(),
                forall|j: int| 0 <= j < i ==> self.recycled_ids@[j] != id,
            decreases n - i,
        {
            if self.recycled_ids[i] == id {
                proof {
                    assert(old(self).free_pool().contains(id));
                    assert(self.free_pool() =~= old(self).free_pool().insert(id));
                }
                return ;
            }
            i += 1;
        }
        self.recycled_ids.push(id);
        proof {
            let s_old = old(self).recycled_ids@;
            let s_new = self.recycled_ids@;
            assert forall|x: u32|
                self.free_pool().contains(x) == old(self).free_pool().insert(id).contains(x) by {
                if s_new.contains(x) {
                    let k = choose|k: int| 0 <= k < s_new.len() && s_new[k] == x;
                    if k < s_old.len() {
                        assert(s_old[k] == x);
                    }
                }
                if s_old.contains(x) {
                    let k = choose|k: int| 0 <= k < s_old.len() && s_old[k] == x;
                    assert(s_new[k] == x);
                }
                assert(s_new[s_old.len() as int] == id);
            }
            assert(self.free_pool() =~= old(self).free_pool().insert(id));
        }
    }
}

} // verus!
