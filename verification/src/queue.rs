//! The warming work queue and the indexed set.
//!
//! A [`WorkQueue`] holds track IDs waiting for tag extraction, in arrival
//! order and with set semantics: an ID sits in the queue at most once, no
//! matter how often it is scheduled. An [`IndexedSet`] records the IDs that
//! have completed at least one successful warm pass.

use vstd::prelude::*;

verus! {

broadcast use vstd::seq_lib::lemma_seq_contains_after_push;

/// What enqueueing does: nothing when the ID is already queued, otherwise an
/// append at the tail.
pub open spec fn spec_enqueue(q: Seq<u32>, id: u32) -> Seq<u32> {
    if q.contains(id) {
        q
    } else {
        q.push(id)
    }
}

/// Queue-dedup law: a second enqueue of the same ID, before it is dequeued,
/// changes nothing — in particular the queue length stays the same.
pub proof fn lemma_enqueue_dedup(q: Seq<u32>, id: u32)
    ensures
        spec_enqueue(spec_enqueue(q, id), id) == spec_enqueue(q, id),
        spec_enqueue(spec_enqueue(q, id), id).len() == spec_enqueue(q, id).len(),
{
    assert(spec_enqueue(q, id).contains(id));
}

/// Track IDs pending (re-)extraction, each at most once, in arrival order.
pub struct WorkQueue {
    items: Vec<u32>,
}

impl View for WorkQueue {
    type V = Seq<u32>;

    closed spec fn view(&self) -> Seq<u32> {
        self.items@
    }
}

impl WorkQueue {
    /// The queue never holds an ID twice.
    pub open spec fn wf(&self) -> bool {
        self@.no_duplicates()
    }

    /// An empty queue.
    pub fn new() -> (r: WorkQueue)
        ensures
            r.wf(),
            r@ == Seq::<u32>::empty(),
    {
        WorkQueue { items: Vec::new() }
    }

    /// How many IDs are waiting.
    pub fn len(&self) -> (r: usize)
        ensures
            r == self@.len(),
    {
        self.items.len()
    }

    /// Whether `id` is already waiting.
    pub fn contains(&self, id: u32) -> (r: bool)
        ensures
            r == self@.contains(id),
    {
        let n = self.items.len();
        let mut i: usize = 0;
        while i < n
            invariant
                n == self@.len(),
                i <= n,
                forall|j: int| 0 <= j < i ==> self@[j] != id,
            decreases n - i,
        {
            if self.items[i] == id {
                return true;
            }
            i = i + 1;
        }
        false
    }

    /// Schedule `id` for warming: a no-op when it is already queued, so the
    /// queue length never grows from rescheduling.
    pub fn enqueue(&mut self, id: u32)
        requires
            old(self).wf(),
        ensures
            final(self).wf(),
            final(self)@ == spec_enqueue(old(self)@, id),
    {
        if !self.contains(id) {
            proof {
                crate::catalog::lemma_push_keeps_no_duplicates(self@, id);
            }
            self.items.push(id);
        }
    }

    /// Take the oldest waiting ID, or nothing when the queue is empty.
    pub fn dequeue(&mut self) -> (r: Option<u32>)
        requires
            old(self).wf(),
        ensures
            final(self).wf(),
            match r {
                Some(id) => old(self)@.len() > 0 && id == old(self)@[0] && final(self)@ == old(
                    self,
                )@.subrange(1, old(self)@.len() as int),
                None => old(self)@.len() == 0 && final(self)@ == old(self)@,
            },
    {
        if self.items.len() == 0 {
            None
        } else {
            let id = self.items.remove(0);
            proof {
                assert(self@ =~= old(self)@.subrange(1, old(self)@.len() as int));
                assert forall|i: int, j: int|
                    0 <= i < self@.len() && 0 <= j < self@.len() && i != j implies self@[i]
                    != self@[j] by {
                    assert(self@[i] == old(self)@[i + 1]);
                    assert(self@[j] == old(self)@[j + 1]);
                }
            }
            Some(id)
        }
    }
}

/// IDs that have completed at least one successful warm pass.
pub struct IndexedSet {
    items: Vec<u32>,
}

impl View for IndexedSet {
    type V = Set<u32>;

    closed spec fn view(&self) -> Set<u32> {
        self.items@.to_set()
    }
}

impl IndexedSet {
    /// An empty set.
    pub fn new() -> (r: IndexedSet)
        ensures
            r@ == Set::<u32>::empty(),
    {
        let r = IndexedSet { items: Vec::new() };
        proof {
            assert(r@ =~= Set::<u32>::empty());
        }
        r
    }

    /// Whether `id` has been warmed before.
    pub fn contains(&self, id: u32) -> (r: bool)
        ensures
            r == self@.contains(id),
    {
        let n = self.items.len();
        let mut i: usize = 0;
        while i < n
            invariant
                n == self.items@.len(),
                i <= n,
                forall|j: int| 0 <= j < i ==> self.items@[j] != id,
            decreases n - i,
        {
            if self.items[i] == id {
                return true;
            }
            i = i + 1;
        }
        false
    }

    /// Record that `id` completed a warm pass.
    pub fn insert(&mut self, id: u32)
        ensures
            final(self)@ == old(self)@.insert(id),
    {
        if !self.contains(id) {
            self.items.push(id);
        }
        proof {
            assert(self@ =~= old(self)@.insert(id));
        }
    }
}

} // verus!
