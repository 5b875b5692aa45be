//! The timeout queue: (deadline, transaction id) pairs kept in ascending
//! deadline order.  The queue may hold entries whose transaction id no
//! longer names a pending request — a retry replaces the id — and such
//! stale entries are discarded, not acted on, when they surface.

use vstd::prelude::*;

verus! {

/// One scheduled timeout: the instant, in milliseconds, at which the
/// request named by `id` should be retried or failed.
#[derive(Clone, Copy, Debug, PartialEq, Eq, Structural)]
pub struct TimeEntry {
    pub deadline: u64,
    pub id: u16,
}

/// Entries stand in ascending deadline order.
pub open spec fn sorted(s: Seq<TimeEntry>) -> bool {
    forall|i: int, j: int| 0 <= i < j < s.len() ==> s[i].deadline <= s[j].deadline
}

/// A min-ordered queue of timeouts.
pub struct TimeoutQueue {
    entries: Vec<TimeEntry>,
}

impl View for TimeoutQueue {
    type V = Seq<TimeEntry>;

    closed spec fn view(&self) -> Seq<TimeEntry> {
        self.entries@
    }
}

impl TimeoutQueue {
    /// An empty queue.
    pub fn new() -> (r: TimeoutQueue)
        ensures
            r@ == Seq::<TimeEntry>::empty(),
            sorted(r@),
    {
        let r = TimeoutQueue { entries: Vec::new() };
        proof {
            assert(r@ =~= Seq::<TimeEntry>::empty());
        }
        r
    }

    /// Inserts an entry at its position in deadline order.
    pub fn push(&mut self, e: TimeEntry)
        requires
            sorted(old(self)@),
        ensures
            sorted(final(self)@),
            final(self)@.len() == old(self)@.len() + 1,
            final(self)@.contains(e),
            forall|x: TimeEntry| old(self)@.contains(x) ==> final(self)@.contains(x),
            forall|x: TimeEntry| final(self)@.contains(x) ==> old(self)@.contains(x) || x == e,
    {
        let ghost pre = self@;
        let mut i: usize = 0;
        while i < self.entries.len() && self.entries[i].deadline <= e.deadline
            invariant
                i <= self.entries@.len(),
                self@ == pre,
                forall|k: int| 0 <= k < i ==> self@[k].deadline <= e.deadline,
            decreases self.entries@.len() - i,
        {
            i = i + 1;
        }
        self.entries.insert(i, e);
        proof {
            let post = self@;
            assert(post == pre.insert(i as int, e));
            assert(forall|k: int| 0 <= k < i ==> post[k] == pre[k]);
            assert(post[i as int] == e);
            assert(forall|k: int| i < k < post.len() ==> post[k] == pre[k - 1]);
            assert(sorted(post)) by {
                assert(forall|k: int| i <= k < pre.len() ==> pre[k].deadline >= e.deadline) by {
                    assert(i < pre.len() ==> pre[i as int].deadline > e.deadline);
                    assert(forall|k: int|
                        i < k < pre.len() ==> pre[i as int].deadline <= pre[k].deadline);
                }
            }
            assert(forall|x: TimeEntry| pre.contains(x) ==> post.contains(x)) by {
                assert(forall|k: int|
                    0 <= k < pre.len() ==> post[if k < i as int {
                        k
                    } else {
                        k + 1
                    }] == pre[k]);
            }
            assert(forall|x: TimeEntry| post.contains(x) ==> pre.contains(x) || x == e) by {
                assert(forall|k: int|
                    0 <= k < post.len() && k != i as int ==> pre[if k < i as int {
                        k
                    } else {
                        k - 1
                    }] == post[k]);
            }
        }
    }

    /// Removes and returns the entry with the least deadline.
    pub fn pop_min(&mut self) -> (r: Option<TimeEntry>)
        requires
            sorted(old(self)@),
        ensures
            sorted(final(self)@),
            old(self)@.len() == 0 ==> r is None && final(self)@ == old(self)@,
            old(self)@.len() > 0 ==> r == Some(old(self)@[0]) && final(self)@ == old(
                self,
            )@.drop_first(),
    {
        if self.entries.len() == 0 {
            return None;
        }
        let e = self.entries[0];
        self.entries.remove(0);
        proof {
            assert(self@ =~= old(self)@.drop_first());
        }
        Some(e)
    }

    /// The entry with the least deadline, if any, left in place.
    pub fn peek(&self) -> (r: Option<TimeEntry>)
        ensures
            self@.len() == 0 ==> r is None,
            self@.len() > 0 ==> r == Some(self@[0]),
    {
        if self.entries.len() == 0 {
            None
        } else {
            Some(self.entries[0])
        }
    }

    /// Whether the earliest scheduled timeout has been reached at `now`.
    pub fn head_due(&self, now: u64) -> (r: bool)
        ensures
            r == (self@.len() > 0 && self@[0].deadline <= now),
    {
        match self.peek() {
            None => false,
            Some(e) => e.deadline <= now,
        }
    }

    /// The number of entries, stale ones included.
    pub fn len(&self) -> (r: usize)
        ensures
            r == self@.len(),
    {
        self.entries.len()
    }
}

} // verus!
