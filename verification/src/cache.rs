//! The TTL cache: maps a query to its answer together with the instant at
//! which the answer expires.  Entries are evicted lazily, on the read that
//! finds them expired; there is no background sweep and no capacity bound.

use vstd::prelude::*;

use crate::CacheEntry;
use crate::CacheEntryView;
use crate::Query;
use crate::QueryView;
use crate::query_eq;

verus! {

/// The cache's mathematical value: the stored (query, entry) pairs in
/// insertion order.
pub open spec fn pairs_view(v: Seq<(Query, CacheEntry)>) -> Seq<(QueryView, CacheEntryView)> {
    v.map_values(|p: (Query, CacheEntry)| (p.0@, p.1@))
}

/// Some pair of the cache carries this query.
pub open spec fn cache_has(c: Seq<(QueryView, CacheEntryView)>, q: QueryView) -> bool {
    exists|i: int| 0 <= i < c.len() && c[i].0 == q
}

/// The position of the pair carrying this query; meaningful under
/// [`cache_wf`], which makes it unique.
pub open spec fn cache_idx(c: Seq<(QueryView, CacheEntryView)>, q: QueryView) -> int {
    choose|i: int| 0 <= i < c.len() && c[i].0 == q
}

/// The entry stored for this query.
pub open spec fn cache_entry(c: Seq<(QueryView, CacheEntryView)>, q: QueryView) -> CacheEntryView {
    c[cache_idx(c, q)].1
}

/// The cache holds an entry for the query that has not yet expired.  An
/// entry is fresh strictly before its expiry instant: a read at or after
/// `expire` evicts it.
pub open spec fn cache_fresh(
    c: Seq<(QueryView, CacheEntryView)>,
    q: QueryView,
    now: u64,
) -> bool {
    cache_has(c, q) && now < cache_entry(c, q).expire
}

/// The cache after a read of `q` at instant `now`: unchanged, except that a
/// present entry that has expired is removed.
pub open spec fn cache_after_read(
    c: Seq<(QueryView, CacheEntryView)>,
    q: QueryView,
    now: u64,
) -> Seq<(QueryView, CacheEntryView)> {
    if cache_has(c, q) && !cache_fresh(c, q, now) {
        c.remove(cache_idx(c, q))
    } else {
        c
    }
}

/// The cache after a write: the pair for `q` is replaced when present and
/// appended otherwise.
pub open spec fn cache_put_spec(
    c: Seq<(QueryView, CacheEntryView)>,
    q: QueryView,
    e: CacheEntryView,
) -> Seq<(QueryView, CacheEntryView)> {
    if cache_has(c, q) {
        c.update(cache_idx(c, q), (q, e))
    } else {
        c.push((q, e))
    }
}

/// Well-formedness: no two pairs carry the same query.
pub open spec fn cache_wf(c: Seq<(QueryView, CacheEntryView)>) -> bool {
    forall|i: int, j: int| 0 <= i < j < c.len() ==> c[i].0 != c[j].0
}

/// Under [`cache_wf`], any position whose pair carries `q` is the position
/// [`cache_idx`] names.
pub proof fn lemma_cache_idx_unique(c: Seq<(QueryView, CacheEntryView)>, q: QueryView, i: int)
    requires
        cache_wf(c),
        0 <= i < c.len(),
        c[i].0 == q,
    ensures
        cache_has(c, q),
        cache_idx(c, q) == i,
{
    assert(cache_has(c, q));
    let j = cache_idx(c, q);
    if i < j {
        assert(c[i].0 != c[j].0);
    } else if j < i {
        assert(c[j].0 != c[i].0);
    }
}

/// A write leaves its own pair in place and every other query's entry
/// untouched.
pub proof fn lemma_cache_put_effect(
    c: Seq<(QueryView, CacheEntryView)>,
    q: QueryView,
    e: CacheEntryView,
)
    requires
        cache_wf(c),
    ensures
        cache_wf(cache_put_spec(c, q, e)),
        cache_has(cache_put_spec(c, q, e), q),
        cache_entry(cache_put_spec(c, q, e), q) == e,
{
    let post = cache_put_spec(c, q, e);
    if cache_has(c, q) {
        let i = cache_idx(c, q);
        assert(0 <= i < c.len() && c[i].0 == q);
        assert(post[i] == (q, e));
        assert(forall|j: int| 0 <= j < post.len() && j != i ==> post[j] == c[j]);
        assert(cache_wf(post));
        lemma_cache_idx_unique(post, q, i);
    } else {
        assert(post[c.len() as int] == (q, e));
        assert(forall|j: int| 0 <= j < c.len() ==> post[j] == c[j]);
        assert(forall|j: int| 0 <= j < c.len() ==> post[j].0 != q);
        assert(cache_wf(post));
        lemma_cache_idx_unique(post, q, c.len() as int);
    }
}

/// A read at or after the expiry leaves no entry behind for the query.
pub proof fn lemma_expired_read_evicts(c: Seq<(QueryView, CacheEntryView)>, q: QueryView, now: u64)
    requires
        cache_wf(c),
        cache_has(c, q),
        !cache_fresh(c, q, now),
    ensures
        !cache_has(cache_after_read(c, q, now), q),
{
    let i = cache_idx(c, q);
    let post = cache_after_read(c, q, now);
    assert(0 <= i < c.len() && c[i].0 == q);
    assert(forall|j: int|
        0 <= j < post.len() ==> post[j] == if j < i {
            c[j]
        } else {
            c[j + 1]
        });
    assert forall|j: int| 0 <= j < post.len() implies post[j].0 != q by {
        if j < i {
            assert(c[j].0 != c[i].0);
        } else {
            assert(c[i].0 != c[j + 1].0);
        }
    }
}

/// The TTL cache.
pub struct Cache {
    entries: Vec<(Query, CacheEntry)>,
}

impl View for Cache {
    type V = Seq<(QueryView, CacheEntryView)>;

    closed spec fn view(&self) -> Seq<(QueryView, CacheEntryView)> {
        pairs_view(self.entries@)
    }
}

impl Cache {
    /// An empty cache.
    pub fn new() -> (r: Cache)
        ensures
            r@ == Seq::<(QueryView, CacheEntryView)>::empty(),
            cache_wf(r@),
    {
        let r = Cache { entries: Vec::new() };
        proof {
            assert(r@ =~= Seq::<(QueryView, CacheEntryView)>::empty());
        }
        r
    }

    /// The position of the pair carrying `q`, if any.
    fn find(&self, q: &Query) -> (r: Option<usize>)
        ensures
            r matches Some(i) ==> i < self@.len() && self@[i as int].0 == q@,
            r is None ==> !cache_has(self@, q@),
    {
        let mut i: usize = 0;
        while i < self.entries.len()
            invariant
                i <= self.entries@.len(),
                self@.len() == self.entries@.len(),
                forall|k: int| 0 <= k < i ==> self@[k].0 != q@,
            decreases self.entries@.len() - i,
        {
            if query_eq(&self.entries[i].0, q) {
                return Some(i);
            }
            i = i + 1;
        }
        None
    }

    /// Reads the entry for `q` at instant `now`.  A present, unexpired entry
    /// is handed out as a copy; a present, expired entry is evicted and the
    /// read misses.
    pub fn get_fresh(&mut self, q: &Query, now: u64) -> (r: Option<CacheEntry>)
        requires
            cache_wf(old(self)@),
        ensures
            cache_wf(final(self)@),
            final(self)@ == cache_after_read(old(self)@, q@, now),
            r matches Some(e) ==> cache_fresh(old(self)@, q@, now) && e@ == cache_entry(
                old(self)@,
                q@,
            ),
            r is None ==> !cache_fresh(old(self)@, q@, now),
    {
        let ghost pre = self@;
        match self.find(q) {
            None => None,
            Some(i) => {
                proof {
                    lemma_cache_idx_unique(pre, q@, i as int);
                }
                if now < self.entries[i].1.expire {
                    Some(self.entries[i].1.clone())
                } else {
                    self.entries.remove(i);
                    proof {
                        assert(self@ =~= pre.remove(i as int));
                        assert(forall|a: int, b: int|
                            0 <= a < b < self@.len() ==> self@[a].0 != self@[b].0) by {
                            assert(forall|a: int|
                                0 <= a < self@.len() ==> self@[a] == if a < i as int {
                                    pre[a]
                                } else {
                                    pre[a + 1]
                                });
                        }
                    }
                    None
                }
            },
        }
    }

    /// Writes the entry for `q`, replacing any prior one.
    pub fn put(&mut self, q: Query, e: CacheEntry)
        requires
            cache_wf(old(self)@),
        ensures
            cache_wf(final(self)@),
            final(self)@ == cache_put_spec(old(self)@, q@, e@),
    {
        let ghost pre = self@;
        match self.find(&q) {
            Some(i) => {
                proof {
                    lemma_cache_idx_unique(pre, q@, i as int);
                }
                self.entries.remove(i);
                self.entries.insert(i, (q, e));
                proof {
                    assert(self@ =~= pre.update(i as int, (q@, e@)));
                }
            },
            None => {
                self.entries.push((q, e));
                proof {
                    assert(self@ =~= pre.push((q@, e@)));
                }
            },
        }
    }

}

} // verus!
