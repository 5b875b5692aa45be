//! The engine's laws: properties that tie several operations together,
//! stated and proved over the machine's mathematical value.  Each law is a
//! public proof function; its premises are the contracts of the operations
//! it speaks about.

use vstd::prelude::*;

use crate::CacheEntryView;
use crate::QueryView;
use crate::addr::ServerAddr;
use crate::cache::cache_after_read;
use crate::cache::cache_entry;
use crate::cache::cache_fresh;
use crate::cache::cache_has;
use crate::cache::cache_wf;
use crate::cache::lemma_cache_put_effect;
use crate::fsm::MAX_TIME;
use crate::fsm::MachineView;
use crate::fsm::WakeView;
use crate::fsm::machine_wf;
use crate::fsm::min_ttl;
use crate::fsm::answer_of;
use crate::fsm::refresh_outcome_for;
use crate::fsm::response_transition;
use crate::fsm::woken;
use crate::fsm::OutgoingView;
use crate::message::MessageView;
use crate::message::question_matches;
use crate::pending::has_id;
use crate::pending::has_query;
use crate::pending::req_of;

verus! {

/// An authoritative answer that arrives in time resolves its waiters to an
/// entry expiring one TTL after arrival, and an equal query issued before
/// that expiry finds the entry fresh in the cache — so, by the contract of
/// query submission, it is answered from the cache and no new packet is
/// sent.
pub proof fn lemma_answer_then_cached_hit(
    pre: MachineView,
    post: MachineView,
    mv: MessageView,
    from: ServerAddr,
    arrival: u64,
    w: WakeView,
    later: u64,
)
    requires
        machine_wf(pre),
        arrival <= MAX_TIME,
        response_transition(pre, post, mv, from, arrival, Some(w)),
        later < w.entry.expire,
    ensures
        w.entry.value == answer_of(req_of(pre.pending, mv.id).query, mv.answers),
        w.entry.expire == arrival + min_ttl(mv.answers) as int * 1000,
        cache_fresh(post.cache, req_of(pre.pending, mv.id).query, later),
        cache_entry(post.cache, req_of(pre.pending, mv.id).query) == w.entry,
{
    let q = req_of(pre.pending, mv.id).query;
    lemma_cache_put_effect(pre.cache, q, w.entry);
}

/// A fresh cache hit is never an expired entry: what the cache serves at
/// `now` expires strictly later than `now`.
pub proof fn lemma_no_expired_entry_served(
    c: Seq<(QueryView, CacheEntryView)>,
    q: QueryView,
    now: u64,
)
    requires
        cache_wf(c),
        cache_fresh(c, q, now),
    ensures
        now < cache_entry(c, q).expire,
{
}

/// A read at or after the expiry evicts the entry: afterwards the cache
/// holds nothing for the query, so the next submission starts a fresh
/// lookup.
pub proof fn lemma_expired_entry_evicted(
    c: Seq<(QueryView, CacheEntryView)>,
    q: QueryView,
    now: u64,
)
    requires
        cache_wf(c),
        cache_has(c, q),
        now >= cache_entry(c, q).expire,
    ensures
        !cache_has(cache_after_read(c, q, now), q),
{
    crate::cache::lemma_expired_read_evicts(c, q, now);
}

/// Transaction ids assigned to concurrently pending requests are pairwise
/// distinct at all times.
pub proof fn lemma_pending_ids_distinct(m: MachineView, i: int, j: int)
    requires
        machine_wf(m),
        0 <= i < m.pending.len(),
        0 <= j < m.pending.len(),
        i != j,
    ensures
        m.pending[i].id != m.pending[j].id,
{
}

/// A response whose source address differs from the request's target, or
/// whose question section does not match the outstanding query, is
/// ignored: no wake is produced and the machine — the request's attempts
/// and deadline included — is exactly what it was.
pub proof fn lemma_mismatch_ignored(
    pre: MachineView,
    post: MachineView,
    mv: MessageView,
    from: ServerAddr,
    now: u64,
    w: Option<WakeView>,
)
    requires
        machine_wf(pre),
        response_transition(pre, post, mv, from, now, w),
        has_id(pre.pending, mv.id),
        req_of(pre.pending, mv.id).server != from || !question_matches(
            req_of(pre.pending, mv.id).query,
            mv,
        ),
    ensures
        post == pre,
        w is None,
{
}

/// A response with a transaction id no pending request carries is dropped,
/// and every pending request is untouched.
pub proof fn lemma_unsolicited_ignored(
    pre: MachineView,
    post: MachineView,
    mv: MessageView,
    from: ServerAddr,
    now: u64,
    w: Option<WakeView>,
)
    requires
        machine_wf(pre),
        response_transition(pre, post, mv, from, now, w),
        !has_id(pre.pending, mv.id),
    ensures
        post == pre,
        w is None,
{
}

/// After the configured number of rounds has run out with no valid
/// response, the scheduler resolves all of the request's waiters to the
/// unavailable entry and its query leaves the pending table.
pub proof fn lemma_exhausted_resolves_unavailable(
    pre: MachineView,
    post: MachineView,
    wakes: Seq<WakeView>,
    sends: Seq<OutgoingView>,
    now: u64,
    i: int,
)
    requires
        machine_wf(pre),
        0 <= i < pre.pending.len(),
        pre.pending[i].deadline <= now,
        pre.pending[i].attempts >= pre.config.attempts,
        forall|i2: int|
            0 <= i2 < pre.pending.len() ==> refresh_outcome_for(
                #[trigger] pre.pending[i2],
                pre,
                post,
                wakes,
                sends,
                now,
            ),
    ensures
        woken(pre.pending[i], wakes, now),
        !has_query(post.pending, pre.pending[i].query),
{
}

} // verus!
