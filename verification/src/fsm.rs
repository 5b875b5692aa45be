//! The resolver engine: a state machine over the pending-request table, the
//! TTL cache and the timeout queue.  The embedding program owns the socket
//! and the timer; it feeds received datagrams and clock readings in, and
//! carries out the sends and wake-ups the machine hands back.  Every
//! decision — caching, deduplication, spoof checks, retry scheduling — is
//! made here.

use vstd::prelude::*;
use vstd::pervasive::unreached;

use crate::Answer;
use crate::AnswerView;
use crate::CacheEntry;
use crate::CacheEntryView;
use crate::MxRecord;
use crate::MxRecordView;
use crate::Query;
use crate::QueryView;
use crate::SrvRecord;
use crate::SrvRecordView;
use crate::mxs_view;
use crate::qname;
use crate::srvs_view;
use crate::addr::ServerAddr;
use crate::cache::Cache;
use crate::cache::cache_after_read;
use crate::cache::cache_entry;
use crate::cache::cache_fresh;
use crate::cache::cache_put_spec;
use crate::cache::cache_wf;
use crate::codec::encoded;
use crate::codec::fits;
use crate::codec::parse_message;
use crate::codec::parse_of;
use crate::codec::random_id;
use crate::codec::serialize;
use crate::config::Config;
use crate::config::ConfigView;
use crate::config::config_wf;
use crate::error::QueryError;
use crate::message::Message;
use crate::message::MessageView;
use crate::message::QueryKind;
use crate::message::Record;
use crate::message::RecordData;
use crate::message::RecordDataView;
use crate::message::RecordView;
use crate::message::question_matches;
use crate::message::records_view;
use crate::message::valid_name;
use crate::pending::PendingTable;
use crate::pending::Request;
use crate::pending::RequestView;
use crate::pending::has_id;
use crate::pending::has_query;
use crate::pending::id_idx;
use crate::pending::lemma_id_idx_unique;
use crate::pending::pending_wf;
use crate::pending::query_idx;
use crate::pending::req_of;
use crate::timeouts::TimeEntry;
use crate::timeouts::TimeoutQueue;
use crate::timeouts::sorted;

verus! {

/// Latest clock reading the engine accepts, in milliseconds: far enough out
/// that deadline and expiry sums stay inside `u64`.
pub const MAX_TIME: u64 = 0x4000_0000_0000_0000;

/// The TTL an empty answer section yields; record TTLs only lower it.
pub const MAX_TTL: u32 = 0x7fff_ffff;

/// The minimum TTL across all answer records, matching or not.
pub open spec fn min_ttl(rs: Seq<RecordView>) -> u32
    decreases rs.len(),
{
    if rs.len() == 0 {
        MAX_TTL
    } else {
        let rest = min_ttl(rs.drop_last());
        if rs.last().ttl < rest {
            rs.last().ttl
        } else {
            rest
        }
    }
}

/// The addresses of the A records, in order; other records are ignored.
pub open spec fn ips_of(rs: Seq<RecordView>) -> Seq<u32>
    decreases rs.len(),
{
    if rs.len() == 0 {
        Seq::empty()
    } else {
        ips_of(rs.drop_last()) + match rs.last().data {
            RecordDataView::A(ip) => seq![ip],
            _ => Seq::empty(),
        }
    }
}

/// The SRV records, in order; other records are ignored.
pub open spec fn srvs_of(rs: Seq<RecordView>) -> Seq<SrvRecordView>
    decreases rs.len(),
{
    if rs.len() == 0 {
        Seq::empty()
    } else {
        srvs_of(rs.drop_last()) + match rs.last().data {
            RecordDataView::Srv { priority, weight, port, target } => seq![
                SrvRecordView { priority, weight, port, target },
            ],
            _ => Seq::empty(),
        }
    }
}

/// The MX records, in order; other records are ignored.
pub open spec fn mxs_of(rs: Seq<RecordView>) -> Seq<MxRecordView>
    decreases rs.len(),
{
    if rs.len() == 0 {
        Seq::empty()
    } else {
        mxs_of(rs.drop_last()) + match rs.last().data {
            RecordDataView::Mx { preference, exchange } => seq![
                MxRecordView { preference, exchange },
            ],
            _ => Seq::empty(),
        }
    }
}

/// The typed answer a response's records yield for a query: the records of
/// the expected type, the rest ignored without failing the lookup.
pub open spec fn answer_of(q: QueryView, rs: Seq<RecordView>) -> AnswerView {
    match q {
        QueryView::LookupIpv4(_) => AnswerView::Ipv4(ips_of(rs)),
        QueryView::LookupSrv(_) => AnswerView::Srv(srvs_of(rs)),
        QueryView::LookupMx(_) => AnswerView::Mx(mxs_of(rs)),
    }
}

/// The cache entry a matched response produces: the typed answer, expiring
/// a TTL past its arrival.
pub open spec fn response_entry(q: QueryView, rs: Seq<RecordView>, now: u64) -> CacheEntryView {
    CacheEntryView {
        value: answer_of(q, rs),
        expire: (now + min_ttl(rs) as u64 * 1000) as u64,
    }
}

/// The terminal entry of a request whose attempts ran out: unavailable, and
/// already expired, so it is never served from cache.
pub open spec fn unavailable_entry(now: u64) -> CacheEntryView {
    CacheEntryView { value: AnswerView::ServerUnavailable, expire: now }
}

/// Every 16-bit transaction id names some pending request.
pub open spec fn all_ids_taken(p: Seq<RequestView>) -> bool {
    forall|i: u16| has_id(p, i)
}

/// The timeout entry belonging to a request's current attempt.
pub open spec fn entry_of(r: RequestView) -> TimeEntry {
    TimeEntry { deadline: r.deadline, id: r.id }
}

/// `post` is `pre` with `e` inserted.
pub open spec fn queue_plus(pre: Seq<TimeEntry>, post: Seq<TimeEntry>, e: TimeEntry) -> bool {
    &&& post.len() == pre.len() + 1
    &&& post.contains(e)
    &&& forall|x: TimeEntry| pre.contains(x) ==> post.contains(x)
    &&& forall|x: TimeEntry| post.contains(x) ==> pre.contains(x) || x == e
}

/// A notification owed to waiters: the entry to place in each waiter's
/// result slot before invoking its wake handle.
#[derive(Debug)]
pub struct Wake {
    pub waiters: Vec<u64>,
    pub entry: CacheEntry,
}

/// The mathematical value of a [`Wake`].
pub struct WakeView {
    pub waiters: Seq<u64>,
    pub entry: CacheEntryView,
}

impl View for Wake {
    type V = WakeView;

    open spec fn view(&self) -> WakeView {
        WakeView { waiters: self.waiters@, entry: self.entry@ }
    }
}

/// The mathematical value of an optional [`Wake`].
pub open spec fn wake_view(r: Option<Wake>) -> Option<WakeView> {
    match r {
        None => None,
        Some(w) => Some(w@),
    }
}

/// A datagram the embedding program owes the network.
#[derive(Debug)]
pub struct Outgoing {
    pub packet: Vec<u8>,
    pub server: ServerAddr,
}

/// The mathematical value of an [`Outgoing`].
pub struct OutgoingView {
    pub packet: Seq<u8>,
    pub server: ServerAddr,
}

impl View for Outgoing {
    type V = OutgoingView;

    open spec fn view(&self) -> OutgoingView {
        OutgoingView { packet: self.packet@, server: self.server }
    }
}

/// The mathematical value of a list of wakes.
pub open spec fn wakes_view(v: Seq<Wake>) -> Seq<WakeView> {
    v.map_values(|w: Wake| w@)
}

/// The mathematical value of a list of outgoing datagrams.
pub open spec fn outs_view(v: Seq<Outgoing>) -> Seq<OutgoingView> {
    v.map_values(|o: Outgoing| o@)
}

/// What a submitted query came to.
#[derive(Debug)]
pub enum QueryOutcome {
    /// A fresh cached entry answered it; no packet was sent.
    CacheHit(CacheEntry),
    /// An identical query was already in flight; this waiter joined it and
    /// no packet was sent.
    Attached,
    /// A new request was created; the embedding program owes the network
    /// this packet, and owes the machine a timer for the new deadline.
    Sent { id: u16, packet: Vec<u8>, server: ServerAddr },
}

/// What one round of the retry scheduler asks the embedding program to do:
/// wake the waiters of the requests that ran out of attempts, and send the
/// retry packets.  A failed send is a packet loss; the retry stands either
/// way.
#[derive(Debug)]
pub struct RefreshOutcome {
    pub wakes: Vec<Wake>,
    pub sends: Vec<Outgoing>,
}

/// The resolver engine's state.
pub struct DnsMachine {
    config: Config,
    running: PendingTable,
    cache: Cache,
    timeouts: TimeoutQueue,
}

/// The mathematical value of the engine: its configuration, the pending
/// requests, the cached answers and the scheduled timeouts.
pub struct MachineView {
    pub config: ConfigView,
    pub pending: Seq<RequestView>,
    pub cache: Seq<(QueryView, CacheEntryView)>,
    pub timeouts: Seq<TimeEntry>,
}

impl View for DnsMachine {
    type V = MachineView;

    closed spec fn view(&self) -> MachineView {
        MachineView {
            config: self.config@,
            pending: self.running@,
            cache: self.cache@,
            timeouts: self.timeouts@,
        }
    }
}

/// The parts of a request's well-formedness that do not mention the
/// timeout queue: a nameserver index in range, and a query the codec
/// accepts and fits in a packet.
pub open spec fn req_core_wf(r: RequestView, cfg: ConfigView) -> bool {
    &&& r.nameserver_index < cfg.nameservers.len()
    &&& valid_name(qname(r.query))
    &&& fits(r.query)
}

/// The engine's invariant: a runnable configuration; distinct transaction
/// ids and distinct queries among pending requests; unique cache keys; a
/// sorted timeout queue; and, for every pending request, a sound core and a
/// timeout entry for its current attempt.
pub open spec fn machine_wf(m: MachineView) -> bool {
    &&& config_wf(m.config)
    &&& pending_wf(m.pending)
    &&& cache_wf(m.cache)
    &&& sorted(m.timeouts)
    &&& forall|i: int|
        0 <= i < m.pending.len() ==> req_core_wf(#[trigger] m.pending[i], m.config)
            && m.timeouts.contains(entry_of(m.pending[i]))
}

/// How the engine reacts to one parsed datagram arriving from `from` at
/// instant `now`: an unsolicited id is dropped; a mismatched source or
/// question is dropped with the request untouched; a matching response
/// removes the request, caches the typed answer and owes its waiters a
/// wake.
pub open spec fn response_transition(
    pre: MachineView,
    post: MachineView,
    mv: MessageView,
    from: ServerAddr,
    now: u64,
    w: Option<WakeView>,
) -> bool {
    if !has_id(pre.pending, mv.id) {
        post == pre && w is None
    } else {
        let req = req_of(pre.pending, mv.id);
        if req.server != from || !question_matches(req.query, mv) {
            post == pre && w is None
        } else {
            let entry = response_entry(req.query, mv.answers, now);
            &&& w == Some(WakeView { waiters: req.notifiers, entry })
            &&& post.pending == pre.pending.remove(id_idx(pre.pending, mv.id))
            &&& post.cache == cache_put_spec(pre.cache, req.query, entry)
            &&& post.timeouts == pre.timeouts
            &&& post.config == pre.config
        }
    }
}

/// One retry later: same query and waiters, one more attempt taken, the
/// next nameserver in rotation, a deadline one timeout out, and (stated by
/// the caller) a fresh transaction id.
pub open spec fn retried_from(
    post_r: RequestView,
    pre_r: RequestView,
    cfg: ConfigView,
    now: u64,
) -> bool {
    &&& post_r.query == pre_r.query
    &&& post_r.notifiers == pre_r.notifiers
    &&& post_r.attempts == pre_r.attempts + 1
    &&& post_r.nameserver_index == (pre_r.nameserver_index + 1) as int % cfg.nameservers.len() as int
    &&& post_r.server == cfg.nameservers[post_r.nameserver_index as int]
    &&& post_r.deadline == now + cfg.timeout
}

/// The waiters of this request were handed the terminal unavailable entry.
pub open spec fn woken(pre_r: RequestView, wakes: Seq<WakeView>, now: u64) -> bool {
    exists|k: int|
        0 <= k < wakes.len() && wakes[k] == (WakeView {
            waiters: pre_r.notifiers,
            entry: unavailable_entry(now),
        })
}

/// Some send carries this request's packet to its server.
pub open spec fn sent_for(r: RequestView, sends: Seq<OutgoingView>) -> bool {
    exists|s: int|
        0 <= s < sends.len() && sends[s].packet == encoded(r.query, r.id) && sends[s].server
            == r.server
}

/// A retry of this request is pending, and its packet is on the send list.
pub open spec fn retried(
    pre_r: RequestView,
    cur: MachineView,
    sends: Seq<OutgoingView>,
    now: u64,
) -> bool {
    exists|j: int|
        0 <= j < cur.pending.len() && retried_from(cur.pending[j], pre_r, cur.config, now)
            && sent_for(cur.pending[j], sends)
}

/// What the scheduler owes a request that was pending when it ran: one not
/// yet due stays untouched; a due one out of attempts resolves its waiters
/// to unavailable and leaves the table; a due one with attempts left is
/// retried and resent.
pub open spec fn refresh_outcome_for(
    pre_r: RequestView,
    pre: MachineView,
    post: MachineView,
    wakes: Seq<WakeView>,
    sends: Seq<OutgoingView>,
    now: u64,
) -> bool {
    if pre_r.deadline > now {
        exists|j: int| 0 <= j < post.pending.len() && post.pending[j] == pre_r
    } else if pre_r.attempts >= pre.config.attempts {
        woken(pre_r, wakes, now) && !has_query(post.pending, pre_r.query)
    } else {
        retried(pre_r, post, sends, now)
    }
}

/// Mid-scheduler status of an originally pending request: still present
/// untouched, or already dealt with.
pub open spec fn refresh_status(
    pre_r: RequestView,
    pre: MachineView,
    cur: MachineView,
    wakes: Seq<WakeView>,
    sends: Seq<OutgoingView>,
    now: u64,
) -> bool {
    ||| exists|j: int| 0 <= j < cur.pending.len() && cur.pending[j] == pre_r
    ||| (pre_r.deadline <= now && pre_r.attempts >= pre.config.attempts && woken(pre_r, wakes, now)
        && !has_query(cur.pending, pre_r.query))
    ||| (pre_r.deadline <= now && pre_r.attempts < pre.config.attempts && retried(
        pre_r,
        cur,
        sends,
        now,
    ))
}

/// Every wake the scheduler hands out belongs to a due request that ran
/// out of attempts.
pub open spec fn wake_sourced(w: WakeView, pre: MachineView, now: u64) -> bool {
    exists|i: int|
        0 <= i < pre.pending.len() && pre.pending[i].deadline <= now && pre.pending[i].attempts
            >= pre.config.attempts && w == (WakeView {
            waiters: pre.pending[i].notifiers,
            entry: unavailable_entry(now),
        })
}

/// Every request the scheduler leaves pending is an untouched original or
/// a retry of a due one.
pub open spec fn post_req_sourced(post_r: RequestView, pre: MachineView, now: u64) -> bool {
    exists|i: int|
        0 <= i < pre.pending.len() && (post_r == pre.pending[i] || (pre.pending[i].deadline <= now
            && pre.pending[i].attempts < pre.config.attempts && retried_from(
            post_r,
            pre.pending[i],
            pre.config,
            now,
        )))
}

/// Every send carries the packet of a request that is pending afterwards,
/// under its current id, bound for its current server.
pub open spec fn send_sourced(s: OutgoingView, cur: MachineView, now: u64) -> bool {
    exists|j: int|
        0 <= j < cur.pending.len() && s.packet == encoded(cur.pending[j].query, cur.pending[j].id)
            && s.server == cur.pending[j].server && cur.pending[j].deadline > now
}

/// After a due request out of attempts is removed and its waiters are
/// queued for a wake, every bookkeeping fact of the scheduler still holds.
proof fn lemma_refresh_step_drop(
    pre: MachineView,
    cur0: MachineView,
    cur: MachineView,
    ridx: int,
    rv: RequestView,
    i0: int,
    wakes0: Seq<WakeView>,
    wakes1: Seq<WakeView>,
    sends: Seq<OutgoingView>,
    now: u64,
)
    requires
        0 <= ridx < cur0.pending.len(),
        cur0.pending[ridx] == rv,
        cur.pending == cur0.pending.remove(ridx),
        cur.config == cur0.config,
        pending_wf(cur0.pending),
        pending_wf(pre.pending),
        config_wf(pre.config),
        pre.config == cur0.config,
        rv.deadline <= now,
        rv.attempts >= pre.config.attempts,
        0 <= i0 < pre.pending.len(),
        pre.pending[i0] == rv,
        wakes1 == wakes0.push(WakeView { waiters: rv.notifiers, entry: unavailable_entry(now) }),
        forall|i: int|
            0 <= i < pre.pending.len() ==> refresh_status(
                #[trigger] pre.pending[i],
                pre,
                cur0,
                wakes0,
                sends,
                now,
            ),
        forall|j: int|
            0 <= j < cur0.pending.len() ==> post_req_sourced(#[trigger] cur0.pending[j], pre, now),
        forall|w: int| 0 <= w < wakes0.len() ==> wake_sourced(#[trigger] wakes0[w], pre, now),
        forall|s: int| 0 <= s < sends.len() ==> send_sourced(#[trigger] sends[s], cur0, now),
    ensures
        forall|i: int|
            0 <= i < pre.pending.len() ==> refresh_status(
                #[trigger] pre.pending[i],
                pre,
                cur,
                wakes1,
                sends,
                now,
            ),
        forall|j: int|
            0 <= j < cur.pending.len() ==> post_req_sourced(#[trigger] cur.pending[j], pre, now),
        forall|w: int| 0 <= w < wakes1.len() ==> wake_sourced(#[trigger] wakes1[w], pre, now),
        forall|s: int| 0 <= s < sends.len() ==> send_sourced(#[trigger] sends[s], cur, now),
{
    let rem = cur.pending;
    assert(forall|j: int|
        0 <= j < rem.len() ==> rem[j] == if j < ridx {
            cur0.pending[j]
        } else {
            cur0.pending[j + 1]
        });
    assert forall|j: int| 0 <= j < rem.len() implies rem[j].id != rv.id && rem[j].query
        != rv.query by {
        if j < ridx {
            assert(cur0.pending[j].id != cur0.pending[ridx].id && cur0.pending[j].query
                != cur0.pending[ridx].query);
        } else {
            assert(cur0.pending[ridx].id != cur0.pending[j + 1].id && cur0.pending[ridx].query
                != cur0.pending[j + 1].query);
        }
    }
    assert forall|j: int| 0 <= j < cur0.pending.len() && j != ridx implies exists|j2: int|
        0 <= j2 < rem.len() && rem[j2] == #[trigger] cur0.pending[j] by {
        if j < ridx {
            assert(rem[j] == cur0.pending[j]);
        } else {
            assert(rem[j - 1] == cur0.pending[j]);
        }
    }
    assert forall|i: int| 0 <= i < pre.pending.len() implies refresh_status(
        #[trigger] pre.pending[i],
        pre,
        cur,
        wakes1,
        sends,
        now,
    ) by {
        let pr = pre.pending[i];
        if i == i0 {
            assert(wakes1[wakes0.len() as int] == (WakeView {
                waiters: pr.notifiers,
                entry: unavailable_entry(now),
            }));
            assert(woken(pr, wakes1, now));
            assert(!has_query(rem, pr.query));
        } else {
            assert(refresh_status(pr, pre, cur0, wakes0, sends, now));
            if exists|j: int| 0 <= j < cur0.pending.len() && cur0.pending[j] == pr {
                let j = choose|j: int| 0 <= j < cur0.pending.len() && cur0.pending[j] == pr;
                if j == ridx {
                    assert(pre.pending[i] == pre.pending[i0]);
                    assert(pre.pending[i].id == pre.pending[i0].id);
                    assert(false);
                } else {
                    assert(exists|j2: int| 0 <= j2 < rem.len() && rem[j2] == pr);
                }
            } else if pr.deadline <= now && pr.attempts >= pre.config.attempts && woken(
                pr,
                wakes0,
                now,
            ) && !has_query(cur0.pending, pr.query) {
                let wdx = choose|wdx: int|
                    0 <= wdx < wakes0.len() && wakes0[wdx] == (WakeView {
                        waiters: pr.notifiers,
                        entry: unavailable_entry(now),
                    });
                assert(wakes1[wdx] == wakes0[wdx]);
                assert(woken(pr, wakes1, now));
                assert forall|j2: int| 0 <= j2 < rem.len() implies rem[j2].query != pr.query by {
                    if j2 < ridx {
                        assert(rem[j2] == cur0.pending[j2]);
                    } else {
                        assert(rem[j2] == cur0.pending[j2 + 1]);
                    }
                }
                assert(!has_query(rem, pr.query));
            } else {
                assert(pr.deadline <= now && pr.attempts < pre.config.attempts && retried(
                    pr,
                    cur0,
                    sends,
                    now,
                ));
                let j = choose|j: int|
                    0 <= j < cur0.pending.len() && retried_from(
                        cur0.pending[j],
                        pr,
                        cur0.config,
                        now,
                    ) && sent_for(cur0.pending[j], sends);
                assert(cur0.pending[j].deadline == now + pre.config.timeout);
                assert(j != ridx);
                if j < ridx {
                    assert(rem[j] == cur0.pending[j]);
                } else {
                    assert(rem[j - 1] == cur0.pending[j]);
                }
                assert(retried(pr, cur, sends, now));
            }
        }
    }
    assert forall|j: int| 0 <= j < rem.len() implies post_req_sourced(
        #[trigger] rem[j],
        pre,
        now,
    ) by {
        if j < ridx {
            assert(rem[j] == cur0.pending[j]);
        } else {
            assert(rem[j] == cur0.pending[j + 1]);
        }
    }
    assert forall|w: int| 0 <= w < wakes1.len() implies wake_sourced(
        #[trigger] wakes1[w],
        pre,
        now,
    ) by {
        if w < wakes0.len() {
            assert(wakes1[w] == wakes0[w]);
        } else {
            assert(wakes1[w] == (WakeView { waiters: rv.notifiers, entry: unavailable_entry(now) }));
            assert(pre.pending[i0].deadline <= now && pre.pending[i0].attempts
                >= pre.config.attempts);
        }
    }
    assert forall|s: int| 0 <= s < sends.len() implies send_sourced(
        #[trigger] sends[s],
        cur,
        now,
    ) by {
        let j = choose|j: int|
            0 <= j < cur0.pending.len() && sends[s].packet == encoded(
                cur0.pending[j].query,
                cur0.pending[j].id,
            ) && sends[s].server == cur0.pending[j].server && cur0.pending[j].deadline > now;
        assert(j != ridx);
        if j < ridx {
            assert(rem[j] == cur0.pending[j]);
        } else {
            assert(rem[j - 1] == cur0.pending[j]);
        }
    }
}

/// After a due request with attempts left is replaced by its retry and the
/// retry's packet is queued for sending, every bookkeeping fact of the
/// scheduler still holds.
proof fn lemma_refresh_step_retry(
    pre: MachineView,
    cur0: MachineView,
    cur1: MachineView,
    cur: MachineView,
    ridx: int,
    rv: RequestView,
    i0: int,
    nrv: RequestView,
    wakes: Seq<WakeView>,
    sends0: Seq<OutgoingView>,
    sends1: Seq<OutgoingView>,
    now: u64,
)
    requires
        0 <= ridx < cur0.pending.len(),
        cur0.pending[ridx] == rv,
        cur1.pending == cur0.pending.remove(ridx),
        cur.pending == cur1.pending.push(nrv),
        cur.config == cur0.config,
        pending_wf(cur0.pending),
        pending_wf(pre.pending),
        config_wf(pre.config),
        pre.config == cur0.config,
        rv.deadline <= now,
        rv.attempts < pre.config.attempts,
        0 <= i0 < pre.pending.len(),
        pre.pending[i0] == rv,
        retried_from(nrv, rv, pre.config, now),
        sent_for(nrv, sends1),
        sends1 == sends0.push(
            OutgoingView { packet: encoded(nrv.query, nrv.id), server: nrv.server },
        ),
        forall|i: int|
            0 <= i < pre.pending.len() ==> refresh_status(
                #[trigger] pre.pending[i],
                pre,
                cur0,
                wakes,
                sends0,
                now,
            ),
        forall|j: int|
            0 <= j < cur0.pending.len() ==> post_req_sourced(#[trigger] cur0.pending[j], pre, now),
        forall|s: int| 0 <= s < sends0.len() ==> send_sourced(#[trigger] sends0[s], cur0, now),
    ensures
        forall|i: int|
            0 <= i < pre.pending.len() ==> refresh_status(
                #[trigger] pre.pending[i],
                pre,
                cur,
                wakes,
                sends1,
                now,
            ),
        forall|j: int|
            0 <= j < cur.pending.len() ==> post_req_sourced(#[trigger] cur.pending[j], pre, now),
        forall|s: int| 0 <= s < sends1.len() ==> send_sourced(#[trigger] sends1[s], cur, now),
{
    let rem = cur1.pending;
    let post = cur.pending;
    let ndx = rem.len() as int;
    assert(post[ndx] == nrv);
    assert(nrv.deadline == now + pre.config.timeout);
    assert(nrv.query == rv.query);
    assert(forall|j: int|
        0 <= j < rem.len() ==> rem[j] == if j < ridx {
            cur0.pending[j]
        } else {
            cur0.pending[j + 1]
        });
    assert(forall|j: int| 0 <= j < rem.len() ==> post[j] == rem[j]);
    assert forall|j: int| 0 <= j < cur0.pending.len() && j != ridx implies exists|j2: int|
        0 <= j2 < post.len() && post[j2] == #[trigger] cur0.pending[j] by {
        if j < ridx {
            assert(post[j] == cur0.pending[j]);
        } else {
            assert(post[j - 1] == cur0.pending[j]);
        }
    }
    assert forall|i: int| 0 <= i < pre.pending.len() implies refresh_status(
        #[trigger] pre.pending[i],
        pre,
        cur,
        wakes,
        sends1,
        now,
    ) by {
        let pr = pre.pending[i];
        if i == i0 {
            assert(sent_for(nrv, sends1));
            assert(retried_from(post[ndx], pr, cur.config, now));
            assert(retried(pr, cur, sends1, now));
        } else {
            assert(refresh_status(pr, pre, cur0, wakes, sends0, now));
            assert(pr.query != rv.query);
            if exists|j: int| 0 <= j < cur0.pending.len() && cur0.pending[j] == pr {
                let j = choose|j: int| 0 <= j < cur0.pending.len() && cur0.pending[j] == pr;
                if j == ridx {
                    assert(pre.pending[i].id == pre.pending[i0].id);
                    assert(false);
                } else {
                    assert(exists|j2: int| 0 <= j2 < post.len() && post[j2] == pr);
                }
            } else if pr.deadline <= now && pr.attempts >= pre.config.attempts && woken(
                pr,
                wakes,
                now,
            ) && !has_query(cur0.pending, pr.query) {
                assert forall|j2: int| 0 <= j2 < post.len() implies post[j2].query
                    != pr.query by {
                    if j2 < ndx {
                        if j2 < ridx {
                            assert(post[j2] == cur0.pending[j2]);
                        } else {
                            assert(post[j2] == cur0.pending[j2 + 1]);
                        }
                    } else {
                        assert(post[j2] == nrv);
                    }
                }
                assert(!has_query(post, pr.query));
            } else {
                assert(pr.deadline <= now && pr.attempts < pre.config.attempts && retried(
                    pr,
                    cur0,
                    sends0,
                    now,
                ));
                let j = choose|j: int|
                    0 <= j < cur0.pending.len() && retried_from(
                        cur0.pending[j],
                        pr,
                        cur0.config,
                        now,
                    ) && sent_for(cur0.pending[j], sends0);
                assert(cur0.pending[j].deadline == now + pre.config.timeout);
                assert(j != ridx);
                let j2 = if j < ridx {
                    j
                } else {
                    j - 1
                };
                assert(post[j2] == cur0.pending[j]);
                let s = choose|s: int|
                    0 <= s < sends0.len() && sends0[s].packet == encoded(
                        cur0.pending[j].query,
                        cur0.pending[j].id,
                    ) && sends0[s].server == cur0.pending[j].server;
                assert(sends1[s] == sends0[s]);
                assert(sent_for(post[j2], sends1));
                assert(retried(pr, cur, sends1, now));
            }
        }
    }
    assert forall|j: int| 0 <= j < post.len() implies post_req_sourced(
        #[trigger] post[j],
        pre,
        now,
    ) by {
        if j < ndx {
            if j < ridx {
                assert(post[j] == cur0.pending[j]);
            } else {
                assert(post[j] == cur0.pending[j + 1]);
            }
        } else {
            assert(post[j] == nrv);
            assert(pre.pending[i0].deadline <= now && pre.pending[i0].attempts
                < pre.config.attempts && retried_from(nrv, pre.pending[i0], pre.config, now));
        }
    }
    assert forall|s: int| 0 <= s < sends1.len() implies send_sourced(
        #[trigger] sends1[s],
        cur,
        now,
    ) by {
        if s < sends0.len() {
            assert(sends1[s] == sends0[s]);
            let j = choose|j: int|
                0 <= j < cur0.pending.len() && sends0[s].packet == encoded(
                    cur0.pending[j].query,
                    cur0.pending[j].id,
                ) && sends0[s].server == cur0.pending[j].server && cur0.pending[j].deadline > now;
            assert(j != ridx);
            if j < ridx {
                assert(post[j] == cur0.pending[j]);
            } else {
                assert(post[j - 1] == cur0.pending[j]);
            }
        } else {
            assert(sends1[s] == (OutgoingView {
                packet: encoded(nrv.query, nrv.id),
                server: nrv.server,
            }));
            assert(post[ndx] == nrv && nrv.deadline > now);
        }
    }
}

impl Request {
    /// Whether this message's question section exactly matches the
    /// outstanding query: one question, of the query's type and name, in
    /// the Internet class.
    pub fn matches(&self, pack: &Message) -> (r: bool)
        ensures
            r == question_matches(self.query@, pack@),
    {
        if pack.questions.len() != 1 {
            return false;
        }
        let q = &pack.questions[0];
        if !q.class_in {
            return false;
        }
        match &self.query {
            Query::LookupIpv4(host) => q.kind == QueryKind::A && *host == q.name,
            Query::LookupSrv(host) => q.kind == QueryKind::Srv && *host == q.name,
            Query::LookupMx(host) => q.kind == QueryKind::Mx && *host == q.name,
        }
    }
}

/// The typed answer and the minimum TTL of a response's answer section.
fn build_answer(q: &Query, answers: &Vec<Record>) -> (r: (Answer, u32))
    ensures
        r.0@ == answer_of(q@, records_view(answers@)),
        r.1 == min_ttl(records_view(answers@)),
{
    let ghost rs = records_view(answers@);
    let mut ttl: u32 = MAX_TTL;
    let mut i: usize = 0;
    proof {
        assert(rs.take(0) =~= Seq::<RecordView>::empty());
    }
    while i < answers.len()
        invariant
            i <= answers@.len(),
            rs == records_view(answers@),
            rs.len() == answers@.len(),
            forall|k: int| 0 <= k < rs.len() ==> rs[k] == answers@[k]@,
            ttl == min_ttl(rs.take(i as int)),
        decreases answers@.len() - i,
    {
        proof {
            assert(rs.take(i + 1).drop_last() =~= rs.take(i as int));
            assert(rs.take(i + 1).last() == rs[i as int]);
        }
        if answers[i].ttl < ttl {
            ttl = answers[i].ttl;
        }
        i = i + 1;
    }
    proof {
        assert(rs.take(rs.len() as int) =~= rs);
    }
    let value = match q {
        Query::LookupIpv4(_) => Answer::Ipv4(collect_ips(answers)),
        Query::LookupSrv(_) => Answer::Srv(collect_srvs(answers)),
        Query::LookupMx(_) => Answer::Mx(collect_mxs(answers)),
    };
    (value, ttl)
}

/// The addresses of the A records of an answer section.
fn collect_ips(answers: &Vec<Record>) -> (r: Vec<u32>)
    ensures
        r@ == ips_of(records_view(answers@)),
{
    let ghost rs = records_view(answers@);
    let mut r: Vec<u32> = Vec::new();
    let mut i: usize = 0;
    proof {
        assert(rs.take(0) =~= Seq::<RecordView>::empty());
    }
    while i < answers.len()
        invariant
            i <= answers@.len(),
            rs == records_view(answers@),
            rs.len() == answers@.len(),
            forall|k: int| 0 <= k < rs.len() ==> rs[k] == answers@[k]@,
            r@ == ips_of(rs.take(i as int)),
        decreases answers@.len() - i,
    {
        proof {
            assert(rs.take(i + 1).drop_last() =~= rs.take(i as int));
            assert(rs.take(i + 1).last() == rs[i as int]);
        }
        match &answers[i].data {
            RecordData::A(ip) => {
                r.push(*ip);
                proof {
                    assert(r@ =~= ips_of(rs.take(i + 1)));
                }
            },
            _ => {
                proof {
                    assert(r@ =~= ips_of(rs.take(i + 1)));
                }
            },
        }
        i = i + 1;
    }
    proof {
        assert(rs.take(rs.len() as int) =~= rs);
    }
    r
}

/// The SRV records of an answer section.
fn collect_srvs(answers: &Vec<Record>) -> (r: Vec<SrvRecord>)
    ensures
        srvs_view(r@) == srvs_of(records_view(answers@)),
{
    let ghost rs = records_view(answers@);
    let mut r: Vec<SrvRecord> = Vec::new();
    let mut i: usize = 0;
    proof {
        assert(rs.take(0) =~= Seq::<RecordView>::empty());
    }
    while i < answers.len()
        invariant
            i <= answers@.len(),
            rs == records_view(answers@),
            rs.len() == answers@.len(),
            forall|k: int| 0 <= k < rs.len() ==> rs[k] == answers@[k]@,
            srvs_view(r@) == srvs_of(rs.take(i as int)),
        decreases answers@.len() - i,
    {
        proof {
            assert(rs.take(i + 1).drop_last() =~= rs.take(i as int));
            assert(rs.take(i + 1).last() == rs[i as int]);
        }
        match &answers[i].data {
            RecordData::Srv { priority, weight, port, target } => {
                let rec = SrvRecord {
                    priority: *priority,
                    weight: *weight,
                    port: *port,
                    target: target.clone(),
                };
                r.push(rec);
                proof {
                    assert(srvs_view(r@) =~= srvs_of(rs.take(i + 1)));
                }
            },
            _ => {
                proof {
                    assert(srvs_view(r@) =~= srvs_of(rs.take(i + 1)));
                }
            },
        }
        i = i + 1;
    }
    proof {
        assert(rs.take(rs.len() as int) =~= rs);
    }
    r
}

/// The MX records of an answer section.
fn collect_mxs(answers: &Vec<Record>) -> (r: Vec<MxRecord>)
    ensures
        mxs_view(r@) == mxs_of(records_view(answers@)),
{
    let ghost rs = records_view(answers@);
    let mut r: Vec<MxRecord> = Vec::new();
    let mut i: usize = 0;
    proof {
        assert(rs.take(0) =~= Seq::<RecordView>::empty());
    }
    while i < answers.len()
        invariant
            i <= answers@.len(),
            rs == records_view(answers@),
            rs.len() == answers@.len(),
            forall|k: int| 0 <= k < rs.len() ==> rs[k] == answers@[k]@,
            mxs_view(r@) == mxs_of(rs.take(i as int)),
        decreases answers@.len() - i,
    {
        proof {
            assert(rs.take(i + 1).drop_last() =~= rs.take(i as int));
            assert(rs.take(i + 1).last() == rs[i as int]);
        }
        match &answers[i].data {
            RecordData::Mx { preference, exchange } => {
                let rec = MxRecord { preference: *preference, exchange: exchange.clone() };
                r.push(rec);
                proof {
                    assert(mxs_view(r@) =~= mxs_of(rs.take(i + 1)));
                }
            },
            _ => {
                proof {
                    assert(mxs_view(r@) =~= mxs_of(rs.take(i + 1)));
                }
            },
        }
        i = i + 1;
    }
    proof {
        assert(rs.take(rs.len() as int) =~= rs);
    }
    r
}

impl DnsMachine {
    /// The engine's invariant; holds after construction and across every
    /// entry point.
    pub open spec fn wf(&self) -> bool {
        machine_wf(self@)
    }

    /// A fresh engine: nothing pending, nothing cached, no timeouts.
    pub fn new(config: Config) -> (r: DnsMachine)
        requires
            config_wf(config@),
        ensures
            r.wf(),
            r@.config == config@,
            r@.pending == Seq::<RequestView>::empty(),
            r@.cache == Seq::<(QueryView, CacheEntryView)>::empty(),
            r@.timeouts == Seq::<TimeEntry>::empty(),
    {
        DnsMachine {
            config,
            running: PendingTable::new(),
            cache: Cache::new(),
            timeouts: TimeoutQueue::new(),
        }
    }

    /// The first transaction id, counting up from zero, that no pending
    /// request carries.
    fn free_id(&self) -> (r: Option<u16>)
        ensures
            r matches Some(id) ==> !has_id(self@.pending, id),
            r is None ==> all_ids_taken(self@.pending),
    {
        let mut c: u32 = 0;
        while c < 65536
            invariant
                c <= 65536,
                forall|k: int| 0 <= k < c ==> has_id(self@.pending, #[trigger] (k as u16)),
            decreases 65536 - c,
        {
            if !self.running.contains_id(c as u16) {
                return Some(c as u16);
            }
            c = c + 1;
        }
        proof {
            assert forall|i: u16| has_id(self@.pending, i) by {
                assert(has_id(self@.pending, (i as int) as u16));
            }
        }
        None
    }

    /// Picks a fresh random transaction id — resampling on collision, so
    /// ids stay unpredictable — builds the query packet under it, and names
    /// the server of rotation slot `idx`.  The caller decides what to do
    /// with the packet; nothing is inserted here.
    ///
    /// Random resampling is bounded so the search provably ends; past the
    /// bound the first free id in counting order is taken.
    pub fn send_request(&self, query: &Query, idx: usize) -> (r: Result<
        (u16, Vec<u8>, ServerAddr),
        QueryError,
    >)
        requires
            valid_name(qname(query@)),
            idx < self@.config.nameservers.len(),
        ensures
            r matches Ok(p) ==> !has_id(self@.pending, p.0) && p.1@ == encoded(query@, p.0)
                && fits(query@) && p.2 == self@.config.nameservers[idx as int],
            all_ids_taken(self@.pending) ==> r == Err::<(u16, Vec<u8>, ServerAddr), QueryError>(
                QueryError::Net,
            ),
            !all_ids_taken(self@.pending) && !fits(query@) ==> r == Err::<
                (u16, Vec<u8>, ServerAddr),
                QueryError,
            >(QueryError::TruncatedPacket),
            !all_ids_taken(self@.pending) && fits(query@) ==> r is Ok,
    {
        let mut id = random_id();
        let mut tries: usize = 0;
        while tries < 32 && self.running.contains_id(id)
            invariant
                tries <= 32,
            decreases 32 - tries,
        {
            id = random_id();
            tries = tries + 1;
        }
        if self.running.contains_id(id) {
            match self.free_id() {
                Some(f) => {
                    id = f;
                },
                None => {
                    return Err(QueryError::Net);
                },
            }
        }
        let packet = match serialize(id, query) {
            Ok(p) => p,
            Err(_) => {
                return Err(QueryError::TruncatedPacket);
            },
        };
        Ok((id, packet, self.config.nameservers[idx]))
    }

    /// Submits a query at instant `now` on behalf of `waiter`.
    ///
    /// A fresh cached entry answers it at once.  Otherwise, if an identical
    /// query is already in flight, the waiter joins it — so two concurrent
    /// lookups for one name cost a single packet.  Otherwise a new request
    /// starts at the first nameserver with one attempt taken, and the
    /// caller owes the network the returned packet.
    ///
    /// Callers hand in names the packet builder accepts (see
    /// [`crate::message::valid_name`]); [`crate::message::name_ok`] checks
    /// one at run time.
    pub fn query(&mut self, q: Query, waiter: u64, now: u64) -> (r: Result<
        QueryOutcome,
        QueryError,
    >)
        requires
            old(self).wf(),
            now <= MAX_TIME,
            valid_name(qname(q@)),
        ensures
            final(self).wf(),
            final(self)@.config == old(self)@.config,
            // the cache answers exactly when it holds a fresh entry, with
            // that entry, touching nothing
            (r matches Ok(o) && o matches QueryOutcome::CacheHit(e)) <==> cache_fresh(
                old(self)@.cache,
                q@,
                now,
            ),
            r matches Ok(QueryOutcome::CacheHit(e)) ==> e@ == cache_entry(old(self)@.cache, q@)
                && final(self)@ == old(self)@,
            // in every other outcome the read evicts an expired entry and
            // nothing else changes in the cache
            !cache_fresh(old(self)@.cache, q@, now) ==> final(self)@.cache == cache_after_read(
                old(self)@.cache,
                q@,
                now,
            ),
            // an in-flight identical query gains the waiter; no packet
            (r matches Ok(o) && o matches QueryOutcome::Attached) <==> (!cache_fresh(
                old(self)@.cache,
                q@,
                now,
            ) && has_query(old(self)@.pending, q@)),
            r matches Ok(QueryOutcome::Attached) ==> {
                let qi = query_idx(old(self)@.pending, q@);
                &&& final(self)@.pending == old(self)@.pending.update(
                    qi,
                    RequestView {
                        notifiers: old(self)@.pending[qi].notifiers.push(waiter),
                        ..old(self)@.pending[qi]
                    },
                )
                &&& final(self)@.timeouts == old(self)@.timeouts
            },
            // a new request: first nameserver, one attempt, deadline one
            // timeout out, the waiter alone on it, the packet under a fresh
            // id
            r matches Ok(QueryOutcome::Sent { id, packet, server }) ==> {
                &&& !cache_fresh(old(self)@.cache, q@, now)
                &&& !has_query(old(self)@.pending, q@)
                &&& !has_id(old(self)@.pending, id)
                &&& packet@ == encoded(q@, id)
                &&& server == old(self)@.config.nameservers[0]
                &&& final(self)@.pending == old(self)@.pending.push(
                    RequestView {
                        id,
                        query: q@,
                        nameserver_index: 0,
                        attempts: 1,
                        server,
                        deadline: (now + old(self)@.config.timeout) as u64,
                        notifiers: seq![waiter],
                    },
                )
                &&& queue_plus(
                    old(self)@.timeouts,
                    final(self)@.timeouts,
                    TimeEntry { deadline: (now + old(self)@.config.timeout) as u64, id },
                )
            },
            // failures leave no request behind
            r is Err ==> !cache_fresh(old(self)@.cache, q@, now) && !has_query(
                old(self)@.pending,
                q@,
            ) && final(self)@.pending == old(self)@.pending && final(self)@.timeouts == old(
                self,
            )@.timeouts,
            r matches Err(e) ==> (e == QueryError::TruncatedPacket && !fits(q@)) || (e
                == QueryError::Net && all_ids_taken(old(self)@.pending)),
            r is Ok <==> (cache_fresh(old(self)@.cache, q@, now) || has_query(
                old(self)@.pending,
                q@,
            ) || (fits(q@) && !all_ids_taken(old(self)@.pending))),
    {
        let ghost pre = self@;
        match self.cache.get_fresh(&q, now) {
            Some(entry) => {
                proof {
                    assert(self@ =~= pre);
                }
                return Ok(QueryOutcome::CacheHit(entry));
            },
            None => {},
        }
        if self.running.attach(&q, waiter) {
            proof {
                let qi = query_idx(pre.pending, q@);
                assert(machine_wf(self@)) by {
                    assert(forall|i: int|
                        0 <= i < self@.pending.len() ==> self@.pending[i].deadline == pre.pending[i].deadline
                            && self@.pending[i].id == pre.pending[i].id);
                    assert(forall|i: int|
                        0 <= i < self@.pending.len() ==> req_core_wf(
                            #[trigger] self@.pending[i],
                            self@.config,
                        ) && self@.timeouts.contains(entry_of(self@.pending[i]))) by {
                        assert(forall|i: int|
                            0 <= i < self@.pending.len() ==> entry_of(self@.pending[i]) == entry_of(
                                pre.pending[i],
                            ));
                    }
                }
            }
            return Ok(QueryOutcome::Attached);
        }
        let (id, packet, server) = match self.send_request(&q, 0) {
            Ok(p) => p,
            Err(e) => {
                return Err(e);
            },
        };
        let deadline = now + self.config.timeout;
        let req = Request {
            id,
            query: q,
            nameserver_index: 0,
            attempts: 1,
            server,
            deadline,
            notifiers: vec![waiter],
        };
        let ghost rv = req@;
        self.running.insert(req);
        self.timeouts.push(TimeEntry { deadline, id });
        proof {
            assert(rv.notifiers =~= seq![waiter]);
            assert(machine_wf(self@)) by {
                assert(forall|i: int|
                    0 <= i < self@.pending.len() ==> req_core_wf(
                        #[trigger] self@.pending[i],
                        self@.config,
                    ) && self@.timeouts.contains(entry_of(self@.pending[i]))) by {
                    assert(forall|i: int|
                        0 <= i < pre.pending.len() ==> self@.pending[i] == pre.pending[i]);
                    assert(self@.pending[pre.pending.len() as int] == rv);
                    assert(self@.timeouts.contains(entry_of(rv)));
                }
            }
        }
        Ok(QueryOutcome::Sent { id, packet, server })
    }

    /// Withdraws the request under `id`, for an embedding program whose
    /// initial send failed: the caller reports the network error and no
    /// request stays behind.  The request's timeout entry goes stale and is
    /// discarded when it surfaces.
    pub fn cancel_query(&mut self, id: u16) -> (r: bool)
        requires
            old(self).wf(),
        ensures
            final(self).wf(),
            r == has_id(old(self)@.pending, id),
            !r ==> final(self)@ == old(self)@,
            r ==> final(self)@.pending == old(self)@.pending.remove(
                id_idx(old(self)@.pending, id),
            ) && final(self)@.cache == old(self)@.cache && final(self)@.timeouts == old(
                self,
            )@.timeouts && final(self)@.config == old(self)@.config,
    {
        let ghost pre = self@;
        match self.running.remove_by_id(id) {
            None => false,
            Some(_) => {
                proof {
                    let idx = id_idx(pre.pending, id);
                    assert(machine_wf(self@)) by {
                        assert(forall|i: int|
                            0 <= i < self@.pending.len() ==> self@.pending[i] == if i < idx {
                                pre.pending[i]
                            } else {
                                pre.pending[i + 1]
                            });
                    }
                }
                true
            },
        }
    }

    /// Reacts to one parsed message arriving from `from` at instant `now`,
    /// as [`response_transition`] states: drop, or resolve the matching
    /// request.
    pub fn process_response(&mut self, msg: Message, from: ServerAddr, now: u64) -> (r: Option<
        Wake,
    >)
        requires
            old(self).wf(),
            now <= MAX_TIME,
        ensures
            final(self).wf(),
            response_transition(old(self)@, final(self)@, msg@, from, now, wake_view(r)),
    {
        let ghost pre = self@;
        let matched = match self.running.get_by_id(msg.id) {
            None => {
                return None;
            },
            Some(req) => req.server == from && req.matches(&msg),
        };
        if !matched {
            return None;
        }
        let req = match self.running.remove_by_id(msg.id) {
            Some(req) => req,
            None => unreached(),
        };
        let ghost idx = id_idx(pre.pending, msg@.id);
        let Request { query, notifiers, .. } = req;
        let (value, ttl) = build_answer(&query, &msg.answers);
        let expire = now + (ttl as u64) * 1000;
        let entry = CacheEntry { value, expire };
        let entry_copy = entry.clone();
        self.cache.put(query, entry_copy);
        proof {
            assert(machine_wf(self@)) by {
                assert(forall|i: int|
                    0 <= i < self@.pending.len() ==> self@.pending[i] == if i < idx {
                        pre.pending[i]
                    } else {
                        pre.pending[i + 1]
                    });
            }
        }
        Some(Wake { waiters: notifiers, entry })
    }

    /// Reacts to one raw datagram: a malformed packet is dropped silently,
    /// a parsed one goes through [`response_transition`].
    pub fn on_response(&mut self, data: &[u8], from: ServerAddr, now: u64) -> (r: Option<Wake>)
        requires
            old(self).wf(),
            now <= MAX_TIME,
        ensures
            final(self).wf(),
            parse_of(data@) is None ==> final(self)@ == old(self)@ && r is None,
            parse_of(data@) matches Some(mv) ==> response_transition(
                old(self)@,
                final(self)@,
                mv,
                from,
                now,
                wake_view(r),
            ),
    {
        match parse_message(data) {
            None => None,
            Some(msg) => self.process_response(msg, from, now),
        }
    }

    /// One round of the retry/timeout scheduler, at instant `now`.  Due
    /// entries are taken in deadline order; an entry whose id no longer
    /// names a pending request — or names one that is not due, after an id
    /// collision with a later retry — is discarded; a due request out of
    /// attempts resolves its waiters to the unavailable entry and leaves
    /// the table; a due request with attempts left is retried under a
    /// fresh id against the next nameserver.  The caller then performs the
    /// sends (a failure there is a packet loss; the retry stands) and the
    /// wakes, and rearms its timer from [`Self::next_timeout`].
    pub fn refresh_timeouts(&mut self, now: u64) -> (r: RefreshOutcome)
        requires
            old(self).wf(),
            now <= MAX_TIME,
        ensures
            final(self).wf(),
            final(self)@.config == old(self)@.config,
            final(self)@.cache == old(self)@.cache,
            forall|j: int|
                0 <= j < final(self)@.pending.len() ==> (#[trigger] final(self)@.pending[j]).deadline
                    > now,
            forall|i: int|
                0 <= i < old(self)@.pending.len() ==> refresh_outcome_for(
                    #[trigger] old(self)@.pending[i],
                    old(self)@,
                    final(self)@,
                    wakes_view(r.wakes@),
                    outs_view(r.sends@),
                    now,
                ),
            forall|w: int|
                0 <= w < r.wakes@.len() ==> wake_sourced(
                    #[trigger] wakes_view(r.wakes@)[w],
                    old(self)@,
                    now,
                ),
            forall|j: int|
                0 <= j < final(self)@.pending.len() ==> post_req_sourced(
                    #[trigger] final(self)@.pending[j],
                    old(self)@,
                    now,
                ),
            forall|s: int|
                0 <= s < r.sends@.len() ==> send_sourced(
                    #[trigger] outs_view(r.sends@)[s],
                    final(self)@,
                    now,
                ),
    {
        let ghost pre = self@;
        // Phase one: pop every due entry, in deadline order.
        let mut due: Vec<TimeEntry> = Vec::new();
        proof {
            assert(pre.timeouts =~= due@ + self@.timeouts);
        }
        loop
            invariant_except_break
                pre == old(self)@,
                machine_wf(pre),
                self@.pending == pre.pending,
                self@.cache == pre.cache,
                self@.config == pre.config,
                sorted(self@.timeouts),
                pre.timeouts == due@ + self@.timeouts,
                forall|t: int| 0 <= t < due@.len() ==> #[trigger] due@[t].deadline <= now,
            ensures
                pre == old(self)@,
                self@.pending == pre.pending,
                self@.cache == pre.cache,
                self@.config == pre.config,
                sorted(self@.timeouts),
                pre.timeouts == due@ + self@.timeouts,
                forall|t: int| 0 <= t < due@.len() ==> #[trigger] due@[t].deadline <= now,
                forall|t: int|
                    0 <= t < self@.timeouts.len() ==> #[trigger] self@.timeouts[t].deadline > now,
            decreases self@.timeouts.len(),
        {
            if !self.timeouts.head_due(now) {
                proof {
                    assert(forall|t: int|
                        0 < t < self@.timeouts.len() ==> self@.timeouts[0].deadline
                            <= #[trigger] self@.timeouts[t].deadline);
                }
                break;
            }
            let e = match self.timeouts.pop_min() {
                Some(e) => e,
                None => unreached(),
            };
            due.push(e);
            proof {
                assert(pre.timeouts =~= due@ + self@.timeouts);
            }
        }
        // Phase two: act on each due entry.
        let mut wakes: Vec<Wake> = Vec::new();
        let mut sends: Vec<Outgoing> = Vec::new();
        let mut k: usize = 0;
        proof {
            assert forall|i: int| 0 <= i < self@.pending.len() implies self@.timeouts.contains(
                entry_of(#[trigger] self@.pending[i]),
            ) || exists|t: int|
                k <= t < due@.len() && due@[t] == entry_of(self@.pending[i]) by {
                assert(pre.timeouts.contains(entry_of(pre.pending[i])));
                let w = choose|w: int|
                    0 <= w < pre.timeouts.len() && pre.timeouts[w] == entry_of(pre.pending[i]);
                if w < due@.len() {
                    assert(due@[w] == entry_of(self@.pending[i]));
                } else {
                    assert(self@.timeouts[w - due@.len()] == entry_of(self@.pending[i]));
                }
            }
            assert(wakes_view(wakes@) =~= Seq::<WakeView>::empty());
            assert(outs_view(sends@) =~= Seq::<OutgoingView>::empty());
        }
        while k < due.len()
            invariant
                pre == old(self)@,
                machine_wf(pre),
                now <= MAX_TIME,
                k <= due@.len(),
                self@.config == pre.config,
                self@.cache == pre.cache,
                config_wf(self@.config),
                pending_wf(self@.pending),
                cache_wf(self@.cache),
                sorted(self@.timeouts),
                forall|t: int| 0 <= t < due@.len() ==> #[trigger] due@[t].deadline <= now,
                forall|t: int|
                    0 <= t < self@.timeouts.len() ==> #[trigger] self@.timeouts[t].deadline > now,
                forall|i: int|
                    0 <= i < self@.pending.len() ==> req_core_wf(
                        #[trigger] self@.pending[i],
                        self@.config,
                    ),
                forall|i: int|
                    0 <= i < self@.pending.len() ==> self@.timeouts.contains(
                        entry_of(#[trigger] self@.pending[i]),
                    ) || exists|t: int|
                        k <= t < due@.len() && due@[t] == entry_of(self@.pending[i]),
                forall|i: int|
                    0 <= i < pre.pending.len() ==> refresh_status(
                        #[trigger] pre.pending[i],
                        pre,
                        self@,
                        wakes_view(wakes@),
                        outs_view(sends@),
                        now,
                    ),
                forall|j: int|
                    0 <= j < self@.pending.len() ==> post_req_sourced(
                        #[trigger] self@.pending[j],
                        pre,
                        now,
                    ),
                forall|w: int|
                    0 <= w < wakes@.len() ==> wake_sourced(
                        #[trigger] wakes_view(wakes@)[w],
                        pre,
                        now,
                    ),
                forall|s: int|
                    0 <= s < sends@.len() ==> send_sourced(
                        #[trigger] outs_view(sends@)[s],
                        self@,
                        now,
                    ),
            decreases due@.len() - k,
        {
            let e = due[k];
            let proceed = match self.running.deadline_of(e.id) {
                None => false,
                Some(d) => d <= now,
            };
            if !proceed {
                proof {
                    // nothing pending links to this entry: either the id is
                    // gone, or its request is not due and so carries a
                    // later deadline than the entry's
                    assert forall|i: int| 0 <= i < self@.pending.len() implies self@.timeouts.contains(
                        entry_of(#[trigger] self@.pending[i]),
                    ) || exists|t: int|
                        k + 1 <= t < due@.len() && due@[t] == entry_of(self@.pending[i]) by {
                        if !self@.timeouts.contains(entry_of(self@.pending[i])) {
                            let t = choose|t: int|
                                k <= t < due@.len() && due@[t] == entry_of(self@.pending[i]);
                            if t == k {
                                assert(due@[k as int] == entry_of(self@.pending[i]));
                                assert(due@[k as int].deadline <= now);
                                assert(self@.pending[i].id == e.id);
                                assert(self@.pending[i].deadline == e.deadline);
                                lemma_id_idx_unique(self@.pending, e.id, i);
                                assert(req_of(self@.pending, e.id) == self@.pending[i]);
                                assert(false);
                            }
                        }
                    }
                }
                k = k + 1;
                continue;
            }
            let ghost cur0 = self@;
            let req = match self.running.remove_by_id(e.id) {
                Some(rq) => rq,
                None => unreached(),
            };
            let ghost rv = req@;
            let ghost ridx = id_idx(cur0.pending, e.id);
            let ghost i0 = choose|i: int|
                0 <= i < pre.pending.len() && pre.pending[i] == rv;
            proof {
                assert(rv == cur0.pending[ridx]);
                assert(rv.deadline <= now);
                // index map of the removal
                assert(forall|j: int|
                    0 <= j < self@.pending.len() ==> self@.pending[j] == if j < ridx {
                        cur0.pending[j]
                    } else {
                        cur0.pending[j + 1]
                    });
                // the removed id is nowhere else, so its query is free too
                assert forall|j: int| 0 <= j < self@.pending.len() implies self@.pending[j].id
                    != rv.id && self@.pending[j].query != rv.query by {
                    if j < ridx {
                        assert(cur0.pending[j].id != cur0.pending[ridx].id);
                    } else {
                        assert(cur0.pending[ridx].id != cur0.pending[j + 1].id);
                    }
                }
                // the removed request is an untouched original: a retried
                // request would carry a future deadline
                assert(post_req_sourced(rv, pre, now));
                assert(0 <= i0 < pre.pending.len() && pre.pending[i0] == rv) by {
                    let i1 = choose|i: int|
                        0 <= i < pre.pending.len() && (rv == pre.pending[i] || (
                        pre.pending[i].deadline <= now && pre.pending[i].attempts
                            < pre.config.attempts && retried_from(
                            rv,
                            pre.pending[i],
                            pre.config,
                            now,
                        )));
                    if rv != pre.pending[i1] {
                        assert(rv.deadline == now + pre.config.timeout);
                        assert(false);
                    }
                }
                assert(rv.id == e.id);
            }
            if req.attempts >= self.config.attempts {
                let entry = CacheEntry { value: Answer::ServerUnavailable, expire: now };
                let ghost wakes0 = wakes_view(wakes@);
                wakes.push(Wake { waiters: req.notifiers, entry });
                proof {
                    assert(wakes_view(wakes@) =~= wakes0.push(
                        WakeView { waiters: rv.notifiers, entry: unavailable_entry(now) },
                    ));
                    assert(wakes_view(wakes@)[wakes0.len() as int] == (WakeView {
                        waiters: rv.notifiers,
                        entry: unavailable_entry(now),
                    }));
                    assert(woken(rv, wakes_view(wakes@), now));
                    lemma_refresh_step_drop(
                        pre,
                        cur0,
                        self@,
                        ridx,
                        rv,
                        i0,
                        wakes0,
                        wakes_view(wakes@),
                        outs_view(sends@),
                        now,
                    );
                    assert forall|i2: int| 0 <= i2 < self@.pending.len() implies req_core_wf(
                        #[trigger] self@.pending[i2],
                        self@.config,
                    ) by {
                        if i2 < ridx {
                            assert(self@.pending[i2] == cur0.pending[i2]);
                        } else {
                            assert(self@.pending[i2] == cur0.pending[i2 + 1]);
                        }
                    }
                    assert forall|i2: int| 0 <= i2 < self@.pending.len() implies self@.timeouts.contains(
                        entry_of(#[trigger] self@.pending[i2]),
                    ) || exists|t: int|
                        k + 1 <= t < due@.len() && due@[t] == entry_of(self@.pending[i2]) by {
                        let j0: int = if i2 < ridx {
                            i2
                        } else {
                            i2 + 1
                        };
                        assert(self@.pending[i2] == cur0.pending[j0]);
                        if !self@.timeouts.contains(entry_of(self@.pending[i2])) {
                            let t = choose|t: int|
                                k <= t < due@.len() && due@[t] == entry_of(cur0.pending[j0]);
                            assert(t != k) by {
                                if t == k {
                                    assert(self@.pending[i2].id == e.id);
                                }
                            }
                            assert(due@[t] == entry_of(self@.pending[i2]));
                        }
                    }
                }
                k = k + 1;
            } else {
                let ghost cur1 = self@;
                proof {
                    assert(req_core_wf(rv, pre.config));
                    assert(rv.nameserver_index < pre.config.nameservers.len());
                    assert(!all_ids_taken(cur1.pending)) by {
                        assert(!has_id(cur1.pending, rv.id));
                    }
                    assert(fits(rv.query) && valid_name(qname(rv.query)));
                }
                let servers = self.config.nameservers.len();
                let idx = (req.nameserver_index + 1) % servers;
                let (new_id, packet, server) = match self.send_request(&req.query, idx) {
                    Ok(p) => p,
                    Err(_) => unreached(),
                };
                let deadline = now + self.config.timeout;
                let new_req = Request {
                    id: new_id,
                    query: req.query,
                    nameserver_index: idx,
                    attempts: req.attempts + 1,
                    server,
                    deadline,
                    notifiers: req.notifiers,
                };
                let ghost nrv = new_req@;
                proof {
                    assert(!has_query(cur1.pending, nrv.query));
                }
                self.running.insert(new_req);
                let ghost q1 = self@.timeouts;
                self.timeouts.push(TimeEntry { deadline, id: new_id });
                let ghost sends0 = outs_view(sends@);
                sends.push(Outgoing { packet, server });
                proof {
                    assert(outs_view(sends@) =~= sends0.push(
                        OutgoingView { packet: packet@, server },
                    ));
                    assert(outs_view(sends@)[sends0.len() as int] == (OutgoingView {
                        packet: packet@,
                        server,
                    }));
                    assert(packet@ == encoded(nrv.query, nrv.id));
                    assert(retried_from(nrv, rv, pre.config, now));
                    assert(sent_for(nrv, outs_view(sends@)));
                    lemma_refresh_step_retry(
                        pre,
                        cur0,
                        cur1,
                        self@,
                        ridx,
                        rv,
                        i0,
                        nrv,
                        wakes_view(wakes@),
                        sends0,
                        outs_view(sends@),
                        now,
                    );
                    let ndx = cur1.pending.len() as int;
                    assert(self@.pending[ndx] == nrv);
                    // the refreshed queue still lies wholly in the future
                    assert forall|t: int| 0 <= t < self@.timeouts.len() implies #[trigger] self@.timeouts[t].deadline
                        > now by {
                        assert(self@.timeouts.contains(self@.timeouts[t]));
                        if q1.contains(self@.timeouts[t]) {
                            let t0 = choose|t0: int|
                                0 <= t0 < q1.len() && q1[t0] == self@.timeouts[t];
                            assert(q1[t0].deadline > now);
                        } else {
                            assert(self@.timeouts[t] == (TimeEntry { deadline, id: new_id }));
                        }
                    }
                    assert forall|i2: int| 0 <= i2 < self@.pending.len() implies req_core_wf(
                        #[trigger] self@.pending[i2],
                        self@.config,
                    ) by {
                        if i2 == ndx {
                            assert(self@.pending[i2] == nrv);
                        } else if i2 < ridx {
                            assert(self@.pending[i2] == cur0.pending[i2]);
                        } else {
                            assert(self@.pending[i2] == cur0.pending[i2 + 1]);
                        }
                    }
                    assert forall|i2: int| 0 <= i2 < self@.pending.len() implies self@.timeouts.contains(
                        entry_of(#[trigger] self@.pending[i2]),
                    ) || exists|t: int|
                        k + 1 <= t < due@.len() && due@[t] == entry_of(self@.pending[i2]) by {
                        if i2 == ndx {
                            assert(entry_of(nrv) == (TimeEntry { deadline, id: new_id }));
                            assert(self@.timeouts.contains(TimeEntry { deadline, id: new_id }));
                        } else {
                            let j0: int = if i2 < ridx {
                                i2
                            } else {
                                i2 + 1
                            };
                            assert(self@.pending[i2] == cur0.pending[j0]);
                            if cur0.timeouts.contains(entry_of(cur0.pending[j0])) {
                                assert(self@.timeouts.contains(entry_of(self@.pending[i2])));
                            } else {
                                let t = choose|t: int|
                                    k <= t < due@.len() && due@[t] == entry_of(cur0.pending[j0]);
                                assert(t != k) by {
                                    if t == k {
                                        assert(self@.pending[i2].id == e.id);
                                    }
                                }
                                assert(due@[t] == entry_of(self@.pending[i2]));
                            }
                        }
                    }
                }
                k = k + 1;
            }
        }
        proof {
            // with no due entry left, every pending request links into the
            // queue, whose deadlines all lie in the future
            assert forall|j: int| 0 <= j < self@.pending.len() implies self@.timeouts.contains(
                entry_of(#[trigger] self@.pending[j]),
            ) && #[trigger] self@.pending[j].deadline > now by {
                assert(self@.timeouts.contains(entry_of(self@.pending[j])));
                let t = choose|t: int|
                    0 <= t < self@.timeouts.len() && self@.timeouts[t] == entry_of(
                        self@.pending[j],
                    );
                assert(self@.timeouts[t].deadline > now);
            }
            assert forall|i: int| 0 <= i < pre.pending.len() implies refresh_outcome_for(
                #[trigger] pre.pending[i],
                pre,
                self@,
                wakes_view(wakes@),
                outs_view(sends@),
                now,
            ) by {
                let pre_r = pre.pending[i];
                if pre_r.deadline <= now {
                    if exists|j: int|
                        0 <= j < self@.pending.len() && self@.pending[j] == pre_r {
                        let j = choose|j: int|
                            0 <= j < self@.pending.len() && self@.pending[j] == pre_r;
                        assert(self@.pending[j].deadline > now);
                        assert(false);
                    }
                }
            }
        }
        RefreshOutcome { wakes, sends }
    }

    /// The deadline the embedding program should arm its timer for: the
    /// earliest scheduled timeout, or nothing when the queue is empty.
    pub fn next_timeout(&self) -> (r: Option<u64>)
        ensures
            self@.timeouts.len() == 0 ==> r is None,
            self@.timeouts.len() > 0 ==> r == Some(self@.timeouts[0].deadline),
    {
        match self.timeouts.peek() {
            None => None,
            Some(e) => Some(e.deadline),
        }
    }
}

} // verus!
