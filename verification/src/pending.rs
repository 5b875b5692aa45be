//! The pending-request table: the in-flight requests, keyed by transaction
//! id.  Ids of concurrently pending requests are pairwise distinct, and so
//! are their queries: a second lookup for a query already in flight joins
//! the existing request as an extra waiter instead of creating a new one.

use vstd::prelude::*;

use crate::Query;
use crate::QueryView;
use crate::addr::ServerAddr;
use crate::query_eq;

verus! {

/// An in-flight request: its transaction id, the query, the retry state,
/// the server the packet went to, the deadline of the current attempt, and
/// the waiters to notify on the terminal event.
pub struct Request {
    pub id: u16,
    pub query: Query,
    pub nameserver_index: usize,
    pub attempts: u32,
    pub server: ServerAddr,
    pub deadline: u64,
    pub notifiers: Vec<u64>,
}

/// The mathematical value of a [`Request`].
pub struct RequestView {
    pub id: u16,
    pub query: QueryView,
    pub nameserver_index: usize,
    pub attempts: u32,
    pub server: ServerAddr,
    pub deadline: u64,
    pub notifiers: Seq<u64>,
}

impl View for Request {
    type V = RequestView;

    open spec fn view(&self) -> RequestView {
        RequestView {
            id: self.id,
            query: self.query@,
            nameserver_index: self.nameserver_index,
            attempts: self.attempts,
            server: self.server,
            deadline: self.deadline,
            notifiers: self.notifiers@,
        }
    }
}

/// The mathematical value of a list of requests.
pub open spec fn reqs_view(v: Seq<Request>) -> Seq<RequestView> {
    v.map_values(|r: Request| r@)
}

/// Some pending request carries this transaction id.
pub open spec fn has_id(p: Seq<RequestView>, id: u16) -> bool {
    exists|i: int| 0 <= i < p.len() && p[i].id == id
}

/// The position of the request carrying this id; meaningful under
/// [`pending_wf`], which makes it unique.
pub open spec fn id_idx(p: Seq<RequestView>, id: u16) -> int {
    choose|i: int| 0 <= i < p.len() && p[i].id == id
}

/// The request carrying this id.
pub open spec fn req_of(p: Seq<RequestView>, id: u16) -> RequestView {
    p[id_idx(p, id)]
}

/// Some pending request is for this query.
pub open spec fn has_query(p: Seq<RequestView>, q: QueryView) -> bool {
    exists|i: int| 0 <= i < p.len() && p[i].query == q
}

/// The position of the request for this query; meaningful under
/// [`pending_wf`], which makes it unique.
pub open spec fn query_idx(p: Seq<RequestView>, q: QueryView) -> int {
    choose|i: int| 0 <= i < p.len() && p[i].query == q
}

/// Well-formedness: transaction ids of pending requests are pairwise
/// distinct, and so are their queries.
pub open spec fn pending_wf(p: Seq<RequestView>) -> bool {
    forall|i: int, j: int|
        0 <= i < j < p.len() ==> p[i].id != p[j].id && p[i].query != p[j].query
}

/// Under [`pending_wf`], any position whose request carries `id` is the
/// position [`id_idx`] names.
pub proof fn lemma_id_idx_unique(p: Seq<RequestView>, id: u16, i: int)
    requires
        pending_wf(p),
        0 <= i < p.len(),
        p[i].id == id,
    ensures
        has_id(p, id),
        id_idx(p, id) == i,
{
    assert(has_id(p, id));
    let j = id_idx(p, id);
    if i < j {
        assert(p[i].id != p[j].id);
    } else if j < i {
        assert(p[j].id != p[i].id);
    }
}

/// Under [`pending_wf`], any position whose request is for `q` is the
/// position [`query_idx`] names.
pub proof fn lemma_query_idx_unique(p: Seq<RequestView>, q: QueryView, i: int)
    requires
        pending_wf(p),
        0 <= i < p.len(),
        p[i].query == q,
    ensures
        has_query(p, q),
        query_idx(p, q) == i,
{
    assert(has_query(p, q));
    let j = query_idx(p, q);
    if i < j {
        assert(p[i].query != p[j].query);
    } else if j < i {
        assert(p[j].query != p[i].query);
    }
}

/// The pending-request table.
pub struct PendingTable {
    requests: Vec<Request>,
}

impl View for PendingTable {
    type V = Seq<RequestView>;

    closed spec fn view(&self) -> Seq<RequestView> {
        reqs_view(self.requests@)
    }
}

impl PendingTable {
    /// An empty table.
    pub fn new() -> (r: PendingTable)
        ensures
            r@ == Seq::<RequestView>::empty(),
            pending_wf(r@),
    {
        let r = PendingTable { requests: Vec::new() };
        proof {
            assert(r@ =~= Seq::<RequestView>::empty());
        }
        r
    }

    /// The position of the request carrying `id`, if any.
    fn find_id(&self, id: u16) -> (r: Option<usize>)
        ensures
            r matches Some(i) ==> i < self@.len() && self@[i as int].id == id,
            r is None ==> !has_id(self@, id),
    {
        let mut i: usize = 0;
        while i < self.requests.len()
            invariant
                i <= self.requests@.len(),
                self@.len() == self.requests@.len(),
                forall|k: int| 0 <= k < i ==> self@[k].id != id,
            decreases self.requests@.len() - i,
        {
            if self.requests[i].id == id {
                return Some(i);
            }
            i = i + 1;
        }
        None
    }

    /// Whether some pending request carries `id`.
    pub fn contains_id(&self, id: u16) -> (r: bool)
        ensures
            r == has_id(self@, id),
    {
        match self.find_id(id) {
            Some(i) => {
                proof {
                    assert(has_id(self@, id));
                }
                true
            },
            None => false,
        }
    }

    /// The request carrying `id`, when present, left in place.
    pub fn get_by_id(&self, id: u16) -> (r: Option<&Request>)
        requires
            pending_wf(self@),
        ensures
            r is Some <==> has_id(self@, id),
            r matches Some(req) ==> req@ == req_of(self@, id),
    {
        match self.find_id(id) {
            Some(i) => {
                proof {
                    lemma_id_idx_unique(self@, id, i as int);
                }
                Some(&self.requests[i])
            },
            None => None,
        }
    }

    /// The deadline of the request carrying `id`, when present.
    pub fn deadline_of(&self, id: u16) -> (r: Option<u64>)
        requires
            pending_wf(self@),
        ensures
            r is Some <==> has_id(self@, id),
            r matches Some(d) ==> d == req_of(self@, id).deadline,
    {
        match self.find_id(id) {
            Some(i) => {
                proof {
                    lemma_id_idx_unique(self@, id, i as int);
                }
                Some(self.requests[i].deadline)
            },
            None => None,
        }
    }

    /// Removes and returns the request carrying `id`.
    pub fn remove_by_id(&mut self, id: u16) -> (r: Option<Request>)
        requires
            pending_wf(old(self)@),
        ensures
            pending_wf(final(self)@),
            r is Some <==> has_id(old(self)@, id),
            !has_id(old(self)@, id) ==> final(self)@ == old(self)@,
            r matches Some(req) ==> req@ == req_of(old(self)@, id) && final(self)@ == old(
                self,
            )@.remove(id_idx(old(self)@, id)),
    {
        let ghost pre = self@;
        match self.find_id(id) {
            None => None,
            Some(i) => {
                proof {
                    lemma_id_idx_unique(pre, id, i as int);
                }
                let req = self.requests.remove(i);
                proof {
                    assert(self@ =~= pre.remove(i as int));
                    assert(forall|a: int|
                        0 <= a < self@.len() ==> self@[a] == if a < i as int {
                            pre[a]
                        } else {
                            pre[a + 1]
                        });
                }
                Some(req)
            },
        }
    }

    /// Adds a request whose id and query are both new to the table.
    pub fn insert(&mut self, req: Request)
        requires
            pending_wf(old(self)@),
            !has_id(old(self)@, req@.id),
            !has_query(old(self)@, req@.query),
        ensures
            pending_wf(final(self)@),
            final(self)@ == old(self)@.push(req@),
    {
        let ghost pre = self@;
        let ghost rv = req@;
        self.requests.push(req);
        proof {
            assert(self@ =~= pre.push(rv));
            assert(forall|k: int| 0 <= k < pre.len() ==> self@[k] == pre[k]);
        }
    }

    /// Joins `waiter` to the pending request for `q`, when one exists.
    /// Returns whether it did.
    pub fn attach(&mut self, q: &Query, waiter: u64) -> (attached: bool)
        requires
            pending_wf(old(self)@),
        ensures
            pending_wf(final(self)@),
            attached == has_query(old(self)@, q@),
            !attached ==> final(self)@ == old(self)@,
            attached ==> final(self)@ == old(self)@.update(
                query_idx(old(self)@, q@),
                RequestView {
                    notifiers: old(self)@[query_idx(old(self)@, q@)].notifiers.push(waiter),
                    ..old(self)@[query_idx(old(self)@, q@)]
                },
            ),
    {
        let ghost pre = self@;
        let mut i: usize = 0;
        while i < self.requests.len()
            invariant
                i <= self.requests@.len(),
                pre == old(self)@,
                self@ == pre,
                self@.len() == self.requests@.len(),
                pending_wf(pre),
                forall|k: int| 0 <= k < i ==> self@[k].query != q@,
            decreases self.requests@.len() - i,
        {
            if query_eq(&self.requests[i].query, q) {
                proof {
                    lemma_query_idx_unique(pre, q@, i as int);
                }
                let mut req = self.requests.remove(i);
                req.notifiers.push(waiter);
                self.requests.insert(i, req);
                proof {
                    assert(self@ =~= pre.update(
                        i as int,
                        RequestView { notifiers: pre[i as int].notifiers.push(waiter), ..pre[i as int] },
                    ));
                    assert(forall|k: int|
                        0 <= k < self@.len() ==> self@[k].id == pre[k].id && self@[k].query
                            == pre[k].query);
                }
                return true;
            }
            i = i + 1;
        }
        false
    }

}

} // verus!
