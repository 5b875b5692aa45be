//! An embeddable, non-blocking DNS resolver engine.
//!
//! The crate holds the resolver's state machine: the pending-request table,
//! the retry/timeout scheduler, the response-matching and spoof-check logic,
//! and the TTL cache.  Wire packets are built and parsed by the `dns-parser`
//! crate behind a small trusted boundary; sockets, timers and the surrounding
//! event loop are left to the embedding program, which drives the machine
//! through its entry points and performs the sends and wake-ups the machine
//! asks for.

use vstd::prelude::*;

pub mod addr;
pub mod cache;
pub mod codec;
pub mod config;
pub mod error;
pub mod fsm;
pub mod laws;
pub mod message;
pub mod pending;
pub mod timeouts;

pub use addr::IpAddr;
pub use addr::ServerAddr;
pub use addr::ipv4;
pub use codec::serialize;
pub use config::Config;
pub use error::Error;
pub use error::QueryError;

verus! {

/// Human friendly query types.
#[derive(Debug)]
pub enum Query {
    /// Simple host lookup (A record)
    LookupIpv4(String),
    /// Plain SRV record lookup
    LookupSrv(String),
    /// Plain MX record lookup
    LookupMx(String),
}

/// The mathematical value of a [`Query`]: the lookup kind with the queried
/// name as a sequence of characters.
pub enum QueryView {
    LookupIpv4(Seq<char>),
    LookupSrv(Seq<char>),
    LookupMx(Seq<char>),
}

impl View for Query {
    type V = QueryView;

    open spec fn view(&self) -> QueryView {
        match self {
            Query::LookupIpv4(s) => QueryView::LookupIpv4(s@),
            Query::LookupSrv(s) => QueryView::LookupSrv(s@),
            Query::LookupMx(s) => QueryView::LookupMx(s@),
        }
    }
}

/// The name a query asks about.
pub open spec fn qname(q: QueryView) -> Seq<char> {
    match q {
        QueryView::LookupIpv4(s) => s,
        QueryView::LookupSrv(s) => s,
        QueryView::LookupMx(s) => s,
    }
}

/// Equality test on queries; two queries are equal when they are the same
/// kind of lookup for the same name.
pub fn query_eq(a: &Query, b: &Query) -> (r: bool)
    ensures
        r == (a@ == b@),
{
    match (a, b) {
        (Query::LookupIpv4(x), Query::LookupIpv4(y)) => *x == *y,
        (Query::LookupSrv(x), Query::LookupSrv(y)) => *x == *y,
        (Query::LookupMx(x), Query::LookupMx(y)) => *x == *y,
        _ => false,
    }
}

/// Single SRV record.
#[derive(Debug)]
pub struct SrvRecord {
    pub priority: u16,
    pub weight: u16,
    pub port: u16,
    pub target: String,
}

/// The mathematical value of a [`SrvRecord`].
pub struct SrvRecordView {
    pub priority: u16,
    pub weight: u16,
    pub port: u16,
    pub target: Seq<char>,
}

impl View for SrvRecord {
    type V = SrvRecordView;

    open spec fn view(&self) -> SrvRecordView {
        SrvRecordView {
            priority: self.priority,
            weight: self.weight,
            port: self.port,
            target: self.target@,
        }
    }
}

impl Clone for SrvRecord {
    fn clone(&self) -> (r: Self)
        ensures
            r@ == self@,
    {
        SrvRecord {
            priority: self.priority,
            weight: self.weight,
            port: self.port,
            target: self.target.clone(),
        }
    }
}

/// Single MX record.
#[derive(Debug)]
pub struct MxRecord {
    pub preference: u16,
    pub exchange: String,
}

/// The mathematical value of an [`MxRecord`].
pub struct MxRecordView {
    pub preference: u16,
    pub exchange: Seq<char>,
}

impl View for MxRecord {
    type V = MxRecordView;

    open spec fn view(&self) -> MxRecordView {
        MxRecordView { preference: self.preference, exchange: self.exchange@ }
    }
}

impl Clone for MxRecord {
    fn clone(&self) -> (r: Self)
        ensures
            r@ == self@,
    {
        MxRecord { preference: self.preference, exchange: self.exchange.clone() }
    }
}

/// The mathematical value of a list of SRV records.
pub open spec fn srvs_view(v: Seq<SrvRecord>) -> Seq<SrvRecordView> {
    v.map_values(|s: SrvRecord| s@)
}

/// The mathematical value of a list of MX records.
pub open spec fn mxs_view(v: Seq<MxRecord>) -> Seq<MxRecordView> {
    v.map_values(|m: MxRecord| m@)
}

/// A generic DNS answer.  IPv4 addresses are carried in the packed form of
/// [`addr::IpAddr::V4`].
#[derive(Debug)]
pub enum Answer {
    ServerUnavailable,
    Ipv4(Vec<u32>),
    Srv(Vec<SrvRecord>),
    Mx(Vec<MxRecord>),
}

/// The mathematical value of an [`Answer`].
pub enum AnswerView {
    ServerUnavailable,
    Ipv4(Seq<u32>),
    Srv(Seq<SrvRecordView>),
    Mx(Seq<MxRecordView>),
}

impl View for Answer {
    type V = AnswerView;

    open spec fn view(&self) -> AnswerView {
        match self {
            Answer::ServerUnavailable => AnswerView::ServerUnavailable,
            Answer::Ipv4(v) => AnswerView::Ipv4(v@),
            Answer::Srv(v) => AnswerView::Srv(srvs_view(v@)),
            Answer::Mx(v) => AnswerView::Mx(mxs_view(v@)),
        }
    }
}

/// A cached answer together with the instant, in milliseconds, at which it
/// stops being valid.
#[derive(Debug)]
pub struct CacheEntry {
    pub value: Answer,
    pub expire: u64,
}

/// The mathematical value of a [`CacheEntry`].
pub struct CacheEntryView {
    pub value: AnswerView,
    pub expire: u64,
}

impl View for CacheEntry {
    type V = CacheEntryView;

    open spec fn view(&self) -> CacheEntryView {
        CacheEntryView { value: self.value@, expire: self.expire }
    }
}

fn clone_u32s(v: &Vec<u32>) -> (r: Vec<u32>)
    ensures
        r@ == v@,
{
    let mut r: Vec<u32> = Vec::new();
    let mut i: usize = 0;
    while i < v.len()
        invariant
            i <= v.len(),
            r@.len() == i,
            forall|k: int| 0 <= k < i ==> r@[k] == v@[k],
        decreases v.len() - i,
    {
        r.push(v[i]);
        i = i + 1;
    }
    assert(r@ =~= v@);
    r
}

fn clone_srvs(v: &Vec<SrvRecord>) -> (r: Vec<SrvRecord>)
    ensures
        srvs_view(r@) == srvs_view(v@),
{
    let mut r: Vec<SrvRecord> = Vec::new();
    let mut i: usize = 0;
    while i < v.len()
        invariant
            i <= v.len(),
            r@.len() == i,
            forall|k: int| 0 <= k < i ==> r@[k]@ == v@[k]@,
        decreases v.len() - i,
    {
        r.push(v[i].clone());
        i = i + 1;
    }
    assert(srvs_view(r@) =~= srvs_view(v@));
    r
}

fn clone_mxs(v: &Vec<MxRecord>) -> (r: Vec<MxRecord>)
    ensures
        mxs_view(r@) == mxs_view(v@),
{
    let mut r: Vec<MxRecord> = Vec::new();
    let mut i: usize = 0;
    while i < v.len()
        invariant
            i <= v.len(),
            r@.len() == i,
            forall|k: int| 0 <= k < i ==> r@[k]@ == v@[k]@,
        decreases v.len() - i,
    {
        r.push(v[i].clone());
        i = i + 1;
    }
    assert(mxs_view(r@) =~= mxs_view(v@));
    r
}

impl Clone for Answer {
    fn clone(&self) -> (r: Self)
        ensures
            r@ == self@,
    {
        match self {
            Answer::ServerUnavailable => Answer::ServerUnavailable,
            Answer::Ipv4(v) => Answer::Ipv4(clone_u32s(v)),
            Answer::Srv(v) => Answer::Srv(clone_srvs(v)),
            Answer::Mx(v) => Answer::Mx(clone_mxs(v)),
        }
    }
}

impl Clone for CacheEntry {
    fn clone(&self) -> (r: Self)
        ensures
            r@ == self@,
    {
        CacheEntry { value: self.value.clone(), expire: self.expire }
    }
}

} // verus!
