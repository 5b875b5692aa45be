use rotor_dns::Answer;
use rotor_dns::IpAddr;
use rotor_dns::Query;
use rotor_dns::ServerAddr;
use rotor_dns::ipv4;
use rotor_dns::config::Config;
use rotor_dns::error::QueryError;
use rotor_dns::fsm::DnsMachine;
use rotor_dns::fsm::QueryOutcome;
use rotor_dns::message::Message;
use rotor_dns::message::QueryKind;
use rotor_dns::message::QuestionEntry;
use rotor_dns::message::Record;
use rotor_dns::message::RecordData;
use rotor_dns::pending::Request;

fn server(n: u8) -> ServerAddr {
    ServerAddr { ip: IpAddr::V4(ipv4(10, 0, 0, n)), port: 53 }
}

fn config(servers: u8, timeout: u64, attempts: u32) -> Config {
    let mut nameservers = Vec::new();
    let mut i: u8 = 0;
    while i < servers {
        nameservers.push(server(i + 1));
        i += 1;
    }
    Config { nameservers, timeout, attempts }
}

fn a_query(name: &str) -> Query {
    Query::LookupIpv4(String::from(name))
}

fn sent_id(outcome: &QueryOutcome) -> u16 {
    match outcome {
        QueryOutcome::Sent { id, .. } => *id,
        _ => panic!("expected a sent packet"),
    }
}

fn a_reply(id: u16, name: &str, ttl: u32, addr: u32) -> Message {
    Message {
        id,
        questions: vec![QuestionEntry {
            name: String::from(name),
            kind: QueryKind::A,
            class_in: true,
        }],
        answers: vec![Record { ttl, data: RecordData::A(addr) }],
    }
}

#[test]
fn single_attempt_times_out_unavailable() {
    // attempts = 1, timeout = 100 ms, no reply ever arrives
    let mut m = DnsMachine::new(config(1, 100, 1));
    let out = m.query(a_query("example.com"), 7, 0).unwrap();
    assert!(matches!(out, QueryOutcome::Sent { .. }));
    assert_eq!(m.next_timeout(), Some(100));

    // just before the deadline nothing happens
    let r = m.refresh_timeouts(99);
    assert_eq!(r.wakes.len(), 0);
    assert_eq!(r.sends.len(), 0);

    // at the deadline the single waiter resolves to unavailable
    let r = m.refresh_timeouts(100);
    assert_eq!(r.wakes.len(), 1);
    assert_eq!(r.wakes[0].waiters, vec![7u64]);
    assert!(matches!(r.wakes[0].entry.value, Answer::ServerUnavailable));
    assert_eq!(r.wakes[0].entry.expire, 100);
    assert_eq!(r.sends.len(), 0);
    assert_eq!(m.next_timeout(), None);
}

#[test]
fn concurrent_identical_queries_share_one_packet() {
    // two lookups for the same name before any reply: the second waiter
    // joins the first request, so exactly one packet is sent
    let mut m = DnsMachine::new(config(1, 100, 2));
    let out1 = m.query(a_query("x.io"), 1, 0).unwrap();
    let id = sent_id(&out1);
    let out2 = m.query(a_query("x.io"), 2, 0).unwrap();
    assert!(matches!(out2, QueryOutcome::Attached));

    // one matching reply wakes both waiters
    let wake = m
        .process_response(a_reply(id, "x.io", 30, ipv4(1, 2, 3, 4)), server(1), 10)
        .expect("matching reply must resolve the request");
    assert_eq!(wake.waiters, vec![1u64, 2u64]);
}

#[test]
fn unrecognized_transaction_id_is_dropped() {
    let mut m = DnsMachine::new(config(1, 100, 2));
    let out = m.query(a_query("x.io"), 1, 0).unwrap();
    let id = sent_id(&out);

    // a reply under a different id is ignored
    let wrong = m.process_response(a_reply(id.wrapping_add(1), "x.io", 30, 5), server(1), 10);
    assert!(wrong.is_none());

    // the real request is untouched and still resolvable
    let wake = m.process_response(a_reply(id, "x.io", 30, 5), server(1), 10);
    assert!(wake.is_some());
}

#[test]
fn mismatched_source_address_is_ignored() {
    let mut m = DnsMachine::new(config(1, 100, 2));
    let out = m.query(a_query("x.io"), 1, 0).unwrap();
    let id = sent_id(&out);

    // right id, wrong source: dropped, request untouched
    let spoofed = m.process_response(a_reply(id, "x.io", 30, 5), server(9), 10);
    assert!(spoofed.is_none());

    // the untouched request still times out on schedule
    let r = m.refresh_timeouts(100);
    assert_eq!(r.sends.len(), 1);
}

#[test]
fn mismatched_question_is_ignored() {
    let mut m = DnsMachine::new(config(1, 100, 2));
    let out = m.query(a_query("x.io"), 1, 0).unwrap();
    let id = sent_id(&out);

    // wrong name
    assert!(m.process_response(a_reply(id, "y.io", 30, 5), server(1), 10).is_none());
    // wrong record type
    let mut msg = a_reply(id, "x.io", 30, 5);
    msg.questions[0].kind = QueryKind::Mx;
    assert!(m.process_response(msg, server(1), 10).is_none());
    // wrong class
    let mut msg = a_reply(id, "x.io", 30, 5);
    msg.questions[0].class_in = false;
    assert!(m.process_response(msg, server(1), 10).is_none());
    // two questions
    let mut msg = a_reply(id, "x.io", 30, 5);
    let extra = QuestionEntry { name: String::from("x.io"), kind: QueryKind::A, class_in: true };
    msg.questions.push(extra);
    assert!(m.process_response(msg, server(1), 10).is_none());

    // the request itself is still alive
    assert!(m.process_response(a_reply(id, "x.io", 30, 5), server(1), 10).is_some());
}

#[test]
fn answer_is_cached_until_expiry() {
    // a reply with one A record, ttl 30 s, caches until now + 30 000 ms
    let mut m = DnsMachine::new(config(1, 100, 2));
    let out = m.query(a_query("example.com"), 1, 1000).unwrap();
    let id = sent_id(&out);
    let addr = ipv4(93, 184, 216, 34);
    let wake = m.process_response(a_reply(id, "example.com", 30, addr), server(1), 1000).unwrap();
    match &wake.entry.value {
        Answer::Ipv4(ips) => assert_eq!(*ips, vec![addr]),
        _ => panic!("expected an IPv4 answer"),
    }
    assert_eq!(wake.entry.expire, 1000 + 30_000);

    // before the expiry an equal query is served from the cache and no
    // packet is sent
    let hit = m.query(a_query("example.com"), 2, 30_999).unwrap();
    match hit {
        QueryOutcome::CacheHit(entry) => {
            assert_eq!(entry.expire, 31_000);
            match entry.value {
                Answer::Ipv4(ips) => assert_eq!(ips, vec![addr]),
                _ => panic!("expected an IPv4 answer"),
            }
        },
        _ => panic!("expected a cache hit"),
    }

    // at the expiry the entry is evicted and a fresh lookup starts
    let miss = m.query(a_query("example.com"), 3, 31_000).unwrap();
    assert!(matches!(miss, QueryOutcome::Sent { .. }));
}

#[test]
fn retries_rotate_and_then_give_up() {
    // attempts = 2 over three nameservers: one retry, then unavailable
    let mut m = DnsMachine::new(config(3, 100, 2));
    let out = m.query(a_query("x.io"), 4, 0).unwrap();
    match &out {
        QueryOutcome::Sent { server: s, .. } => assert_eq!(*s, server(1)),
        _ => panic!("expected a sent packet"),
    }

    // first deadline: retried against the next nameserver
    let r = m.refresh_timeouts(100);
    assert_eq!(r.wakes.len(), 0);
    assert_eq!(r.sends.len(), 1);
    assert_eq!(r.sends[0].server, server(2));
    assert_eq!(m.next_timeout(), Some(200));

    // second deadline: attempts exhausted, waiters resolve to unavailable
    let r = m.refresh_timeouts(200);
    assert_eq!(r.sends.len(), 0);
    assert_eq!(r.wakes.len(), 1);
    assert_eq!(r.wakes[0].waiters, vec![4u64]);
    assert!(matches!(r.wakes[0].entry.value, Answer::ServerUnavailable));

    // the table is empty again: the same query starts from scratch
    let again = m.query(a_query("x.io"), 5, 201).unwrap();
    assert!(matches!(again, QueryOutcome::Sent { .. }));
}

#[test]
fn unavailable_is_not_durably_cached() {
    let mut m = DnsMachine::new(config(1, 100, 1));
    m.query(a_query("x.io"), 1, 0).unwrap();
    let r = m.refresh_timeouts(100);
    assert_eq!(r.wakes.len(), 1);

    // the unavailable outcome is handed to waiters but not served from the
    // cache afterwards
    let next = m.query(a_query("x.io"), 2, 150).unwrap();
    assert!(matches!(next, QueryOutcome::Sent { .. }));
}

#[test]
fn resolved_request_leaves_stale_timeout_entry() {
    let mut m = DnsMachine::new(config(1, 100, 2));
    let out = m.query(a_query("x.io"), 1, 0).unwrap();
    let id = sent_id(&out);
    assert!(m.process_response(a_reply(id, "x.io", 30, 5), server(1), 10).is_some());

    // the timeout entry for the resolved request is stale: discarded
    // without waking or sending anything
    let r = m.refresh_timeouts(100);
    assert_eq!(r.wakes.len(), 0);
    assert_eq!(r.sends.len(), 0);
}

#[test]
fn cancelled_query_leaves_nothing_behind() {
    let mut m = DnsMachine::new(config(1, 100, 2));
    let out = m.query(a_query("x.io"), 1, 0).unwrap();
    let id = sent_id(&out);
    assert!(m.cancel_query(id));
    assert!(!m.cancel_query(id));

    // the stale entry is discarded at its deadline
    let r = m.refresh_timeouts(100);
    assert_eq!(r.wakes.len(), 0);
    assert_eq!(r.sends.len(), 0);
}

#[test]
fn pending_transaction_ids_are_distinct() {
    let mut m = DnsMachine::new(config(1, 1000, 2));
    let mut ids: Vec<u16> = Vec::new();
    let mut n: u32 = 0;
    while n < 40 {
        let name = format!("host{}.example.com", n);
        let out = m.query(Query::LookupIpv4(name), u64::from(n), 0).unwrap();
        ids.push(sent_id(&out));
        n += 1;
    }
    let mut i = 0;
    while i < ids.len() {
        let mut j = i + 1;
        while j < ids.len() {
            assert_ne!(ids[i], ids[j]);
            j += 1;
        }
        i += 1;
    }
}

#[test]
fn oversized_query_is_rejected_without_a_request() {
    // nine labels of 62 characters are each valid, but the whole name
    // cannot fit a 512-byte packet
    let label = "a".repeat(62);
    let mut parts = Vec::new();
    let mut i = 0;
    while i < 9 {
        parts.push(label.clone());
        i += 1;
    }
    let name = parts.join(".");
    let mut m = DnsMachine::new(config(1, 100, 2));
    let err = m.query(a_query(&name), 1, 0).unwrap_err();
    assert_eq!(err, QueryError::TruncatedPacket);

    // no request was created
    let r = m.refresh_timeouts(100);
    assert_eq!(r.wakes.len(), 0);
    assert_eq!(r.sends.len(), 0);
}

#[test]
fn request_matches_checks_question_exactly() {
    let req = Request {
        id: 9,
        query: a_query("x.io"),
        nameserver_index: 0,
        attempts: 1,
        server: server(1),
        deadline: 100,
        notifiers: vec![1],
    };
    assert!(req.matches(&a_reply(9, "x.io", 30, 5)));
    assert!(!req.matches(&a_reply(9, "y.io", 30, 5)));
    let mut msg = a_reply(9, "x.io", 30, 5);
    msg.questions[0].kind = QueryKind::Srv;
    assert!(!req.matches(&msg));
    let mut msg = a_reply(9, "x.io", 30, 5);
    msg.questions.clear();
    assert!(!req.matches(&msg));
}

#[test]
fn minimum_ttl_across_all_records_is_used() {
    // records of other types lower the TTL but do not fail the lookup
    let mut m = DnsMachine::new(config(1, 100, 2));
    let out = m.query(a_query("x.io"), 1, 0).unwrap();
    let id = sent_id(&out);
    let msg = Message {
        id,
        questions: vec![QuestionEntry {
            name: String::from("x.io"),
            kind: QueryKind::A,
            class_in: true,
        }],
        answers: vec![
            Record { ttl: 300, data: RecordData::A(ipv4(1, 2, 3, 4)) },
            Record { ttl: 20, data: RecordData::Other },
            Record { ttl: 60, data: RecordData::A(ipv4(5, 6, 7, 8)) },
        ],
    };
    let wake = m.process_response(msg, server(1), 0).unwrap();
    match &wake.entry.value {
        Answer::Ipv4(ips) => assert_eq!(*ips, vec![ipv4(1, 2, 3, 4), ipv4(5, 6, 7, 8)]),
        _ => panic!("expected an IPv4 answer"),
    }
    assert_eq!(wake.entry.expire, 20_000);
}

#[test]
fn srv_and_mx_answers_are_collected() {
    let mut m = DnsMachine::new(config(1, 100, 2));
    let out = m.query(Query::LookupSrv(String::from("_sip._udp.x.io")), 1, 0).unwrap();
    let id = sent_id(&out);
    let msg = Message {
        id,
        questions: vec![QuestionEntry {
            name: String::from("_sip._udp.x.io"),
            kind: QueryKind::Srv,
            class_in: true,
        }],
        answers: vec![Record {
            ttl: 60,
            data: RecordData::Srv {
                priority: 10,
                weight: 5,
                port: 5060,
                target: String::from("sip.x.io"),
            },
        }],
    };
    let wake = m.process_response(msg, server(1), 0).unwrap();
    match &wake.entry.value {
        Answer::Srv(rows) => {
            assert_eq!(rows.len(), 1);
            assert_eq!(rows[0].priority, 10);
            assert_eq!(rows[0].weight, 5);
            assert_eq!(rows[0].port, 5060);
            assert_eq!(rows[0].target, "sip.x.io");
        },
        _ => panic!("expected an SRV answer"),
    }

    let out = m.query(Query::LookupMx(String::from("x.io")), 2, 0).unwrap();
    let id = sent_id(&out);
    let msg = Message {
        id,
        questions: vec![QuestionEntry {
            name: String::from("x.io"),
            kind: QueryKind::Mx,
            class_in: true,
        }],
        answers: vec![Record {
            ttl: 60,
            data: RecordData::Mx { preference: 10, exchange: String::from("mail.x.io") },
        }],
    };
    let wake = m.process_response(msg, server(1), 0).unwrap();
    match &wake.entry.value {
        Answer::Mx(rows) => {
            assert_eq!(rows.len(), 1);
            assert_eq!(rows[0].preference, 10);
            assert_eq!(rows[0].exchange, "mail.x.io");
        },
        _ => panic!("expected an MX answer"),
    }
}
