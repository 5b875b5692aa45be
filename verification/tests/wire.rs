use rotor_dns::Answer;
use rotor_dns::IpAddr;
use rotor_dns::Query;
use rotor_dns::ServerAddr;
use rotor_dns::ipv4;
use rotor_dns::serialize;
use rotor_dns::config::Config;
use rotor_dns::error::Error;
use rotor_dns::fsm::DnsMachine;
use rotor_dns::fsm::QueryOutcome;
use rotor_dns::message::name_ok;

fn ns() -> ServerAddr {
    ServerAddr { ip: IpAddr::V4(ipv4(10, 0, 0, 1)), port: 53 }
}

fn one_server_config() -> Config {
    Config { nameservers: vec![ns()], timeout: 100, attempts: 2 }
}

#[test]
fn serialize_builds_a_real_query_packet() {
    // the packet of the crate's own builder, byte for byte
    let packet = serialize(1573, &Query::LookupIpv4(String::from("example.com"))).unwrap();
    let expected: &[u8] =
        b"\x06\x25\x01\x00\x00\x01\x00\x00\x00\x00\x00\x00\x07example\x03com\x00\x00\x01\x00\x01";
    assert_eq!(&packet[..], expected);
}

#[test]
fn serialize_rejects_an_oversized_query() {
    let label = "b".repeat(62);
    let mut parts = Vec::new();
    let mut i = 0;
    while i < 9 {
        parts.push(label.clone());
        i += 1;
    }
    let name = parts.join(".");
    let err = serialize(1, &Query::LookupIpv4(name)).unwrap_err();
    assert_eq!(err, Error::QueryIsTooLong);
}

#[test]
fn a_record_reply_parses_end_to_end() {
    // a reply with one A record, ttl 30, address 93.184.216.34, handed to
    // the engine as raw bytes for the query "x.io"
    let mut m = DnsMachine::new(one_server_config());
    let out = m.query(Query::LookupIpv4(String::from("x.io")), 7, 1000).unwrap();
    let id = match out {
        QueryOutcome::Sent { id, .. } => id,
        _ => panic!("expected a sent packet"),
    };
    let mut reply: Vec<u8> = Vec::new();
    reply.extend([(id >> 8) as u8, id as u8]);
    reply.extend([0x81, 0x80, 0x00, 0x01, 0x00, 0x01, 0x00, 0x00, 0x00, 0x00]);
    // question: x.io IN A
    reply.extend([1, b'x', 2, b'i', b'o', 0, 0x00, 0x01, 0x00, 0x01]);
    // answer: pointer to the name at offset 12, IN A, ttl 30, 4 bytes
    reply.extend([0xc0, 0x0c, 0x00, 0x01, 0x00, 0x01, 0x00, 0x00, 0x00, 0x1e, 0x00, 0x04]);
    reply.extend([93, 184, 216, 34]);

    let wake = m.on_response(&reply, ns(), 1000).expect("the reply must resolve the request");
    assert_eq!(wake.waiters, vec![7u64]);
    match &wake.entry.value {
        Answer::Ipv4(ips) => assert_eq!(*ips, vec![ipv4(93, 184, 216, 34)]),
        _ => panic!("expected an IPv4 answer"),
    }
    assert_eq!(wake.entry.expire, 1000 + 30_000);
}

#[test]
fn malformed_datagram_is_dropped() {
    let mut m = DnsMachine::new(one_server_config());
    m.query(Query::LookupIpv4(String::from("x.io")), 7, 0).unwrap();
    assert!(m.on_response(&[0xff, 0x00, 0x12], ns(), 10).is_none());
}

#[test]
fn own_packets_round_trip_through_the_parser() {
    // the machine's own query packet, fed back from the right server,
    // parses to the same id and question and matches the request
    let mut m = DnsMachine::new(one_server_config());
    let out = m.query(Query::LookupIpv4(String::from("example.com")), 7, 0).unwrap();
    let packet = match out {
        QueryOutcome::Sent { packet, .. } => packet,
        _ => panic!("expected a sent packet"),
    };
    let wake = m.on_response(&packet, ns(), 0).expect("the echoed question must match");
    // a reply without answer records resolves to an empty address list
    match &wake.entry.value {
        Answer::Ipv4(ips) => assert_eq!(ips.len(), 0),
        _ => panic!("expected an IPv4 answer"),
    }
}

#[test]
fn name_validity_check() {
    assert!(name_ok("example.com"));
    assert!(name_ok(""));
    assert!(name_ok(&"c".repeat(62)));
    assert!(!name_ok(&"c".repeat(63)));
    assert!(name_ok(&format!("{}.{}", "d".repeat(62), "e".repeat(62))));
    assert!(!name_ok("ex\u{e4}mple.com"));
}

#[test]
fn ipv4_packs_octets_big_endian() {
    assert_eq!(ipv4(93, 184, 216, 34), 1_572_395_042);
    assert_eq!(ipv4(0, 0, 0, 0), 0);
    assert_eq!(ipv4(255, 255, 255, 255), u32::MAX);
}
