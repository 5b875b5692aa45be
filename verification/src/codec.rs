//! The wire codec boundary.  Building and parsing DNS packets is delegated
//! to the `dns-parser` crate; the functions here are the trusted wrappers
//! around it, and the named specification functions give the results of
//! those calls their mathematical names.

use vstd::prelude::*;

use crate::Query;
use crate::QueryView;
use crate::message::Message;
use crate::message::MessageView;
use crate::message::QueryKind;
use crate::message::Record;
use crate::message::RecordData;
use crate::error::Error;

verus! {

/// The body of the encoded query packet: everything after the 2-byte
/// transaction id.  It depends on the query alone — the packet builder
/// writes fixed header flags, the single question, and nothing else.
pub uninterp spec fn encoded_body(q: QueryView) -> Seq<u8>;

/// The full encoded query packet: the transaction id big-endian, then the
/// body.
pub open spec fn encoded(q: QueryView, id: u16) -> Seq<u8> {
    seq![(id / 256) as u8, (id % 256) as u8] + encoded_body(q)
}

/// The encoded packet fits the 512-byte UDP payload bound.
pub open spec fn fits(q: QueryView) -> bool {
    2 + encoded_body(q).len() <= 512
}

/// What parsing a datagram yields: the engine's model of the message, or
/// nothing for a malformed packet.  It depends on the bytes alone.
pub uninterp spec fn parse_of(data: Seq<u8>) -> Option<MessageView>;

#[verifier::external_type_specification]
#[verifier::external_body]
pub struct ExQuestion<'a>(dns_parser::Question<'a>);

#[verifier::external_type_specification]
#[verifier::external_body]
pub struct ExResourceRecord<'a>(dns_parser::ResourceRecord<'a>);

/// Relies on dns_parser::Builder (new_query, add_question, build): the
/// packet starts with the transaction id in big-endian order, the rest is a
/// function of the query alone, and build returns Ok exactly when the
/// packet fits 512 bytes.  add_question panics on a label of 63 bytes or
/// more, which the precondition rules out.
#[verifier::external_body]
pub fn serialize(id: u16, q: &Query) -> (r: Result<Vec<u8>, Error>)
    requires
        crate::message::valid_name(crate::qname(q@)),
    ensures
        r is Ok <==> fits(q@),
        r matches Ok(b) ==> b@ == seq![(id / 256) as u8, (id % 256) as u8] + encoded_body(q@),
        r matches Err(e) ==> e == Error::QueryIsTooLong,
{
    let mut buf = dns_parser::Builder::new_query(id, true);
    match q {
        Query::LookupIpv4(h) => {
            buf.add_question(h, false, dns_parser::QueryType::A, dns_parser::QueryClass::IN);
        },
        Query::LookupMx(h) => {
            buf.add_question(h, false, dns_parser::QueryType::MX, dns_parser::QueryClass::IN);
        },
        Query::LookupSrv(h) => {
            buf.add_question(h, false, dns_parser::QueryType::SRV, dns_parser::QueryClass::IN);
        },
    }
    buf.build().map_err(|_| Error::QueryIsTooLong)
}

/// Relies on dns_parser::Packet::parse: the outcome is a function of the
/// bytes alone.  The header id, the questions and the answer records of the
/// parsed packet are copied into the engine's model; names are rendered in
/// their dotted text form.
#[verifier::external_body]
pub fn parse_message(data: &[u8]) -> (r: Option<Message>)
    ensures
        r matches Some(m) ==> parse_of(data@) == Some(m@),
        r is None ==> parse_of(data@) is None,
{
    let p = match dns_parser::Packet::parse(data) {
        Ok(p) => p,
        Err(_) => return None,
    };
    Some(Message {
        id: p.header.id,
        questions: p.questions.iter().map(question_of).collect(),
        answers: p.answers.iter().map(record_of).collect(),
    })
}

/// Relies on the public fields of dns_parser::Question; copies one question
/// into the engine's model.
#[verifier::external_body]
fn question_of(q: &dns_parser::Question<'_>) -> crate::message::QuestionEntry {
    let kind = match q.qtype {
        dns_parser::QueryType::A => QueryKind::A,
        dns_parser::QueryType::SRV => QueryKind::Srv,
        dns_parser::QueryType::MX => QueryKind::Mx,
        _ => QueryKind::Other,
    };
    let class_in = match q.qclass {
        dns_parser::QueryClass::IN => true,
        _ => false,
    };
    crate::message::QuestionEntry { name: q.qname.to_string(), kind, class_in }
}

/// Relies on the public fields of dns_parser::ResourceRecord; copies one
/// answer record into the engine's model.
#[verifier::external_body]
fn record_of(r: &dns_parser::ResourceRecord<'_>) -> Record {
    let data = match &r.data {
        dns_parser::RData::A(a) => RecordData::A(u32::from(a.0)),
        dns_parser::RData::SRV(s) => RecordData::Srv {
            priority: s.priority, weight: s.weight, port: s.port, target: s.target.to_string(),
        },
        dns_parser::RData::MX(m) => RecordData::Mx {
            preference: m.preference, exchange: m.exchange.to_string(),
        },
        _ => RecordData::Other,
    };
    Record { ttl: r.ttl, data }
}

/// Relies on rand::random: a fresh 16-bit value from the thread-local
/// generator.  Nothing is claimed of the value.
#[verifier::external_body]
pub(crate) fn random_id() -> u16 {
    rand::random()
}

} // verus!
