//! The engine's model of a parsed DNS message: the header id, the question
//! section and the answer records, reduced to plain values.

use vstd::prelude::*;

use vstd::string::StrSliceExecFns;

use crate::QueryView;
use crate::qname;

verus! {

/// The record types the resolver understands; every other wire type maps to
/// `Other`.
#[derive(Clone, Copy, Debug, PartialEq, Eq, Structural)]
pub enum QueryKind {
    A,
    Srv,
    Mx,
    Other,
}

/// One entry of a message's question section.
#[derive(Debug)]
pub struct QuestionEntry {
    /// The queried name, in the dotted text form.
    pub name: String,
    /// The record type asked for.
    pub kind: QueryKind,
    /// Whether the question's class is the Internet class.
    pub class_in: bool,
}

/// The mathematical value of a [`QuestionEntry`].
pub struct QuestionView {
    pub name: Seq<char>,
    pub kind: QueryKind,
    pub class_in: bool,
}

impl View for QuestionEntry {
    type V = QuestionView;

    open spec fn view(&self) -> QuestionView {
        QuestionView { name: self.name@, kind: self.kind, class_in: self.class_in }
    }
}

/// The payload of one answer record.
#[derive(Debug)]
pub enum RecordData {
    /// An A record: the four address octets packed big-endian.
    A(u32),
    /// An SRV record.
    Srv { priority: u16, weight: u16, port: u16, target: String },
    /// An MX record.
    Mx { preference: u16, exchange: String },
    /// Any record type the resolver does not read.
    Other,
}

/// The mathematical value of a [`RecordData`].
pub enum RecordDataView {
    A(u32),
    Srv { priority: u16, weight: u16, port: u16, target: Seq<char> },
    Mx { preference: u16, exchange: Seq<char> },
    Other,
}

impl View for RecordData {
    type V = RecordDataView;

    open spec fn view(&self) -> RecordDataView {
        match self {
            RecordData::A(ip) => RecordDataView::A(*ip),
            RecordData::Srv { priority, weight, port, target } => RecordDataView::Srv {
                priority: *priority,
                weight: *weight,
                port: *port,
                target: target@,
            },
            RecordData::Mx { preference, exchange } => RecordDataView::Mx {
                preference: *preference,
                exchange: exchange@,
            },
            RecordData::Other => RecordDataView::Other,
        }
    }
}

/// One answer record: its time to live, in seconds, and its payload.
#[derive(Debug)]
pub struct Record {
    pub ttl: u32,
    pub data: RecordData,
}

/// The mathematical value of a [`Record`].
pub struct RecordView {
    pub ttl: u32,
    pub data: RecordDataView,
}

impl View for Record {
    type V = RecordView;

    open spec fn view(&self) -> RecordView {
        RecordView { ttl: self.ttl, data: self.data@ }
    }
}

/// A parsed DNS message, reduced to what the engine reads: the transaction
/// id, the questions and the answer records.
#[derive(Debug)]
pub struct Message {
    pub id: u16,
    pub questions: Vec<QuestionEntry>,
    pub answers: Vec<Record>,
}

/// The mathematical value of a [`Message`].
pub struct MessageView {
    pub id: u16,
    pub questions: Seq<QuestionView>,
    pub answers: Seq<RecordView>,
}

/// The mathematical value of a question section.
pub open spec fn questions_view(v: Seq<QuestionEntry>) -> Seq<QuestionView> {
    v.map_values(|q: QuestionEntry| q@)
}

/// The mathematical value of an answer section.
pub open spec fn records_view(v: Seq<Record>) -> Seq<RecordView> {
    v.map_values(|r: Record| r@)
}

impl View for Message {
    type V = MessageView;

    open spec fn view(&self) -> MessageView {
        MessageView {
            id: self.id,
            questions: questions_view(self.questions@),
            answers: records_view(self.answers@),
        }
    }
}

/// The record type a query asks for.
pub open spec fn qkind(q: QueryView) -> QueryKind {
    match q {
        QueryView::LookupIpv4(_) => QueryKind::A,
        QueryView::LookupSrv(_) => QueryKind::Srv,
        QueryView::LookupMx(_) => QueryKind::Mx,
    }
}

/// A response answers a query exactly when it carries a single question whose
/// name, record type and class all equal the query's own.
pub open spec fn question_matches(q: QueryView, m: MessageView) -> bool {
    &&& m.questions.len() == 1
    &&& m.questions[0].kind == qkind(q)
    &&& m.questions[0].class_in
    &&& m.questions[0].name == qname(q)
}

/// Walks the characters of a name keeping the length `run` of the label read
/// so far; false as soon as a label reaches 63 characters.
pub open spec fn labels_ok(s: Seq<char>, run: int) -> bool
    decreases s.len(),
{
    if run >= 63 {
        false
    } else if s.len() == 0 {
        true
    } else if s[0] == '.' {
        labels_ok(s.drop_first(), 0)
    } else {
        labels_ok(s.drop_first(), run + 1)
    }
}

/// A name the packet builder accepts without reservation: ASCII characters
/// only, and every dot-separated label shorter than 63 characters.
pub open spec fn valid_name(s: Seq<char>) -> bool {
    &&& vstd::utf8::is_ascii_chars(s)
    &&& labels_ok(s, 0)
}

/// Runtime check for [`valid_name`], for callers that receive a name from
/// outside and must reject the invalid ones before querying.
pub fn name_ok(s: &str) -> (r: bool)
    ensures
        r == valid_name(s@),
{
    if !s.is_ascii() {
        return false;
    }
    labels_check(s)
}

/// Runtime walk mirroring [`labels_ok`].
fn labels_check(s: &str) -> (r: bool)
    ensures
        r == labels_ok(s@, 0),
{
    let n = s.unicode_len();
    let mut i: usize = 0;
    let mut run: usize = 0;
    proof {
        assert(s@.skip(0) == s@);
    }
    while i < n
        invariant
            n == s@.len(),
            i <= n,
            run < 63,
            labels_ok(s@, 0) == labels_ok(s@.skip(i as int), run as int),
        decreases n - i,
    {
        proof {
            assert(s@.skip(i as int)[0] == s@[i as int]);
            assert(s@.skip(i as int).drop_first() == s@.skip(i + 1));
        }
        let c = s.get_char(i);
        if c == '.' {
            run = 0;
        } else {
            proof {
                assert(labels_ok(s@.skip(i as int), run as int) == labels_ok(
                    s@.skip(i + 1),
                    run + 1,
                ));
            }
            run = run + 1;
            if run >= 63 {
                proof {
                    assert(!labels_ok(s@.skip(i + 1), run as int));
                }
                return false;
            }
        }
        i = i + 1;
    }
    proof {
        assert(s@.skip(i as int).len() == 0);
    }
    true
}

} // verus!
