//! Builders for messages, questions and resource records, with defaults for
//! every field that is not set.
use crate::header::{Header, OpCode, RCode};
use crate::message::{Message, MessageView};
use crate::question::{Class, Question, QuestionView, Type};
use crate::resource_record::{RData, RecordView, ResourceRecord};
use vstd::prelude::*;

verus! {

/// Builds a [`Message`]: id 0, every flag clear, `Query`, `NoError` and
/// empty sections unless set.
#[derive(Debug)]
pub struct MessageBuilder {
    id: u16,
    qr: bool,
    opcode: OpCode,
    aa: bool,
    tc: bool,
    rd: bool,
    ra: bool,
    ad: bool,
    cd: bool,
    rcode: RCode,
    questions: Vec<Question>,
    answers: Vec<ResourceRecord>,
    name_servers: Vec<ResourceRecord>,
    additional_records: Vec<ResourceRecord>,
}

impl View for MessageBuilder {
    type V = MessageView;

    /// The message that `build` would produce now.
    closed spec fn view(&self) -> MessageView {
        Message {
            header: Header {
                id: self.id,
                qr: self.qr,
                opcode: self.opcode,
                aa: self.aa,
                tc: self.tc,
                rd: self.rd,
                ra: self.ra,
                ad: self.ad,
                cd: self.cd,
                rcode: self.rcode,
            },
            questions: self.questions,
            answers: self.answers,
            name_servers: self.name_servers,
            additional_records: self.additional_records,
        }@
    }
}

impl MessageBuilder {
    /// A builder with the default value of every field.
    pub fn new() -> (r: Self)
        ensures
            r@.header == (Header {
                id: 0,
                qr: false,
                opcode: OpCode::Query,
                aa: false,
                tc: false,
                rd: false,
                ra: false,
                ad: false,
                cd: false,
                rcode: RCode::NoError,
            }),
            r@.questions.len() == 0,
            r@.answers.len() == 0,
            r@.name_servers.len() == 0,
            r@.additional_records.len() == 0,
    {
        let r = MessageBuilder {
            id: 0,
            qr: false,
            opcode: OpCode::Query,
            aa: false,
            tc: false,
            rd: false,
            ra: false,
            ad: false,
            cd: false,
            rcode: RCode::NoError,
            questions: Vec::new(),
            answers: Vec::new(),
            name_servers: Vec::new(),
            additional_records: Vec::new(),
        };
        r
    }

    /// The message with the fields set so far.
    pub fn build(self) -> (r: Message)
        ensures
            r@ == self@,
    {
        Message {
            header: Header {
                id: self.id,
                qr: self.qr,
                opcode: self.opcode,
                aa: self.aa,
                tc: self.tc,
                rd: self.rd,
                ra: self.ra,
                ad: self.ad,
                cd: self.cd,
                rcode: self.rcode,
            },
            questions: self.questions,
            answers: self.answers,
            name_servers: self.name_servers,
            additional_records: self.additional_records,
        }
    }

    /// Sets the identifier.
    pub fn id(self, id: u16) -> (r: Self)
        ensures
            r@ == (MessageView { header: Header { id, ..self@.header }, ..self@ }),
    {
        let mut b = self;
        b.id = id;
        b
    }

    /// Sets whether the message is a response.
    pub fn qr(self, qr: bool) -> (r: Self)
        ensures
            r@ == (MessageView { header: Header { qr, ..self@.header }, ..self@ }),
    {
        let mut b = self;
        b.qr = qr;
        b
    }

    /// Sets the opcode.
    pub fn opcode(self, opcode: OpCode) -> (r: Self)
        ensures
            r@ == (MessageView { header: Header { opcode, ..self@.header }, ..self@ }),
    {
        let mut b = self;
        b.opcode = opcode;
        b
    }

    /// Sets the authoritative answer flag.
    pub fn aa(self, aa: bool) -> (r: Self)
        ensures
            r@ == (MessageView { header: Header { aa, ..self@.header }, ..self@ }),
    {
        let mut b = self;
        b.aa = aa;
        b
    }

    /// Sets the truncation flag.
    pub fn tc(self, tc: bool) -> (r: Self)
        ensures
            r@ == (MessageView { header: Header { tc, ..self@.header }, ..self@ }),
    {
        let mut b = self;
        b.tc = tc;
        b
    }

    /// Sets the recursion desired flag.
    pub fn rd(self, rd: bool) -> (r: Self)
        ensures
            r@ == (MessageView { header: Header { rd, ..self@.header }, ..self@ }),
    {
        let mut b = self;
        b.rd = rd;
        b
    }

    /// Sets the recursion available flag.
    pub fn ra(self, ra: bool) -> (r: Self)
        ensures
            r@ == (MessageView { header: Header { ra, ..self@.header }, ..self@ }),
    {
        let mut b = self;
        b.ra = ra;
        b
    }

    /// Sets the authentic data flag.
    pub fn ad(self, ad: bool) -> (r: Self)
        ensures
            r@ == (MessageView { header: Header { ad, ..self@.header }, ..self@ }),
    {
        let mut b = self;
        b.ad = ad;
        b
    }

    /// Sets the checking disabled flag.
    pub fn cd(self, cd: bool) -> (r: Self)
        ensures
            r@ == (MessageView { header: Header { cd, ..self@.header }, ..self@ }),
    {
        let mut b = self;
        b.cd = cd;
        b
    }

    /// Sets the response code.
    pub fn rcode(self, rcode: RCode) -> (r: Self)
        ensures
            r@ == (MessageView { header: Header { rcode, ..self@.header }, ..self@ }),
    {
        let mut b = self;
        b.rcode = rcode;
        b
    }

    /// Adds a question at the end of the question section.
    pub fn question(self, question: Question) -> (r: Self)
        ensures
            r@ == (MessageView { questions: self@.questions.push(question@), ..self@ }),
    {
        let mut b = self;
        let ghost before = b@;
        b.questions.push(question);
        assert(b@.questions =~= before.questions.push(question@));
        b
    }

    /// Adds a record at the end of the answer section.
    pub fn answer(self, answer: ResourceRecord) -> (r: Self)
        ensures
            r@ == (MessageView { answers: self@.answers.push(answer@), ..self@ }),
    {
        let mut b = self;
        let ghost before = b@;
        b.answers.push(answer);
        assert(b@.answers =~= before.answers.push(answer@));
        b
    }

    /// Adds a record at the end of the authority section.
    pub fn name_server(self, ns: ResourceRecord) -> (r: Self)
        ensures
            r@ == (MessageView { name_servers: self@.name_servers.push(ns@), ..self@ }),
    {
        let mut b = self;
        let ghost before = b@;
        b.name_servers.push(ns);
        assert(b@.name_servers =~= before.name_servers.push(ns@));
        b
    }

    /// Adds a record at the end of the additional section.
    pub fn additional_record(self, ar: ResourceRecord) -> (r: Self)
        ensures
            r@ == (MessageView {
                additional_records: self@.additional_records.push(ar@),
                ..self@
            }),
    {
        let mut b = self;
        let ghost before = b@;
        b.additional_records.push(ar);
        assert(b@.additional_records =~= before.additional_records.push(ar@));
        b
    }
}

/// Builds a [`Question`]: an empty name, `A` and `IN` unless set.
#[derive(Debug)]
pub struct QuestionBuilder {
    q_name: String,
    q_type: Type,
    q_class: Class,
}

impl View for QuestionBuilder {
    type V = QuestionView;

    /// The question that `build` would produce now.
    closed spec fn view(&self) -> QuestionView {
        QuestionView { q_name: self.q_name@, q_type: self.q_type, q_class: self.q_class }
    }
}

impl QuestionBuilder {
    /// A builder with the default value of every field.
    pub fn new() -> (r: Self)
        ensures
            r@ == (QuestionView { q_name: Seq::empty(), q_type: Type::A, q_class: Class::IN }),
    {
        QuestionBuilder { q_name: String::new(), q_type: Type::A, q_class: Class::IN }
    }

    /// The question with the fields set so far.
    pub fn build(self) -> (r: Question)
        ensures
            r@ == self@,
    {
        Question { q_name: self.q_name, q_type: self.q_type, q_class: self.q_class }
    }

    /// Sets the dotted domain name; each label must be at most 63 bytes
    /// long for the question to be encodable.
    pub fn name(self, name: &str) -> (r: Self)
        ensures
            r@ == (QuestionView { q_name: name@, ..self@ }),
    {
        let mut b = self;
        b.q_name = name.to_owned();
        b
    }

    /// Sets the type asked for.
    pub fn q_type(self, t: Type) -> (r: Self)
        ensures
            r@ == (QuestionView { q_type: t, ..self@ }),
    {
        let mut b = self;
        b.q_type = t;
        b
    }

    /// Sets the class asked for.
    pub fn class(self, cls: Class) -> (r: Self)
        ensures
            r@ == (QuestionView { q_class: cls, ..self@ }),
    {
        let mut b = self;
        b.q_class = cls;
        b
    }
}

/// Builds a [`ResourceRecord`] from a name and data: `IN` and a ttl of 0
/// unless set.
#[derive(Debug)]
pub struct ResourceRecordBuilder {
    name: String,
    data: RData,
    class: Class,
    ttl: u32,
}

impl View for ResourceRecordBuilder {
    type V = RecordView;

    /// The record that `build` would produce now.
    closed spec fn view(&self) -> RecordView {
        RecordView { name: self.name@, data: self.data@, class: self.class, ttl: self.ttl }
    }
}

impl ResourceRecordBuilder {
    /// A builder for a record with this name and data.
    pub fn new(name: &str, data: RData) -> (r: Self)
        ensures
            r@ == (RecordView { name: name@, data: data@, class: Class::IN, ttl: 0 }),
    {
        ResourceRecordBuilder { name: name.to_owned(), data, class: Class::IN, ttl: 0 }
    }

    /// The record with the fields set so far.
    pub fn build(self) -> (r: ResourceRecord)
        ensures
            r@ == self@,
    {
        ResourceRecord { name: self.name, data: self.data, class: self.class, ttl: self.ttl }
    }

    /// Sets the class.
    pub fn class(self, cls: Class) -> (r: Self)
        ensures
            r@ == (RecordView { class: cls, ..self@ }),
    {
        let mut b = self;
        b.class = cls;
        b
    }

    /// Sets the ttl in seconds.
    pub fn ttl(self, ttl: u32) -> (r: Self)
        ensures
            r@ == (RecordView { ttl, ..self@ }),
    {
        let mut b = self;
        b.ttl = ttl;
        b
    }
}

} // verus!
