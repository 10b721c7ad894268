//! Whole messages: the header and the four sections, decoded in two passes
//! (structure first, then names) and encoded in one.
use crate::error::MessageError;
use crate::header::{header_wire, opcode_value, parse_header, rcode_value, read_header, Header};
use crate::name::{
    flatten_to_string, join_labels, lemma_cycle_rejected, parse_labels, pointer_after, read_names,
    resolve, resolve_names, seqs_of, text_of, WireName,
};
use crate::question::{class_of, question_wire, type_of, Class, Question, QuestionView, Type};
use crate::resource_record::{rdata_from, read_rdata, record_wire, RecordView, ResourceRecord};
use crate::wire::{append_bytes, be16_at, be32_at, read_u16, read_u32};
use vstd::prelude::*;

verus! {

/// A DNS message.
#[derive(Debug, Clone, PartialEq, Eq)]
pub struct Message {
    /// The header; its section counts come from the sections below.
    pub header: Header,
    /// The question section.
    pub questions: Vec<Question>,
    /// The answer section.
    pub answers: Vec<ResourceRecord>,
    /// The authority section.
    pub name_servers: Vec<ResourceRecord>,
    /// The additional section.
    pub additional_records: Vec<ResourceRecord>,
}

/// A message as plain values.
pub struct MessageView {
    pub header: Header,
    pub questions: Seq<QuestionView>,
    pub answers: Seq<RecordView>,
    pub name_servers: Seq<RecordView>,
    pub additional_records: Seq<RecordView>,
}

/// The plain values of a list of questions.
pub open spec fn question_views(v: Seq<Question>) -> Seq<QuestionView> {
    v.map_values(|q: Question| q@)
}

/// The plain values of a list of records.
pub open spec fn record_views(v: Seq<ResourceRecord>) -> Seq<RecordView> {
    v.map_values(|r: ResourceRecord| r@)
}

impl View for Message {
    type V = MessageView;

    open spec fn view(&self) -> MessageView {
        MessageView {
            header: self.header,
            questions: question_views(self.questions@),
            answers: record_views(self.answers@),
            name_servers: record_views(self.name_servers@),
            additional_records: record_views(self.additional_records@),
        }
    }
}

/// A question as it stands on the wire, its name not yet resolved.
pub struct WireQuestion {
    pub labels: Seq<Seq<u8>>,
    pub pointer: Option<u16>,
    pub q_type: Type,
    pub q_class: Class,
}

/// A resource record as it stands on the wire, its name and data not yet
/// interpreted.
pub struct WireRecord {
    pub labels: Seq<Seq<u8>>,
    pub pointer: Option<u16>,
    pub r_type: Type,
    pub class: Class,
    pub ttl: u32,
    pub rdata: Seq<u8>,
}

/// The question at `pos` of the message `s`, and the position after it.
pub open spec fn parse_question(s: Seq<u8>, pos: int) -> Option<(WireQuestion, int)> {
    match parse_labels(s, pos) {
        None => None,
        Some((ls, p, e)) => if e + 4 > s.len() {
            None
        } else {
            Some(
                (
                    WireQuestion {
                        labels: ls,
                        pointer: p,
                        q_type: type_of(be16_at(s, e)),
                        q_class: class_of(be16_at(s, e + 2)),
                    },
                    e + 4,
                ),
            )
        },
    }
}

/// The resource record at `pos` of the message `s`, and the position after
/// it: name, type, class, ttl, data length and that many data bytes.
pub open spec fn parse_record(s: Seq<u8>, pos: int) -> Option<(WireRecord, int)> {
    match parse_labels(s, pos) {
        None => None,
        Some((ls, p, e)) => if e + 10 > s.len() {
            None
        } else {
            let end = e + 10 + be16_at(s, e + 8);
            if end > s.len() {
                None
            } else {
                Some(
                    (
                        WireRecord {
                            labels: ls,
                            pointer: p,
                            r_type: type_of(be16_at(s, e)),
                            class: class_of(be16_at(s, e + 2)),
                            ttl: be32_at(s, e + 4),
                            rdata: s.subrange(e + 10, end),
                        },
                        end,
                    ),
                )
            }
        },
    }
}

/// `n` questions one after another from `pos`, and the position after them.
pub open spec fn parse_questions(s: Seq<u8>, pos: int, n: nat) -> Option<
    (Seq<WireQuestion>, int),
>
    decreases n,
{
    if n == 0 {
        Some((Seq::empty(), pos))
    } else {
        match parse_questions(s, pos, (n - 1) as nat) {
            None => None,
            Some((qs, p)) => match parse_question(s, p) {
                None => None,
                Some((q, e)) => Some((qs.push(q), e)),
            },
        }
    }
}

/// `n` resource records one after another from `pos`, and the position
/// after them.
pub open spec fn parse_records(s: Seq<u8>, pos: int, n: nat) -> Option<(Seq<WireRecord>, int)>
    decreases n,
{
    if n == 0 {
        Some((Seq::empty(), pos))
    } else {
        match parse_records(s, pos, (n - 1) as nat) {
            None => None,
            Some((rs, p)) => match parse_record(s, p) {
                None => None,
                Some((r, e)) => Some((rs.push(r), e)),
            },
        }
    }
}

/// The question that a wire question stands for in the message `buf`.
pub open spec fn question_value(buf: Seq<u8>, q: WireQuestion) -> Result<
    QuestionView,
    MessageError,
> {
    match resolve(buf, q.labels, q.pointer) {
        Err(e) => Err(e),
        Ok(all) => match text_of(join_labels(all)) {
            Err(e) => Err(e),
            Ok(t) => Ok(QuestionView { q_name: t, q_type: q.q_type, q_class: q.q_class }),
        },
    }
}

/// The record that a wire record stands for in the message `buf`: its name
/// is resolved first, then its data is interpreted.
pub open spec fn record_value(buf: Seq<u8>, r: WireRecord) -> Result<RecordView, MessageError> {
    match resolve(buf, r.labels, r.pointer) {
        Err(e) => Err(e),
        Ok(all) => match text_of(join_labels(all)) {
            Err(e) => Err(e),
            Ok(t) => match rdata_from(buf, r.r_type, r.rdata) {
                Err(e) => Err(e),
                Ok(d) => Ok(RecordView { name: t, data: d, class: r.class, ttl: r.ttl }),
            },
        },
    }
}

/// The questions, in order; the first that fails decides the error.
pub open spec fn questions_value(buf: Seq<u8>, qs: Seq<WireQuestion>) -> Result<
    Seq<QuestionView>,
    MessageError,
>
    decreases qs.len(),
{
    if qs.len() == 0 {
        Ok(Seq::empty())
    } else {
        match questions_value(buf, qs.drop_last()) {
            Err(e) => Err(e),
            Ok(vs) => match question_value(buf, qs.last()) {
                Err(e) => Err(e),
                Ok(v) => Ok(vs.push(v)),
            },
        }
    }
}

/// The records, in order; the first that fails decides the error.
pub open spec fn records_value(buf: Seq<u8>, rs: Seq<WireRecord>) -> Result<
    Seq<RecordView>,
    MessageError,
>
    decreases rs.len(),
{
    if rs.len() == 0 {
        Ok(Seq::empty())
    } else {
        match records_value(buf, rs.drop_last()) {
            Err(e) => Err(e),
            Ok(vs) => match record_value(buf, rs.last()) {
                Err(e) => Err(e),
                Ok(v) => Ok(vs.push(v)),
            },
        }
    }
}

/// The first pass of decoding: the header, then every entry that its counts
/// announce, read one after another from byte 12; `None` where the bytes end
/// first. Bytes after the last record are ignored.
pub open spec fn read_sections(buf: Seq<u8>) -> Option<
    (Header, Seq<WireQuestion>, Seq<WireRecord>, Seq<WireRecord>, Seq<WireRecord>),
> {
    match parse_header(buf) {
        None => None,
        Some((h, qd, an, ns, ar)) => match parse_questions(buf, 12, qd as nat) {
            None => None,
            Some((qs, q_end)) => match parse_records(buf, q_end, an as nat) {
                None => None,
                Some((ans, a_end)) => match parse_records(buf, a_end, ns as nat) {
                    None => None,
                    Some((nss, n_end)) => match parse_records(buf, n_end, ar as nat) {
                        None => None,
                        Some((ars, _)) => Some((h, qs, ans, nss, ars)),
                    },
                },
            },
        },
    }
}

/// The message that the bytes `buf` hold. Every entry is read first, and
/// only then are names resolved (against the whole of `buf`) and record data
/// interpreted, entry by entry in order; the first failure decides the
/// error.
#[verifier::opaque]
pub open spec fn decode_message(buf: Seq<u8>) -> Result<MessageView, MessageError> {
    match read_sections(buf) {
        None => Err(MessageError::ParsingError),
        Some((h, qs, ans, nss, ars)) => match questions_value(buf, qs) {
            Err(e) => Err(e),
            Ok(qv) => match records_value(buf, ans) {
                Err(e) => Err(e),
                Ok(av) => match records_value(buf, nss) {
                    Err(e) => Err(e),
                    Ok(nv) => match records_value(buf, ars) {
                        Err(e) => Err(e),
                        Ok(rv) => Ok(
                            MessageView {
                                header: h,
                                questions: qv,
                                answers: av,
                                name_servers: nv,
                                additional_records: rv,
                            },
                        ),
                    },
                },
            },
        },
    }
}

/// The wire forms of the questions, one after another.
pub open spec fn questions_wire(qs: Seq<QuestionView>) -> Result<Seq<u8>, MessageError>
    decreases qs.len(),
{
    if qs.len() == 0 {
        Ok(Seq::empty())
    } else {
        match questions_wire(qs.drop_last()) {
            Err(e) => Err(e),
            Ok(w) => match question_wire(qs.last()) {
                Err(e) => Err(e),
                Ok(x) => Ok(w + x),
            },
        }
    }
}

/// The wire forms of the records, one after another.
pub open spec fn records_wire(rs: Seq<RecordView>) -> Result<Seq<u8>, MessageError>
    decreases rs.len(),
{
    if rs.len() == 0 {
        Ok(Seq::empty())
    } else {
        match records_wire(rs.drop_last()) {
            Err(e) => Err(e),
            Ok(w) => match record_wire(rs.last()) {
                Err(e) => Err(e),
                Ok(x) => Ok(w + x),
            },
        }
    }
}

/// The bytes that encode `m`: the header, with the section counts taken from
/// the sections' lengths, then every entry in order, names written out in
/// full. The header is checked first, then the entries in order.
#[verifier::opaque]
pub open spec fn encode_message(m: MessageView) -> Result<Seq<u8>, MessageError> {
    let h = m.header;
    if opcode_value(h.opcode) > 15 {
        Err(MessageError::ReservedOpCode)
    } else if rcode_value(h.rcode) > 15 || m.questions.len() > 0xffff || m.answers.len() > 0xffff
        || m.name_servers.len() > 0xffff || m.additional_records.len() > 0xffff {
        Err(MessageError::EncodingError)
    } else {
        match questions_wire(m.questions) {
            Err(e) => Err(e),
            Ok(qw) => match records_wire(m.answers) {
                Err(e) => Err(e),
                Ok(aw) => match records_wire(m.name_servers) {
                    Err(e) => Err(e),
                    Ok(nw) => match records_wire(m.additional_records) {
                        Err(e) => Err(e),
                        Ok(rw) => Ok(
                            header_wire(
                                h,
                                m.questions.len() as u16,
                                m.answers.len() as u16,
                                m.name_servers.len() as u16,
                                m.additional_records.len() as u16,
                            ) + qw + aw + nw + rw,
                        ),
                    },
                },
            },
        }
    }
}

/// A question read from the wire, its name not yet resolved.
struct RawQuestion {
    qname: WireName,
    qtype: Type,
    qclass: Class,
}

/// A resource record read from the wire, not yet interpreted.
struct RawResourceRecord {
    name: WireName,
    rtype: Type,
    class: Class,
    ttl: u32,
    rdata: Vec<u8>,
}

impl View for RawQuestion {
    type V = WireQuestion;

    closed spec fn view(&self) -> WireQuestion {
        WireQuestion {
            labels: seqs_of(self.qname.labels@),
            pointer: self.qname.pointer,
            q_type: self.qtype,
            q_class: self.qclass,
        }
    }
}

impl View for RawResourceRecord {
    type V = WireRecord;

    closed spec fn view(&self) -> WireRecord {
        WireRecord {
            labels: seqs_of(self.name.labels@),
            pointer: self.name.pointer,
            r_type: self.rtype,
            class: self.class,
            ttl: self.ttl,
            rdata: self.rdata@,
        }
    }
}

/// Reads the question at `pos` of `input`.
fn read_question(input: &[u8], pos: usize) -> (r: Result<(RawQuestion, usize), MessageError>)
    ensures
        match parse_question(input@, pos as int) {
            None => r is Err && r->Err_0 == MessageError::ParsingError,
            Some((q, e)) => r matches Ok((v, p)) && v@ == q && p == e,
        },
{
    let (qname, name_end) = read_names(input, pos)?;
    let (t, type_end) = read_u16(input, name_end)?;
    let (c, end) = read_u16(input, type_end)?;
    let qtype = Type::from(t);
    let qclass = Class::from(c);
    let q = RawQuestion { qname, qtype, qclass };
    Ok((q, end))
}

/// Reads the resource record at `pos` of `input`, copying its data bytes.
fn read_resource_record(input: &[u8], pos: usize) -> (r: Result<
    (RawResourceRecord, usize),
    MessageError,
>)
    ensures
        match parse_record(input@, pos as int) {
            None => r is Err && r->Err_0 == MessageError::ParsingError,
            Some((rr, e)) => r matches Ok((v, p)) && v@ == rr && p == e,
        },
{
    let (name, p) = read_names(input, pos)?;
    if p >= input.len() || input.len() - p < 10 {
        return Err(MessageError::ParsingError);
    }
    let (t, p) = read_u16(input, p)?;
    let (c, p) = read_u16(input, p)?;
    let (ttl, p) = read_u32(input, p)?;
    let (rdlength, p) = read_u16(input, p)?;
    if rdlength as usize > input.len() - p {
        return Err(MessageError::ParsingError);
    }
    let mut rdata: Vec<u8> = Vec::new();
    append_bytes(&mut rdata, &input[p..p + rdlength as usize]);
    Ok(
        (
            RawResourceRecord {
                name,
                rtype: Type::from(t),
                class: Class::from(c),
                ttl,
                rdata,
            },
            p + rdlength as usize,
        ),
    )
}

} // verus!

verus! {

/// An error among the first `j` questions is the error of them all.
proof fn lemma_questions_err(buf: Seq<u8>, s: Seq<WireQuestion>, j: int)
    requires
        0 <= j <= s.len(),
        questions_value(buf, s.take(j)) is Err,
    ensures
        questions_value(buf, s) == questions_value(buf, s.take(j)),
    decreases s.len() - j,
{
    if j < s.len() {
        assert(s.take(j + 1).drop_last() =~= s.take(j));
        lemma_questions_err(buf, s, j + 1);
    } else {
        assert(s.take(j) =~= s);
    }
}

/// An error among the first `j` records is the error of them all.
proof fn lemma_records_err(buf: Seq<u8>, s: Seq<WireRecord>, j: int)
    requires
        0 <= j <= s.len(),
        records_value(buf, s.take(j)) is Err,
    ensures
        records_value(buf, s) == records_value(buf, s.take(j)),
    decreases s.len() - j,
{
    if j < s.len() {
        assert(s.take(j + 1).drop_last() =~= s.take(j));
        lemma_records_err(buf, s, j + 1);
    } else {
        assert(s.take(j) =~= s);
    }
}

/// When the first `j` questions cannot be read, neither can more.
proof fn lemma_questions_short(s: Seq<u8>, pos: int, j: nat, n: nat)
    requires
        j <= n,
        parse_questions(s, pos, j) is None,
    ensures
        parse_questions(s, pos, n) is None,
    decreases n - j,
{
    if j < n {
        lemma_questions_short(s, pos, j + 1, n);
    }
}

/// When the first `j` records cannot be read, neither can more.
proof fn lemma_records_short(s: Seq<u8>, pos: int, j: nat, n: nat)
    requires
        j <= n,
        parse_records(s, pos, j) is None,
    ensures
        parse_records(s, pos, n) is None,
    decreases n - j,
{
    if j < n {
        lemma_records_short(s, pos, j + 1, n);
    }
}

/// Interprets the questions in order against the whole message `input`.
fn questions_from(input: &[u8], raw: &Vec<RawQuestion>) -> (r: Result<
    Vec<Question>,
    MessageError,
>)
    ensures
        match questions_value(input@, raw@.map_values(|q: RawQuestion| q@)) {
            Ok(vs) => r matches Ok(v) && question_views(v@) == vs,
            Err(e) => r == Err::<Vec<Question>, MessageError>(e),
        },
{
    let ghost all = raw@.map_values(|q: RawQuestion| q@);
    let mut out: Vec<Question> = Vec::new();
    let mut i: usize = 0;
    assert(all.take(0) =~= Seq::<WireQuestion>::empty());
    assert(question_views(out@) =~= Seq::<QuestionView>::empty());
    while i < raw.len()
        invariant
            i <= raw@.len(),
            all == raw@.map_values(|q: RawQuestion| q@),
            questions_value(input@, all.take(i as int)) == Ok::<
                Seq<QuestionView>,
                MessageError,
            >(question_views(out@)),
        decreases raw@.len() - i,
    {
        let q = &raw[i];
        assert(all.take(i + 1).drop_last() =~= all.take(i as int));
        assert(all.take(i + 1).last() == q@);
        let labels = match resolve_names(input, &q.qname) {
            Ok(v) => v,
            Err(e) => {
                proof {
                    lemma_questions_err(input@, all, i + 1);
                }
                return Err(e);
            },
        };
        let q_name = match flatten_to_string(&labels) {
            Ok(v) => v,
            Err(e) => {
                proof {
                    lemma_questions_err(input@, all, i + 1);
                }
                return Err(e);
            },
        };
        let ghost before = question_views(out@);
        out.push(Question { q_name, q_type: q.qtype, q_class: q.qclass });
        assert(question_views(out@) =~= before.push(out@.last()@));
        i = i + 1;
    }
    assert(all.take(i as int) =~= all);
    Ok(out)
}

/// Interprets the records in order against the whole message `input`.
fn records_from(input: &[u8], raw: &Vec<RawResourceRecord>) -> (r: Result<
    Vec<ResourceRecord>,
    MessageError,
>)
    ensures
        match records_value(input@, raw@.map_values(|x: RawResourceRecord| x@)) {
            Ok(vs) => r matches Ok(v) && record_views(v@) == vs,
            Err(e) => r == Err::<Vec<ResourceRecord>, MessageError>(e),
        },
{
    let ghost all = raw@.map_values(|x: RawResourceRecord| x@);
    let mut out: Vec<ResourceRecord> = Vec::new();
    let mut i: usize = 0;
    assert(all.take(0) =~= Seq::<WireRecord>::empty());
    assert(record_views(out@) =~= Seq::<RecordView>::empty());
    while i < raw.len()
        invariant
            i <= raw@.len(),
            all == raw@.map_values(|x: RawResourceRecord| x@),
            records_value(input@, all.take(i as int)) == Ok::<Seq<RecordView>, MessageError>(
                record_views(out@),
            ),
        decreases raw@.len() - i,
    {
        let x = &raw[i];
        assert(all.take(i + 1).drop_last() =~= all.take(i as int));
        assert(all.take(i + 1).last() == x@);
        let labels = match resolve_names(input, &x.name) {
            Ok(v) => v,
            Err(e) => {
                proof {
                    lemma_records_err(input@, all, i + 1);
                }
                return Err(e);
            },
        };
        let name = match flatten_to_string(&labels) {
            Ok(v) => v,
            Err(e) => {
                proof {
                    lemma_records_err(input@, all, i + 1);
                }
                return Err(e);
            },
        };
        let data = match read_rdata(input, x.rtype, x.rdata.as_slice()) {
            Ok(v) => v,
            Err(e) => {
                proof {
                    lemma_records_err(input@, all, i + 1);
                }
                return Err(e);
            },
        };
        let ghost before = record_views(out@);
        out.push(ResourceRecord { name, data, class: x.class, ttl: x.ttl });
        assert(record_views(out@) =~= before.push(out@.last()@));
        i = i + 1;
    }
    assert(all.take(i as int) =~= all);
    Ok(out)
}

/// Reads `count` questions one after another from `pos`.
fn read_questions(input: &[u8], pos: usize, count: u16) -> (r: Result<
    (Vec<RawQuestion>, usize),
    MessageError,
>)
    ensures
        match parse_questions(input@, pos as int, count as nat) {
            None => r is Err && r->Err_0 == MessageError::ParsingError,
            Some((qs, e)) => r matches Ok((v, p)) && v@.map_values(|q: RawQuestion| q@) == qs && p
                == e,
        },
{
    let mut out: Vec<RawQuestion> = Vec::new();
    let mut p = pos;
    let mut i: u16 = 0;
    assert(out@.map_values(|q: RawQuestion| q@) =~= Seq::<WireQuestion>::empty());
    while i < count
        invariant
            i <= count,
            parse_questions(input@, pos as int, i as nat) == Some(
                (out@.map_values(|q: RawQuestion| q@), p as int),
            ),
        decreases count - i,
    {
        let (q, e) = match read_question(input, p) {
            Ok(v) => v,
            Err(e) => {
                proof {
                    lemma_questions_short(input@, pos as int, (i + 1) as nat, count as nat);
                }
                return Err(e);
            },
        };
        let ghost before = out@.map_values(|q: RawQuestion| q@);
        out.push(q);
        assert(out@.map_values(|q: RawQuestion| q@) =~= before.push(q@));
        p = e;
        i = i + 1;
    }
    Ok((out, p))
}

} // verus!

verus! {

/// Reads `count` resource records one after another from `pos`.
fn read_records(input: &[u8], pos: usize, count: u16) -> (r: Result<
    (Vec<RawResourceRecord>, usize),
    MessageError,
>)
    ensures
        match parse_records(input@, pos as int, count as nat) {
            None => r is Err && r->Err_0 == MessageError::ParsingError,
            Some((rs, e)) => r matches Ok((v, p)) && v@.map_values(|x: RawResourceRecord| x@)
                == rs && p == e,
        },
{
    let mut out: Vec<RawResourceRecord> = Vec::new();
    let mut p = pos;
    let mut i: u16 = 0;
    assert(out@.map_values(|x: RawResourceRecord| x@) =~= Seq::<WireRecord>::empty());
    while i < count
        invariant
            i <= count,
            parse_records(input@, pos as int, i as nat) == Some(
                (out@.map_values(|x: RawResourceRecord| x@), p as int),
            ),
        decreases count - i,
    {
        let (x, e) = match read_resource_record(input, p) {
            Ok(v) => v,
            Err(e) => {
                proof {
                    lemma_records_short(input@, pos as int, (i + 1) as nat, count as nat);
                }
                return Err(e);
            },
        };
        let ghost before = out@.map_values(|x: RawResourceRecord| x@);
        out.push(x);
        assert(out@.map_values(|x: RawResourceRecord| x@) =~= before.push(x@));
        p = e;
        i = i + 1;
    }
    Ok((out, p))
}

/// Appends the wire forms of the questions, in order.
fn write_questions(qs: &Vec<Question>, buf: &mut Vec<u8>) -> (r: Result<(), MessageError>)
    ensures
        match questions_wire(question_views(qs@)) {
            Ok(w) => r is Ok && final(buf)@ == old(buf)@ + w,
            Err(e) => r == Err::<(), MessageError>(e),
        },
{
    let ghost all = question_views(qs@);
    let mut i: usize = 0;
    assert(all.take(0) =~= Seq::<QuestionView>::empty());
    assert(buf@ =~= old(buf)@ + Seq::<u8>::empty());
    while i < qs.len()
        invariant
            i <= qs@.len(),
            all == question_views(qs@),
            questions_wire(all.take(i as int)) matches Ok(w) && buf@ == old(buf)@ + w,
        decreases qs@.len() - i,
    {
        assert(all.take(i + 1).drop_last() =~= all.take(i as int));
        assert(all.take(i + 1).last() == qs@[i as int]@);
        match qs[i].to_bytes(buf) {
            Ok(_) => {},
            Err(e) => {
                proof {
                    lemma_questions_wire_err(all, i + 1);
                }
                return Err(e);
            },
        }
        assert(buf@ =~= old(buf)@ + questions_wire(all.take(i + 1))->Ok_0);
        i = i + 1;
    }
    assert(all.take(i as int) =~= all);
    Ok(())
}

/// Appends the wire forms of the records, in order.
fn write_records(rs: &Vec<ResourceRecord>, buf: &mut Vec<u8>) -> (r: Result<(), MessageError>)
    ensures
        match records_wire(record_views(rs@)) {
            Ok(w) => r is Ok && final(buf)@ == old(buf)@ + w,
            Err(e) => r == Err::<(), MessageError>(e),
        },
{
    let ghost all = record_views(rs@);
    let mut i: usize = 0;
    assert(all.take(0) =~= Seq::<RecordView>::empty());
    assert(buf@ =~= old(buf)@ + Seq::<u8>::empty());
    while i < rs.len()
        invariant
            i <= rs@.len(),
            all == record_views(rs@),
            records_wire(all.take(i as int)) matches Ok(w) && buf@ == old(buf)@ + w,
        decreases rs@.len() - i,
    {
        assert(all.take(i + 1).drop_last() =~= all.take(i as int));
        assert(all.take(i + 1).last() == rs@[i as int]@);
        match rs[i].to_bytes(buf) {
            Ok(_) => {},
            Err(e) => {
                proof {
                    lemma_records_wire_err(all, i + 1);
                }
                return Err(e);
            },
        }
        assert(buf@ =~= old(buf)@ + records_wire(all.take(i + 1))->Ok_0);
        i = i + 1;
    }
    assert(all.take(i as int) =~= all);
    Ok(())
}

/// An error among the first `j` questions is the error of them all.
proof fn lemma_questions_wire_err(s: Seq<QuestionView>, j: int)
    requires
        0 <= j <= s.len(),
        questions_wire(s.take(j)) is Err,
    ensures
        questions_wire(s) == questions_wire(s.take(j)),
    decreases s.len() - j,
{
    if j < s.len() {
        assert(s.take(j + 1).drop_last() =~= s.take(j));
        lemma_questions_wire_err(s, j + 1);
    } else {
        assert(s.take(j) =~= s);
    }
}

/// An error among the first `j` records is the error of them all.
proof fn lemma_records_wire_err(s: Seq<RecordView>, j: int)
    requires
        0 <= j <= s.len(),
        records_wire(s.take(j)) is Err,
    ensures
        records_wire(s) == records_wire(s.take(j)),
    decreases s.len() - j,
{
    if j < s.len() {
        assert(s.take(j + 1).drop_last() =~= s.take(j));
        lemma_records_wire_err(s, j + 1);
    } else {
        assert(s.take(j) =~= s);
    }
}

impl Message {
    /// Decodes a message from `input`: reads the header and every section
    /// entry that its counts announce, then resolves compression pointers
    /// against the whole of `input` and interprets record data.
    pub fn from_bytes(input: &[u8]) -> (r: Result<Message, MessageError>)
        ensures
            match decode_message(input@) {
                Ok(v) => r matches Ok(m) && m@ == v,
                Err(e) => r == Err::<Message, MessageError>(e),
            },
    {
        reveal(decode_message);
        let (header, qd, an, ns, ar) = read_header(input)?;
        let (raw_questions, p) = read_questions(input, 12, qd)?;
        let (raw_answers, p) = read_records(input, p, an)?;
        let (raw_name_servers, p) = read_records(input, p, ns)?;
        let (raw_additional, _) = read_records(input, p, ar)?;
        let questions = questions_from(input, &raw_questions)?;
        let answers = records_from(input, &raw_answers)?;
        let name_servers = records_from(input, &raw_name_servers)?;
        let additional_records = records_from(input, &raw_additional)?;
        let m = Message { header, questions, answers, name_servers, additional_records };
        assert(m@ == decode_message(input@)->Ok_0);
        Ok(m)
    }

    /// Encodes the message and appends it to `buf`, with every name written
    /// out in full; returns the number of bytes written. On failure nothing
    /// is written. A result longer than 512 bytes is not truncated.
    pub fn to_bytes(&self, buf: &mut Vec<u8>) -> (r: Result<usize, MessageError>)
        ensures
            match encode_message(self@) {
                Ok(w) => r == Ok::<usize, MessageError>(w.len() as usize) && final(buf)@ == old(
                    buf,
                )@ + w,
                Err(e) => r == Err::<usize, MessageError>(e) && final(buf)@ == old(buf)@,
            },
    {
        reveal(encode_message);
        let mut out: Vec<u8> = Vec::new();
        self.header.to_bytes(self, &mut out)?;
        write_questions(&self.questions, &mut out)?;
        write_records(&self.answers, &mut out)?;
        write_records(&self.name_servers, &mut out)?;
        write_records(&self.additional_records, &mut out)?;
        proof {
            let w = encode_message(self@)->Ok_0;
            assert(out@ =~= w);
        }
        let start = buf.len();
        append_bytes(buf, out.as_slice());
        Ok(buf.len() - start)
    }
}

} // verus!

verus! {

/// Cycle rejection for a whole message: when every entry can be read and the
/// first question's name ends with a pointer from which following pointers
/// leads back to it, decoding fails with `CircularReference`.
pub proof fn lemma_message_cycle_rejected(buf: Seq<u8>, p: u16, k: nat)
    requires
        k > 0,
        pointer_after(buf, p, k) == Some(p),
        read_sections(buf) matches Some((_, qs, _, _, _)) && qs.len() > 0 && qs[0].pointer == Some(
            p,
        ),
    ensures
        decode_message(buf) matches Err(MessageError::CircularReference(_)),
{
    let (_, qs, _, _, _) = read_sections(buf)->Some_0;
    lemma_cycle_rejected(buf, qs[0].labels, p, k);
    assert(qs.take(1).drop_last() =~= Seq::<WireQuestion>::empty());
    assert(qs.take(1).last() == qs[0]);
    assert(question_value(buf, qs[0]) matches Err(MessageError::CircularReference(_)));
    assert(questions_value(buf, Seq::<WireQuestion>::empty()) is Ok);
    assert(questions_value(buf, qs.take(1)) matches Err(MessageError::CircularReference(_)));
    lemma_questions_err(buf, qs, 1);
    lemma_question_error_decides(buf);
}

/// When every entry can be read, an error among the questions is the error
/// of the whole message.
proof fn lemma_question_error_decides(buf: Seq<u8>)
    requires
        read_sections(buf) matches Some((_, qs, _, _, _)) && questions_value(buf, qs) is Err,
    ensures
        decode_message(buf) == Err::<MessageView, MessageError>(
            questions_value(buf, read_sections(buf)->Some_0.1)->Err_0,
        ),
{
    reveal(decode_message);
}

} // verus!
