//! Decoding what encoding writes gives the message back.
use crate::error::MessageError;
use crate::header::{
    header_canonical, header_fits, header_wire, lemma_header_round_trip, parse_header, Header,
};
use crate::message::{
    decode_message, encode_message, parse_question, parse_questions, parse_record, parse_records,
    question_value, questions_value, questions_wire, record_value, records_value, records_wire,
    MessageView, WireQuestion, WireRecord,
};
use crate::name::{
    encode_name, join_labels, labels_ok, lemma_parse_wire, name_at, parse_labels, split_dots,
    text_of, DOT,
};
use crate::question::{class_code, class_of, question_wire, type_code, type_of, QuestionView, Type};
use crate::resource_record::{rdata_code, rdata_from, rdata_wire, record_wire, RDataView, RecordView};
use crate::wire::{be16_at, be32_at, lemma_u16_round_trip, lemma_u32_round_trip, u16_wire, u32_wire};
use vstd::prelude::*;
use vstd::utf8::encode_utf8;

verus! {

broadcast use vstd::utf8::encode_utf8_valid_utf8, vstd::utf8::encode_utf8_decode_utf8;

/// Whether every dot-separated piece of the name is 1 to 63 bytes long: the
/// names whose encoding reads back as the same text.
pub open spec fn name_ok(s: Seq<char>) -> bool {
    let ls = split_dots(encode_utf8(s));
    forall|i: int| 0 <= i < ls.len() ==> 0 < #[trigger] ls[i].len() <= 63
}

proof fn lemma_split_nonempty(b: Seq<u8>)
    ensures
        split_dots(b).len() >= 1,
    decreases b.len(),
{
    if b.len() > 0 {
        lemma_split_nonempty(b.drop_last());
    }
}

/// Joining the dot-separated pieces of `b` with dots gives `b`.
proof fn lemma_join_split(b: Seq<u8>)
    ensures
        join_labels(split_dots(b)) == b,
    decreases b.len(),
{
    if b.len() > 0 {
        let init = b.drop_last();
        let s = split_dots(init);
        lemma_join_split(init);
        lemma_split_nonempty(init);
        if b.last() == DOT {
            let s2 = s.push(Seq::<u8>::empty());
            assert(s2.drop_last() =~= s);
            assert(join_labels(s2) =~= b);
        } else {
            let s2 = s.update(s.len() - 1, s.last().push(b.last()));
            if s.len() == 1 {
                assert(join_labels(s2) =~= b);
            } else {
                assert(s2.drop_last() =~= s.drop_last());
                assert(s2.last() == s.last().push(b.last()));
                assert(join_labels(s) == join_labels(s.drop_last()) + seq![DOT] + s.last());
                assert(join_labels(s2) == join_labels(s.drop_last()) + seq![DOT] + s.last().push(
                    b.last(),
                ));
                assert(b =~= init.push(b.last()));
                assert(join_labels(s2) =~= b);
            }
        }
    }
}

/// A name whose pieces are 1 to 63 bytes long encodes, and its encoding
/// reads back, anywhere, as the same text.
proof fn lemma_name_round_trip(buf: Seq<u8>, s: Seq<u8>, pos: int, name: Seq<char>)
    requires
        name_ok(name),
        0 <= pos,
        encode_name(name) is Ok,
        pos + encode_name(name)->Ok_0.len() <= s.len(),
        s.subrange(pos, pos + encode_name(name)->Ok_0.len()) == encode_name(name)->Ok_0,
    ensures
        parse_labels(s, pos) == Some(
            (
                split_dots(encode_utf8(name)),
                None::<u16>,
                pos + encode_name(name)->Ok_0.len(),
            ),
        ),
        text_of(join_labels(split_dots(encode_utf8(name)))) == Ok::<Seq<char>, MessageError>(name),
        name_at(buf, s, pos) == Ok::<(Seq<char>, int), MessageError>(
            (name, pos + encode_name(name)->Ok_0.len()),
        ),
{
    let ls = split_dots(encode_utf8(name));
    assert(labels_ok(ls));
    lemma_parse_wire(s, pos, ls);
    lemma_join_split(encode_utf8(name));
}

} // verus!

verus! {

/// Whether a question's type and class are the ones their codes stand for.
pub open spec fn question_shape(q: QuestionView) -> bool {
    type_of(type_code(q.q_type)) == q.q_type && class_of(class_code(q.q_class)) == q.q_class
}

/// Whether a record's class is the one its code stands for, its address has
/// the right length, and raw data carries a type code with no dedicated
/// variant.
pub open spec fn record_shape(r: RecordView) -> bool {
    &&& class_of(class_code(r.class)) == r.class
    &&& match r.data {
        RDataView::A(o) => o.len() == 4,
        RDataView::AAAA(o) => o.len() == 16,
        RDataView::Raw(t, _) => t != 1 && t != 5 && t != 6 && t != 16 && t != 28,
        _ => true,
    }
}

/// Whether every name in a record has pieces of 1 to 63 bytes.
pub open spec fn record_names_ok(r: RecordView) -> bool {
    &&& name_ok(r.name)
    &&& match r.data {
        RDataView::CNAME(s) => name_ok(s),
        RDataView::SOA(m, n, _, _, _, _, _) => name_ok(m) && name_ok(n),
        _ => true,
    }
}

/// How a question stands on the wire after encoding.
pub open spec fn wire_question_of(q: QuestionView) -> WireQuestion {
    WireQuestion {
        labels: split_dots(encode_utf8(q.q_name)),
        pointer: None,
        q_type: q.q_type,
        q_class: q.q_class,
    }
}

/// How a record stands on the wire after encoding.
pub open spec fn wire_record_of(r: RecordView) -> WireRecord {
    WireRecord {
        labels: split_dots(encode_utf8(r.name)),
        pointer: None,
        r_type: type_of(rdata_code(r.data)),
        class: r.class,
        ttl: r.ttl,
        rdata: rdata_wire(r.data)->Ok_0,
    }
}

proof fn lemma_window(s: Seq<u8>, p: int, a: Seq<u8>, b: Seq<u8>)
    requires
        0 <= p,
        p + a.len() + b.len() <= s.len(),
        s.subrange(p, p + a.len() + b.len()) == a + b,
    ensures
        s.subrange(p, p + a.len()) == a,
        s.subrange(p + a.len(), p + a.len() + b.len()) == b,
{
    assert(s.subrange(p, p + a.len()) =~= a) by {
        assert forall|i: int| 0 <= i < a.len() implies s.subrange(p, p + a.len())[i] == a[i] by {
            assert(s[p + i] == (a + b)[i]);
        }
    }
    assert(s.subrange(p + a.len(), p + a.len() + b.len()) =~= b) by {
        assert forall|i: int| 0 <= i < b.len() implies s.subrange(
            p + a.len(),
            p + a.len() + b.len(),
        )[i] == b[i] by {
            assert(s[p + a.len() + i] == (a + b)[a.len() + i]);
        }
    }
}

proof fn lemma_u16_at(s: Seq<u8>, p: int, v: u16)
    requires
        0 <= p,
        p + 2 <= s.len(),
        s.subrange(p, p + 2) == u16_wire(v),
    ensures
        be16_at(s, p) == v,
{
    lemma_u16_round_trip(v);
    assert(s[p] == s.subrange(p, p + 2)[0]);
    assert(s[p + 1] == s.subrange(p, p + 2)[1]);
}

proof fn lemma_u32_at(s: Seq<u8>, p: int, v: u32)
    requires
        0 <= p,
        p + 4 <= s.len(),
        s.subrange(p, p + 4) == u32_wire(v),
    ensures
        be32_at(s, p) == v,
{
    lemma_u32_round_trip(v);
    assert(s[p] == s.subrange(p, p + 4)[0]);
    assert(s[p + 1] == s.subrange(p, p + 4)[1]);
    assert(s[p + 2] == s.subrange(p, p + 4)[2]);
    assert(s[p + 3] == s.subrange(p, p + 4)[3]);
}

/// An encoded question reads back as the same question.
proof fn lemma_question_read_back(s: Seq<u8>, p: int, q: QuestionView)
    requires
        name_ok(q.q_name),
        question_shape(q),
        question_wire(q) is Ok,
        0 <= p,
        p + question_wire(q)->Ok_0.len() <= s.len(),
        s.subrange(p, p + question_wire(q)->Ok_0.len()) == question_wire(q)->Ok_0,
    ensures
        parse_question(s, p) == Some((wire_question_of(q), p + question_wire(q)->Ok_0.len())),
        question_value(s, wire_question_of(q)) == Ok::<QuestionView, MessageError>(q),
{
    let nw = encode_name(q.q_name)->Ok_0;
    let tw = u16_wire(type_code(q.q_type));
    let cw = u16_wire(class_code(q.q_class));
    lemma_window(s, p, nw + tw, cw);
    lemma_window(s, p, nw, tw);
    lemma_name_round_trip(s, s, p, q.q_name);
    lemma_u16_at(s, p + nw.len(), type_code(q.q_type));
    lemma_u16_at(s, p + nw.len() + 2, class_code(q.q_class));
}

/// Five 32-bit values written one after another read back.
proof fn lemma_tail_read_back(s: Seq<u8>, q: int, v: (u32, u32, u32, u32, u32))
    requires
        0 <= q,
        q + 20 <= s.len(),
        s.subrange(q, q + 20) == u32_wire(v.0) + u32_wire(v.1) + u32_wire(v.2) + u32_wire(v.3)
            + u32_wire(v.4),
    ensures
        be32_at(s, q) == v.0,
        be32_at(s, q + 4) == v.1,
        be32_at(s, q + 8) == v.2,
        be32_at(s, q + 12) == v.3,
        be32_at(s, q + 16) == v.4,
{
    let t = s.subrange(q, q + 20);
    assert(s.subrange(q, q + 4) =~= t.subrange(0, 4));
    assert(s.subrange(q + 4, q + 8) =~= t.subrange(4, 8));
    assert(s.subrange(q + 8, q + 12) =~= t.subrange(8, 12));
    assert(s.subrange(q + 12, q + 16) =~= t.subrange(12, 16));
    assert(s.subrange(q + 16, q + 20) =~= t.subrange(16, 20));
    assert(t.subrange(0, 4) =~= u32_wire(v.0));
    assert(t.subrange(4, 8) =~= u32_wire(v.1));
    assert(t.subrange(8, 12) =~= u32_wire(v.2));
    assert(t.subrange(12, 16) =~= u32_wire(v.3));
    assert(t.subrange(16, 20) =~= u32_wire(v.4));
    lemma_u32_at(s, q, v.0);
    lemma_u32_at(s, q + 4, v.1);
    lemma_u32_at(s, q + 8, v.2);
    lemma_u32_at(s, q + 12, v.3);
    lemma_u32_at(s, q + 16, v.4);
}

/// The two names at the start of encoded start-of-authority data read back.
proof fn lemma_soa_names(buf: Seq<u8>, dw: Seq<u8>, m: Seq<char>, n: Seq<char>, tail: Seq<u8>)
    requires
        name_ok(m),
        name_ok(n),
        encode_name(m) is Ok,
        encode_name(n) is Ok,
        dw == encode_name(m)->Ok_0 + encode_name(n)->Ok_0 + tail,
    ensures
        name_at(buf, dw, 0) == Ok::<(Seq<char>, int), MessageError>(
            (m, encode_name(m)->Ok_0.len() as int),
        ),
        name_at(buf, dw, encode_name(m)->Ok_0.len() as int) == Ok::<
            (Seq<char>, int),
            MessageError,
        >((n, (encode_name(m)->Ok_0.len() + encode_name(n)->Ok_0.len()) as int)),
{
    let mw = encode_name(m)->Ok_0;
    let nw = encode_name(n)->Ok_0;
    assert(dw.subrange(0, dw.len() as int) =~= dw);
    lemma_window(dw, 0, mw + nw, tail);
    lemma_window(dw, 0, mw, nw);
    lemma_name_round_trip(buf, dw, 0, m);
    lemma_name_round_trip(buf, dw, mw.len() as int, n);
}

/// Encoded start-of-authority data reads back as the same data.
proof fn lemma_soa_read_back(
    buf: Seq<u8>,
    m: Seq<char>,
    n: Seq<char>,
    serial: u32,
    refresh: u32,
    retry: u32,
    expire: u32,
    minimum: u32,
)
    requires
        name_ok(m),
        name_ok(n),
        rdata_wire(RDataView::SOA(m, n, serial, refresh, retry, expire, minimum)) is Ok,
    ensures
        ({
            let d = RDataView::SOA(m, n, serial, refresh, retry, expire, minimum);
            rdata_from(buf, Type::SOA, rdata_wire(d)->Ok_0) == Ok::<RDataView, MessageError>(d)
        }),
{
    let dw = rdata_wire(RDataView::SOA(m, n, serial, refresh, retry, expire, minimum))->Ok_0;
    let mw = encode_name(m)->Ok_0;
    let nw = encode_name(n)->Ok_0;
    let tail = u32_wire(serial) + u32_wire(refresh) + u32_wire(retry) + u32_wire(expire)
        + u32_wire(minimum);
    let q = (mw.len() + nw.len()) as int;
    assert(dw == mw + nw + tail);
    lemma_soa_names(buf, dw, m, n, tail);
    assert(dw.subrange(q, q + 20) =~= tail);
    lemma_tail_read_back(dw, q, (serial, refresh, retry, expire, minimum));
}

/// Encoded record data reads back as the same data.
proof fn lemma_rdata_read_back(buf: Seq<u8>, r: RecordView)
    requires
        record_shape(r),
        record_names_ok(r),
        rdata_wire(r.data) is Ok,
    ensures
        rdata_from(buf, type_of(rdata_code(r.data)), rdata_wire(r.data)->Ok_0) == Ok::<
            RDataView,
            MessageError,
        >(r.data),
{
    let dw = rdata_wire(r.data)->Ok_0;
    match r.data {
        RDataView::A(o) => {
            assert(o.take(4) =~= o);
        },
        RDataView::AAAA(o) => {
            assert(o.take(16) =~= o);
        },
        RDataView::CNAME(n) => {
            assert(dw.subrange(0, dw.len() as int) =~= dw);
            lemma_name_round_trip(buf, dw, 0, n);
        },
        RDataView::SOA(m, n, serial, refresh, retry, expire, minimum) => {
            lemma_soa_read_back(buf, m, n, serial, refresh, retry, expire, minimum);
        },
        RDataView::TXT(t) => {},
        RDataView::Raw(t, b) => {},
    }
}

/// An encoded record reads back as the same record.
proof fn lemma_record_read_back(s: Seq<u8>, p: int, r: RecordView)
    requires
        record_shape(r),
        record_names_ok(r),
        record_wire(r) is Ok,
        0 <= p,
        p + record_wire(r)->Ok_0.len() <= s.len(),
        s.subrange(p, p + record_wire(r)->Ok_0.len()) == record_wire(r)->Ok_0,
    ensures
        parse_record(s, p) == Some((wire_record_of(r), p + record_wire(r)->Ok_0.len())),
        record_value(s, wire_record_of(r)) == Ok::<RecordView, MessageError>(r),
{
    let nw = encode_name(r.name)->Ok_0;
    let dw = rdata_wire(r.data)->Ok_0;
    let tw = u16_wire(rdata_code(r.data));
    let cw = u16_wire(class_code(r.class));
    let lw = u32_wire(r.ttl);
    let rw = u16_wire(dw.len() as u16);
    lemma_window(s, p, nw + tw + cw + lw + rw, dw);
    lemma_window(s, p, nw + tw + cw + lw, rw);
    lemma_window(s, p, nw + tw + cw, lw);
    lemma_window(s, p, nw + tw, cw);
    lemma_window(s, p, nw, tw);
    lemma_name_round_trip(s, s, p, r.name);
    let e = p + nw.len();
    lemma_u16_at(s, e, rdata_code(r.data));
    lemma_u16_at(s, e + 2, class_code(r.class));
    lemma_u32_at(s, e + 4, r.ttl);
    lemma_u16_at(s, e + 8, dw.len() as u16);
    lemma_rdata_read_back(s, r);
}

} // verus!

verus! {

/// Encoded questions, one after another, read back as the same questions.
proof fn lemma_questions_read_back(s: Seq<u8>, p: int, qs: Seq<QuestionView>)
    requires
        forall|i: int|
            0 <= i < qs.len() ==> name_ok(#[trigger] qs[i].q_name) && question_shape(qs[i]),
        questions_wire(qs) is Ok,
        0 <= p,
        p + questions_wire(qs)->Ok_0.len() <= s.len(),
        s.subrange(p, p + questions_wire(qs)->Ok_0.len()) == questions_wire(qs)->Ok_0,
    ensures
        parse_questions(s, p, qs.len()) == Some(
            (
                qs.map_values(|q: QuestionView| wire_question_of(q)),
                p + questions_wire(qs)->Ok_0.len(),
            ),
        ),
        questions_value(s, qs.map_values(|q: QuestionView| wire_question_of(q))) == Ok::<
            Seq<QuestionView>,
            MessageError,
        >(qs),
    decreases qs.len(),
{
    let ws = qs.map_values(|q: QuestionView| wire_question_of(q));
    if qs.len() == 0 {
        assert(ws =~= Seq::<WireQuestion>::empty());
        assert(qs =~= Seq::<QuestionView>::empty());
    } else {
        let init = qs.drop_last();
        let last = qs.last();
        let iw = questions_wire(init)->Ok_0;
        let lw = question_wire(last)->Ok_0;
        assert(name_ok(last.q_name) && question_shape(last));
        lemma_window(s, p, iw, lw);
        lemma_questions_read_back(s, p, init);
        lemma_question_read_back(s, p + iw.len(), last);
        assert(ws.drop_last() =~= init.map_values(|q: QuestionView| wire_question_of(q)));
        assert(ws.last() == wire_question_of(last));
        assert(init.push(last) =~= qs);
    }
}

/// Encoded records, one after another, read back as the same records.
proof fn lemma_records_read_back(s: Seq<u8>, p: int, rs: Seq<RecordView>)
    requires
        forall|i: int|
            0 <= i < rs.len() ==> record_names_ok(#[trigger] rs[i]) && record_shape(rs[i]),
        records_wire(rs) is Ok,
        0 <= p,
        p + records_wire(rs)->Ok_0.len() <= s.len(),
        s.subrange(p, p + records_wire(rs)->Ok_0.len()) == records_wire(rs)->Ok_0,
    ensures
        parse_records(s, p, rs.len()) == Some(
            (
                rs.map_values(|r: RecordView| wire_record_of(r)),
                p + records_wire(rs)->Ok_0.len(),
            ),
        ),
        records_value(s, rs.map_values(|r: RecordView| wire_record_of(r))) == Ok::<
            Seq<RecordView>,
            MessageError,
        >(rs),
    decreases rs.len(),
{
    let ws = rs.map_values(|r: RecordView| wire_record_of(r));
    if rs.len() == 0 {
        assert(ws =~= Seq::<WireRecord>::empty());
        assert(rs =~= Seq::<RecordView>::empty());
    } else {
        let init = rs.drop_last();
        let last = rs.last();
        let iw = records_wire(init)->Ok_0;
        let lw = record_wire(last)->Ok_0;
        assert(record_names_ok(last) && record_shape(last));
        lemma_window(s, p, iw, lw);
        lemma_records_read_back(s, p, init);
        lemma_record_read_back(s, p + iw.len(), last);
        assert(ws.drop_last() =~= init.map_values(|r: RecordView| wire_record_of(r)));
        assert(ws.last() == wire_record_of(last));
        assert(init.push(last) =~= rs);
    }
}

/// Whether a message's header codes fit and are canonical, and every entry
/// has the shape that decoding gives.
pub open spec fn message_shape(m: MessageView) -> bool {
    &&& header_fits(m.header)
    &&& header_canonical(m.header)
    &&& forall|i: int| 0 <= i < m.questions.len() ==> question_shape(#[trigger] m.questions[i])
    &&& forall|i: int| 0 <= i < m.answers.len() ==> record_shape(#[trigger] m.answers[i])
    &&& forall|i: int| 0 <= i < m.name_servers.len() ==> record_shape(#[trigger] m.name_servers[i])
    &&& forall|i: int|
        0 <= i < m.additional_records.len() ==> record_shape(#[trigger] m.additional_records[i])
}

/// Whether every name in a message has dot-separated pieces of 1 to 63
/// bytes: the root name, empty pieces and longer labels do not read back
/// as themselves once written out.
pub open spec fn message_names_ok(m: MessageView) -> bool {
    &&& forall|i: int| 0 <= i < m.questions.len() ==> name_ok(#[trigger] m.questions[i].q_name)
    &&& forall|i: int| 0 <= i < m.answers.len() ==> record_names_ok(#[trigger] m.answers[i])
    &&& forall|i: int|
        0 <= i < m.name_servers.len() ==> record_names_ok(#[trigger] m.name_servers[i])
    &&& forall|i: int|
        0 <= i < m.additional_records.len() ==> record_names_ok(
            #[trigger] m.additional_records[i],
        )
}

/// Decoding succeeds with the parts that each step gives.
proof fn lemma_decode_from_parts(
    w: Seq<u8>,
    h: Header,
    counts: (u16, u16, u16, u16),
    wire: (Seq<WireQuestion>, Seq<WireRecord>, Seq<WireRecord>, Seq<WireRecord>),
    ends: (int, int, int, int),
    m: MessageView,
)
    requires
        parse_header(w) == Some((h, counts.0, counts.1, counts.2, counts.3)),
        parse_questions(w, 12, counts.0 as nat) == Some((wire.0, ends.0)),
        parse_records(w, ends.0, counts.1 as nat) == Some((wire.1, ends.1)),
        parse_records(w, ends.1, counts.2 as nat) == Some((wire.2, ends.2)),
        parse_records(w, ends.2, counts.3 as nat) == Some((wire.3, ends.3)),
        questions_value(w, wire.0) == Ok::<Seq<QuestionView>, MessageError>(m.questions),
        records_value(w, wire.1) == Ok::<Seq<RecordView>, MessageError>(m.answers),
        records_value(w, wire.2) == Ok::<Seq<RecordView>, MessageError>(m.name_servers),
        records_value(w, wire.3) == Ok::<Seq<RecordView>, MessageError>(m.additional_records),
        m.header == h,
    ensures
        decode_message(w) == Ok::<MessageView, MessageError>(m),
{
    reveal(decode_message);
}

/// How the bytes that encode a message are laid out.
proof fn lemma_encoded_layout(m: MessageView)
    requires
        encode_message(m) is Ok,
    ensures
        m.questions.len() <= 0xffff,
        m.answers.len() <= 0xffff,
        m.name_servers.len() <= 0xffff,
        m.additional_records.len() <= 0xffff,
        questions_wire(m.questions) is Ok,
        records_wire(m.answers) is Ok,
        records_wire(m.name_servers) is Ok,
        records_wire(m.additional_records) is Ok,
        encode_message(m)->Ok_0 == header_wire(
            m.header,
            m.questions.len() as u16,
            m.answers.len() as u16,
            m.name_servers.len() as u16,
            m.additional_records.len() as u16,
        ) + questions_wire(m.questions)->Ok_0 + records_wire(m.answers)->Ok_0 + records_wire(
            m.name_servers,
        )->Ok_0 + records_wire(m.additional_records)->Ok_0,
{
    reveal(encode_message);
}

/// The header of an encoded message reads back.
proof fn lemma_header_prefix(w: Seq<u8>, hw: Seq<u8>, h: Header, counts: (u16, u16, u16, u16))
    requires
        header_fits(h),
        header_canonical(h),
        hw == header_wire(h, counts.0, counts.1, counts.2, counts.3),
        w.len() >= 12,
        w.subrange(0, 12) == hw,
    ensures
        parse_header(w) == Some((h, counts.0, counts.1, counts.2, counts.3)),
{
    lemma_header_round_trip(h, counts.0, counts.1, counts.2, counts.3);
    assert forall|i: int| 0 <= i < 12 implies w[i] == hw[i] by {
        assert(w.subrange(0, 12)[i] == w[i]);
    }
}

/// A message of the decoded shape whose names all have pieces of 1 to 63
/// bytes decodes, once encoded, to itself.
pub proof fn lemma_encode_decode(m: MessageView)
    requires
        message_shape(m),
        message_names_ok(m),
        encode_message(m) is Ok,
    ensures
        decode_message(encode_message(m)->Ok_0) == Ok::<MessageView, MessageError>(m),
{
    let h = m.header;
    let qd = m.questions.len() as u16;
    let an = m.answers.len() as u16;
    let ns = m.name_servers.len() as u16;
    let ar = m.additional_records.len() as u16;
    lemma_encoded_layout(m);
    let hw = header_wire(h, qd, an, ns, ar);
    let qw = questions_wire(m.questions)->Ok_0;
    let aw = records_wire(m.answers)->Ok_0;
    let nw = records_wire(m.name_servers)->Ok_0;
    let rw = records_wire(m.additional_records)->Ok_0;
    let w = encode_message(m)->Ok_0;
    assert(w.subrange(0, w.len() as int) =~= w);
    lemma_window(w, 0, hw + qw + aw + nw, rw);
    lemma_window(w, 0, hw + qw + aw, nw);
    lemma_window(w, 0, hw + qw, aw);
    lemma_window(w, 0, hw, qw);
    lemma_header_prefix(w, hw, h, (qd, an, ns, ar));
    let q_end = (12 + qw.len()) as int;
    let a_end = q_end + aw.len() as int;
    let n_end = a_end + nw.len() as int;
    let r_end = n_end + rw.len() as int;
    let wq = m.questions.map_values(|q: QuestionView| wire_question_of(q));
    let wa = m.answers.map_values(|r: RecordView| wire_record_of(r));
    let wn = m.name_servers.map_values(|r: RecordView| wire_record_of(r));
    let wr = m.additional_records.map_values(|r: RecordView| wire_record_of(r));
    lemma_questions_read_back(w, 12, m.questions);
    lemma_records_read_back(w, q_end, m.answers);
    lemma_records_read_back(w, a_end, m.name_servers);
    lemma_records_read_back(w, n_end, m.additional_records);
    lemma_decode_from_parts(w, h, (qd, an, ns, ar), (wq, wa, wn, wr), (q_end, a_end, n_end, r_end), m);
}

} // verus!

verus! {

proof fn lemma_codes_read_back(c: u16)
    ensures
        type_code(type_of(c)) == c,
        class_code(class_of(c)) == c,
{
}

/// Whether a question read from the wire has the type and class its codes
/// stand for.
spec fn wire_question_shape(q: WireQuestion) -> bool {
    type_of(type_code(q.q_type)) == q.q_type && class_of(class_code(q.q_class)) == q.q_class
}

/// Whether a record read from the wire has the type and class its codes
/// stand for.
spec fn wire_record_shape(r: WireRecord) -> bool {
    type_of(type_code(r.r_type)) == r.r_type && class_of(class_code(r.class)) == r.class
}

proof fn lemma_parsed_questions_shape(s: Seq<u8>, p: int, n: nat)
    requires
        parse_questions(s, p, n) is Some,
    ensures
        forall|i: int|
            0 <= i < parse_questions(s, p, n)->Some_0.0.len() ==> wire_question_shape(
                #[trigger] parse_questions(s, p, n)->Some_0.0[i],
            ),
    decreases n,
{
    if n > 0 {
        lemma_parsed_questions_shape(s, p, (n - 1) as nat);
        let (init, e) = parse_questions(s, p, (n - 1) as nat)->Some_0;
        let (q, _) = parse_question(s, e)->Some_0;
        let (ls, ptr, f) = parse_labels(s, e)->Some_0;
        lemma_codes_read_back(be16_at(s, f));
        lemma_codes_read_back(be16_at(s, f + 2));
        let all = parse_questions(s, p, n)->Some_0.0;
        assert(all == init.push(q));
        assert forall|i: int| 0 <= i < all.len() implies wire_question_shape(#[trigger] all[i]) by {
            if i < init.len() {
                assert(all[i] == init[i]);
            }
        }
    }
}

proof fn lemma_parsed_records_shape(s: Seq<u8>, p: int, n: nat)
    requires
        parse_records(s, p, n) is Some,
    ensures
        forall|i: int|
            0 <= i < parse_records(s, p, n)->Some_0.0.len() ==> wire_record_shape(
                #[trigger] parse_records(s, p, n)->Some_0.0[i],
            ),
    decreases n,
{
    if n > 0 {
        lemma_parsed_records_shape(s, p, (n - 1) as nat);
        let (init, e) = parse_records(s, p, (n - 1) as nat)->Some_0;
        let (r, _) = parse_record(s, e)->Some_0;
        let (ls, ptr, f) = parse_labels(s, e)->Some_0;
        lemma_codes_read_back(be16_at(s, f));
        lemma_codes_read_back(be16_at(s, f + 2));
        let all = parse_records(s, p, n)->Some_0.0;
        assert(all == init.push(r));
        assert forall|i: int| 0 <= i < all.len() implies wire_record_shape(#[trigger] all[i]) by {
            if i < init.len() {
                assert(all[i] == init[i]);
            }
        }
    }
}

proof fn lemma_questions_value_shape(buf: Seq<u8>, qs: Seq<WireQuestion>)
    requires
        questions_value(buf, qs) is Ok,
        forall|i: int| 0 <= i < qs.len() ==> wire_question_shape(#[trigger] qs[i]),
    ensures
        ({
            let vs = questions_value(buf, qs)->Ok_0;
            forall|i: int| 0 <= i < vs.len() ==> question_shape(#[trigger] vs[i])
        }),
        questions_value(buf, qs)->Ok_0.len() == qs.len(),
    decreases qs.len(),
{
    if qs.len() > 0 {
        let init = qs.drop_last();
        assert forall|i: int| 0 <= i < init.len() implies wire_question_shape(#[trigger] init[i]) by {
            assert(init[i] == qs[i]);
        }
        lemma_questions_value_shape(buf, init);
        assert(wire_question_shape(qs[qs.len() - 1]));
        let vi = questions_value(buf, init)->Ok_0;
        let vs = questions_value(buf, qs)->Ok_0;
        assert forall|i: int| 0 <= i < vs.len() implies question_shape(#[trigger] vs[i]) by {
            if i < vi.len() {
                assert(vs[i] == vi[i]);
            }
        }
    }
}

proof fn lemma_rdata_shape(buf: Seq<u8>, t: Type, rdata: Seq<u8>)
    requires
        type_of(type_code(t)) == t,
        rdata_from(buf, t, rdata) is Ok,
    ensures
        match rdata_from(buf, t, rdata)->Ok_0 {
            RDataView::A(o) => o.len() == 4,
            RDataView::AAAA(o) => o.len() == 16,
            RDataView::Raw(c, _) => c != 1 && c != 5 && c != 6 && c != 16 && c != 28,
            _ => true,
        },
{
}

proof fn lemma_records_value_shape(buf: Seq<u8>, rs: Seq<WireRecord>)
    requires
        records_value(buf, rs) is Ok,
        forall|i: int| 0 <= i < rs.len() ==> wire_record_shape(#[trigger] rs[i]),
    ensures
        ({
            let vs = records_value(buf, rs)->Ok_0;
            forall|i: int| 0 <= i < vs.len() ==> record_shape(#[trigger] vs[i])
        }),
        records_value(buf, rs)->Ok_0.len() == rs.len(),
    decreases rs.len(),
{
    if rs.len() > 0 {
        let init = rs.drop_last();
        assert forall|i: int| 0 <= i < init.len() implies wire_record_shape(#[trigger] init[i]) by {
            assert(init[i] == rs[i]);
        }
        lemma_records_value_shape(buf, init);
        let last = rs[rs.len() - 1];
        assert(wire_record_shape(last));
        lemma_rdata_shape(buf, last.r_type, last.rdata);
        let vi = records_value(buf, init)->Ok_0;
        let vs = records_value(buf, rs)->Ok_0;
        assert forall|i: int| 0 <= i < vs.len() implies record_shape(#[trigger] vs[i]) by {
            if i < vi.len() {
                assert(vs[i] == vi[i]);
            }
        }
    }
}

/// A decoded message has the shape that decoding gives: its header codes
/// fit and are canonical, its types and classes are those their codes stand
/// for, addresses have their lengths, and raw data has no dedicated type.
pub proof fn lemma_decoded_shape(buf: Seq<u8>)
    requires
        decode_message(buf) is Ok,
    ensures
        message_shape(decode_message(buf)->Ok_0),
{
    reveal(decode_message);
    let (h, qd, an, ns, ar) = parse_header(buf)->Some_0;
    let (qs, q_end) = parse_questions(buf, 12, qd as nat)->Some_0;
    let (ans, a_end) = parse_records(buf, q_end, an as nat)->Some_0;
    let (nss, n_end) = parse_records(buf, a_end, ns as nat)->Some_0;
    let (ars, _) = parse_records(buf, n_end, ar as nat)->Some_0;
    lemma_parsed_questions_shape(buf, 12, qd as nat);
    lemma_parsed_records_shape(buf, q_end, an as nat);
    lemma_parsed_records_shape(buf, a_end, ns as nat);
    lemma_parsed_records_shape(buf, n_end, ar as nat);
    lemma_questions_value_shape(buf, qs);
    lemma_records_value_shape(buf, ans);
    lemma_records_value_shape(buf, nss);
    lemma_records_value_shape(buf, ars);
}

/// Round trip: a decoded message whose names all have dot-separated pieces
/// of 1 to 63 bytes decodes, once encoded, to itself, pointers or no
/// pointers in the input. (Encoding fails only where a record's data, with
/// its names written out in full, grows past 65535 bytes.)
pub proof fn lemma_round_trip(buf: Seq<u8>, m: MessageView)
    requires
        decode_message(buf) == Ok::<MessageView, MessageError>(m),
        message_names_ok(m),
        encode_message(m) is Ok,
    ensures
        decode_message(encode_message(m)->Ok_0) == Ok::<MessageView, MessageError>(m),
{
    lemma_decoded_shape(buf);
    lemma_encode_decode(m);
}

} // verus!
