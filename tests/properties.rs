use dns_message::{
    Class, Header, Ipv4Addr, Ipv6Addr, Message, MessageBuilder, MessageError, OpCode, Question,
    QuestionBuilder, RCode, RData, ResourceRecord, ResourceRecordBuilder, Type,
};

fn header_bytes(qd: u8, an: u8) -> Vec<u8> {
    vec![0x12, 0x34, 0x81, 0x80, 0, qd, 0, an, 0, 0, 0, 0]
}

fn encode(message: &Message) -> Result<Vec<u8>, MessageError> {
    let mut buf = Vec::new();
    let n = message.to_bytes(&mut buf)?;
    assert_eq!(n, buf.len());
    Ok(buf)
}

fn round_trip(message: &Message) -> Message {
    let bytes = encode(message).unwrap();
    Message::from_bytes(&bytes).unwrap()
}

#[test]
fn scenario_google_query_keeps_opt_record_raw() {
    let input: &[u8] = &[
        83, 202, 1, 32, 0, 1, 0, 0, 0, 0, 0, 1, 3, b'w', b'w', b'w', 6, b'g', b'o', b'o', b'g',
        b'l', b'e', 3, b'c', b'o', b'm', 0, 0, 1, 0, 1, 0, 0, 41, 16, 0, 0, 0, 0, 0, 0, 12, 0, 10,
        0, 8, 107, 120, 163, 147, 238, 31, 231, 235,
    ];
    let m = Message::from_bytes(input).unwrap();
    assert_eq!(m.header.id, 21450);
    assert!(!m.header.qr);
    assert_eq!(m.header.opcode, OpCode::Query);
    assert!(m.header.rd);
    assert!(m.header.ad);
    assert_eq!(m.questions.len(), 1);
    assert_eq!(m.questions[0].q_name, "www.google.com");
    assert_eq!(m.questions[0].q_type, Type::A);
    assert_eq!(m.questions[0].q_class, Class::IN);
    assert_eq!(m.additional_records.len(), 1);
    assert_eq!(
        m.additional_records[0].data,
        RData::Raw(41, vec![0, 10, 0, 8, 107, 120, 163, 147, 238, 31, 231, 235])
    );
}

#[test]
fn compressed_and_expanded_names_decode_alike() {
    let mut compressed = header_bytes(1, 1);
    compressed.extend_from_slice(&[3, b'w', b'w', b'w', 3, b'e', b'd', b'u', 0, 0, 1, 0, 1]);
    compressed.extend_from_slice(&[0xc0, 12, 0, 1, 0, 1, 0, 0, 2, 0x58, 0, 4, 1, 2, 3, 4]);
    let mut expanded = header_bytes(1, 1);
    expanded.extend_from_slice(&[3, b'w', b'w', b'w', 3, b'e', b'd', b'u', 0, 0, 1, 0, 1]);
    expanded.extend_from_slice(&[3, b'w', b'w', b'w', 3, b'e', b'd', b'u', 0]);
    expanded.extend_from_slice(&[0, 1, 0, 1, 0, 0, 2, 0x58, 0, 4, 1, 2, 3, 4]);
    let a = Message::from_bytes(&compressed).unwrap();
    let b = Message::from_bytes(&expanded).unwrap();
    assert_eq!(a, b);
    assert_eq!(a.answers[0].name, "www.edu");
    assert_eq!(round_trip(&a), a);
}

#[test]
fn pointer_to_itself_is_circular() {
    let mut input = header_bytes(1, 0);
    input.extend_from_slice(&[0xc0, 12, 0, 1, 0, 1]);
    assert_eq!(Message::from_bytes(&input), Err(MessageError::CircularReference(12)));
}

#[test]
fn two_pointer_loop_is_circular() {
    let mut input = header_bytes(1, 0);
    // offset 12: "a" then a pointer to 16; offset 16: a pointer back to 12.
    input.extend_from_slice(&[1, b'a', 0xc0, 16, 0xc0, 12, 0, 1, 0, 1]);
    assert_eq!(Message::from_bytes(&input), Err(MessageError::CircularReference(16)));
}

#[test]
fn cname_chain_in_rdata_resolves() {
    let mut input = header_bytes(1, 2);
    // question "ab.cd" at 12
    input.extend_from_slice(&[2, b'a', b'b', 2, b'c', b'd', 0, 0, 5, 0, 1]);
    // answer 1 at 23: name -> 12, CNAME data "x" + pointer to 15 ("cd")
    input.extend_from_slice(&[0xc0, 12, 0, 5, 0, 1, 0, 0, 0, 9, 0, 4, 1, b'x', 0xc0, 15]);
    // answer 2 at 39: name -> 35 ("x" + pointer 15), CNAME data "y"
    input.extend_from_slice(&[0xc0, 35, 0, 5, 0, 1, 0, 0, 0, 9, 0, 3, 1, b'y', 0]);
    let m = Message::from_bytes(&input).unwrap();
    assert_eq!(m.answers[0].name, "ab.cd");
    assert_eq!(m.answers[0].data, RData::CNAME("x.cd".to_string()));
    assert_eq!(m.answers[1].name, "x.cd");
    assert_eq!(m.answers[1].data, RData::CNAME("y".to_string()));
}

#[test]
fn opcode_sixteen_is_reserved() {
    let m = MessageBuilder::new().opcode(OpCode::Unknown(16)).build();
    let mut buf = vec![7u8];
    assert_eq!(m.to_bytes(&mut buf), Err(MessageError::ReservedOpCode));
    assert_eq!(buf, vec![7u8]);
    assert_eq!(OpCode::Unknown(16).as_u8(), Err(MessageError::ReservedOpCode));
}

#[test]
fn opcode_fifteen_round_trips() {
    let m = MessageBuilder::new().id(9).opcode(OpCode::Unknown(15)).build();
    assert_eq!(OpCode::Unknown(15).as_u8(), Ok(15));
    let back = round_trip(&m);
    assert_eq!(back.header.opcode, OpCode::Unknown(15));
    assert_eq!(back, m);
}

#[test]
fn rcode_wider_than_four_bits_fails() {
    let m = MessageBuilder::new().rcode(RCode::Unknown(16)).build();
    assert_eq!(encode(&m), Err(MessageError::EncodingError));
    assert_eq!(RCode::Unknown(16).as_u8(), 16);
}

#[test]
fn label_of_64_bytes_is_too_long() {
    let name = format!("{}.com", "a".repeat(64));
    let q = QuestionBuilder::new().name(&name).build();
    let mut buf = Vec::new();
    assert_eq!(q.to_bytes(&mut buf), Err(MessageError::NameLengthExceeded(64)));
    assert!(buf.is_empty());
    let m = MessageBuilder::new().question(q).build();
    assert_eq!(encode(&m), Err(MessageError::NameLengthExceeded(64)));
}

#[test]
fn label_of_63_bytes_round_trips() {
    let name = format!("{}.com", "a".repeat(63));
    let q = QuestionBuilder::new().name(&name).build();
    let mut buf = Vec::new();
    assert_eq!(q.to_bytes(&mut buf), Ok(1 + 63 + 1 + 3 + 1 + 4));
    assert_eq!(buf[0], 63);
    let m = MessageBuilder::new().question(q).build();
    assert_eq!(round_trip(&m), m);
}

#[test]
fn names_are_written_without_compression() {
    let q = QuestionBuilder::new().name("www.example.org").q_type(Type::MX).class(Class::CH).build();
    let mut buf = Vec::new();
    assert_eq!(q.to_bytes(&mut buf), Ok(21));
    let mut expected = vec![3, b'w', b'w', b'w', 7];
    expected.extend_from_slice(b"example");
    expected.extend_from_slice(&[3, b'o', b'r', b'g', 0, 0, 15, 0, 3]);
    assert_eq!(buf, expected);
}

#[test]
fn empty_name_writes_an_empty_label_and_the_terminator() {
    let q = QuestionBuilder::new().build();
    let mut buf = Vec::new();
    assert_eq!(q.to_bytes(&mut buf), Ok(6));
    assert_eq!(buf, vec![0, 0, 0, 1, 0, 1]);
}

#[test]
fn header_bits_are_packed_in_order() {
    let m = MessageBuilder::new()
        .id(0xabcd)
        .qr(true)
        .opcode(OpCode::Status)
        .aa(true)
        .tc(false)
        .rd(true)
        .ra(false)
        .ad(true)
        .cd(true)
        .rcode(RCode::Refused)
        .build();
    let mut buf = Vec::new();
    assert_eq!(m.header.to_bytes(&m, &mut buf), Ok(12));
    assert_eq!(buf, vec![0xab, 0xcd, 0x80 | 0x10 | 0x04 | 0x01, 0x20 | 0x10 | 0x05, 0, 0, 0, 0, 0, 0, 0, 0]);
    assert_eq!(round_trip(&m).header, m.header);
}

#[test]
fn ra_and_rd_read_back_independently() {
    let m = MessageBuilder::new().rd(true).ra(false).build();
    let back = round_trip(&m);
    assert!(back.header.rd);
    assert!(!back.header.ra);
    let m = MessageBuilder::new().rd(false).ra(true).build();
    let back = round_trip(&m);
    assert!(!back.header.rd);
    assert!(back.header.ra);
}

#[test]
fn reserved_flag_bit_is_a_parse_error() {
    let mut input = header_bytes(0, 0);
    input[3] |= 0x40;
    assert_eq!(Message::from_bytes(&input), Err(MessageError::ParsingError));
}

#[test]
fn short_input_is_a_parse_error() {
    assert_eq!(Message::from_bytes(&[0u8; 11]), Err(MessageError::ParsingError));
    assert_eq!(Message::from_bytes(&[]), Err(MessageError::ParsingError));
    let mut input = header_bytes(1, 0);
    input.extend_from_slice(&[3, b'w', b'w']);
    assert_eq!(Message::from_bytes(&input), Err(MessageError::ParsingError));
}

#[test]
fn counts_beyond_the_data_are_a_parse_error() {
    let input = header_bytes(0, 1);
    assert_eq!(Message::from_bytes(&input), Err(MessageError::ParsingError));
}

#[test]
fn pointer_past_the_end_is_a_parse_error() {
    let mut input = header_bytes(1, 0);
    input.extend_from_slice(&[0xc0, 200, 0, 1, 0, 1]);
    assert_eq!(Message::from_bytes(&input), Err(MessageError::ParsingError));
}

#[test]
fn short_address_is_a_parse_error() {
    let mut input = header_bytes(0, 1);
    input.extend_from_slice(&[0, 0, 1, 0, 1, 0, 0, 0, 1, 0, 3, 1, 2, 3]);
    assert_eq!(Message::from_bytes(&input), Err(MessageError::ParsingError));
}

#[test]
fn invalid_utf8_text_is_an_encoding_error() {
    let mut input = header_bytes(0, 1);
    input.extend_from_slice(&[0, 0, 16, 0, 1, 0, 0, 0, 1, 0, 2, 0xff, 0xfe]);
    assert_eq!(Message::from_bytes(&input), Err(MessageError::EncodingError));
}

#[test]
fn invalid_utf8_label_is_an_encoding_error() {
    let mut input = header_bytes(1, 0);
    input.extend_from_slice(&[1, 0xff, 0, 0, 1, 0, 1]);
    assert_eq!(Message::from_bytes(&input), Err(MessageError::EncodingError));
}

#[test]
fn utf8_labels_are_decoded() {
    let mut input = header_bytes(1, 0);
    input.extend_from_slice(&[2, 0xc3, 0xa9, 2, b'f', b'r', 0, 0, 1, 0, 1]);
    let m = Message::from_bytes(&input).unwrap();
    assert_eq!(m.questions[0].q_name, "\u{e9}.fr");
    assert_eq!(round_trip(&m), m);
}

#[test]
fn txt_aaaa_soa_and_raw_data_round_trip() {
    let mut v6 = [0u8; 16];
    for (i, b) in v6.iter_mut().enumerate() {
        *b = i as u8 * 3;
    }
    let m = MessageBuilder::new()
        .qr(true)
        .answer(ResourceRecordBuilder::new("t.example", RData::TXT("hello world".to_string())).ttl(60).build())
        .answer(ResourceRecordBuilder::new("six.example", RData::AAAA(Ipv6Addr::from_octets(v6))).build())
        .name_server(
            ResourceRecordBuilder::new(
                "example",
                RData::SOA("ns.example".to_string(), "admin.example".to_string(), 1, 2, 3, 4, 5),
            )
            .class(Class::CH)
            .build(),
        )
        .additional_record(ResourceRecordBuilder::new("mx.example", RData::Raw(15, vec![0, 10, 0])).build())
        .build();
    let back = round_trip(&m);
    assert_eq!(back, m);
    assert_eq!(back.answers[1].data, RData::AAAA(Ipv6Addr::from_octets(v6)));
}

#[test]
fn aaaa_is_read_from_the_record_data() {
    let mut input = header_bytes(0, 1);
    input.extend_from_slice(&[0, 0, 28, 0, 1, 0, 0, 0, 1, 0, 16]);
    let octets: Vec<u8> = (100..116).collect();
    input.extend_from_slice(&octets);
    let m = Message::from_bytes(&input).unwrap();
    let mut expected = [0u8; 16];
    expected.copy_from_slice(&octets);
    assert_eq!(m.answers[0].data, RData::AAAA(Ipv6Addr::from_octets(expected)));
    assert_eq!(m.answers[0].name, "");
}

#[test]
fn record_encoding_has_type_class_ttl_and_length() {
    let r = ResourceRecordBuilder::new("a.b", RData::A(Ipv4Addr::new(10, 0, 0, 1))).ttl(0x01020304).build();
    let mut buf = Vec::new();
    assert_eq!(r.to_bytes(&mut buf), Ok(5 + 10 + 4));
    assert_eq!(
        buf,
        vec![1, b'a', 1, b'b', 0, 0, 1, 0, 1, 1, 2, 3, 4, 0, 4, 10, 0, 0, 1]
    );
    assert_eq!(RData::A(Ipv4Addr::new(10, 0, 0, 1)).as_u16(), 1);
    assert_eq!(RData::Raw(99, vec![]).as_u16(), 99);
}

#[test]
fn rdata_longer_than_the_length_field_fails() {
    let r = ResourceRecord { name: "a".to_string(), data: RData::Raw(99, vec![0; 70000]), class: Class::IN, ttl: 0 };
    let mut buf = Vec::new();
    assert_eq!(r.to_bytes(&mut buf), Err(MessageError::EncodingError));
    assert!(buf.is_empty());
}

#[test]
fn type_and_class_codes() {
    assert_eq!(Type::from(28), Type::AAAA);
    assert_eq!(Type::from(255), Type::STAR);
    assert_eq!(Type::from(41), Type::Unknown(41));
    assert_eq!(u16::from(Type::MAILB), 253);
    assert_eq!(u16::from(Type::Unknown(41)), 41);
    assert_eq!(Class::from(255), Class::STAR);
    assert_eq!(Class::from(4096), Class::Unknown(4096));
    assert_eq!(Type::default(), Type::A);
    assert_eq!(Class::default(), Class::IN);
    assert_eq!(OpCode::default(), OpCode::Query);
    assert_eq!(RCode::default(), RCode::NoError);
    let mut buf = Vec::new();
    assert_eq!(Type::AXFR.to_bytes(&mut buf), 2);
    assert_eq!(Class::HS.to_bytes(&mut buf), 2);
    assert_eq!(buf, vec![0, 252, 0, 4]);
}

#[test]
fn builders_fill_defaults() {
    let q: Question = QuestionBuilder::new().name("x").build();
    assert_eq!(q.q_type, Type::A);
    assert_eq!(q.q_class, Class::IN);
    let r = ResourceRecordBuilder::new("x", RData::TXT("t".to_string())).build();
    assert_eq!(r.class, Class::IN);
    assert_eq!(r.ttl, 0);
    let m = MessageBuilder::new().build();
    let h = Header {
        id: 0,
        qr: false,
        opcode: OpCode::Query,
        aa: false,
        tc: false,
        rd: false,
        ra: false,
        ad: false,
        cd: false,
        rcode: RCode::NoError,
    };
    assert_eq!(m.header, h);
    assert!(m.questions.is_empty() && m.answers.is_empty());
    assert!(m.name_servers.is_empty() && m.additional_records.is_empty());
}

#[test]
fn trailing_bytes_are_ignored() {
    let mut input = header_bytes(0, 0);
    input.extend_from_slice(&[1, 2, 3]);
    let m = Message::from_bytes(&input).unwrap();
    assert_eq!(m.header.id, 0x1234);
    assert_eq!(encode(&m).unwrap(), header_bytes(0, 0));
}

#[test]
fn modify_response_points_addresses_at_local_host() {
    let mut m = MessageBuilder::new()
        .qr(true)
        .question(QuestionBuilder::new().name("a.example").build())
        .answer(ResourceRecordBuilder::new("a.example", RData::A(Ipv4Addr::new(1, 2, 3, 4))).ttl(7).build())
        .answer(ResourceRecordBuilder::new("b.example", RData::CNAME("c.example".to_string())).build())
        .build();
    let before = m.clone();
    dns_message::modify_response(&mut m);
    assert_eq!(m.answers[0].data, RData::A(Ipv4Addr::new(127, 0, 0, 1)));
    assert_eq!(m.answers[0].name, "a.example");
    assert_eq!(m.answers[0].ttl, 7);
    assert_eq!(m.answers[1], before.answers[1]);
    assert_eq!(m.questions, before.questions);
    assert_eq!(m.header, before.header);
}
