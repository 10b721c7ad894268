//! The 12-byte message header: id, flag bits and section counts.
use crate::error::MessageError;
use crate::message::Message;
use crate::wire::{be16, push_u16, read_u16, u16_wire};
use vstd::prelude::*;

verus! {

/// A four-bit field that says what kind of query a message holds.
#[derive(Debug, Clone, Copy, PartialEq, Eq, Structural)]
pub enum OpCode {
    /// A standard query.
    Query,
    /// An inverse query.
    IQuery,
    /// A server status request.
    Status,
    /// Any other value, kept as read.
    Unknown(u8),
}

/// The four-bit response code.
#[derive(Debug, Clone, Copy, PartialEq, Eq, Structural)]
pub enum RCode {
    /// No error condition.
    NoError,
    /// The name server was unable to interpret the query.
    FormatError,
    /// The name server could not process the query.
    ServerFailure,
    /// The domain name in the query does not exist.
    NameError,
    /// The name server does not support this kind of query.
    NotImplemented,
    /// The name server refuses the operation.
    Refused,
    /// Any other value, kept as read.
    Unknown(u8),
}

/// The message header (RFC 1035 and RFC 2535). The section counts are not
/// stored: on the wire they come from the lengths of the message's sections.
#[derive(Debug, Clone, Copy, PartialEq, Eq, Structural)]
pub struct Header {
    /// Identifier chosen by the querier and copied into the reply.
    pub id: u16,
    /// Whether the message is a response.
    pub qr: bool,
    /// The kind of query.
    pub opcode: OpCode,
    /// Authoritative answer.
    pub aa: bool,
    /// Truncation.
    pub tc: bool,
    /// Recursion desired.
    pub rd: bool,
    /// Recursion available.
    pub ra: bool,
    /// Authentic data.
    pub ad: bool,
    /// Checking disabled.
    pub cd: bool,
    /// Response code.
    pub rcode: RCode,
}

/// The opcode that a four-bit wire value stands for.
pub open spec fn opcode_of(n: u8) -> OpCode {
    if n == 0 {
        OpCode::Query
    } else if n == 1 {
        OpCode::IQuery
    } else if n == 2 {
        OpCode::Status
    } else {
        OpCode::Unknown(n)
    }
}

/// The numeric value of an opcode.
pub open spec fn opcode_value(op: OpCode) -> u8 {
    match op {
        OpCode::Query => 0,
        OpCode::IQuery => 1,
        OpCode::Status => 2,
        OpCode::Unknown(n) => n,
    }
}

/// The response code that a four-bit wire value stands for.
pub open spec fn rcode_of(n: u8) -> RCode {
    if n == 0 {
        RCode::NoError
    } else if n == 1 {
        RCode::FormatError
    } else if n == 2 {
        RCode::ServerFailure
    } else if n == 3 {
        RCode::NameError
    } else if n == 4 {
        RCode::NotImplemented
    } else if n == 5 {
        RCode::Refused
    } else {
        RCode::Unknown(n)
    }
}

/// The numeric value of a response code.
pub open spec fn rcode_value(rc: RCode) -> u8 {
    match rc {
        RCode::NoError => 0,
        RCode::FormatError => 1,
        RCode::ServerFailure => 2,
        RCode::NameError => 3,
        RCode::NotImplemented => 4,
        RCode::Refused => 5,
        RCode::Unknown(n) => n,
    }
}

/// A flag as a bit.
pub open spec fn bit(b: bool) -> int {
    if b {
        1
    } else {
        0
    }
}

/// First flag byte: qr, opcode (four bits), aa, tc, rd.
pub open spec fn flags_hi(h: Header) -> u8 {
    (bit(h.qr) * 128 + opcode_value(h.opcode) * 8 + bit(h.aa) * 4 + bit(h.tc) * 2 + bit(
        h.rd,
    )) as u8
}

/// Second flag byte: ra, a reserved zero bit, ad, cd, rcode (four bits).
pub open spec fn flags_lo(h: Header) -> u8 {
    (bit(h.ra) * 128 + bit(h.ad) * 32 + bit(h.cd) * 16 + rcode_value(h.rcode)) as u8
}

/// Whether the opcode and the response code each fit in four bits.
pub open spec fn header_fits(h: Header) -> bool {
    opcode_value(h.opcode) <= 15 && rcode_value(h.rcode) <= 15
}

/// The twelve header bytes for `h` with the given section counts.
pub open spec fn header_wire(h: Header, qd: u16, an: u16, ns: u16, ar: u16) -> Seq<u8> {
    u16_wire(h.id) + seq![flags_hi(h), flags_lo(h)] + u16_wire(qd) + u16_wire(an) + u16_wire(ns)
        + u16_wire(ar)
}

/// Whether the reserved bit of the second flag byte is clear.
pub open spec fn reserved_bit_clear(lo: u8) -> bool {
    (lo / 64) % 2 == 0
}

/// The header read from the two id bytes and the two flag bytes.
pub open spec fn header_from(id_hi: u8, id_lo: u8, hi: u8, lo: u8) -> Header {
    Header {
        id: be16(id_hi, id_lo),
        qr: hi / 128 == 1,
        opcode: opcode_of((hi / 8) % 16),
        aa: (hi / 4) % 2 == 1,
        tc: (hi / 2) % 2 == 1,
        rd: hi % 2 == 1,
        ra: lo / 128 == 1,
        ad: (lo / 32) % 2 == 1,
        cd: (lo / 16) % 2 == 1,
        rcode: rcode_of(lo % 16),
    }
}

/// The header and the four section counts read from the first twelve bytes
/// of `s`, or `None` where they are missing or the reserved bit is set.
pub open spec fn parse_header(s: Seq<u8>) -> Option<(Header, u16, u16, u16, u16)> {
    if s.len() < 12 || !reserved_bit_clear(s[3]) {
        None
    } else {
        Some(
            (
                header_from(s[0], s[1], s[2], s[3]),
                be16(s[4], s[5]),
                be16(s[6], s[7]),
                be16(s[8], s[9]),
                be16(s[10], s[11]),
            ),
        )
    }
}

/// Whether each code of `h` is the one that decoding its value gives back.
pub open spec fn header_canonical(h: Header) -> bool {
    opcode_of(opcode_value(h.opcode)) == h.opcode && rcode_of(rcode_value(h.rcode)) == h.rcode
}

impl OpCode {
    /// The opcode's numeric value; fails with `ReservedOpCode` above 15.
    pub fn as_u8(&self) -> (r: Result<u8, MessageError>)
        ensures
            opcode_value(*self) <= 15 ==> r == Ok::<u8, MessageError>(opcode_value(*self)),
            opcode_value(*self) > 15 ==> r == Err::<u8, MessageError>(
                MessageError::ReservedOpCode,
            ),
    {
        match self {
            OpCode::Query => Ok(0),
            OpCode::IQuery => Ok(1),
            OpCode::Status => Ok(2),
            OpCode::Unknown(opcode) => {
                if *opcode > 0xf {
                    Err(MessageError::ReservedOpCode)
                } else {
                    Ok(*opcode)
                }
            },
        }
    }

    /// The opcode that a four-bit wire value stands for.
    pub fn from_u8(n: u8) -> (r: OpCode)
        ensures
            r == opcode_of(n),
    {
        match n {
            0 => OpCode::Query,
            1 => OpCode::IQuery,
            2 => OpCode::Status,
            _ => OpCode::Unknown(n),
        }
    }
}

impl RCode {
    /// The response code's numeric value.
    pub fn as_u8(&self) -> (r: u8)
        ensures
            r == rcode_value(*self),
    {
        match self {
            RCode::NoError => 0,
            RCode::FormatError => 1,
            RCode::ServerFailure => 2,
            RCode::NameError => 3,
            RCode::NotImplemented => 4,
            RCode::Refused => 5,
            RCode::Unknown(i) => *i,
        }
    }

    /// The response code that a four-bit wire value stands for.
    pub fn from_u8(n: u8) -> (r: RCode)
        ensures
            r == rcode_of(n),
    {
        match n {
            0 => RCode::NoError,
            1 => RCode::FormatError,
            2 => RCode::ServerFailure,
            3 => RCode::NameError,
            4 => RCode::NotImplemented,
            5 => RCode::Refused,
            _ => RCode::Unknown(n),
        }
    }
}

impl Default for OpCode {
    fn default() -> (r: Self)
        ensures
            r == OpCode::Query,
    {
        OpCode::Query
    }
}

impl Default for RCode {
    fn default() -> (r: Self)
        ensures
            r == RCode::NoError,
    {
        RCode::NoError
    }
}

fn flag(b: bool) -> (r: u8)
    ensures
        r == bit(b),
{
    if b {
        1
    } else {
        0
    }
}

impl Header {
    /// Appends the twelve header bytes, with the section counts taken from
    /// the lengths of `message`'s sections. Fails, writing nothing, with
    /// `ReservedOpCode` when the opcode does not fit in four bits, else with
    /// `EncodingError` when the response code does not, or when a section
    /// has more than 65535 entries.
    pub fn to_bytes(&self, message: &Message, buf: &mut Vec<u8>) -> (r: Result<
        usize,
        MessageError,
    >)
        ensures
            ({
                let qd = message.questions@.len();
                let an = message.answers@.len();
                let ns = message.name_servers@.len();
                let ar = message.additional_records@.len();
                &&& opcode_value(self.opcode) > 15 ==> r == Err::<usize, MessageError>(
                    MessageError::ReservedOpCode,
                )
                &&& opcode_value(self.opcode) <= 15 && (rcode_value(self.rcode) > 15 || qd > 0xffff
                    || an > 0xffff || ns > 0xffff || ar > 0xffff) ==> r == Err::<
                    usize,
                    MessageError,
                >(MessageError::EncodingError)
                &&& r is Err ==> final(buf)@ == old(buf)@
                &&& (header_fits(*self) && qd <= 0xffff && an <= 0xffff && ns <= 0xffff && ar
                    <= 0xffff) ==> r == Ok::<usize, MessageError>(12) && final(buf)@ == old(buf)@
                    + header_wire(*self, qd as u16, an as u16, ns as u16, ar as u16)
            }),
    {
        let qd = message.questions.len();
        let an = message.answers.len();
        let ns = message.name_servers.len();
        let ar = message.additional_records.len();
        let opcode = match self.opcode.as_u8() {
            Ok(v) => v,
            Err(e) => return Err(e),
        };
        let rcode = self.rcode.as_u8();
        if rcode > 0xf || qd > 0xffff || an > 0xffff || ns > 0xffff || ar > 0xffff {
            return Err(MessageError::EncodingError);
        }
        let hi: u8 = flag(self.qr) * 128 + opcode * 8 + flag(self.aa) * 4 + flag(self.tc) * 2
            + flag(self.rd);
        let lo: u8 = flag(self.ra) * 128 + flag(self.ad) * 32 + flag(self.cd) * 16 + rcode;
        push_u16(buf, self.id);
        buf.push(hi);
        buf.push(lo);
        push_u16(buf, qd as u16);
        push_u16(buf, an as u16);
        push_u16(buf, ns as u16);
        push_u16(buf, ar as u16);
        assert(buf@ =~= old(buf)@ + header_wire(
            *self,
            qd as u16,
            an as u16,
            ns as u16,
            ar as u16,
        ));
        Ok(12)
    }
}

/// Reads the header and the four section counts from the start of `input`.
/// Fails with `ParsingError` when fewer than twelve bytes are given or the
/// reserved flag bit is set.
pub fn read_header(input: &[u8]) -> (r: Result<(Header, u16, u16, u16, u16), MessageError>)
    ensures
        match parse_header(input@) {
            Some(v) => r == Ok::<(Header, u16, u16, u16, u16), MessageError>(v),
            None => r == Err::<(Header, u16, u16, u16, u16), MessageError>(
                MessageError::ParsingError,
            ),
        },
{
    if input.len() < 12 {
        return Err(MessageError::ParsingError);
    }
    let (id, _) = read_u16(input, 0)?;
    let hi = input[2];
    let lo = input[3];
    if (lo / 64) % 2 != 0 {
        return Err(MessageError::ParsingError);
    }
    let header = Header {
        id,
        qr: hi / 128 == 1,
        opcode: OpCode::from_u8((hi / 8) % 16),
        aa: (hi / 4) % 2 == 1,
        tc: (hi / 2) % 2 == 1,
        rd: hi % 2 == 1,
        ra: lo / 128 == 1,
        ad: (lo / 32) % 2 == 1,
        cd: (lo / 16) % 2 == 1,
        rcode: RCode::from_u8(lo % 16),
    };
    let (qd, _) = read_u16(input, 4)?;
    let (an, _) = read_u16(input, 6)?;
    let (ns, _) = read_u16(input, 8)?;
    let (ar, _) = read_u16(input, 10)?;
    Ok((header, qd, an, ns, ar))
}

/// Decoding the bytes that encoding writes gives back the header and the
/// counts, for a header whose codes fit in four bits and are canonical.
pub proof fn lemma_header_round_trip(h: Header, qd: u16, an: u16, ns: u16, ar: u16)
    requires
        header_fits(h),
        header_canonical(h),
    ensures
        parse_header(header_wire(h, qd, an, ns, ar)) == Some((h, qd, an, ns, ar)),
{
    let w = header_wire(h, qd, an, ns, ar);
    let hi = flags_hi(h);
    let lo = flags_lo(h);
    let op = opcode_value(h.opcode);
    let rc = rcode_value(h.rcode);
    assert(w[2] == hi && w[3] == lo);
    assert(hi / 128 == bit(h.qr) && (hi / 8) % 16 == op && (hi / 4) % 2 == bit(h.aa) && (hi / 2)
        % 2 == bit(h.tc) && hi % 2 == bit(h.rd));
    assert(lo / 128 == bit(h.ra) && (lo / 64) % 2 == 0 && (lo / 32) % 2 == bit(h.ad) && (lo / 16)
        % 2 == bit(h.cd) && lo % 16 == rc);
    crate::wire::lemma_u16_round_trip(h.id);
    assert(be16(w[0], w[1]) == h.id);
    assert(be16(w[4], w[5]) == qd);
    assert(be16(w[6], w[7]) == an);
    assert(be16(w[8], w[9]) == ns);
    assert(be16(w[10], w[11]) == ar);
}

} // verus!
