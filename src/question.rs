//! The question section: a name, the type asked for and the class.
use crate::error::MessageError;
use crate::name::{encode_name, encode_str};
use crate::wire::{push_u16, u16_wire};
use vstd::prelude::*;

verus! {

/// Record types (RFC 1035, RFC 3596).
#[derive(Debug, Clone, Copy, PartialEq, Eq, Structural)]
pub enum Type {
    /// 1: a host address.
    A,
    /// 2: an authoritative name server.
    NS,
    /// 3: a mail destination (obsolete).
    MD,
    /// 4: a mail forwarder (obsolete).
    MF,
    /// 5: the canonical name for an alias.
    CNAME,
    /// 6: the start of a zone of authority.
    SOA,
    /// 7: a mailbox domain name.
    MB,
    /// 8: a mail group member.
    MG,
    /// 9: a mail rename domain name.
    MR,
    /// 10: a null record.
    NULL,
    /// 11: a well known service description.
    WKS,
    /// 12: a domain name pointer.
    PTR,
    /// 13: host information.
    HINFO,
    /// 14: mailbox or mail list information.
    MINFO,
    /// 15: mail exchange.
    MX,
    /// 16: text strings.
    TXT,
    /// 28: an IPv6 host address.
    AAAA,
    /// 252: a request for a transfer of an entire zone.
    AXFR,
    /// 253: a request for mailbox-related records.
    MAILB,
    /// 254: a request for mail agent records.
    MAILA,
    /// 255: a request for all records.
    STAR,
    /// Any other type code, kept as read.
    Unknown(u16),
}

/// Classes (RFC 1035).
#[derive(Debug, Clone, Copy, PartialEq, Eq, Structural)]
pub enum Class {
    /// 1: the Internet.
    IN,
    /// 2: the CSNET class.
    CS,
    /// 3: the CHAOS class.
    CH,
    /// 4: Hesiod.
    HS,
    /// 255: any class.
    STAR,
    /// Any other class code, kept as read.
    Unknown(u16),
}

/// The wire code of a type.
pub open spec fn type_code(t: Type) -> u16 {
    match t {
        Type::A => 1,
        Type::NS => 2,
        Type::MD => 3,
        Type::MF => 4,
        Type::CNAME => 5,
        Type::SOA => 6,
        Type::MB => 7,
        Type::MG => 8,
        Type::MR => 9,
        Type::NULL => 10,
        Type::WKS => 11,
        Type::PTR => 12,
        Type::HINFO => 13,
        Type::MINFO => 14,
        Type::MX => 15,
        Type::TXT => 16,
        Type::AAAA => 28,
        Type::AXFR => 252,
        Type::MAILB => 253,
        Type::MAILA => 254,
        Type::STAR => 255,
        Type::Unknown(i) => i,
    }
}

/// The type that a wire code stands for.
pub open spec fn type_of(c: u16) -> Type {
    if c == 1 {
        Type::A
    } else if c == 2 {
        Type::NS
    } else if c == 3 {
        Type::MD
    } else if c == 4 {
        Type::MF
    } else if c == 5 {
        Type::CNAME
    } else if c == 6 {
        Type::SOA
    } else if c == 7 {
        Type::MB
    } else if c == 8 {
        Type::MG
    } else if c == 9 {
        Type::MR
    } else if c == 10 {
        Type::NULL
    } else if c == 11 {
        Type::WKS
    } else if c == 12 {
        Type::PTR
    } else if c == 13 {
        Type::HINFO
    } else if c == 14 {
        Type::MINFO
    } else if c == 15 {
        Type::MX
    } else if c == 16 {
        Type::TXT
    } else if c == 28 {
        Type::AAAA
    } else if c == 252 {
        Type::AXFR
    } else if c == 253 {
        Type::MAILB
    } else if c == 254 {
        Type::MAILA
    } else if c == 255 {
        Type::STAR
    } else {
        Type::Unknown(c)
    }
}

/// The wire code of a class.
pub open spec fn class_code(c: Class) -> u16 {
    match c {
        Class::IN => 1,
        Class::CS => 2,
        Class::CH => 3,
        Class::HS => 4,
        Class::STAR => 255,
        Class::Unknown(i) => i,
    }
}

/// The class that a wire code stands for.
pub open spec fn class_of(c: u16) -> Class {
    if c == 1 {
        Class::IN
    } else if c == 2 {
        Class::CS
    } else if c == 3 {
        Class::CH
    } else if c == 4 {
        Class::HS
    } else if c == 255 {
        Class::STAR
    } else {
        Class::Unknown(c)
    }
}

impl From<u16> for Type {
    fn from(val: u16) -> (r: Type)
        ensures
            r == type_of(val),
    {
        match val {
            1 => Type::A,
            2 => Type::NS,
            3 => Type::MD,
            4 => Type::MF,
            5 => Type::CNAME,
            6 => Type::SOA,
            7 => Type::MB,
            8 => Type::MG,
            9 => Type::MR,
            10 => Type::NULL,
            11 => Type::WKS,
            12 => Type::PTR,
            13 => Type::HINFO,
            14 => Type::MINFO,
            15 => Type::MX,
            16 => Type::TXT,
            28 => Type::AAAA,
            252 => Type::AXFR,
            253 => Type::MAILB,
            254 => Type::MAILA,
            255 => Type::STAR,
            _ => Type::Unknown(val),
        }
    }
}

impl vstd::std_specs::convert::FromSpecImpl<u16> for Type {
    open spec fn obeys_from_spec() -> bool {
        true
    }

    open spec fn from_spec(v: u16) -> Type {
        type_of(v)
    }
}

impl From<Type> for u16 {
    fn from(t: Type) -> (r: u16)
        ensures
            r == type_code(t),
    {
        match t {
            Type::A => 1,
            Type::NS => 2,
            Type::MD => 3,
            Type::MF => 4,
            Type::CNAME => 5,
            Type::SOA => 6,
            Type::MB => 7,
            Type::MG => 8,
            Type::MR => 9,
            Type::NULL => 10,
            Type::WKS => 11,
            Type::PTR => 12,
            Type::HINFO => 13,
            Type::MINFO => 14,
            Type::MX => 15,
            Type::TXT => 16,
            Type::AAAA => 28,
            Type::AXFR => 252,
            Type::MAILB => 253,
            Type::MAILA => 254,
            Type::STAR => 255,
            Type::Unknown(i) => i,
        }
    }
}

impl vstd::std_specs::convert::FromSpecImpl<Type> for u16 {
    open spec fn obeys_from_spec() -> bool {
        true
    }

    open spec fn from_spec(t: Type) -> u16 {
        type_code(t)
    }
}

impl From<u16> for Class {
    fn from(val: u16) -> (r: Class)
        ensures
            r == class_of(val),
    {
        match val {
            1 => Class::IN,
            2 => Class::CS,
            3 => Class::CH,
            4 => Class::HS,
            255 => Class::STAR,
            _ => Class::Unknown(val),
        }
    }
}

impl vstd::std_specs::convert::FromSpecImpl<u16> for Class {
    open spec fn obeys_from_spec() -> bool {
        true
    }

    open spec fn from_spec(v: u16) -> Class {
        class_of(v)
    }
}

impl Default for Type {
    fn default() -> (r: Self)
        ensures
            r == Type::A,
    {
        Type::A
    }
}

impl Default for Class {
    fn default() -> (r: Self)
        ensures
            r == Class::IN,
    {
        Class::IN
    }
}

impl Type {
    /// Appends the type's two-byte code; returns 2.
    pub fn to_bytes(&self, buf: &mut Vec<u8>) -> (r: usize)
        ensures
            r == 2,
            final(buf)@ == old(buf)@ + u16_wire(type_code(*self)),
    {
        push_u16(buf, u16::from(*self));
        2
    }
}

impl Class {
    /// Appends the class's two-byte code; returns 2.
    pub fn to_bytes(&self, buf: &mut Vec<u8>) -> (r: usize)
        ensures
            r == 2,
            final(buf)@ == old(buf)@ + u16_wire(class_code(*self)),
    {
        let code: u16 = match self {
            Class::IN => 1,
            Class::CS => 2,
            Class::CH => 3,
            Class::HS => 4,
            Class::STAR => 255,
            Class::Unknown(i) => *i,
        };
        push_u16(buf, code);
        2
    }
}

/// The question section entry: what is being asked.
#[derive(Debug, Clone, PartialEq, Eq)]
pub struct Question {
    /// The dotted domain name asked about.
    pub q_name: String,
    /// The type of record asked for.
    pub q_type: Type,
    /// The class asked for.
    pub q_class: Class,
}

/// A question as plain values.
pub struct QuestionView {
    pub q_name: Seq<char>,
    pub q_type: Type,
    pub q_class: Class,
}

impl View for Question {
    type V = QuestionView;

    open spec fn view(&self) -> QuestionView {
        QuestionView { q_name: self.q_name@, q_type: self.q_type, q_class: self.q_class }
    }
}

/// The wire form of a question: its name, type code and class code.
pub open spec fn question_wire(q: QuestionView) -> Result<Seq<u8>, MessageError> {
    match encode_name(q.q_name) {
        Err(e) => Err(e),
        Ok(n) => Ok(n + u16_wire(type_code(q.q_type)) + u16_wire(class_code(q.q_class))),
    }
}

impl Question {
    /// Appends the question's wire form; returns the number of bytes
    /// written. Fails, writing nothing, where its name cannot be encoded.
    pub fn to_bytes(&self, buf: &mut Vec<u8>) -> (r: Result<usize, MessageError>)
        ensures
            match question_wire(self@) {
                Ok(w) => r == Ok::<usize, MessageError>(w.len() as usize) && final(buf)@ == old(
                    buf,
                )@ + w,
                Err(e) => r == Err::<usize, MessageError>(e) && final(buf)@ == old(buf)@,
            },
    {
        let start = buf.len();
        encode_str(self.q_name.as_str(), buf)?;
        self.q_type.to_bytes(buf);
        self.q_class.to_bytes(buf);
        proof {
            let w = question_wire(self@)->Ok_0;
            assert(final(buf)@ =~= old(buf)@ + w);
        }
        Ok(buf.len() - start)
    }
}

} // verus!
