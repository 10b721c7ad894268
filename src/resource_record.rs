//! Resource records: the answer, authority and additional sections.
use crate::error::MessageError;
use crate::name::{
    encode_name, encode_str, flatten_to_string, name_at, read_names, resolve_names, text_of,
};
use crate::question::{class_code, Class, Type, type_code};
use crate::text::utf8_string;
use crate::wire::{append_bytes, be32_at, push_u16, push_u32, read_u32, u16_wire, u32_wire};
use vstd::prelude::*;
use vstd::utf8::encode_utf8;

verus! {

broadcast use vstd::array::group_array_axioms;

/// An IPv4 address, as its four bytes in network order.
#[derive(Debug, Clone, Copy, PartialEq, Eq)]
pub struct Ipv4Addr {
    pub octets: [u8; 4],
}

impl Ipv4Addr {
    /// The address `a.b.c.d`.
    pub fn new(a: u8, b: u8, c: u8, d: u8) -> (r: Ipv4Addr)
        ensures
            r@ == seq![a, b, c, d],
    {
        let r = Ipv4Addr { octets: [a, b, c, d] };
        assert(r@ =~= seq![a, b, c, d]);
        r
    }

    /// The four bytes of the address.
    pub fn octets(&self) -> (r: [u8; 4])
        ensures
            r@ == self@,
    {
        self.octets
    }
}

impl View for Ipv4Addr {
    type V = Seq<u8>;

    open spec fn view(&self) -> Seq<u8> {
        self.octets@
    }
}

/// An IPv6 address, as its sixteen bytes in network order.
#[derive(Debug, Clone, Copy, PartialEq, Eq)]
pub struct Ipv6Addr {
    pub octets: [u8; 16],
}

impl Ipv6Addr {
    /// The address with these sixteen bytes.
    pub fn from_octets(octets: [u8; 16]) -> (r: Ipv6Addr)
        ensures
            r@ == octets@,
    {
        Ipv6Addr { octets }
    }

    /// The sixteen bytes of the address.
    pub fn octets(&self) -> (r: [u8; 16])
        ensures
            r@ == self@,
    {
        self.octets
    }
}

impl View for Ipv6Addr {
    type V = Seq<u8>;

    open spec fn view(&self) -> Seq<u8> {
        self.octets@
    }
}

/// The data of a resource record; its variant gives the record's type.
#[derive(Debug, Clone, PartialEq, Eq)]
pub enum RData {
    /// A host address.
    A(Ipv4Addr),
    /// The canonical name for an alias.
    CNAME(String),
    /// The start of a zone of authority: primary name server, responsible
    /// mailbox, serial, refresh, retry, expire and minimum.
    SOA(String, String, u32, u32, u32, u32, u32),
    /// Text.
    TXT(String),
    /// An IPv6 host address.
    AAAA(Ipv6Addr),
    /// Data of any other type, as its type code and its bytes.
    Raw(u16, Vec<u8>),
}

/// Record data as plain values.
pub enum RDataView {
    A(Seq<u8>),
    CNAME(Seq<char>),
    SOA(Seq<char>, Seq<char>, u32, u32, u32, u32, u32),
    TXT(Seq<char>),
    AAAA(Seq<u8>),
    Raw(u16, Seq<u8>),
}

impl View for RData {
    type V = RDataView;

    open spec fn view(&self) -> RDataView {
        match self {
            RData::A(a) => RDataView::A(a@),
            RData::CNAME(s) => RDataView::CNAME(s@),
            RData::SOA(m, r, a, b, c, d, e) => RDataView::SOA(m@, r@, *a, *b, *c, *d, *e),
            RData::TXT(s) => RDataView::TXT(s@),
            RData::AAAA(a) => RDataView::AAAA(a@),
            RData::Raw(t, v) => RDataView::Raw(*t, v@),
        }
    }
}

/// The type code written for record data.
pub open spec fn rdata_code(d: RDataView) -> u16 {
    match d {
        RDataView::A(_) => 1,
        RDataView::CNAME(_) => 5,
        RDataView::SOA(..) => 6,
        RDataView::TXT(_) => 16,
        RDataView::AAAA(_) => 28,
        RDataView::Raw(t, _) => t,
    }
}

/// The wire form of record data.
pub open spec fn rdata_wire(d: RDataView) -> Result<Seq<u8>, MessageError> {
    match d {
        RDataView::A(o) => Ok(o),
        RDataView::CNAME(s) => encode_name(s),
        RDataView::SOA(m, r, serial, refresh, retry, expire, minimum) => match encode_name(m) {
            Err(e) => Err(e),
            Ok(mw) => match encode_name(r) {
                Err(e) => Err(e),
                Ok(rw) => Ok(
                    mw + rw + u32_wire(serial) + u32_wire(refresh) + u32_wire(retry) + u32_wire(
                        expire,
                    ) + u32_wire(minimum),
                ),
            },
        },
        RDataView::TXT(s) => Ok(encode_utf8(s)),
        RDataView::AAAA(o) => Ok(o),
        RDataView::Raw(_, b) => Ok(b),
    }
}

/// The record data of type `t` read from the bytes `rdata`; names in it are
/// resolved against the whole message `buf`.
pub open spec fn rdata_from(buf: Seq<u8>, t: Type, rdata: Seq<u8>) -> Result<
    RDataView,
    MessageError,
> {
    match t {
        Type::A => if rdata.len() >= 4 {
            Ok(RDataView::A(rdata.take(4)))
        } else {
            Err(MessageError::ParsingError)
        },
        Type::CNAME => match name_at(buf, rdata, 0) {
            Err(e) => Err(e),
            Ok((n, _)) => Ok(RDataView::CNAME(n)),
        },
        Type::SOA => match name_at(buf, rdata, 0) {
            Err(e) => Err(e),
            Ok((m, p)) => match name_at(buf, rdata, p) {
                Err(e) => Err(e),
                Ok((r, q)) => if q + 20 > rdata.len() {
                    Err(MessageError::ParsingError)
                } else {
                    Ok(
                        RDataView::SOA(
                            m,
                            r,
                            be32_at(rdata, q),
                            be32_at(rdata, q + 4),
                            be32_at(rdata, q + 8),
                            be32_at(rdata, q + 12),
                            be32_at(rdata, q + 16),
                        ),
                    )
                },
            },
        },
        Type::TXT => match text_of(rdata) {
            Err(e) => Err(e),
            Ok(s) => Ok(RDataView::TXT(s)),
        },
        Type::AAAA => if rdata.len() >= 16 {
            Ok(RDataView::AAAA(rdata.take(16)))
        } else {
            Err(MessageError::ParsingError)
        },
        _ => Ok(RDataView::Raw(type_code(t), rdata)),
    }
}

impl RData {
    /// The type code of the data.
    pub fn as_u16(&self) -> (r: u16)
        ensures
            r == rdata_code(self@),
    {
        match self {
            RData::A(_) => 1,
            RData::CNAME(_) => 5,
            RData::SOA(..) => 6,
            RData::TXT(_) => 16,
            RData::AAAA(_) => 28,
            RData::Raw(t, _) => *t,
        }
    }

    /// Appends the data's wire form; returns the number of bytes written.
    /// Fails, writing nothing, where a name in it cannot be encoded.
    pub fn to_bytes(&self, buf: &mut Vec<u8>) -> (r: Result<usize, MessageError>)
        ensures
            match rdata_wire(self@) {
                Ok(w) => r == Ok::<usize, MessageError>(w.len() as usize) && final(buf)@ == old(
                    buf,
                )@ + w,
                Err(e) => r == Err::<usize, MessageError>(e) && final(buf)@ == old(buf)@,
            },
    {
        let start = buf.len();
        match self {
            RData::Raw(_, v) => {
                append_bytes(buf, v.as_slice());
            },
            RData::A(v4) => {
                let o = v4.octets();
                append_bytes(buf, o.as_slice());
            },
            RData::CNAME(s) => {
                encode_str(s.as_str(), buf)?;
            },
            RData::SOA(mname, rname, serial, refresh, retry, expire, minimum) => {
                let mut scratch: Vec<u8> = Vec::new();
                encode_str(mname.as_str(), &mut scratch)?;
                encode_str(rname.as_str(), &mut scratch)?;
                push_u32(&mut scratch, *serial);
                push_u32(&mut scratch, *refresh);
                push_u32(&mut scratch, *retry);
                push_u32(&mut scratch, *expire);
                push_u32(&mut scratch, *minimum);
                append_bytes(buf, scratch.as_slice());
                proof {
                    let w = rdata_wire(self@)->Ok_0;
                    assert(scratch@ =~= w);
                }
            },
            RData::TXT(s) => {
                append_bytes(buf, s.as_str().as_bytes());
            },
            RData::AAAA(v6) => {
                let o = v6.octets();
                append_bytes(buf, o.as_slice());
            },
        }
        Ok(buf.len() - start)
    }
}

/// A resource record.
#[derive(Debug, Clone, PartialEq, Eq)]
pub struct ResourceRecord {
    /// The dotted domain name the record belongs to.
    pub name: String,
    /// The record's type and data.
    pub data: RData,
    /// The class of the data.
    pub class: Class,
    /// How many seconds the record may be cached.
    pub ttl: u32,
}

/// A resource record as plain values.
pub struct RecordView {
    pub name: Seq<char>,
    pub data: RDataView,
    pub class: Class,
    pub ttl: u32,
}

impl View for ResourceRecord {
    type V = RecordView;

    open spec fn view(&self) -> RecordView {
        RecordView { name: self.name@, data: self.data@, class: self.class, ttl: self.ttl }
    }
}

/// The wire form of a record: name, type code, class code, ttl, the length
/// of the data and the data. Fails with `EncodingError` where the data is
/// longer than 65535 bytes.
pub open spec fn record_wire(r: RecordView) -> Result<Seq<u8>, MessageError> {
    match encode_name(r.name) {
        Err(e) => Err(e),
        Ok(nw) => match rdata_wire(r.data) {
            Err(e) => Err(e),
            Ok(dw) => if dw.len() > 0xffff {
                Err(MessageError::EncodingError)
            } else {
                Ok(
                    nw + u16_wire(rdata_code(r.data)) + u16_wire(class_code(r.class)) + u32_wire(
                        r.ttl,
                    ) + u16_wire(dw.len() as u16) + dw,
                )
            },
        },
    }
}

impl ResourceRecord {
    /// Appends the record's wire form, with its name written out in full;
    /// returns the number of bytes written. Fails, writing nothing, where
    /// its name or data cannot be encoded.
    pub fn to_bytes(&self, buf: &mut Vec<u8>) -> (r: Result<usize, MessageError>)
        ensures
            match record_wire(self@) {
                Ok(w) => r == Ok::<usize, MessageError>(w.len() as usize) && final(buf)@ == old(
                    buf,
                )@ + w,
                Err(e) => r == Err::<usize, MessageError>(e) && final(buf)@ == old(buf)@,
            },
    {
        let mut scratch: Vec<u8> = Vec::new();
        encode_str(self.name.as_str(), &mut scratch)?;
        let ghost nw = scratch@;
        let mut rdata: Vec<u8> = Vec::new();
        let rdlength = self.data.to_bytes(&mut rdata)?;
        if rdlength > 0xffff {
            return Err(MessageError::EncodingError);
        }
        push_u16(&mut scratch, self.data.as_u16());
        self.class.to_bytes(&mut scratch);
        push_u32(&mut scratch, self.ttl);
        push_u16(&mut scratch, rdlength as u16);
        append_bytes(&mut scratch, rdata.as_slice());
        proof {
            let dw = rdata@;
            assert(encode_name(self@.name) == Ok::<Seq<u8>, MessageError>(nw));
            assert(rdata_wire(self@.data) == Ok::<Seq<u8>, MessageError>(dw));
            assert(scratch@ =~= nw + u16_wire(rdata_code(self@.data)) + u16_wire(
                class_code(self@.class),
            ) + u32_wire(self@.ttl) + u16_wire(dw.len() as u16) + dw);
        }
        let start = buf.len();
        append_bytes(buf, scratch.as_slice());
        Ok(buf.len() - start)
    }
}

/// Reads a name at `pos` of `local`, resolves it against the whole message
/// `input` and returns its text and the position after it in `local`.
fn read_name_text(input: &[u8], local: &[u8], pos: usize) -> (r: Result<
    (String, usize),
    MessageError,
>)
    ensures
        match name_at(input@, local@, pos as int) {
            Ok((t, e)) => r matches Ok((s, p)) && s@ == t && p == e,
            Err(e) => r == Err::<(String, usize), MessageError>(e),
        },
{
    let (wire, next) = read_names(local, pos)?;
    let labels = resolve_names(input, &wire)?;
    let text = flatten_to_string(&labels)?;
    Ok((text, next))
}

/// Interprets the data bytes of a record of type `t`; names in it are
/// resolved against the whole message `input`.
pub fn read_rdata(input: &[u8], t: Type, rdata: &[u8]) -> (r: Result<RData, MessageError>)
    ensures
        match rdata_from(input@, t, rdata@) {
            Ok(d) => r matches Ok(v) && v@ == d,
            Err(e) => r == Err::<RData, MessageError>(e),
        },
{
    match t {
        Type::A => {
            if rdata.len() < 4 {
                return Err(MessageError::ParsingError);
            }
            let a = Ipv4Addr::new(rdata[0], rdata[1], rdata[2], rdata[3]);
            assert(a@ =~= rdata@.take(4));
            Ok(RData::A(a))
        },
        Type::CNAME => {
            let (name, _) = read_name_text(input, rdata, 0)?;
            Ok(RData::CNAME(name))
        },
        Type::SOA => {
            let (mname, p) = read_name_text(input, rdata, 0)?;
            let (rname, q) = read_name_text(input, rdata, p)?;
            let (serial, q) = read_u32(rdata, q)?;
            let (refresh, q) = read_u32(rdata, q)?;
            let (retry, q) = read_u32(rdata, q)?;
            let (expire, q) = read_u32(rdata, q)?;
            let (minimum, _) = read_u32(rdata, q)?;
            Ok(RData::SOA(mname, rname, serial, refresh, retry, expire, minimum))
        },
        Type::TXT => match utf8_string(rdata) {
            Some(s) => Ok(RData::TXT(s)),
            None => Err(MessageError::EncodingError),
        },
        Type::AAAA => {
            if rdata.len() < 16 {
                return Err(MessageError::ParsingError);
            }
            let mut o: [u8; 16] = [0u8; 16];
            let mut i: usize = 0;
            while i < 16
                invariant
                    i <= 16,
                    rdata@.len() >= 16,
                    forall|j: int| 0 <= j < i ==> o@[j] == rdata@[j],
                decreases 16 - i,
            {
                o[i] = rdata[i];
                i = i + 1;
            }
            let a = Ipv6Addr::from_octets(o);
            assert(a@ =~= rdata@.take(16));
            Ok(RData::AAAA(a))
        },
        _ => {
            let code = u16::from(t);
            let mut bytes: Vec<u8> = Vec::new();
            append_bytes(&mut bytes, rdata);
            Ok(RData::Raw(code, bytes))
        },
    }
}

} // verus!
